//! The settings that the command line gives.
use vstd::prelude::*;
use vstd::string::StrSliceExecFns;

verus! {

/// The format of a configuration file.
#[derive(Clone, Copy, Debug, PartialEq, Eq)]
pub enum ConfType {
    Toml,
    Yaml,
}

/// What the command line asks for.
#[derive(Clone, Debug, PartialEq, Eq)]
pub struct CliConf {
    pub skip_validations: bool,
    pub conf_file: Option<String>,
    pub conf_type: ConfType,
    pub parse: bool,
    pub parse_dir: Option<String>,
    pub gen_dir: Option<String>,
}

/// The configuration format named on the command line: `yaml` names YAML, and
/// anything else leaves the default, TOML.
pub fn conf_type_from_name(name: &str) -> (r: ConfType)
    ensures
        r == (if name@ == seq!['y', 'a', 'm', 'l'] {
            ConfType::Yaml
        } else {
            ConfType::Toml
        }),
{
    if name.unicode_len() != 4 {
        return ConfType::Toml;
    }
    if name.get_char(0) == 'y' && name.get_char(1) == 'a' && name.get_char(2) == 'm'
        && name.get_char(3) == 'l' {
        assert(name@ =~= seq!['y', 'a', 'm', 'l']);
        ConfType::Yaml
    } else {
        assert(name@[0] != 'y' || name@[1] != 'a' || name@[2] != 'm' || name@[3] != 'l');
        ConfType::Toml
    }
}

} // verus!
