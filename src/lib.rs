//! Structural skeleton extraction for indentation-delimited source text: a
//! parser that reads packages, modules, classes, functions, parameters and
//! doc-strings out of source, and a generator that writes skeleton source back
//! from the same model.
use vstd::prelude::*;

pub mod block;
pub mod cli;
pub mod generate;
pub mod grammar;
pub mod laws;
pub mod lexical;
pub mod parser;
pub mod project;
pub mod scan;
pub mod structures;
pub mod template;
pub mod text;
pub mod utf8_edges;

use crate::generate::{GenAction, actions_view, root_actions};
use crate::parser::ParseError;
use crate::project::{SourceDir, dir_ok, modules_of, packages_of};
use crate::structures::Root;

verus! {

/// Parses a project from its source tree: the root's modules and, in order, the
/// packages among its subdirectories, each with its own modules and packages.
/// Fails with the offset of text that is not UTF-8 in one of its module files.
pub fn parse(tree: &SourceDir) -> (r: Result<Root, ParseError>)
    ensures
        match r {
            Ok(root) => {
                &&& root.name@ == tree.name@
                &&& root.description is None
                &&& modules_of(tree.files@, root.modules@, tree.files@.len() as int)
                &&& packages_of(tree.dirs@, root.packages@, tree.dirs@.len() as int)
                &&& dir_ok(*tree)
            },
            Err(e) => (e is Malformed) && !dir_ok(*tree),
        },
{
    let p = crate::project::parse_package(tree)?;
    Ok(Root { name: p.name, description: None, packages: p.packages, modules: p.modules })
}

/// Generates skeleton source for a project (see `generate::generate`).
pub fn gen(root: &Root) -> (r: Vec<GenAction>)
    ensures
        actions_view(r@) == root_actions(*root),
{
    crate::generate::generate(root)
}

} // verus!
