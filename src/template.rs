//! Skeleton source text for the parts of the model, rendered with rustache.
use vstd::prelude::*;
use vstd::string::StringExecFns;
use crate::structures::{Class, ClassModel, Function, FunctionModel, texts};

verus! {

/// The text that rustache renders from a template and the text and flag values
/// given to it.
pub uninterp spec fn rendered(
    template: Seq<char>,
    text_values: Seq<(Seq<char>, Seq<char>)>,
    flag_values: Seq<(Seq<char>, bool)>,
) -> Seq<char>;

pub open spec fn pairs_view(v: Seq<(String, String)>) -> Seq<(Seq<char>, Seq<char>)> {
    v.map_values(|x: (String, String)| (x.0@, x.1@))
}

pub open spec fn flags_view(v: Seq<(String, bool)>) -> Seq<(Seq<char>, bool)> {
    v.map_values(|x: (String, bool)| (x.0@, x.1))
}

pub open spec fn text_keys(v: Seq<(String, String)>) -> Seq<Seq<char>> {
    v.map_values(|x: (String, String)| x.0@)
}

pub open spec fn flag_keys(v: Seq<(String, bool)>) -> Seq<Seq<char>> {
    v.map_values(|x: (String, bool)| x.0@)
}

/// The library's four templates, each with the keys of its value tags (given
/// text) and of its sections (given flags). None holds a partial, a comment or
/// an empty tag.
pub open spec fn known_template(
    template: Seq<char>,
    text_keys: Seq<Seq<char>>,
    flag_keys: Seq<Seq<char>>,
) -> bool {
    ||| template == module_desc_template_text() && text_keys == seq!["module_desc"@] && flag_keys
        == Seq::<Seq<char>>::empty()
    ||| template == function_template_text() && text_keys == seq![
        "parameters"@,
        "func_name"@,
        "func_desc"@,
    ] && flag_keys == seq!["func_desc_bool"@]
    ||| template == method_template_text() && text_keys == seq![
        "method_parameters"@,
        "method_name"@,
        "method_desc"@,
    ] && flag_keys == seq!["method_desc_bool"@]
    ||| template == class_template_text() && text_keys == seq![
        "class_name"@,
        "class_desc"@,
        "class_inheritance"@,
    ] && flag_keys == seq!["class_desc_bool"@, "class_inheritance_bool"@]
}

/// Relies on rustache's `Render::render` for a `HashBuilder` that holds the given
/// text and flag values. On these templates, whose tags are value tags given
/// text and sections given flags, it returns `Ok` and writes UTF-8 text to the
/// in-memory buffer; what it writes depends on the template and the values alone.
#[verifier::external_body]
fn render(template: &str, text_values: &Vec<(String, String)>, flag_values: &Vec<(String, bool)>) -> (r: Option<String>)
    requires
        known_template(template@, text_keys(text_values@), flag_keys(flag_values@)),
    ensures
        r is Some,
        r matches Some(t) ==> t@ == rendered(
            template@,
            pairs_view(text_values@),
            flags_view(flag_values@),
        ),
{
    let mut data = rustache::HashBuilder::new();
    for (key, value) in text_values.iter() {
        data = data.insert(key.clone(), value.clone());
    }
    for (key, value) in flag_values.iter() {
        data = data.insert(key.clone(), *value);
    }
    let mut out = std::io::Cursor::new(Vec::new());
    match rustache::Render::render(&data, template, &mut out) {
        Ok(()) => String::from_utf8(out.into_inner()).ok(),
        Err(_) => None,
    }
}

/// Parameters written out, separated by `, `.
pub open spec fn joined(params: Seq<Seq<char>>) -> Seq<char>
    decreases params.len(),
{
    if params.len() == 0 {
        seq![]
    } else if params.len() == 1 {
        params[0]
    } else {
        joined(params.drop_last()) + ", "@ + params.last()
    }
}

/// Writes the parameters out, separated by `, `.
pub fn join_parameters(params: &Vec<String>) -> (r: String)
    ensures
        r@ == joined(texts(params@)),
{
    let mut out = String::new();
    let mut k: usize = 0;
    while k < params.len()
        invariant
            k <= params@.len(),
            out@ == joined(texts(params@).take(k as int)),
        decreases params@.len() - k,
    {
        proof {
            assert(texts(params@).take(k + 1).drop_last() =~= texts(params@).take(k as int));
        }
        if k != 0 {
            out.append(", ");
        }
        out.append(params[k].as_str());
        k = k + 1;
    }
    assert(texts(params@).take(k as int) =~= texts(params@));
    out
}

pub open spec fn desc_text(d: Option<Seq<char>>) -> Seq<char> {
    match d {
        Some(t) => t,
        None => seq![],
    }
}

fn desc_value(d: &Option<String>) -> (r: (String, bool))
    ensures
        r.0@ == desc_text(crate::structures::opt_text(*d)),
        r.1 == d is Some,
{
    match d {
        Some(t) => (t.clone(), true),
        None => (String::new(), false),
    }
}

pub open spec fn module_desc_template_text() -> Seq<char> {
    "\n\"\"\"\n{{module_desc}}\n\"\"\"\n"@
}

/// The module doc-string block.
pub fn module_desc_template(description: &String) -> (r: String)
    ensures
        r@ == rendered(
            module_desc_template_text(),
            seq![("module_desc"@, description@)],
            seq![],
        ),
{
    let text_values = vec![(String::from_str("module_desc"), description.clone())];
    let flag_values: Vec<(String, bool)> = Vec::new();
    proof {
        assert(pairs_view(text_values@) =~= seq![("module_desc"@, description@)]);
        assert(flags_view(flag_values@) =~= seq![]);
        assert(text_keys(text_values@) =~= seq!["module_desc"@]);
        assert(flag_keys(flag_values@) =~= Seq::<Seq<char>>::empty());
    }
    match render("\n\"\"\"\n{{module_desc}}\n\"\"\"\n", &text_values, &flag_values) {
        Some(t) => t,
        None => String::new(),
    }
}

pub open spec fn function_template_text() -> Seq<char> {
    "\ndef {{func_name}}({{parameters}}):\n    {{#func_desc_bool}}\"\"\"\n    {{func_desc}}\n    \"\"\"{{/func_desc_bool}}\n    pass\n"@
}

/// The values that the function template is rendered with.
pub open spec fn function_texts(f: FunctionModel) -> Seq<(Seq<char>, Seq<char>)> {
    seq![
        ("parameters"@, joined(f.parameters)),
        ("func_name"@, f.name),
        ("func_desc"@, desc_text(f.description)),
    ]
}

pub open spec fn function_flags(f: FunctionModel) -> Seq<(Seq<char>, bool)> {
    seq![("func_desc_bool"@, f.description is Some)]
}

pub open spec fn function_text(f: FunctionModel) -> Seq<char> {
    rendered(function_template_text(), function_texts(f), function_flags(f))
}

/// A top-level function's skeleton: its header, its doc-string, `pass`.
pub fn function_template(function: &Function) -> (r: String)
    ensures
        r@ == function_text(function@),
{
    let (desc, has_desc) = desc_value(&function.description);
    let text_values = vec![
        (String::from_str("parameters"), join_parameters(&function.parameters)),
        (String::from_str("func_name"), function.name.clone()),
        (String::from_str("func_desc"), desc),
    ];
    let flag_values = vec![(String::from_str("func_desc_bool"), has_desc)];
    proof {
        assert(pairs_view(text_values@) =~= function_texts(function@));
        assert(flags_view(flag_values@) =~= function_flags(function@));
        assert(text_keys(text_values@) =~= seq!["parameters"@, "func_name"@, "func_desc"@]);
        assert(flag_keys(flag_values@) =~= seq!["func_desc_bool"@]);
    }
    let r = render(
        "\ndef {{func_name}}({{parameters}}):\n    {{#func_desc_bool}}\"\"\"\n    {{func_desc}}\n    \"\"\"{{/func_desc_bool}}\n    pass\n",
        &text_values,
        &flag_values,
    );
    match r {
        Some(t) => t,
        None => String::new(),
    }
}

pub open spec fn method_template_text() -> Seq<char> {
    "\n    def {{ method_name }}({{method_parameters}}):\n        {{#method_desc_bool}}\"\"\"\n        {{ method_desc }}\n        \"\"\"{{/method_desc_bool}}\n        pass\n"@
}

pub open spec fn method_texts(f: FunctionModel) -> Seq<(Seq<char>, Seq<char>)> {
    seq![
        ("method_parameters"@, joined(f.parameters)),
        ("method_name"@, f.name),
        ("method_desc"@, desc_text(f.description)),
    ]
}

pub open spec fn method_flags(f: FunctionModel) -> Seq<(Seq<char>, bool)> {
    seq![("method_desc_bool"@, f.description is Some)]
}

pub open spec fn method_text(f: FunctionModel) -> Seq<char> {
    rendered(method_template_text(), method_texts(f), method_flags(f))
}

/// A method's skeleton, indented inside its class.
pub fn method_template(method: &Function) -> (r: String)
    ensures
        r@ == method_text(method@),
{
    let (desc, has_desc) = desc_value(&method.description);
    let text_values = vec![
        (String::from_str("method_parameters"), join_parameters(&method.parameters)),
        (String::from_str("method_name"), method.name.clone()),
        (String::from_str("method_desc"), desc),
    ];
    let flag_values = vec![(String::from_str("method_desc_bool"), has_desc)];
    proof {
        assert(pairs_view(text_values@) =~= method_texts(method@));
        assert(flags_view(flag_values@) =~= method_flags(method@));
        assert(text_keys(text_values@) =~= seq![
            "method_parameters"@,
            "method_name"@,
            "method_desc"@,
        ]);
        assert(flag_keys(flag_values@) =~= seq!["method_desc_bool"@]);
    }
    let r = render(
        "\n    def {{ method_name }}({{method_parameters}}):\n        {{#method_desc_bool}}\"\"\"\n        {{ method_desc }}\n        \"\"\"{{/method_desc_bool}}\n        pass\n",
        &text_values,
        &flag_values,
    );
    match r {
        Some(t) => t,
        None => String::new(),
    }
}

pub open spec fn class_template_text() -> Seq<char> {
    "\nclass {{ class_name }}{{#class_inheritance_bool}}({{ class_inheritance }}){{/class_inheritance_bool}}:\n    {{#class_desc_bool}}\"\"\"\n    {{ class_desc }}\n    \"\"\"{{/class_desc_bool}}\n"@
}

pub open spec fn class_texts(c: ClassModel) -> Seq<(Seq<char>, Seq<char>)> {
    seq![
        ("class_name"@, c.name),
        ("class_desc"@, desc_text(c.description)),
        ("class_inheritance"@, joined(c.parents)),
    ]
}

pub open spec fn class_flags(c: ClassModel) -> Seq<(Seq<char>, bool)> {
    seq![("class_desc_bool"@, c.description is Some), ("class_inheritance_bool"@, c.parents.len() > 0)]
}

/// The methods' skeletons, one after the other.
pub open spec fn methods_text(ms: Seq<FunctionModel>) -> Seq<char>
    decreases ms.len(),
{
    if ms.len() == 0 {
        seq![]
    } else {
        methods_text(ms.drop_last()) + method_text(ms.last())
    }
}

pub open spec fn class_text(c: ClassModel) -> Seq<char> {
    rendered(class_template_text(), class_texts(c), class_flags(c)) + methods_text(c.methods)
}

/// A class's skeleton: its header with its parents, its doc-string, then its
/// methods.
pub fn class_template(class: &Class) -> (r: String)
    ensures
        r@ == class_text(class@),
{
    let (desc, has_desc) = desc_value(&class.description);
    let text_values = vec![
        (String::from_str("class_name"), class.name.clone()),
        (String::from_str("class_desc"), desc),
        (String::from_str("class_inheritance"), join_parameters(&class.parents)),
    ];
    let flag_values = vec![
        (String::from_str("class_desc_bool"), has_desc),
        (String::from_str("class_inheritance_bool"), class.parents.len() > 0),
    ];
    proof {
        assert(pairs_view(text_values@) =~= class_texts(class@));
        assert(flags_view(flag_values@) =~= class_flags(class@));
        assert(text_keys(text_values@) =~= seq!["class_name"@, "class_desc"@, "class_inheritance"@]);
        assert(flag_keys(flag_values@) =~= seq!["class_desc_bool"@, "class_inheritance_bool"@]);
    }
    let head_text = render(
        "\nclass {{ class_name }}{{#class_inheritance_bool}}({{ class_inheritance }}){{/class_inheritance_bool}}:\n    {{#class_desc_bool}}\"\"\"\n    {{ class_desc }}\n    \"\"\"{{/class_desc_bool}}\n",
        &text_values,
        &flag_values,
    );
    let mut out = match head_text {
        Some(t) => t,
        None => String::new(),
    };
    let ghost head = out@;
    let mut k: usize = 0;
    while k < class.methods.len()
        invariant
            k <= class.methods@.len(),
            out@ == head + methods_text(crate::structures::functions_view(class.methods@).take(k as int)),
        decreases class.methods@.len() - k,
    {
        let m = method_template(&class.methods[k]);
        proof {
            let ms = crate::structures::functions_view(class.methods@);
            assert(ms.take(k + 1).drop_last() =~= ms.take(k as int));
            assert(ms.take(k + 1).last() == class.methods@[k as int]@);
        }
        out.append(m.as_str());
        k = k + 1;
    }
    assert(crate::structures::functions_view(class.methods@).take(k as int) =~= crate::structures::functions_view(class.methods@));
    out
}

} // verus!
