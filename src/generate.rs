//! What generating skeleton source from the model does: which package
//! directories to create and which module files to write, with what text.
use vstd::prelude::*;
use crate::project::ModuleModel;
use crate::structures::{Module, Package, Root, texts};
use crate::template::{
    class_template, class_text, function_template, function_text, module_desc_template,
    module_desc_template_text, rendered,
};

verus! {

/// One step of generation.
#[derive(Debug, PartialEq, Eq)]
pub enum GenAction {
    /// Create the package directory at `path`, with its marker file.
    CreatePackage { path: Vec<String> },
    /// Write `content` to the file named `file` in the directory at `path`.
    WriteModule { path: Vec<String>, file: String, content: String },
}

pub enum ActionModel {
    CreatePackage { path: Seq<Seq<char>> },
    WriteModule { path: Seq<Seq<char>>, file: Seq<char>, content: Seq<char> },
}

impl View for GenAction {
    type V = ActionModel;

    open spec fn view(&self) -> ActionModel {
        match self {
            GenAction::CreatePackage { path } => ActionModel::CreatePackage { path: texts(path@) },
            GenAction::WriteModule { path, file, content } => ActionModel::WriteModule {
                path: texts(path@),
                file: file@,
                content: content@,
            },
        }
    }
}

pub open spec fn actions_view(v: Seq<GenAction>) -> Seq<ActionModel> {
    v.map_values(|a: GenAction| a@)
}

pub open spec fn classes_text(m: ModuleModel, i: int) -> Seq<char>
    decreases i,
{
    if i <= 0 {
        seq![]
    } else {
        classes_text(m, i - 1) + class_text(m.classes[i - 1])
    }
}

pub open spec fn functions_text(m: ModuleModel, i: int) -> Seq<char>
    decreases i,
{
    if i <= 0 {
        seq![]
    } else {
        functions_text(m, i - 1) + function_text(m.functions[i - 1])
    }
}

/// A module's source: its doc-string block, its classes, then its functions.
pub open spec fn module_text(m: ModuleModel) -> Seq<char> {
    (match m.description {
        Some(d) => rendered(module_desc_template_text(), seq![("module_desc"@, d)], seq![]),
        None => seq![],
    }) + classes_text(m, m.classes.len() as int) + functions_text(m, m.functions.len() as int)
}

/// The source text of a module.
pub fn module_source(module: &Module) -> (r: String)
    ensures
        r@ == module_text(module@),
{
    let mut content = match &module.description {
        Some(d) => module_desc_template(d),
        None => String::new(),
    };
    let ghost head = content@;
    let mut k: usize = 0;
    while k < module.classes.len()
        invariant
            k <= module.classes@.len(),
            content@ == head + classes_text(module@, k as int),
        decreases module.classes@.len() - k,
    {
        let c = class_template(&module.classes[k]);
        content.append(c.as_str());
        k = k + 1;
    }
    let ghost mid = content@;
    let mut j: usize = 0;
    while j < module.functions.len()
        invariant
            j <= module.functions@.len(),
            content@ == mid + functions_text(module@, j as int),
        decreases module.functions@.len() - j,
    {
        let f = function_template(&module.functions[j]);
        content.append(f.as_str());
        j = j + 1;
    }
    content
}

pub open spec fn module_file(name: Seq<char>) -> Seq<char> {
    name + ".py"@
}

/// Writing the first `i` modules into the directory at `path`.
pub open spec fn module_actions(ms: Seq<Module>, path: Seq<Seq<char>>, i: int) -> Seq<ActionModel>
    decreases i,
{
    if i <= 0 || i > ms.len() {
        seq![]
    } else {
        module_actions(ms, path, i - 1) + seq![
            ActionModel::WriteModule {
                path,
                file: module_file(ms[i - 1].name@),
                content: module_text(ms[i - 1]@),
            },
        ]
    }
}

/// Generating a package under `path`: its directory, its packages, its modules.
pub open spec fn package_actions(p: Package, path: Seq<Seq<char>>) -> Seq<ActionModel>
    decreases p, 0nat,
{
    let here = path.push(p.name@);
    seq![ActionModel::CreatePackage { path: here }] + packages_actions(
        p.packages@,
        here,
        p.packages@.len() as int,
    ) + module_actions(p.modules@, here, p.modules@.len() as int)
}

/// Generating the first `i` packages under `path`.
pub open spec fn packages_actions(ps: Seq<Package>, path: Seq<Seq<char>>, i: int) -> Seq<ActionModel>
    decreases ps, i,
{
    if i <= 0 || i > ps.len() {
        seq![]
    } else {
        packages_actions(ps, path, i - 1) + package_actions(ps[i - 1], path)
    }
}

/// Generating a project: the root's modules, then its packages.
pub open spec fn root_actions(r: Root) -> Seq<ActionModel> {
    module_actions(r.modules@, seq![], r.modules@.len() as int) + packages_actions(
        r.packages@,
        seq![],
        r.packages@.len() as int,
    )
}

fn copy_path(path: &Vec<String>) -> (r: Vec<String>)
    ensures
        texts(r@) == texts(path@),
{
    let mut out: Vec<String> = Vec::new();
    let mut k: usize = 0;
    while k < path.len()
        invariant
            k <= path@.len(),
            texts(out@) == texts(path@).take(k as int),
        decreases path@.len() - k,
    {
        proof {
            assert(texts(path@).take(k + 1) =~= texts(path@).take(k as int).push(path@[k as int]@));
        }
        let x = path[k].clone();
        proof {
            assert(texts(out@.push(x)) =~= texts(out@).push(x@));
        }
        out.push(x);
        k = k + 1;
    }
    assert(texts(path@).take(k as int) =~= texts(path@));
    out
}

/// Writing each module, in order, into the directory at `path`.
pub fn generate_module_src(modules: &Vec<Module>, path: &Vec<String>) -> (r: Vec<GenAction>)
    ensures
        actions_view(r@) == module_actions(
            modules@,
            texts(path@),
            modules@.len() as int,
        ),
{
    let mut out: Vec<GenAction> = Vec::new();
    let mut k: usize = 0;
    while k < modules.len()
        invariant
            k <= modules@.len(),
            actions_view(out@) == module_actions(modules@, texts(path@), k as int),
        decreases modules@.len() - k,
    {
        let m = &modules[k];
        let content = module_source(m);
        let mut file = m.name.clone();
        file.append(".py");
        let a = GenAction::WriteModule { path: copy_path(path), file, content };
        proof {
            assert(actions_view(out@.push(a)) =~= actions_view(out@).push(a@));
        }
        out.push(a);
        k = k + 1;
    }
    out
}

fn generate_package(p: &Package, path: &Vec<String>) -> (r: Vec<GenAction>)
    ensures
        actions_view(r@) == package_actions(*p, texts(path@)),
    decreases p, 0nat,
{
    let mut here = copy_path(path);
    let name = p.name.clone();
    proof {
        assert(texts(here@.push(name)) =~= texts(path@).push(p.name@));
    }
    here.push(name);
    let mut out: Vec<GenAction> = Vec::new();
    let create = GenAction::CreatePackage { path: copy_path(&here) };
    out.push(create);
    let mut nested = generate_package_src(&p.packages, &here);
    let mut modules = generate_module_src(&p.modules, &here);
    let ghost v1 = out@;
    let ghost v2 = nested@;
    let ghost v3 = modules@;
    out.append(&mut nested);
    out.append(&mut modules);
    proof {
        assert(actions_view(out@) =~= actions_view(v1) + actions_view(v2) + actions_view(v3));
        assert(actions_view(v1) =~= seq![ActionModel::CreatePackage { path: texts(here@) }]);
    }
    out
}

/// Generating each package, in order, under `path`.
pub fn generate_package_src(ps: &Vec<Package>, path: &Vec<String>) -> (r: Vec<GenAction>)
    ensures
        actions_view(r@) == packages_actions(
            ps@,
            texts(path@),
            ps@.len() as int,
        ),
    decreases ps@, 1nat,
{
    let mut out: Vec<GenAction> = Vec::new();
    let mut k: usize = 0;
    while k < ps.len()
        invariant
            k <= ps@.len(),
            actions_view(out@) == packages_actions(ps@, texts(path@), k as int),
        decreases ps@.len() - k,
    {
        let mut more = generate_package(&ps[k], path);
        let ghost v1 = out@;
        let ghost v2 = more@;
        out.append(&mut more);
        proof {
            assert(actions_view(out@) =~= actions_view(v1) + actions_view(v2));
        }
        k = k + 1;
    }
    out
}

/// Generation: the root's module files, then each package in turn with its
/// directory, its packages and its module files.
pub fn generate(root: &Root) -> (r: Vec<GenAction>)
    ensures
        actions_view(r@) == root_actions(*root),
{
    let top: Vec<String> = Vec::new();
    assert(texts(top@) =~= seq![]);
    let mut out = generate_module_src(&root.modules, &top);
    let mut more = generate_package_src(&root.packages, &top);
    let ghost v1 = out@;
    let ghost v2 = more@;
    out.append(&mut more);
    proof {
        assert(actions_view(out@) =~= actions_view(v1) + actions_view(v2));
    }
    out
}

} // verus!
