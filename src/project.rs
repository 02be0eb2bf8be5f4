//! Folding parsed items into the structural model, and building the model of a
//! project from its source tree.
use vstd::prelude::*;
use vstd::string::StrSliceExecFns;
use crate::grammar::{RawItem, module_items};
use crate::parser::{
    Item, ItemKind, ItemModel, ParseError, all_decoded, item_model, item_ok, items_view, parse,
};
use crate::structures::{
    Class, ClassModel, Function, FunctionModel, Module, Package, functions_view, opt_text,
};

verus! {

/// The model of a module.
pub struct ModuleModel {
    pub name: Seq<char>,
    pub description: Option<Seq<char>>,
    pub functions: Seq<FunctionModel>,
    pub classes: Seq<ClassModel>,
}

impl View for Module {
    type V = ModuleModel;

    open spec fn view(&self) -> ModuleModel {
        ModuleModel {
            name: self.name@,
            description: opt_text(self.description),
            functions: functions_view(self.functions@),
            classes: self.classes@.map_values(|c: Class| c@),
        }
    }
}

/// The functions among the items, in order.
pub open spec fn fold_functions(items: Seq<ItemModel>) -> Seq<FunctionModel>
    decreases items.len(),
{
    if items.len() == 0 {
        seq![]
    } else {
        fold_functions(items.drop_last()) + match items.last() {
            ItemModel::Function { func } => seq![func],
            _ => seq![],
        }
    }
}

/// The classes among the items, in order.
pub open spec fn fold_classes(items: Seq<ItemModel>) -> Seq<ClassModel>
    decreases items.len(),
{
    if items.len() == 0 {
        seq![]
    } else {
        fold_classes(items.drop_last()) + match items.last() {
            ItemModel::Class { name, description, parents, methods } => seq![
                ClassModel { name, description, parents, methods },
            ],
            _ => seq![],
        }
    }
}

/// The description of the last module doc-string item, if any.
pub open spec fn fold_description(items: Seq<ItemModel>) -> Option<Seq<char>>
    decreases items.len(),
{
    if items.len() == 0 {
        None
    } else {
        match items.last() {
            ItemModel::Module { description } => description,
            _ => fold_description(items.drop_last()),
        }
    }
}

pub open spec fn module_model(name: Seq<char>, items: Seq<ItemModel>) -> ModuleModel {
    ModuleModel {
        name,
        description: fold_description(items),
        functions: fold_functions(items),
        classes: fold_classes(items),
    }
}

/// Folds the items of one source file into a module: its doc-string, its
/// functions and its classes; imports, shebangs and code lines are left out.
pub fn module_from_items(name: String, items: Vec<Item>) -> (m: Module)
    ensures
        m@ == module_model(name@, items_view(items@)),
{
    let ghost all = items_view(items@);
    let mut items = items;
    let ghost orig = items@;
    let mut functions: Vec<Function> = Vec::new();
    let mut classes: Vec<Class> = Vec::new();
    let mut description: Option<String> = None;
    let mut k: usize = 0;
    let n = items.len();
    while items.len() > 0
        invariant
            n == all.len(),
            k + items@.len() == n,
            items@ == orig.skip(k as int),
            all == items_view(orig),
            functions_view(functions@) == fold_functions(all.take(k as int)),
            classes@.map_values(|c: Class| c@) == fold_classes(all.take(k as int)),
            opt_text(description) == fold_description(all.take(k as int)),
        decreases items@.len(),
    {
        let item = items.remove(0);
        let ghost before = all.take(k as int);
        proof {
            assert(item@ == all[k as int]);
            assert(all.take(k + 1).drop_last() =~= before);
            assert(all.take(k + 1).last() == all[k as int]);
        }
        match item.node {
            ItemKind::Function { name, description: d, parameters } => {
                let f = Function { name, description: d, parameters };
                proof {
                    assert(functions_view(functions@.push(f)) =~= functions_view(functions@)
                        + seq![f@]);
                }
                functions.push(f);
            },
            ItemKind::Class { name, description: d, parents, methods } => {
                let c = Class { name, description: d, parents, methods };
                proof {
                    assert(classes@.push(c).map_values(|c: Class| c@) =~= classes@.map_values(
                        |c: Class| c@,
                    ) + seq![c@]);
                }
                classes.push(c);
            },
            ItemKind::Module { description: d } => {
                description = d;
            },
            _ => {},
        }
        proof {
            assert(fold_functions(all.take(k + 1)) =~= fold_functions(before) + match all[k as int] {
                ItemModel::Function { func } => seq![func],
                _ => seq![],
            });
            assert(fold_classes(all.take(k + 1)) =~= fold_classes(before) + match all[k as int] {
                ItemModel::Class { name, description, parents, methods } => seq![
                    ClassModel { name, description, parents, methods },
                ],
                _ => seq![],
            });
            assert(items@ =~= orig.skip(k + 1));
        }
        k = k + 1;
    }
    proof {
        assert(all.take(n as int) =~= all);
    }
    Module { name, description, functions, classes }
}

/// Parses one source file and folds its items into a module named `name`.
pub fn parse_module(name: String, source: &[u8]) -> (r: Result<Module, ParseError>)
    ensures
        match r {
            Ok(m) => (forall|k: int|
                0 <= k < module_items(source@).len() ==> item_ok(
                    source@,
                    #[trigger] module_items(source@)[k],
                )) && m@ == module_model(
                name@,
                module_items(source@).map_values(|it: RawItem| item_model(source@, it)),
            ),
            Err(e) => all_decoded(source@, module_items(source@), Err(e)),
        },
{
    match parse(source) {
        Ok(items) => Ok(module_from_items(name, items)),
        Err(e) => Err(e),
    }
}

/// A source file: its name and its bytes.
pub struct SourceFile {
    pub name: String,
    pub content: Vec<u8>,
}

/// A directory of a project: its name, its files and its subdirectories.
pub struct SourceDir {
    pub name: String,
    pub files: Vec<SourceFile>,
    pub dirs: Vec<SourceDir>,
}

/// The name of the file that marks a directory as a package.
pub open spec fn init_file_name() -> Seq<char> {
    seq!['_', '_', 'i', 'n', 'i', 't', '_', '_', '.', 'p', 'y']
}

pub open spec fn source_extension() -> Seq<char> {
    seq!['.', 'p', 'y']
}

/// A file that holds a module: a source file other than the package marker.
pub open spec fn is_module_file(n: Seq<char>) -> bool {
    n.len() >= 3 && n.subrange(n.len() - 3, n.len() as int) == source_extension() && n
        != init_file_name()
}

/// A module's name: its file name without the `.py` extension.
pub open spec fn module_name(n: Seq<char>) -> Seq<char> {
    if n.len() >= 3 && n.subrange(n.len() - 3, n.len() as int) == source_extension() {
        n.subrange(0, n.len() - 3)
    } else {
        n
    }
}

pub open spec fn is_package_dir(d: SourceDir) -> bool {
    exists|k: int| 0 <= k < d.files@.len() && (#[trigger] d.files@[k]).name@ == init_file_name()
}

/// `m` is the module that file `f` holds.
pub open spec fn module_of_file(f: SourceFile, m: Module) -> bool {
    let raws = module_items(f.content@);
    &&& forall|k: int| 0 <= k < raws.len() ==> item_ok(f.content@, #[trigger] raws[k])
    &&& m@ == module_model(
        module_name(f.name@),
        raws.map_values(|it: RawItem| item_model(f.content@, it)),
    )
}

/// `ms` are the modules of the first `i` files, in order.
pub open spec fn modules_of(files: Seq<SourceFile>, ms: Seq<Module>, i: int) -> bool
    decreases i,
{
    if i <= 0 {
        ms.len() == 0
    } else if is_module_file(files[i - 1].name@) {
        ms.len() > 0 && module_of_file(files[i - 1], ms.last()) && modules_of(
            files,
            ms.drop_last(),
            i - 1,
        )
    } else {
        modules_of(files, ms, i - 1)
    }
}

/// `p` is the package that directory `d` holds.
pub open spec fn package_of(d: SourceDir, p: Package) -> bool
    decreases d, 0nat,
{
    &&& p.name@ == d.name@
    &&& modules_of(d.files@, p.modules@, d.files@.len() as int)
    &&& packages_of(d.dirs@, p.packages@, d.dirs@.len() as int)
}

/// `ps` are the packages of the first `i` directories, in order.
pub open spec fn packages_of(ds: Seq<SourceDir>, ps: Seq<Package>, i: int) -> bool
    decreases ds, i,
{
    if i <= 0 || i > ds.len() {
        i <= 0 && ps.len() == 0
    } else if is_package_dir(ds[i - 1]) {
        ps.len() > 0 && package_of(ds[i - 1], ps.last()) && packages_of(ds, ps.drop_last(), i - 1)
    } else {
        packages_of(ds, ps, i - 1)
    }
}

/// A file parses, unless it is not a module file and so is not read.
pub open spec fn file_ok(f: SourceFile) -> bool {
    is_module_file(f.name@) ==> forall|k: int|
        0 <= k < module_items(f.content@).len() ==> item_ok(
            f.content@,
            #[trigger] module_items(f.content@)[k],
        )
}

/// Every module file of the directory and of its packages parses.
pub open spec fn dir_ok(d: SourceDir) -> bool
    decreases d, 0nat,
{
    &&& forall|k: int| 0 <= k < d.files@.len() ==> file_ok(#[trigger] d.files@[k])
    &&& dirs_ok(d.dirs@, d.dirs@.len() as int)
}

pub open spec fn dirs_ok(ds: Seq<SourceDir>, i: int) -> bool
    decreases ds, i,
{
    if i <= 0 || i > ds.len() {
        true
    } else {
        (is_package_dir(ds[i - 1]) ==> dir_ok(ds[i - 1])) && dirs_ok(ds, i - 1)
    }
}

fn name_is(n: &str, expected: &[char]) -> (r: bool)
    ensures
        r == (n@ == expected@),
{
    let len = n.unicode_len();
    if len != expected.len() {
        return false;
    }
    let mut k: usize = 0;
    while k < len
        invariant
            k <= len,
            len == n@.len(),
            len == expected@.len(),
            forall|j: int| 0 <= j < k ==> n@[j] == expected@[j],
        decreases len - k,
    {
        if n.get_char(k) != expected[k] {
            return false;
        }
        k = k + 1;
    }
    assert(n@ =~= expected@);
    true
}

fn is_init_file(n: &str) -> (r: bool)
    ensures
        r == (n@ == init_file_name()),
{
    let marker: [char; 11] = ['_', '_', 'i', 'n', 'i', 't', '_', '_', '.', 'p', 'y'];
    assert(marker@ =~= init_file_name());
    name_is(n, marker.as_slice())
}

/// Whether a file name is that of a module file (see `is_module_file`).
pub fn is_module_file_name(n: &str) -> (r: bool)
    ensures
        r == is_module_file(n@),
{
    has_extension(n) && !is_init_file(n)
}

fn has_extension(n: &str) -> (r: bool)
    ensures
        r == (n@.len() >= 3 && n@.subrange(n@.len() - 3, n@.len() as int) == source_extension()),
{
    let len = n.unicode_len();
    if len < 3 {
        return false;
    }
    let ext = n.get_char(len - 3) == '.' && n.get_char(len - 2) == 'p' && n.get_char(len - 1)
        == 'y';
    if ext {
        assert(n@.subrange(len - 3, len as int) =~= source_extension());
    } else {
        assert(n@.subrange(len - 3, len as int)[0] == n@[len - 3]);
        assert(n@.subrange(len - 3, len as int)[1] == n@[len - 2]);
        assert(n@.subrange(len - 3, len as int)[2] == n@[len - 1]);
    }
    ext
}

/// A module's name from its file name (see `module_name`).
pub fn module_name_of(n: &str) -> (r: String)
    ensures
        r@ == module_name(n@),
{
    if has_extension(n) {
        let len = n.unicode_len();
        n.substring_char(0, len - 3).to_owned()
    } else {
        n.to_owned()
    }
}

/// Whether a directory holds the package marker file.
pub fn is_package(d: &SourceDir) -> (r: bool)
    ensures
        r == is_package_dir(*d),
{
    let mut k: usize = 0;
    while k < d.files.len()
        invariant
            k <= d.files@.len(),
            forall|j: int| 0 <= j < k ==> (#[trigger] d.files@[j]).name@ != init_file_name(),
        decreases d.files@.len() - k,
    {
        if is_init_file(d.files[k].name.as_str()) {
            return true;
        }
        k = k + 1;
    }
    false
}

/// The modules of the module files among `files`, in order.
fn parse_modules(files: &Vec<SourceFile>) -> (r: Result<Vec<Module>, ParseError>)
    ensures
        match r {
            Ok(ms) => modules_of(files@, ms@, files@.len() as int) && forall|k: int|
                0 <= k < files@.len() ==> file_ok(#[trigger] files@[k]),
            Err(e) => (e is Malformed) && exists|k: int|
                0 <= k < files@.len() && !file_ok(#[trigger] files@[k]),
        },
{
    let mut out: Vec<Module> = Vec::new();
    let mut k: usize = 0;
    while k < files.len()
        invariant
            k <= files@.len(),
            modules_of(files@, out@, k as int),
            forall|j: int| 0 <= j < k ==> file_ok(#[trigger] files@[j]),
        decreases files@.len() - k,
    {
        let f = &files[k];
        if is_module_file_name(f.name.as_str()) {
            let name = module_name_of(f.name.as_str());
            match parse_module(name, f.content.as_slice()) {
                Ok(m) => {
                    proof {
                        assert(out@.push(m).drop_last() =~= out@);
                    }
                    out.push(m);
                },
                Err(e) => {
                    proof {
                        let raws = module_items(f.content@);
                        let j = choose|j: int|
                            0 <= j < raws.len() && !item_ok(f.content@, #[trigger] raws[j]);
                        assert(!file_ok(files@[k as int]));
                    }
                    return Err(e);
                },
            }
        }
        k = k + 1;
    }
    Ok(out)
}

/// The package that a directory holds: its modules and, in order, the packages
/// of its subdirectories that hold the package marker file.
pub fn parse_package(d: &SourceDir) -> (r: Result<Package, ParseError>)
    ensures
        match r {
            Ok(p) => package_of(*d, p) && dir_ok(*d),
            Err(e) => (e is Malformed) && !dir_ok(*d),
        },
    decreases d, 0nat,
{
    let modules = parse_modules(&d.files)?;
    let packages = parse_packages(&d.dirs)?;
    Ok(Package { name: d.name.clone(), packages, modules })
}

/// The packages among the directories, in order.
fn parse_packages(ds: &Vec<SourceDir>) -> (r: Result<Vec<Package>, ParseError>)
    ensures
        match r {
            Ok(ps) => packages_of(ds@, ps@, ds@.len() as int) && dirs_ok(ds@, ds@.len() as int),
            Err(e) => (e is Malformed) && !dirs_ok(ds@, ds@.len() as int),
        },
    decreases ds@, 1nat,
{
    let mut out: Vec<Package> = Vec::new();
    let mut k: usize = 0;
    while k < ds.len()
        invariant
            k <= ds@.len(),
            packages_of(ds@, out@, k as int),
            dirs_ok(ds@, k as int),
        decreases ds@.len() - k,
    {
        if is_package(&ds[k]) {
            match parse_package(&ds[k]) {
                Ok(p) => {
                    proof {
                        assert(out@.push(p).drop_last() =~= out@);
                    }
                    out.push(p);
                },
                Err(e) => {
                    proof {
                        lemma_dirs_ok_prefix(ds@, k as int, ds@.len() as int);
                    }
                    return Err(e);
                },
            }
        }
        k = k + 1;
    }
    Ok(out)
}

proof fn lemma_dirs_ok_prefix(ds: Seq<SourceDir>, i: int, j: int)
    requires
        0 <= i < j <= ds.len(),
        is_package_dir(ds[i]),
        !dir_ok(ds[i]),
    ensures
        !dirs_ok(ds, j),
    decreases j - i,
{
    if j > i + 1 {
        lemma_dirs_ok_prefix(ds, i, j - 1);
    }
}

} // verus!
