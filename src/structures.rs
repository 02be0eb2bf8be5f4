//! The structural model: a root holds packages and modules, a package holds
//! packages and modules, a module holds classes and functions.
use vstd::prelude::*;

verus! {

/// The model of a string list: the text of each element.
pub open spec fn texts(v: Seq<String>) -> Seq<Seq<char>> {
    v.map_values(|x: String| x@)
}

pub open spec fn opt_text(o: Option<String>) -> Option<Seq<char>> {
    match o {
        Some(x) => Some(x@),
        None => None,
    }
}

/// A function or a method.
#[derive(Clone, Debug, PartialEq, Eq)]
pub struct Function {
    pub name: String,
    pub description: Option<String>,
    pub parameters: Vec<String>,
}

pub struct FunctionModel {
    pub name: Seq<char>,
    pub description: Option<Seq<char>>,
    pub parameters: Seq<Seq<char>>,
}

impl View for Function {
    type V = FunctionModel;

    open spec fn view(&self) -> FunctionModel {
        FunctionModel {
            name: self.name@,
            description: opt_text(self.description),
            parameters: texts(self.parameters@),
        }
    }
}

pub open spec fn functions_view(v: Seq<Function>) -> Seq<FunctionModel> {
    v.map_values(|f: Function| f@)
}

/// A class, with the names of its parents and its methods.
#[derive(Clone, Debug, PartialEq, Eq)]
pub struct Class {
    pub name: String,
    pub description: Option<String>,
    pub parents: Vec<String>,
    pub methods: Vec<Function>,
}

pub struct ClassModel {
    pub name: Seq<char>,
    pub description: Option<Seq<char>>,
    pub parents: Seq<Seq<char>>,
    pub methods: Seq<FunctionModel>,
}

impl View for Class {
    type V = ClassModel;

    open spec fn view(&self) -> ClassModel {
        ClassModel {
            name: self.name@,
            description: opt_text(self.description),
            parents: texts(self.parents@),
            methods: functions_view(self.methods@),
        }
    }
}

/// A module: one source file.
#[derive(Clone, Debug, PartialEq, Eq)]
pub struct Module {
    pub name: String,
    pub description: Option<String>,
    pub functions: Vec<Function>,
    pub classes: Vec<Class>,
}

/// A package: a directory that holds the package marker file.
#[derive(Debug, PartialEq, Eq)]
pub struct Package {
    pub name: String,
    pub packages: Vec<Package>,
    pub modules: Vec<Module>,
}

/// The project root.
#[derive(Debug, PartialEq, Eq)]
pub struct Root {
    pub name: String,
    pub description: Option<String>,
    pub packages: Vec<Package>,
    pub modules: Vec<Module>,
}

/// A configuration file's content.
#[derive(Debug, PartialEq, Eq)]
pub struct Config {
    pub root: Root,
}

} // verus!
