use x_ray::cli::{conf_type_from_name, ConfType};
use x_ray::generate::GenAction;
use x_ray::parser::ParseError;
use x_ray::project::{module_name_of, is_module_file_name, SourceDir, SourceFile};
use x_ray::structures::{Class, Function, Module, Package, Root};

fn table() -> toml::map::Map<String, toml::Value> {
    toml::map::Map::new()
}

fn strings(v: &[String]) -> toml::Value {
    toml::Value::Array(v.iter().map(|s| toml::Value::String(s.clone())).collect())
}

fn function_value(f: &Function) -> toml::Value {
    let mut t = table();
    t.insert("name".to_string(), toml::Value::String(f.name.clone()));
    if let Some(d) = &f.description {
        t.insert("description".to_string(), toml::Value::String(d.clone()));
    }
    t.insert("parameters".to_string(), strings(&f.parameters));
    toml::Value::Table(t)
}

fn class_value(c: &Class) -> toml::Value {
    let mut t = table();
    t.insert("name".to_string(), toml::Value::String(c.name.clone()));
    if let Some(d) = &c.description {
        t.insert("description".to_string(), toml::Value::String(d.clone()));
    }
    t.insert("methods".to_string(), toml::Value::Array(c.methods.iter().map(function_value).collect()));
    toml::Value::Table(t)
}

fn module_value(m: &Module) -> toml::Value {
    let mut t = table();
    t.insert("name".to_string(), toml::Value::String(m.name.clone()));
    if let Some(d) = &m.description {
        t.insert("description".to_string(), toml::Value::String(d.clone()));
    }
    t.insert("functions".to_string(), toml::Value::Array(m.functions.iter().map(function_value).collect()));
    t.insert("classes".to_string(), toml::Value::Array(m.classes.iter().map(class_value).collect()));
    toml::Value::Table(t)
}

fn package_value(p: &Package) -> toml::Value {
    let mut t = table();
    t.insert("name".to_string(), toml::Value::String(p.name.clone()));
    t.insert("modules".to_string(), toml::Value::Array(p.modules.iter().map(module_value).collect()));
    t.insert("packages".to_string(), toml::Value::Array(p.packages.iter().map(package_value).collect()));
    toml::Value::Table(t)
}

fn root_toml(r: &Root) -> String {
    let mut t = table();
    t.insert("name".to_string(), toml::Value::String(r.name.clone()));
    if let Some(d) = &r.description {
        t.insert("description".to_string(), toml::Value::String(d.clone()));
    }
    t.insert("packages".to_string(), toml::Value::Array(r.packages.iter().map(package_value).collect()));
    t.insert("modules".to_string(), toml::Value::Array(r.modules.iter().map(module_value).collect()));
    let mut config = table();
    config.insert("root".to_string(), toml::Value::Table(t));
    toml::to_string(&toml::Value::Table(config)).unwrap()
}

fn file(name: &str, content: &str) -> SourceFile {
    SourceFile { name: name.to_string(), content: content.as_bytes().to_vec() }
}

#[test]
fn test_src_main() {
    let main_py = "\"\"\"\nThis is the main module.\n\"\"\"\n\n\ndef main():\n    \"\"\"\n    Main function\n    \"\"\"\n    pass\n";
    let tree = SourceDir {
        name: "tests/test_input/src".to_string(),
        files: vec![file("main.py", main_py)],
        dirs: Vec::new(),
    };
    let actual_output_str = root_toml(&x_ray::parse(&tree).unwrap());
    let exepected_output_str =
r#"[root]
name = "tests/test_input/src"
packages = []

[[root.modules]]
classes = []
description = "This is the main module."
name = "main"

[[root.modules.functions]]
description = "Main function"
name = "main"
parameters = []
"#;
    assert_eq!(actual_output_str, exepected_output_str);
}

#[test]
fn module_files_and_names() {
    assert!(is_module_file_name("main.py"));
    assert!(!is_module_file_name("__init__.py"));
    assert!(!is_module_file_name("notes.txt"));
    assert!(!is_module_file_name("py"));
    assert_eq!(module_name_of("main.py"), "main");
    assert_eq!(module_name_of("a.b.py"), "a.b");
    assert_eq!(module_name_of("tool.v2.py"), "tool.v2");
}

#[test]
fn packages_are_directories_with_marker() {
    let pkg = SourceDir {
        name: "animals".to_string(),
        files: vec![file("__init__.py", ""), file("dog.py", "def bark(self):\n    pass\n")],
        dirs: vec![SourceDir {
            name: "inner".to_string(),
            files: vec![file("__init__.py", "")],
            dirs: Vec::new(),
        }],
    };
    let plain = SourceDir {
        name: "docs".to_string(),
        files: vec![file("conf.py", "x = 1\n")],
        dirs: Vec::new(),
    };
    let tree = SourceDir {
        name: "proj".to_string(),
        files: vec![file("README.md", "text"), file("main.py", "import os\n")],
        dirs: vec![plain, pkg],
    };
    let root = x_ray::parse(&tree).unwrap();
    assert_eq!(root.name, "proj");
    assert_eq!(root.description, None);
    assert_eq!(root.modules.len(), 1);
    assert_eq!(root.modules[0].name, "main");
    assert_eq!(root.packages.len(), 1);
    let p = &root.packages[0];
    assert_eq!(p.name, "animals");
    assert_eq!(p.modules.len(), 1);
    assert_eq!(p.modules[0].name, "dog");
    assert_eq!(p.modules[0].functions[0].name, "bark");
    assert_eq!(p.packages.len(), 1);
    assert_eq!(p.packages[0].name, "inner");
}

#[test]
fn tree_with_malformed_module_fails() {
    let tree = SourceDir {
        name: "proj".to_string(),
        files: vec![SourceFile { name: "bad.py".to_string(), content: vec![105, 109, 112, 111, 114, 116, 32, 0xff, 10] }],
        dirs: Vec::new(),
    };
    assert_eq!(x_ray::parse(&tree).unwrap_err(), ParseError::Malformed { offset: 7 });
    let ignored = SourceDir {
        name: "proj".to_string(),
        files: vec![SourceFile { name: "bad.txt".to_string(), content: vec![0xff] }],
        dirs: Vec::new(),
    };
    assert!(x_ray::parse(&ignored).is_ok());
}

fn sample_root() -> Root {
    let display = Function {
        name: "display".to_string(),
        description: Some("This is the display function.".to_string()),
        parameters: vec!["msg".to_string()],
    };
    let init = Function {
        name: "__init__".to_string(),
        description: Some("Init method.".to_string()),
        parameters: vec!["self".to_string()],
    };
    let animal = Class {
        name: "Dog".to_string(),
        description: Some("This is the dog class.".to_string()),
        parents: vec!["Animal".to_string()],
        methods: vec![init],
    };
    let module = Module {
        name: "zoo".to_string(),
        description: Some("The zoo module.".to_string()),
        functions: vec![display],
        classes: vec![animal],
    };
    let inner = Module { name: "cage".to_string(), description: None, functions: Vec::new(), classes: Vec::new() };
    Root {
        name: "proj".to_string(),
        description: None,
        packages: vec![Package { name: "pets".to_string(), packages: Vec::new(), modules: vec![inner] }],
        modules: vec![module],
    }
}

#[test]
fn generation_plan_order() {
    let root = sample_root();
    let actions = x_ray::gen(&root);
    assert_eq!(actions.len(), 3);
    match &actions[0] {
        GenAction::WriteModule { path, file, .. } => {
            assert!(path.is_empty());
            assert_eq!(file, "zoo.py");
        }
        other => panic!("unexpected {:?}", other),
    }
    assert_eq!(actions[1], GenAction::CreatePackage { path: vec!["pets".to_string()] });
    assert_eq!(
        actions[2],
        GenAction::WriteModule { path: vec!["pets".to_string()], file: "cage.py".to_string(), content: String::new() }
    );
}

#[test]
fn round_trip_through_generated_source() {
    let root = sample_root();
    let module = &root.modules[0];
    let text = x_ray::generate::module_source(module);
    let parsed = x_ray::project::parse_module("zoo".to_string(), text.as_bytes()).unwrap();
    assert_eq!(&parsed, module);
}

#[test]
fn conf_type_names() {
    assert_eq!(conf_type_from_name("yaml"), ConfType::Yaml);
    assert_eq!(conf_type_from_name("toml"), ConfType::Toml);
    assert_eq!(conf_type_from_name("json"), ConfType::Toml);
}
