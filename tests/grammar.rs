use x_ray::block::scan_block;
use x_ray::parser::{items, item_class, item_fn, parse, shebang, Item, ItemKind, ParseError};
use x_ray::structures::Function;

#[test]
fn any_input_is_read_to_its_end() {
    let inputs: Vec<&[u8]> = vec![
        b"", b"\n", b"\n\n\n", b"   ", b"x", b"\"\"\"unterminated", b"def (", b"class :\n",
        b"from import\n", b"@deco", b"\tdef f():", b"import", b"#!",
    ];
    for input in inputs {
        let r = items(input);
        let (consumed, _) = r.unwrap();
        assert_eq!(consumed, input.len());
        assert!(parse(input).is_ok());
    }
}

#[test]
fn code_line_at_end_without_newline() {
    let (_, v) = items(b"x = 1").unwrap();
    assert_eq!(v, vec![Item { node: ItemKind::Code { code: "x = 1".to_string() } }]);
}

#[test]
fn block_ends_at_reference_indent() {
    let text = b"\n     a\n     b\n    c\n";
    assert_eq!(scan_block(text, 0, 4), 15);
    let deeper_blank = b"\n     a\n   \n     b\n";
    assert_eq!(scan_block(deeper_blank, 0, 4), deeper_blank.len());
    let empty_body = b"\nx\n";
    assert_eq!(scan_block(empty_body, 0, 0), 1);
}

#[test]
fn module_doc_only_as_first_statement() {
    let first = parse(b"\"\"\"Doc.\"\"\"\nimport os\n").unwrap();
    assert_eq!(first[0], Item { node: ItemKind::Module { description: Some("Doc.".to_string()) } });
    let later = parse(b"import os\n\"\"\"Doc.\"\"\"\n").unwrap();
    assert_eq!(later[0], Item { node: ItemKind::Module { description: None } });
    assert_eq!(later[2], Item { node: ItemKind::Code { code: "\"\"\"Doc.\"\"\"".to_string() } });
}

#[test]
fn class_dog_with_parent_animal() {
    let r = item_class(b"class Dog(Animal):\n    def bark(self):\n        pass\n").unwrap().1;
    match r.node {
        ItemKind::Class { name, parents, methods, .. } => {
            assert_eq!(name, "Dog");
            assert_eq!(parents, vec!["Animal".to_string()]);
            assert_eq!(methods[0].name, "bark");
        }
        _ => panic!("not a class"),
    }
}

#[test]
fn class_with_several_parents_and_no_parents() {
    let r = item_class(b"class A( B , C ):\n    pass\n").unwrap().1;
    match r.node {
        ItemKind::Class { parents, methods, .. } => {
            assert_eq!(parents, vec!["B".to_string(), "C".to_string()]);
            assert!(methods.is_empty());
        }
        _ => panic!("not a class"),
    }
    let r = item_class(b"class A():\n    pass\n").unwrap().1;
    match r.node {
        ItemKind::Class { parents, .. } => assert!(parents.is_empty()),
        _ => panic!("not a class"),
    }
}

#[test]
fn decorators_do_not_change_the_function() {
    let plain = item_fn(b"    def hello(args):\n        pass\n").unwrap();
    let decorated = item_fn(b"    @first\n    @second(1)\n    def hello(args):\n        pass\n").unwrap();
    assert_eq!(plain.1, decorated.1);
    assert_eq!(
        plain.1,
        Item {
            node: ItemKind::Function {
                name: "hello".to_string(),
                description: None,
                parameters: vec!["args".to_string()],
            }
        }
    );
}

#[test]
fn indented_decorated_method_in_class() {
    let r = item_class(b"class A:\n    @property\n    def size(self):\n        return 1\n").unwrap().1;
    match r.node {
        ItemKind::Class { methods, .. } => assert_eq!(
            methods,
            vec![Function { name: "size".to_string(), description: None, parameters: vec!["self".to_string()] }]
        ),
        _ => panic!("not a class"),
    }
}

#[test]
fn mismatch_and_malformed_errors() {
    assert_eq!(shebang(b"import os\n").unwrap_err(), ParseError::Mismatch);
    assert_eq!(item_fn(b"x = 1\n").unwrap_err(), ParseError::Mismatch);
    assert_eq!(parse(b"import \xff\n").unwrap_err(), ParseError::Malformed { offset: 7 });
    assert_eq!(parse(b"x = 1\n# \xc3\n").unwrap_err(), ParseError::Malformed { offset: 8 });
    assert_eq!(parse(b"import ab\xe2\x82\n").unwrap_err(), ParseError::Malformed { offset: 9 });
}

#[test]
fn non_ascii_text_is_decoded() {
    let v = parse("import caf\u{e9}\n\"\"\"x\"\"\"\n".as_bytes()).unwrap();
    assert_eq!(v[1], Item { node: ItemKind::Import { path: "caf\u{e9}".to_string() } });
    let d = x_ray::parser::doc_string("  '''\u{a0} text \u{3000}'''".as_bytes()).unwrap().1;
    assert_eq!(d, "text");
}

#[test]
fn import_from_all_dots() {
    let r = x_ray::parser::item_import_from(b"from . import x\n").unwrap().1;
    assert_eq!(r, Item { node: ItemKind::ImportFrom { module: String::new(), name: "x".to_string(), level: 1 } });
}

#[test]
fn body_starts_after_header_line() {
    let v = parse(b"def f():\n \t\nx = 1\n").unwrap();
    assert_eq!(
        v,
        vec![
            Item { node: ItemKind::Module { description: None } },
            Item { node: ItemKind::Function { name: "f".to_string(), description: None, parameters: vec![] } },
            Item { node: ItemKind::Code { code: "x = 1".to_string() } },
        ]
    );
    let v = parse(b"def f():\nx = 1\n").unwrap();
    assert_eq!(v[2], Item { node: ItemKind::Code { code: "x = 1".to_string() } });
    let v = parse(b"  def f():\n   a\n   b\n  x = 1\n").unwrap();
    assert_eq!(v.len(), 3);
    assert_eq!(v[2], Item { node: ItemKind::Code { code: "  x = 1".to_string() } });
}
