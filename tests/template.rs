use x_ray::structures::{Class, Function};
use x_ray::template::{class_template, function_template};

#[test]
fn test_function_template() {
    let function = Function {
        name: "display".to_string(),
        description: Some("This is the display function.".to_string()),
        parameters: vec!["self".to_string(), "params".to_string()]
    };

    let function_template_content = function_template(&function);
    let expected_function_template_content = r#"
def display(self, params):
    """
    This is the display function.
    """
    pass
"#;

    assert_eq!(function_template_content, expected_function_template_content);
}

#[test]
fn test_class_template() {
    let class = Class {
        name: "Animal".to_string(),
        description: Some("This is the animal class.".to_string()),
        parents: Vec::new(),
        methods: Vec::new()
    };

    let class_template_content = class_template(&class);
    let expected_class_template_content = r#"
class Animal:
    """
    This is the animal class.
    """
"#;

    assert_eq!(class_template_content, expected_class_template_content);
}

#[test]
fn test_class_template_with_methods() {
    let mut methods = Vec::new();

    let function = Function {
        name: "display".to_string(),
        description: Some("This is the display function.".to_string()),
        parameters: Vec::new()
    };

    methods.push(function);

    let class = Class {
        name: "Animal".to_string(),
        description: Some("This is the animal class.".to_string()),
        parents: Vec::new(),
        methods: methods
    };

    let class_template_content = class_template(&class);

    let expected_class_template_content = r#"
class Animal:
    """
    This is the animal class.
    """

    def display():
        """
        This is the display function.
        """
        pass
"#;

    assert_eq!(class_template_content, expected_class_template_content);
}
