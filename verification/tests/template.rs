use skel::add::DEFAULT_TEMPLATE;
use skel::template::{ErrorKind, Template};
use skel::value::Value;

#[test]
fn template_simple_valid_template() {
    let file = "/tmp/valid/valid.skeleton";

    let template =
        Template::parse(file, "---\nvar: world!\n---\nHello, {% var %}\n").unwrap();

    assert_eq!(template.name().unwrap(), "valid");

    assert_eq!(template.substitute().unwrap(), "Hello, world!");

    assert_eq!(template.variables.len(), 1);
    assert_eq!(
        template.variables.get("var"),
        Some(&Value::String("world!".to_owned()))
    );
}

#[test]
fn template_default_template() {
    let file = "/tmp/default/default.skeleton";

    let template = Template::parse(file, DEFAULT_TEMPLATE.trim_start_matches('\n')).unwrap();

    assert_eq!(template.name().unwrap(), "default");

    assert_eq!(
        template.substitute().unwrap(),
        "Place your content here!\n\nHere is a variable interpolation: foo."
    );

    assert_eq!(template.variables.len(), 4);
    assert_eq!(template.variables.get("command"), Some(&Value::Null));
    assert_eq!(template.variables.get("filename"), Some(&Value::Null));
    assert_eq!(template.variables.get("groups"), Some(&Value::Null));
    assert_eq!(
        template.variables.get("variable"),
        Some(&Value::String("foo".to_owned()))
    );
}

#[test]
fn populated_variables() {
    let file = "/tmp/default/default.skeleton";

    let content = "---\ncommand: chmod +x\nfilename: justfile\ngroups: [\"rust-cli\", \"utility\"]\nvariable: bar\n---\nPlace your content here!\n\nHere is a variable interpolation: {% variable %}.\n";

    let template = Template::parse(file, content).unwrap();

    assert_eq!(template.name().unwrap(), "default");

    assert_eq!(
        template.substitute().unwrap(),
        "Place your content here!\n\nHere is a variable interpolation: bar."
    );

    assert_eq!(template.variables.len(), 4);
    assert_eq!(
        template.variables.get("command"),
        Some(&Value::String("chmod +x".to_owned()))
    );
    assert_eq!(
        template.variables.get("filename"),
        Some(&Value::String("justfile".to_owned()))
    );
    assert_eq!(
        template.variables.get("groups"),
        Some(&Value::Sequence(vec![
            "rust-cli".to_owned(),
            "utility".to_owned()
        ]))
    );
    assert_eq!(
        template.variables.get("variable"),
        Some(&Value::String("bar".to_owned()))
    );
}

#[test]
fn template_invalid_frontmatter_missing_end() {
    let file = "/tmp/invalid/invalid.skeleton";

    let result = Template::parse(file, "---\nvar: world!\nHello, {% var %}\n");

    assert!(result.is_err());

    let error = result.unwrap_err();
    assert_eq!(error.kind, ErrorKind::MissingHeaderEnd);
    assert_eq!(
        error.message(),
        format!(
            "invalid template: {}, template must contain a frontmatter ending with `---`",
            file
        )
    );
}

#[test]
fn template_invalid_frontmatter_missing_start() {
    let file = "/tmp/invalid/invalid.skeleton";

    let result = Template::parse(file, "var: world!\n---\nHello, {% var %}\n");

    assert!(result.is_err());

    let error = result.unwrap_err();
    assert_eq!(error.kind, ErrorKind::MissingHeaderStart);
    assert_eq!(
        error.message(),
        format!(
            "invalid template: {}, template must start with `---` to specify its frontmatter",
            file
        )
    );
}

#[test]
fn replace_variable() {
    let file = "/tmp/replace/replace.skeleton";

    let mut template = Template::parse(
        file,
        "---\ngreeting: hello\nname: world\n---\n{% greeting %}, {% name %}!\n",
    )
    .unwrap();

    assert_eq!(template.name().unwrap(), "replace");
    assert_eq!(template.substitute().unwrap(), "hello, world!");

    template.replace_variable("greeting", Value::String("welcome".to_owned()));
    assert_eq!(template.substitute().unwrap(), "welcome, world!");

    template.replace_variable("name", Value::String("friend".to_owned()));
    assert_eq!(template.substitute().unwrap(), "welcome, friend!");

    template.replace_variable("extra", Value::String("unused".to_owned()));

    assert_eq!(template.variables.len(), 3);
    assert_eq!(
        template.variables.get("greeting"),
        Some(&Value::String("welcome".to_owned()))
    );
    assert_eq!(
        template.variables.get("name"),
        Some(&Value::String("friend".to_owned()))
    );
    assert_eq!(
        template.variables.get("extra"),
        Some(&Value::String("unused".to_owned()))
    );

    assert_eq!(template.substitute().unwrap(), "welcome, friend!");
}
