use skel::store::{RootState, Store, TEMPLATE_EXTENSION};

const DEFAULT_TEMPLATE: &str = "---\nvariable: foo\n---\nHere is a variable interpolation: {% variable %}.\n";

fn open(dir: &str) -> Store {
    Store::load(&Store::default_root(dir), RootState::Missing).unwrap()
}

#[test]
fn load_store_initialization() {
    let store = open("/tmp/test");

    assert_eq!(store.path(), "/tmp/test/.skeleton");
    assert!(RootState::Missing.needs_creating());
    assert_eq!(store.len(), 0);
}

#[test]
fn write_and_check_existence_of_template() {
    let mut store = open("/tmp/test");

    let template_name = "test_template";

    store.write(template_name, DEFAULT_TEMPLATE);

    assert!(store.contains(template_name).unwrap());
}

#[test]
fn list_templates_after_writing() {
    let mut store = open("/tmp/test");

    let template_name = "test_template";

    store.write(template_name, DEFAULT_TEMPLATE);

    let templates = store.templates(None).unwrap();

    assert!(templates.iter().any(|t| t.name().unwrap() == template_name));
}

#[test]
fn non_existent_template() {
    let store = open("/tmp/test");

    let template_name = "non_existent_template";

    assert!(!store.contains(template_name).unwrap());
}

#[test]
fn read_template_content() {
    let mut store = open("/tmp/test");

    let template_name = "test_template";
    let template_content = DEFAULT_TEMPLATE;

    store.write(template_name, template_content);

    let templates = store.templates(None).unwrap();

    let template = templates
        .into_iter()
        .find(|t| t.name().unwrap() == template_name)
        .unwrap();

    assert_eq!(template.content, template_content);
}

#[test]
fn overwrite_template() {
    let mut store = open("/tmp/test");

    let template_name = "test_template";

    let updated_content =
        "---\nvariable: bar\n---\nHere is a variable interpolation: {% variable %}.\n";

    store.write(template_name, DEFAULT_TEMPLATE);
    store.write(template_name, updated_content);

    let templates = store.templates(None).unwrap();

    assert_eq!(templates.len(), 1);

    let template = templates
        .into_iter()
        .find(|t| t.name().unwrap() == template_name)
        .unwrap();

    assert_eq!(template.content, updated_content);
}

#[test]
fn delete_template() {
    let mut store = open("/tmp/test");

    let template_name = "test_template";
    let template_content = DEFAULT_TEMPLATE;

    store.write(template_name, template_content);

    let path = format!("{}/{template_name}{TEMPLATE_EXTENSION}", store.path());
    assert_eq!(path, store.file_path(template_name));
    assert!(store.remove(&path));

    assert!(!store.contains(template_name).unwrap());
}

#[test]
fn filter_templates_by_group() {
    let mut store = open("/tmp/test");

    let template1 = "---\nvariable: foo\ngroups: [web, frontend]\n---\nWeb template\n";

    let template2 = "---\nvariable: bar\ngroups: [backend, api]\n---\nBackend template\n";

    let template3 = "---\nvariable: baz\ngroups: [web, backend]\n---\nFull-stack template\n";

    store.write("web_template", template1);
    store.write("backend_template", template2);
    store.write("fullstack_template", template3);

    let web_templates = store.templates(Some(vec!["web".to_string()])).unwrap();

    assert_eq!(web_templates.len(), 2);

    assert!(web_templates
        .iter()
        .any(|t| t.name().unwrap() == "web_template"));

    assert!(web_templates
        .iter()
        .any(|t| t.name().unwrap() == "fullstack_template"));

    let api_backend_templates = store
        .templates(Some(vec!["api".to_string(), "backend".to_string()]))
        .unwrap();

    assert_eq!(api_backend_templates.len(), 2);

    assert!(api_backend_templates
        .iter()
        .any(|t| t.name().unwrap() == "backend_template"));

    assert!(api_backend_templates
        .iter()
        .any(|t| t.name().unwrap() == "fullstack_template"));

    let nonexistent_group_templates = store
        .templates(Some(vec!["nonexistent".to_string()]))
        .unwrap();

    assert_eq!(nonexistent_group_templates.len(), 0);

    let all_templates = store.templates(None).unwrap();

    assert_eq!(all_templates.len(), 3);
}
