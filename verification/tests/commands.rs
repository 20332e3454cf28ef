use skel::add::{editor, initial_content, DEFAULT_TEMPLATE};
use skel::apply::{
    command_line, destination, free_variables, is_reserved, materialize, split_words, text_in,
    with_trailing_newline, writes, ApplyError,
};
use skel::list::{comes_first, listing, sort_names};
use skel::search::{Picked, Search};
use skel::template::{ErrorKind, Template};
use skel::value::Value;

fn chars(text: &str) -> Vec<char> {
    text.chars().collect()
}

fn template(path: &str, header: &str) -> Template {
    Template::parse(path, &format!("---\n{header}\n---\nbody {{% v %}}")).unwrap()
}

#[test]
fn editor_that_was_asked_for_goes_first() {
    assert_eq!(editor(Some("vi".to_owned()), Some("ed".to_owned())), Some("vi".to_owned()));
    assert_eq!(editor(None, Some("ed".to_owned())), Some("ed".to_owned()));
    assert_eq!(editor(None, None), None);
}

#[test]
fn new_template_starts_from_file_or_default() {
    assert_eq!(initial_content(false, None), None);
    assert_eq!(initial_content(true, None), Some(DEFAULT_TEMPLATE.to_owned()));
    assert_eq!(
        initial_content(true, Some(("justfile", "all:\n"))),
        Some("---\nfilename: justfile\n---\nall:\n".to_owned())
    );
    assert_eq!(
        initial_content(false, Some(("a b", ""))),
        Some("---\nfilename: a b\n---\n".to_owned())
    );
    assert!(DEFAULT_TEMPLATE.starts_with("---\n# This is a special variable"));
    assert!(DEFAULT_TEMPLATE.ends_with("Here is a variable interpolation: {% variable %}.\n"));
}

#[test]
fn free_variables_leave_the_reserved_out() {
    let t = template("t.skeleton", "filename: f\nz: 1x\ncommand: c\na: b\ngroups: [g]");
    assert_eq!(free_variables(&t), vec!["a", "z"]);
    assert!(is_reserved(&"filename".to_owned()));
    assert!(is_reserved(&"command".to_owned()));
    assert!(is_reserved(&"groups".to_owned()));
    assert!(!is_reserved(&"group".to_owned()));
    assert_eq!(free_variables(&template("t.skeleton", "filename: f")), Vec::<String>::new());
}

#[test]
fn destination_is_the_text_of_filename() {
    assert_eq!(destination(&template("t.skeleton", "filename: a/b.txt")), Ok("a/b.txt".to_owned()));
    assert_eq!(destination(&template("t.skeleton", "filename:")), Ok("".to_owned()));
    assert_eq!(destination(&template("t.skeleton", "filename: [a]")), Ok("".to_owned()));
    assert_eq!(destination(&template("t.skeleton", "v: x")), Err(ApplyError::MissingFilename));
    assert_eq!(text_in(&Value::String("x".to_owned())), "x");
    assert_eq!(text_in(&Value::Null), "");
}

#[test]
fn apply_errors_name_the_template() {
    assert_eq!(
        ApplyError::MissingFilename.message("t"),
        "template `t` does not specify a filename"
    );
    assert_eq!(ApplyError::EmptyCommand.message("t"), "command for template `t` is empty");
}

#[test]
fn file_is_written_unless_it_is_in_the_way() {
    assert!(writes(false, false));
    assert!(writes(false, true));
    assert!(writes(true, true));
    assert!(!writes(true, false));
}

#[test]
fn applied_file_ends_with_a_line_feed() {
    assert_eq!(with_trailing_newline("a"), "a\n");
    assert_eq!(with_trailing_newline("a\n"), "a\n");
    assert_eq!(with_trailing_newline(""), "\n");
    assert_eq!(with_trailing_newline("a\n\n"), "a\n\n");
    assert_eq!(materialize(&template("t.skeleton", "v: x")).unwrap(), "body x\n");
    let mut broken = template("t.skeleton", "v: x");
    broken.content = "---\n".to_owned();
    assert_eq!(materialize(&broken).unwrap_err().kind, ErrorKind::MissingHeaderEnd);
}

#[test]
fn words_are_split_at_white_space() {
    assert_eq!(split_words("chmod +x"), vec!["chmod", "+x"]);
    assert_eq!(split_words("  a \t b\n\nc  "), vec!["a", "b", "c"]);
    assert_eq!(split_words(""), Vec::<String>::new());
    assert_eq!(split_words(" \n"), Vec::<String>::new());
    assert_eq!(split_words("one"), vec!["one"]);
    assert_eq!(split_words("a\u{A0}b"), vec!["a", "b"]);
}

#[test]
fn command_gets_the_path_as_its_last_argument() {
    assert_eq!(
        command_line(&template("t.skeleton", "command: chmod +x"), "/w/out"),
        Ok(Some(vec!["chmod".to_owned(), "+x".to_owned(), "/w/out".to_owned()]))
    );
    assert_eq!(command_line(&template("t.skeleton", "v: x"), "/w/out"), Ok(None));
    assert_eq!(
        command_line(&template("t.skeleton", "command:"), "/w/out"),
        Err(ApplyError::EmptyCommand)
    );
    assert_eq!(
        command_line(&template("t.skeleton", "command: \"  \""), "/w/out"),
        Err(ApplyError::EmptyCommand)
    );
}

#[test]
fn names_are_sorted_by_code_point() {
    let names = vec![
        "b".to_owned(),
        "a".to_owned(),
        "B".to_owned(),
        "ab".to_owned(),
        "".to_owned(),
        "a".to_owned(),
        "é".to_owned(),
    ];
    let mut expected = names.clone();
    expected.sort();
    assert_eq!(sort_names(&names), expected);
    assert_eq!(sort_names(&names), vec!["", "B", "a", "a", "ab", "b", "é"]);
    assert_eq!(sort_names(&vec![]), Vec::<String>::new());
}

#[test]
fn comes_first_is_the_order_of_strings() {
    let samples = ["", "a", "ab", "b", "B", "aa", "é", "z", "a\u{10FFFF}"];
    for first in samples {
        for second in samples {
            assert_eq!(comes_first(&chars(first), &chars(second)), first <= second);
        }
    }
}

#[test]
fn listing_shows_the_names_in_order() {
    let templates = vec![
        template("/s/web.skeleton", "v: x"),
        template("/s/sub/api.skeleton", "v: x"),
        template("/s/cli.skeleton", "v: x"),
    ];
    assert_eq!(listing(&templates).unwrap(), vec!["api", "cli", "web"]);
    assert_eq!(listing(&vec![]).unwrap(), Vec::<String>::new());

    let nameless = vec![template("/s/web.skeleton", "v: x"), template("/s/.skeleton", "v: x")];
    assert_eq!(listing(&nameless).unwrap_err().kind, ErrorKind::NameUnavailable);
}

fn names(templates: &[Template]) -> Vec<String> {
    templates.iter().map(|t| t.name().unwrap()).collect()
}

#[test]
fn selection_follows_the_picker() {
    let search = Search::with(vec![
        template("/s/a.skeleton", "v: x"),
        template("/s/b.skeleton", "v: x"),
        template("/s/c.skeleton", "v: x"),
    ]);
    assert!(search.needs_picker());
    assert_eq!(names(&search.run(&Picked::Aborted)), Vec::<String>::new());
    assert_eq!(names(&search.run(&Picked::Chosen(vec![]))), Vec::<String>::new());
    assert_eq!(names(&search.run(&Picked::Chosen(vec![2, 0]))), vec!["c", "a"]);
    assert_eq!(names(&search.run(&Picked::Chosen(vec![1, 7, 1]))), vec!["b", "b"]);
}

#[test]
fn nothing_to_choose_between_selects_all() {
    let one = Search::with(vec![template("/s/a.skeleton", "v: x")]);
    assert!(!one.needs_picker());
    assert_eq!(names(&one.run(&Picked::Aborted)), vec!["a"]);
    assert_eq!(names(&one.run(&Picked::Chosen(vec![]))), vec!["a"]);

    let none = Search::with(vec![]);
    assert!(!none.needs_picker());
    assert_eq!(none.run(&Picked::Chosen(vec![0])).len(), 0);
}

#[test]
fn picker_is_shown_names_and_previews() {
    let search = Search::with(vec![
        template("/s/a.skeleton", "v: x"),
        template("/s/.skeleton", "v: x"),
    ]);
    assert_eq!(
        search.entries(),
        vec![
            ("a".to_owned(), "cat \"/s/a.skeleton\"".to_owned()),
            ("".to_owned(), "cat \"/s/.skeleton\"".to_owned()),
        ]
    );
}
