use skel::template::{find_closing, placeholder_for, ErrorKind, Template, TemplateError};
use skel::value::{Decoded, Value};

fn chars(text: &str) -> Vec<char> {
    text.chars().collect()
}

fn kind_of(result: Result<Template, TemplateError>) -> ErrorKind {
    result.unwrap_err().kind
}

#[test]
fn missing_start_is_refused() {
    assert_eq!(
        kind_of(Template::parse("t.skeleton", "var: world!\n---\nHello, {% var %}")),
        ErrorKind::MissingHeaderStart
    );
    assert_eq!(kind_of(Template::parse("t.skeleton", "")), ErrorKind::MissingHeaderStart);
    assert_eq!(
        kind_of(Template::parse("t.skeleton", "\n---\na: b\n---\nbody")),
        ErrorKind::MissingHeaderStart
    );
    assert_eq!(kind_of(Template::parse("t.skeleton", "--")), ErrorKind::MissingHeaderStart);
}

#[test]
fn missing_end_is_refused() {
    assert_eq!(
        kind_of(Template::parse("t.skeleton", "---\nvar: world!\nHello, {% var %}")),
        ErrorKind::MissingHeaderEnd
    );
    assert_eq!(kind_of(Template::parse("t.skeleton", "---")), ErrorKind::MissingHeaderEnd);
    assert_eq!(
        kind_of(Template::parse("t.skeleton", "---\na: b\n---- \nbody")),
        ErrorKind::MissingHeaderEnd
    );
    assert_eq!(
        kind_of(Template::parse("t.skeleton", "---\na: b\n---x\nbody")),
        ErrorKind::MissingHeaderEnd
    );
}

#[test]
fn empty_body_is_refused() {
    assert_eq!(
        kind_of(Template::parse("t.skeleton", "---\na: b\n---\n")),
        ErrorKind::EmptyBody
    );
    assert_eq!(
        kind_of(Template::parse("t.skeleton", "---\na: b\n---")),
        ErrorKind::EmptyBody
    );
    assert_eq!(
        kind_of(Template::parse("t.skeleton", "---\na: b\n---\n \n\t\n")),
        ErrorKind::EmptyBody
    );
}

#[test]
fn header_that_is_no_mapping_is_refused() {
    let error = Template::parse("t.skeleton", "---\njust text\n---\nbody").unwrap_err();
    assert_eq!(error.kind, ErrorKind::HeaderDecodeError);
    assert_eq!(error.path, "t.skeleton");
    assert!(!error.detail.is_empty());

    assert_eq!(
        kind_of(Template::parse("t.skeleton", "---\na: [unclosed\n---\nbody")),
        ErrorKind::HeaderDecodeError
    );
}

#[test]
fn values_of_other_shapes_are_refused() {
    let error = Template::parse("t.skeleton", "---\nyear: 2024\n---\nbody").unwrap_err();
    assert_eq!(error.kind, ErrorKind::HeaderDecodeError);
    assert_eq!(error.detail, "year");

    assert_eq!(
        kind_of(Template::parse("t.skeleton", "---\nflag: true\n---\nbody")),
        ErrorKind::HeaderDecodeError
    );
    assert_eq!(
        kind_of(Template::parse("t.skeleton", "---\nmap: {a: b}\n---\nbody")),
        ErrorKind::HeaderDecodeError
    );
    assert_eq!(
        kind_of(Template::parse("t.skeleton", "---\ngroups: [a, 1]\n---\nbody")),
        ErrorKind::HeaderDecodeError
    );
    assert!(Template::parse("t.skeleton", "---\nyear: \"2024\"\n---\nbody").is_ok());
}

#[test]
fn empty_header_sets_no_variables() {
    let template = Template::parse("t.skeleton", "---\n---\nbody {% x %}\n").unwrap();
    assert_eq!(template.variables.len(), 0);
    assert_eq!(template.substitute().unwrap(), "body {% x %}");

    let template = Template::parse("t.skeleton", "---\n\n  \n---\nbody").unwrap();
    assert_eq!(template.variables.len(), 0);
}

#[test]
fn delimiter_line_may_end_in_carriage_return() {
    let template = Template::parse("t.skeleton", "---\r\na: b\r\n---\r\n{% a %}!\r\n").unwrap();
    assert_eq!(template.substitute().unwrap(), "b!");
}

#[test]
fn first_delimiter_line_closes_the_header() {
    let template = Template::parse("t.skeleton", "---\na: b\n---\nx\n---\n{% a %}").unwrap();
    assert_eq!(template.substitute().unwrap(), "x\n---\nb");
    assert_eq!(find_closing(&chars("---\na: b\n---\nx\n---\n")), Some(8));
    assert_eq!(find_closing(&chars("---\na: b\n----\nx\n---")), Some(15));
    assert_eq!(find_closing(&chars("---\na: b")), None);
}

#[test]
fn content_is_kept_as_it_was_read() {
    let content = "---\na: b\n---\n\n  body  \n\n";
    let template = Template::parse("/x/t.skeleton", content).unwrap();
    assert_eq!(template.content, content);
    assert_eq!(template.path, "/x/t.skeleton");
    assert_eq!(template.substitute().unwrap(), "body");
}

#[test]
fn header_is_what_stands_between_the_delimiters() {
    assert_eq!(
        Template::header("---\n a: b \n\n---\nbody"),
        Some("a: b".to_owned())
    );
    assert_eq!(Template::header("---\n\n---\nbody"), None);
    assert_eq!(Template::header("a: b\n---\nbody"), None);
    assert_eq!(Template::header("---\na: b\nbody"), None);
}

#[test]
fn assemble_takes_what_the_decoder_made() {
    let decoded = Ok(vec![
        ("a".to_owned(), Decoded::Text("1".to_owned())),
        ("b".to_owned(), Decoded::Null),
        (
            "c".to_owned(),
            Decoded::List(vec![Some("x".to_owned()), Some("y".to_owned())]),
        ),
        ("a".to_owned(), Decoded::Text("2".to_owned())),
    ]);
    let template = Template::assemble(
        "t.skeleton".to_owned(),
        "---\nanything\n---\nbody".to_owned(),
        decoded,
    )
    .unwrap();
    assert_eq!(template.variables.len(), 3);
    assert_eq!(template.variables.keys(), vec!["a", "b", "c"]);
    assert_eq!(template.variables.get("a"), Some(&Value::String("2".to_owned())));
    assert_eq!(template.variables.get("b"), Some(&Value::Null));
    assert_eq!(
        template.variables.get("c"),
        Some(&Value::Sequence(vec!["x".to_owned(), "y".to_owned()]))
    );
    assert_eq!(template.variables.get("d"), None);
}

#[test]
fn assemble_refuses_what_a_template_does_not_take() {
    let other = Template::assemble(
        "t.skeleton".to_owned(),
        "---\nanything\n---\nbody".to_owned(),
        Ok(vec![
            ("a".to_owned(), Decoded::Null),
            ("b".to_owned(), Decoded::Other),
            ("c".to_owned(), Decoded::Other),
        ]),
    )
    .unwrap_err();
    assert_eq!(other.kind, ErrorKind::HeaderDecodeError);
    assert_eq!(other.detail, "b");

    let mixed = Template::assemble(
        "t.skeleton".to_owned(),
        "---\nanything\n---\nbody".to_owned(),
        Ok(vec![("a".to_owned(), Decoded::List(vec![Some("x".to_owned()), None]))]),
    )
    .unwrap_err();
    assert_eq!(mixed.kind, ErrorKind::HeaderDecodeError);
    assert_eq!(mixed.detail, "a");

    let complaint = Template::assemble(
        "t.skeleton".to_owned(),
        "---\nanything\n---\nbody".to_owned(),
        Err("bad header".to_owned()),
    )
    .unwrap_err();
    assert_eq!(complaint.kind, ErrorKind::HeaderDecodeError);
    assert_eq!(complaint.detail, "bad header");
    assert_eq!(
        complaint.message(),
        "invalid template: t.skeleton, frontmatter cannot be decoded: bad header"
    );
}

#[test]
fn assemble_does_not_look_at_the_decoder_for_an_empty_header() {
    let template = Template::assemble(
        "t.skeleton".to_owned(),
        "---\n---\nbody".to_owned(),
        Err("not asked".to_owned()),
    )
    .unwrap();
    assert_eq!(template.variables.len(), 0);

    let refused = Template::assemble(
        "t.skeleton".to_owned(),
        "---\nx\n".to_owned(),
        Ok(vec![]),
    )
    .unwrap_err();
    assert_eq!(refused.kind, ErrorKind::MissingHeaderEnd);
    assert_eq!(refused.detail, "");
}

#[test]
fn decoded_values_become_values() {
    assert_eq!(Value::from_decoded(&Decoded::Null), Some(Value::Null));
    assert_eq!(
        Value::from_decoded(&Decoded::Text("a".to_owned())),
        Some(Value::String("a".to_owned()))
    );
    assert_eq!(
        Value::from_decoded(&Decoded::List(vec![])),
        Some(Value::Sequence(vec![]))
    );
    assert_eq!(
        Value::from_decoded(&Decoded::List(vec![None, Some("a".to_owned())])),
        None
    );
    assert_eq!(Value::from_decoded(&Decoded::Other), None);
    assert_eq!(Value::Sequence(vec!["a".to_owned()]).duplicate(), Value::Sequence(vec!["a".to_owned()]));
}

#[test]
fn placeholder_wraps_the_name() {
    assert_eq!(placeholder_for("var"), chars("{% var %}"));
    assert_eq!(placeholder_for(""), chars("{%  %}"));
}

#[test]
fn values_are_written_as_plain_text() {
    let template = Template::parse(
        "t.skeleton",
        "---\nnothing:\nword: \"true\"\nlist: [a, b]\nplain: text\n---\n{% nothing %}|{% word %}|{% list %}|{% plain %}",
    )
    .unwrap();
    assert_eq!(
        template.substitute().unwrap(),
        "null|true|- a\n- b|text"
    );
}

#[test]
fn string_that_reads_as_a_number_is_not_quoted() {
    let template = Template::parse("t.skeleton", "---\nk: \"42\"\n---\nn={% k %}").unwrap();
    assert_eq!(template.variables.get("k"), Some(&Value::String("42".to_owned())));
    assert_eq!(template.substitute().unwrap(), "n=42");
}

#[test]
fn string_is_written_letter_for_letter() {
    let template = Template::parse(
        "t.skeleton",
        "---\nempty: \"\"\nspaced: \"  a  \"\nlines: \"one\\ntwo\"\ncolon: \"a: b\"\nnull: \"null\"\n---\n[{% empty %}][{% spaced %}][{% lines %}][{% colon %}][{% null %}]",
    )
    .unwrap();
    assert_eq!(
        template.substitute().unwrap(),
        "[][  a  ][one\ntwo][a: b][null]"
    );
}

#[test]
fn sequence_is_written_by_the_encoder() {
    let template = Template::parse(
        "t.skeleton",
        "---\nnone: []\none: [\"42\"]\n---\n{% none %}|{% one %}",
    )
    .unwrap();
    assert_eq!(template.substitute().unwrap(), "[]|- '42'");
}

#[test]
fn every_occurrence_is_replaced_and_the_rest_stays() {
    let template = Template::parse(
        "t.skeleton",
        "---\nk: v\n---\n{% k %} {%k%} {% k %}{% k %} {% K %} {% k  %}",
    )
    .unwrap();
    assert_eq!(template.substitute().unwrap(), "v {%k%} vv {% K %} {% k  %}");
}

#[test]
fn unknown_placeholders_stay() {
    let template =
        Template::parse("t.skeleton", "---\nk: v\n---\n{% other %} and {% k %}").unwrap();
    assert_eq!(template.substitute().unwrap(), "{% other %} and v");
}

#[test]
fn variables_fill_in_their_order() {
    let template = Template::parse(
        "t.skeleton",
        "---\nb: done\na: \"{% b %}\"\n---\n{% a %}",
    )
    .unwrap();
    assert_eq!(template.variables.keys(), vec!["a", "b"]);
    assert_eq!(template.substitute().unwrap(), "done");

    let template = Template::parse(
        "t.skeleton",
        "---\na: done\nb: \"{% a %}\"\n---\n{% b %}",
    )
    .unwrap();
    assert_eq!(template.substitute().unwrap(), "{% a %}");
}

#[test]
fn substitute_with_takes_the_texts_it_is_given() {
    let template =
        Template::parse("t.skeleton", "---\na: [x]\nb: [y]\n---\n{% a %}-{% b %}").unwrap();

    assert_eq!(
        template
            .substitute_with(&vec![Ok(" one\n".to_owned()), Ok("two".to_owned())])
            .unwrap(),
        "one-two"
    );

    let failed = template
        .substitute_with(&vec![Ok("one".to_owned()), Err("cannot".to_owned())])
        .unwrap_err();
    assert_eq!(failed.kind, ErrorKind::RenderError);
    assert_eq!(failed.detail, "cannot");
    assert_eq!(failed.path, "t.skeleton");
    assert_eq!(
        failed.message(),
        "invalid template: t.skeleton, value cannot be written: cannot"
    );

    let short = template.substitute_with(&vec![Ok("one".to_owned())]).unwrap_err();
    assert_eq!(short.kind, ErrorKind::RenderError);
    assert_eq!(short.detail, "b");
}

#[test]
fn substitute_with_asks_the_encoder_for_sequences_only() {
    let template = Template::parse(
        "t.skeleton",
        "---\na: \"42\"\nb:\nc: [x]\n---\n{% a %}-{% b %}-{% c %}",
    )
    .unwrap();

    assert_eq!(
        template
            .substitute_with(&vec![
                Ok("'42'".to_owned()),
                Err("not asked".to_owned()),
                Ok("- x\n".to_owned()),
            ])
            .unwrap(),
        "42-null-- x"
    );

    let plain = Template::parse("t.skeleton", "---\na: \"42\"\nb:\n---\n{% a %}-{% b %}").unwrap();
    assert_eq!(plain.substitute_with(&vec![]).unwrap(), "42-null");
}

#[test]
fn substitution_checks_the_content_again() {
    let mut template = Template::parse("t.skeleton", "---\na: x\n---\n{% a %}").unwrap();

    template.content = "---\na: x\n{% a %}".to_owned();
    assert_eq!(template.substitute().unwrap_err().kind, ErrorKind::MissingHeaderEnd);

    template.content = "---\na: x\n---\n  \n".to_owned();
    let error = template.substitute().unwrap_err();
    assert_eq!(error.kind, ErrorKind::EmptyBody);
    assert_eq!(
        error.message(),
        "invalid template: t.skeleton, file must contain content"
    );

    template.content = "other\n---\n{% a %}!".to_owned();
    assert_eq!(template.substitute().unwrap(), "x!");
}

#[test]
fn replacement_is_not_stored() {
    let content = "---\nname: world\n---\nhello, {% name %}";
    let mut template = Template::parse("t.skeleton", content).unwrap();

    template.replace_variable("name", Value::String("friend".to_owned()));
    assert_eq!(template.substitute().unwrap(), "hello, friend");
    assert_eq!(template.content, content);

    let again = Template::parse(&template.path, &template.content).unwrap();
    assert_eq!(
        again.variables.get("name"),
        Some(&Value::String("world".to_owned()))
    );
    assert_eq!(again.substitute().unwrap(), "hello, world");
}

#[test]
fn replaced_variable_keeps_its_place() {
    let mut template =
        Template::parse("t.skeleton", "---\na: x\nb: y\n---\n{% a %}{% b %}").unwrap();
    template.replace_variable("a", Value::Null);
    template.replace_variable("c", Value::String("3".to_owned()));
    assert_eq!(template.variables.keys(), vec!["a", "b", "c"]);
    assert!(template.variables.contains_key("c"));
    assert!(!template.variables.contains_key("d"));
    assert_eq!(template.variables.key_at(2), "c");
    assert_eq!(template.variables.value_at(0), &Value::Null);
}

#[test]
fn reserved_variables_are_read() {
    let template = Template::parse(
        "/s/t.skeleton",
        "---\nfilename: out.txt\ncommand: chmod +x\ngroups: [a, b]\n---\nbody",
    )
    .unwrap();
    assert_eq!(template.filename(), Some(Value::String("out.txt".to_owned())));
    assert_eq!(template.command(), Some(Value::String("chmod +x".to_owned())));
    assert_eq!(template.groups(), Some(vec!["a".to_owned(), "b".to_owned()]));

    let bare = Template::parse("/s/t.skeleton", "---\ngroups: a\nfilename:\n---\nbody").unwrap();
    assert_eq!(bare.filename(), Some(Value::Null));
    assert_eq!(bare.command(), None);
    assert_eq!(bare.groups(), None);

    let none = Template::parse("/s/t.skeleton", "---\n---\nbody").unwrap();
    assert_eq!(none.groups(), None);

    let copy = template.duplicate();
    assert_eq!(copy.path, template.path);
    assert_eq!(copy.content, template.content);
    assert_eq!(copy.variables.keys(), template.variables.keys());
}

#[test]
fn template_without_a_name_says_so() {
    let template = Template::parse("/s/.skeleton", "---\n---\nbody").unwrap();
    let error = template.name().unwrap_err();
    assert_eq!(error.kind, ErrorKind::NameUnavailable);
    assert_eq!(error.message(), "failed to get template name: /s/.skeleton");
}
