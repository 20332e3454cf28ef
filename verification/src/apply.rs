//! Applying a template: which variables a person is asked for, where the
//! file goes, what it holds, and which command runs on it afterwards.

use crate::template::{
    command_key, filename_key, renderings, substitute_spec, text_outcome, ErrorKind, Template,
    TemplateError,
};
use crate::text::{from_chars, is_space, space, to_chars};
use crate::value::{Value, ValueView};
use crate::variables::lookup;
use vstd::prelude::*;

verus! {

/// Why a template cannot be applied.
#[derive(Clone, Copy, Debug, PartialEq, Eq, Structural)]
pub enum ApplyError {
    /// The template names no file to go to.
    MissingFilename,
    /// The template's command holds no word.
    EmptyCommand,
}

/// What `error` says of the template named `name`.
pub open spec fn message_spec(error: ApplyError, name: Seq<char>) -> Seq<char> {
    match error {
        ApplyError::MissingFilename => "template `"@ + name + "` does not specify a filename"@,
        ApplyError::EmptyCommand => "command for template `"@ + name + "` is empty"@,
    }
}

impl ApplyError {
    /// What this refusal says of the template named `name`, for a person
    /// to read.
    pub fn message(&self, name: &str) -> (text: String)
        ensures
            text@ == message_spec(*self, name@),
    {
        match self {
            ApplyError::MissingFilename => String::from_str("template `").concat(name).concat(
                "` does not specify a filename",
            ),
            ApplyError::EmptyCommand => String::from_str("command for template `").concat(
                name,
            ).concat("` is empty"),
        }
    }
}

/// The text of `value` where it is a string, and the empty text otherwise.
pub open spec fn text_of(value: ValueView) -> Seq<char> {
    match value {
        ValueView::String(text) => text,
        _ => Seq::empty(),
    }
}

/// `key` is one of the variables that steer the application instead of
/// filling a placeholder on request.
pub open spec fn reserved(key: Seq<char>) -> bool {
    key == "filename"@ || key == "command"@ || key == "groups"@
}

/// The names among the first `n` of `variables` that a person is asked a
/// value for: those that are not reserved, in their order.
pub open spec fn free_names(variables: Seq<(Seq<char>, ValueView)>, n: int) -> Seq<Seq<char>>
    decreases n,
{
    if n <= 0 {
        Seq::empty()
    } else if reserved(variables[n - 1].0) {
        free_names(variables, n - 1)
    } else {
        free_names(variables, n - 1).push(variables[n - 1].0)
    }
}

/// `text` with a line feed at its end, added where it has none.
pub open spec fn with_newline(text: Seq<char>) -> Seq<char> {
    if text.len() > 0 && text.last() == '\n' {
        text
    } else {
        text.push('\n')
    }
}

/// The word in the making, as a list of no word or one.
pub open spec fn finished(current: Seq<char>) -> Seq<Seq<char>> {
    if current.len() > 0 {
        seq![current]
    } else {
        Seq::empty()
    }
}

/// The words of `text` behind the word `current` that is in the making:
/// white space ends a word, and anything else goes on with it.
pub open spec fn words_from(text: Seq<char>, current: Seq<char>) -> Seq<Seq<char>>
    decreases text.len(),
{
    if text.len() == 0 {
        finished(current)
    } else if is_space(text[0]) {
        finished(current) + words_from(text.skip(1), Seq::empty())
    } else {
        words_from(text.skip(1), current.push(text[0]))
    }
}

/// The words of `text`: its stretches without white space, in their order.
pub open spec fn words(text: Seq<char>) -> Seq<Seq<char>> {
    words_from(text, Seq::empty())
}

/// Where the applied file goes, relative to the working directory: the
/// text of the variable `filename`.
pub open spec fn destination_spec(variables: Seq<(Seq<char>, ValueView)>) -> Result<
    Seq<char>,
    ApplyError,
> {
    match lookup(variables, filename_key()) {
        Some(value) => Ok(text_of(value)),
        None => Err(ApplyError::MissingFilename),
    }
}

/// The command that runs on the file applied to `path`: the words of the
/// variable `command` with `path` behind them, where the variable is set.
pub open spec fn command_line_spec(variables: Seq<(Seq<char>, ValueView)>, path: Seq<char>) -> Result<
    Option<Seq<Seq<char>>>,
    ApplyError,
> {
    match lookup(variables, command_key()) {
        None => Ok(None),
        Some(value) => if words(text_of(value)).len() == 0 {
            Err(ApplyError::EmptyCommand)
        } else {
            Ok(Some(words(text_of(value)).push(path)))
        },
    }
}

/// The text of `value` where it is a string, and the empty text otherwise.
pub fn text_in(value: &Value) -> (text: String)
    ensures
        text@ == text_of(value@),
{
    match value {
        Value::String(text) => text.clone(),
        _ => String::new(),
    }
}

/// Tells whether `key` is a reserved variable.
pub fn is_reserved(key: &String) -> (b: bool)
    ensures
        b == reserved(key@),
{
    *key == String::from_str("filename") || *key == String::from_str("command") || *key
        == String::from_str("groups")
}

/// The variables of `template` that a person is asked a value for.
pub fn free_variables(template: &Template) -> (names: Vec<String>)
    ensures
        crate::value::texts(names@) == free_names(
            template.variables@,
            template.variables@.len() as int,
        ),
{
    let mut names: Vec<String> = Vec::new();
    let count = template.variables.len();
    let mut i: usize = 0;
    assert(crate::value::texts(names@) =~= free_names(template.variables@, 0));
    while i < count
        invariant
            i <= count,
            count == template.variables@.len(),
            crate::value::texts(names@) == free_names(template.variables@, i as int),
        decreases count - i,
    {
        let key = template.variables.key_at(i);
        let ghost before = crate::value::texts(names@);
        if !is_reserved(key) {
            names.push(key.clone());
            assert(crate::value::texts(names@) =~= before.push(key@));
        }
        i += 1;
    }
    names
}

/// Tells whether the file is written: not over a file that is there, unless
/// overwriting was asked for.
pub fn writes(present: bool, overwrite: bool) -> (write: bool)
    ensures
        write == (!present || overwrite),
{
    !present || overwrite
}

/// Where the applied file goes, relative to the working directory.
pub fn destination(template: &Template) -> (path: Result<String, ApplyError>)
    ensures
        match path {
            Ok(text) => destination_spec(template.variables@) == Ok::<Seq<char>, ApplyError>(
                text@,
            ),
            Err(error) => destination_spec(template.variables@) == Err::<Seq<char>, ApplyError>(
                error,
            ),
        },
{
    match template.filename() {
        Some(value) => Ok(text_in(&value)),
        None => Err(ApplyError::MissingFilename),
    }
}

/// `text` with a line feed at its end, added where it has none.
pub fn with_trailing_newline(text: &str) -> (ended: String)
    ensures
        ended@ == with_newline(text@),
{
    let mut chars = to_chars(text);
    if chars.len() == 0 || chars[chars.len() - 1] != '\n' {
        chars.push('\n');
    }
    from_chars(&chars)
}

/// What the applied file holds: the substituted body, ended by a line feed.
pub fn materialize(template: &Template) -> (content: Result<String, TemplateError>)
    ensures
        text_outcome(content) == match substitute_spec(
            template@,
            renderings(template@.variables),
        ) {
            Ok(body) => Ok::<Seq<char>, ErrorKind>(with_newline(body)),
            Err(kind) => Err(kind),
        },
        content matches Err(error) ==> error.path@ == template.path@,
{
    match template.substitute() {
        Ok(body) => Ok(with_trailing_newline(body.as_str())),
        Err(error) => Err(error),
    }
}

/// The words of `text`.
pub fn split_words(text: &str) -> (found: Vec<String>)
    ensures
        crate::value::texts(found@) == words(text@),
{
    let chars = to_chars(text);
    let mut found: Vec<String> = Vec::new();
    let mut current: Vec<char> = Vec::new();
    let mut i: usize = 0;
    assert(chars@.skip(0) =~= chars@);
    assert(crate::value::texts(found@) + words_from(chars@, current@) =~= words(chars@));
    while i < chars.len()
        invariant
            i <= chars.len(),
            crate::value::texts(found@) + words_from(chars@.skip(i as int), current@) == words(
                chars@,
            ),
        decreases chars.len() - i,
    {
        let ghost rest = chars@.skip(i as int);
        let ghost before = crate::value::texts(found@);
        let ghost word = current@;
        assert(rest.skip(1) =~= chars@.skip(i + 1));
        if space(chars[i]) {
            if current.len() > 0 {
                found.push(from_chars(&current));
                assert(crate::value::texts(found@) =~= before + finished(word));
                current = Vec::new();
            }
            assert(crate::value::texts(found@) =~= before + finished(word));
            assert(current@ =~= Seq::<char>::empty());
            assert(rest[0] == chars@[i as int]);
            assert(words_from(rest, word) == finished(word) + words_from(
                rest.skip(1),
                Seq::empty(),
            ));
            assert(crate::value::texts(found@) + words_from(rest.skip(1), current@) =~= before
                + words_from(rest, word));
        } else {
            current.push(chars[i]);
        }
        i += 1;
    }
    let ghost before = crate::value::texts(found@);
    assert(words_from(chars@.skip(i as int), current@) == finished(current@));
    if current.len() > 0 {
        found.push(from_chars(&current));
        assert(crate::value::texts(found@) =~= before + finished(current@));
    } else {
        assert(before + finished(current@) =~= before);
    }
    found
}

/// The command that runs on the file applied to `path`, as the program and
/// its arguments.
pub fn command_line(template: &Template, path: &str) -> (line: Result<Option<Vec<String>>, ApplyError>)
    ensures
        match line {
            Ok(Some(argv)) => command_line_spec(template.variables@, path@) == Ok::<
                Option<Seq<Seq<char>>>,
                ApplyError,
            >(Some(crate::value::texts(argv@))),
            Ok(None) => command_line_spec(template.variables@, path@) == Ok::<
                Option<Seq<Seq<char>>>,
                ApplyError,
            >(None),
            Err(error) => command_line_spec(template.variables@, path@) == Err::<
                Option<Seq<Seq<char>>>,
                ApplyError,
            >(error),
        },
{
    match template.command() {
        None => Ok(None),
        Some(value) => {
            let text = text_in(&value);
            let mut argv = split_words(text.as_str());
            if argv.len() == 0 {
                Err(ApplyError::EmptyCommand)
            } else {
                let ghost before = crate::value::texts(argv@);
                argv.push(path.to_owned());
                assert(crate::value::texts(argv@) =~= before.push(path@));
                Ok(Some(argv))
            }
        },
    }
}

} // verus!
