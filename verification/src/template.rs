//! Templates: a header of variables between two delimiter lines, and a body
//! whose placeholders the variables fill.

use crate::text::{
    extend, from_chars, matches_at, occurs_at, replace_all, replaced, slice, to_chars, trim,
    trimmed,
};
use crate::value::{accepted, Decoded, DecodedView, Value, ValueView};
use crate::path::{file_stem, stem_of};
use crate::variables::{distinct_keys, lookup, upsert, Variables};
use crate::yaml::{
    decode_mapping, entries_view, error_message, render, yaml_mapping, yaml_rendering,
};
use vstd::prelude::*;

verus! {

/// The marker that opens and closes the header of a template.
pub const DELIMITER: &'static str = "---";

/// The characters of [`DELIMITER`].
pub open spec fn delimiter() -> Seq<char> {
    seq!['-', '-', '-']
}

/// `content` begins with the delimiter.
pub open spec fn opens(content: Seq<char>) -> bool {
    occurs_at(content, 0, delimiter())
}

/// A line ends at `at`: the text ends there, or a line feed stands there,
/// or a carriage return before the end of the text or a line feed.
pub open spec fn line_ends(content: Seq<char>, at: int) -> bool {
    ||| at == content.len()
    ||| (0 <= at < content.len() && content[at] == '\n')
    ||| (0 <= at < content.len() && content[at] == '\r' && (at + 1 == content.len()
        || content[at + 1] == '\n'))
}

/// A line that holds the delimiter and nothing else begins behind the line
/// feed at `at`.
pub open spec fn closes_at(content: Seq<char>, at: int) -> bool {
    &&& 0 <= at < content.len()
    &&& content[at] == '\n'
    &&& occurs_at(content, at + 1, delimiter())
    &&& line_ends(content, at + 4)
}

/// The first index from `from` on where the header closes.
pub open spec fn closing_from(content: Seq<char>, from: int) -> Option<int>
    decreases content.len() - from,
{
    if from < 0 || from >= content.len() {
        None
    } else if closes_at(content, from) {
        Some(from)
    } else {
        closing_from(content, from + 1)
    }
}

/// The index of the line feed before the first delimiter line that closes
/// the header of `content`.
pub open spec fn closing(content: Seq<char>) -> Option<int> {
    closing_from(content, 0)
}

/// What `closing_from` finds is the first place where the header closes.
pub proof fn lemma_closing_from(content: Seq<char>, from: int)
    requires
        0 <= from,
    ensures
        match closing_from(content, from) {
            Some(at) => from <= at && closes_at(content, at) && forall|j: int|
                from <= j < at ==> !closes_at(content, j),
            None => forall|j: int| from <= j ==> !closes_at(content, j),
        },
    decreases content.len() - from,
{
    if from < content.len() && !closes_at(content, from) {
        lemma_closing_from(content, from + 1);
    }
}

/// The header of `content` that closes at `end`: what stands between the
/// opening delimiter and `end`, trimmed.
pub open spec fn header_text(content: Seq<char>, end: int) -> Seq<char> {
    trim(content.subrange(3, end))
}

/// The body of `content` whose header closes at `end`: what follows the
/// closing delimiter, trimmed.
pub open spec fn body_text(content: Seq<char>, end: int) -> Seq<char> {
    trim(content.skip(end + 4))
}

/// Tells whether `content` begins with the delimiter.
pub fn starts_with_delimiter(content: &Vec<char>) -> (b: bool)
    ensures
        b == opens(content@),
{
    let mark = to_chars(DELIMITER);
    proof {
        reveal_strlit("---");
        assert(mark@ =~= delimiter());
    }
    matches_at(content, 0, &mark)
}

/// Tells whether a line ends at `at`.
fn ends_line(content: &Vec<char>, at: usize) -> (b: bool)
    requires
        at <= content.len(),
    ensures
        b == line_ends(content@, at as int),
{
    if at == content.len() {
        true
    } else if content[at] == '\n' {
        true
    } else if content[at] == '\r' {
        at + 1 == content.len() || content[at + 1] == '\n'
    } else {
        false
    }
}

/// Where the header of `content` closes.
pub fn find_closing(content: &Vec<char>) -> (found: Option<usize>)
    ensures
        match found {
            Some(at) => closing(content@) == Some(at as int) && at + 4 <= content.len(),
            None => closing(content@) is None,
        },
{
    let mark = to_chars(DELIMITER);
    proof {
        reveal_strlit("---");
        assert(mark@ =~= delimiter());
    }
    let mut at: usize = 0;
    while at < content.len()
        invariant
            at <= content.len(),
            mark@ == delimiter(),
            closing(content@) == closing_from(content@, at as int),
        decreases content.len() - at,
    {
        if content[at] == '\n' && matches_at(content, at + 1, &mark) && ends_line(content, at + 4) {
            return Some(at);
        }
        at += 1;
    }
    None
}

/// Why a template is refused.
#[derive(Clone, Copy, Debug, PartialEq, Eq, Structural)]
pub enum ErrorKind {
    /// The content does not begin with the delimiter.
    MissingHeaderStart,
    /// No delimiter line closes the header.
    MissingHeaderEnd,
    /// The header is no mapping from names to values that a template takes.
    HeaderDecodeError,
    /// Nothing but white space follows the header.
    EmptyBody,
    /// A value could not be written out as text.
    RenderError,
    /// The path gives the template no name.
    NameUnavailable,
}

/// A refusal, with the path of the file it is about.
#[derive(Debug)]
pub struct TemplateError {
    pub kind: ErrorKind,
    pub path: String,
    /// What the decoder or encoder said, where the refusal is theirs.
    pub detail: String,
}

/// A stored text with a header of variables and a body of placeholders.
#[derive(Debug)]
pub struct Template {
    pub path: String,
    pub content: String,
    pub variables: Variables,
}

/// A [`Template`] as contracts see it.
pub struct TemplateView {
    pub path: Seq<char>,
    pub content: Seq<char>,
    pub variables: Seq<(Seq<char>, ValueView)>,
}

impl View for Template {
    type V = TemplateView;

    open spec fn view(&self) -> TemplateView {
        TemplateView { path: self.path@, content: self.content@, variables: self.variables@ }
    }
}

/// The variables that the first `n` decoded entries set, or nothing where
/// one of them has a value that a template does not take.
pub open spec fn collect(entries: Seq<(Seq<char>, DecodedView)>, n: int) -> Option<
    Seq<(Seq<char>, ValueView)>,
>
    decreases n,
{
    if n <= 0 {
        Some(Seq::empty())
    } else {
        match (collect(entries, n - 1), accepted(entries[n - 1].1)) {
            (Some(before), Some(value)) => Some(upsert(before, entries[n - 1].0, value)),
            _ => None,
        }
    }
}

/// The variables of a template with the header `header`, which the decoder
/// made `decoded` of. An empty header sets none and is not decoded.
pub open spec fn header_variables(
    header: Seq<char>,
    decoded: Option<Seq<(Seq<char>, DecodedView)>>,
) -> Option<Seq<(Seq<char>, ValueView)>> {
    if header.len() == 0 {
        Some(Seq::empty())
    } else {
        match decoded {
            Some(entries) => collect(entries, entries.len() as int),
            None => None,
        }
    }
}

/// The header of `content`, where it has one.
pub open spec fn header_of(content: Seq<char>) -> Seq<char> {
    header_text(content, closing(content)->0)
}

/// The body of `content`, where it has one.
pub open spec fn body_of(content: Seq<char>) -> Seq<char> {
    body_text(content, closing(content)->0)
}

/// The header of `content` has to be decoded: the content opens and closes
/// a header, and the header is not empty.
pub open spec fn needs_decoding(content: Seq<char>) -> bool {
    opens(content) && closing(content) is Some && header_of(content).len() > 0
}

/// The template that `content` at `path` makes, where the decoder made
/// `decoded` of its header.
pub open spec fn assemble_spec(
    path: Seq<char>,
    content: Seq<char>,
    decoded: Option<Seq<(Seq<char>, DecodedView)>>,
) -> Result<TemplateView, ErrorKind> {
    if !opens(content) {
        Err(ErrorKind::MissingHeaderStart)
    } else if closing(content) is None {
        Err(ErrorKind::MissingHeaderEnd)
    } else {
        match header_variables(header_of(content), decoded) {
            None => Err(ErrorKind::HeaderDecodeError),
            Some(variables) => if body_of(content).len() == 0 {
                Err(ErrorKind::EmptyBody)
            } else {
                Ok(TemplateView { path, content, variables })
            },
        }
    }
}

/// The template that `content` at `path` makes.
pub open spec fn parse_spec(path: Seq<char>, content: Seq<char>) -> Result<
    TemplateView,
    ErrorKind,
> {
    assemble_spec(path, content, yaml_mapping(header_of(content)))
}

/// What the decoder made of a header, as contracts see it.
pub open spec fn decoded_view(decoded: Result<Vec<(String, Decoded)>, String>) -> Option<
    Seq<(Seq<char>, DecodedView)>,
> {
    match decoded {
        Ok(entries) => Some(entries_view(entries@)),
        Err(_) => None,
    }
}

/// The entry at `index` is the first of `entries` whose value a template
/// does not take.
pub open spec fn first_refused(entries: Seq<(Seq<char>, DecodedView)>, index: int) -> bool {
    &&& 0 <= index < entries.len()
    &&& accepted(entries[index].1) is None
    &&& forall|j: int| 0 <= j < index ==> accepted((#[trigger] entries[j]).1) is Some
}

/// What a refusal of the kind `kind` tells beside the path, where the
/// decoder made `decoded` of the header: the decoder's complaint, or the
/// name of the first variable whose value is not taken, and nothing for
/// the other kinds.
pub open spec fn assemble_detail(
    kind: ErrorKind,
    detail: Seq<char>,
    decoded: Result<Vec<(String, Decoded)>, String>,
) -> bool {
    match (kind, decoded) {
        (ErrorKind::HeaderDecodeError, Err(complaint)) => detail == complaint@,
        (ErrorKind::HeaderDecodeError, Ok(entries)) => exists|index: int|
            first_refused(entries_view(entries@), index) && detail == (#[trigger] entries_view(
                entries@,
            )[index]).0,
        _ => detail.len() == 0,
    }
}

/// What a refusal to read `content` tells beside the path: the name of
/// the first variable whose value is not taken, where the decoder made
/// entries of the header; whatever the decoder complained of, where it made
/// none; and nothing for the other kinds.
pub open spec fn parse_detail(kind: ErrorKind, detail: Seq<char>, content: Seq<char>) -> bool {
    match (kind, yaml_mapping(header_of(content))) {
        (ErrorKind::HeaderDecodeError, Some(entries)) => exists|index: int|
            first_refused(entries, index) && detail == (#[trigger] entries[index]).0,
        (ErrorKind::HeaderDecodeError, None) => true,
        _ => detail.len() == 0,
    }
}

/// What came of making a template, as contracts see it: the template,
/// or the kind of the refusal.
pub open spec fn outcome(made: Result<Template, TemplateError>) -> Result<TemplateView, ErrorKind> {
    match made {
        Ok(template) => Ok(template@),
        Err(error) => Err(error.kind),
    }
}

/// A template is well formed where its content opens and closes a header
/// and has a body, and no variable is named twice.
pub open spec fn well_formed(template: TemplateView) -> bool {
    &&& opens(template.content)
    &&& closing(template.content) is Some
    &&& body_of(template.content).len() > 0
    &&& distinct_keys(template.variables)
}

/// The variables of a header never name a variable twice.
pub proof fn lemma_collect_distinct(entries: Seq<(Seq<char>, DecodedView)>, n: int)
    ensures
        collect(entries, n) matches Some(variables) ==> distinct_keys(variables),
    decreases n,
{
    if n > 0 {
        lemma_collect_distinct(entries, n - 1);
        match (collect(entries, n - 1), accepted(entries[n - 1].1)) {
            (Some(before), Some(value)) => {
                crate::variables::lemma_upsert(before, entries[n - 1].0, value, entries[n - 1].0);
            },
            _ => {},
        }
    }
}

/// The token that stands in a body for the variable named `key`.
pub open spec fn placeholder(key: Seq<char>) -> Seq<char> {
    seq!['{', '%', ' '] + key + seq![' ', '%', '}']
}

/// What the encoder wrote for the variable at `index`, or nothing where it
/// failed or was not asked.
pub open spec fn encoded(texts: Seq<Option<Seq<char>>>, index: int) -> Option<Seq<char>> {
    if 0 <= index < texts.len() {
        texts[index]
    } else {
        None
    }
}

/// The text that `value` is written as in a body: a string as its own text,
/// null as `null`, and a sequence as what the encoder wrote for it, trimmed.
/// A sequence that the encoder wrote nothing for has no text.
pub open spec fn written_as(value: ValueView, encoding: Option<Seq<char>>) -> Option<Seq<char>> {
    match value {
        ValueView::String(text) => Some(text),
        ValueView::Null => Some("null"@),
        ValueView::Sequence(_) => match encoding {
            Some(text) => Some(trim(text)),
            None => None,
        },
    }
}

/// The text that the variable at `index` is written as, where `texts` holds
/// what the encoder wrote.
pub open spec fn written(
    variables: Seq<(Seq<char>, ValueView)>,
    texts: Seq<Option<Seq<char>>>,
    index: int,
) -> Option<Seq<char>> {
    written_as(variables[index].1, encoded(texts, index))
}


/// `body` after the first `n` variables filled their placeholders, one
/// variable after the other, each with the text it is written as.
pub open spec fn fill(
    body: Seq<char>,
    variables: Seq<(Seq<char>, ValueView)>,
    texts: Seq<Option<Seq<char>>>,
    n: int,
) -> Seq<char>
    decreases n,
{
    if n <= 0 {
        body
    } else {
        replace_all(
            fill(body, variables, texts, n - 1),
            placeholder(variables[n - 1].0),
            written(variables, texts, n - 1)->0,
        )
    }
}

/// Every one of the first `n` variables has a text.
pub open spec fn all_written(
    variables: Seq<(Seq<char>, ValueView)>,
    texts: Seq<Option<Seq<char>>>,
    n: int,
) -> bool {
    forall|i: int| 0 <= i < n ==> (#[trigger] written(variables, texts, i)) is Some
}

/// The body of `template` with its placeholders filled, where `texts` holds
/// what the encoder wrote for the variables that are sequences.
pub open spec fn substitute_spec(template: TemplateView, texts: Seq<Option<Seq<char>>>) -> Result<
    Seq<char>,
    ErrorKind,
> {
    if closing(template.content) is None {
        Err(ErrorKind::MissingHeaderEnd)
    } else if body_of(template.content).len() == 0 {
        Err(ErrorKind::EmptyBody)
    } else if !all_written(template.variables, texts, template.variables.len() as int) {
        Err(ErrorKind::RenderError)
    } else {
        Ok(
            fill(
                body_of(template.content),
                template.variables,
                texts,
                template.variables.len() as int,
            ),
        )
    }
}

/// What the encoder writes for the variable `value`: it is asked for a
/// sequence, and for nothing else.
pub open spec fn rendering(value: ValueView) -> Option<Seq<char>> {
    match value {
        ValueView::Sequence(items) => yaml_rendering(items),
        _ => None,
    }
}

/// The text that `value` is written as in a body, with the encoder asked
/// where the value is a sequence.
pub open spec fn value_text(value: ValueView) -> Option<Seq<char>> {
    written_as(value, rendering(value))
}

/// What the encoder writes for each of `variables` that is a sequence.
pub open spec fn renderings(variables: Seq<(Seq<char>, ValueView)>) -> Seq<Option<Seq<char>>> {
    Seq::new(variables.len(), |i: int| rendering(variables[i].1))
}

/// What the encoder wrote for each variable, as contracts see it.
pub open spec fn texts_view(texts: Seq<Result<String, String>>) -> Seq<Option<Seq<char>>> {
    Seq::new(
        texts.len(),
        |i: int|
            match texts[i] {
                Ok(text) => Some(text@),
                Err(_) => None,
            },
    )
}

/// The variable at `index` is the first of `n` that has no text.
pub open spec fn first_unwritten(
    variables: Seq<(Seq<char>, ValueView)>,
    texts: Seq<Option<Seq<char>>>,
    index: int,
    n: int,
) -> bool {
    &&& 0 <= index < n
    &&& written(variables, texts, index) is None
    &&& forall|j: int| 0 <= j < index ==> (#[trigger] written(variables, texts, j)) is Some
}

/// What a refusal of a substitution tells beside the path: for the first
/// variable without a text, the encoder's complaint, or the variable's name
/// where the encoder was not asked; and nothing for the other kinds.
pub open spec fn substitute_detail(
    kind: ErrorKind,
    detail: Seq<char>,
    variables: Seq<(Seq<char>, ValueView)>,
    texts: Seq<Result<String, String>>,
) -> bool {
    match kind {
        ErrorKind::RenderError => exists|index: int|
            #![trigger written(variables, texts_view(texts), index)]
            first_unwritten(variables, texts_view(texts), index, variables.len() as int)
                && detail == (if index < texts.len() {
                texts[index]->Err_0@
            } else {
                variables[index].0
            }),
        _ => detail.len() == 0,
    }
}

/// What came of a substitution, as contracts see it: the text, or the
/// kind of the refusal.
pub open spec fn text_outcome(made: Result<String, TemplateError>) -> Result<
    Seq<char>,
    ErrorKind,
> {
    match made {
        Ok(text) => Ok(text@),
        Err(error) => Err(error.kind),
    }
}

/// The token that stands in a body for the variable named `key`.
pub fn placeholder_for(key: &str) -> (token: Vec<char>)
    ensures
        token@ == placeholder(key@),
{
    let mut token: Vec<char> = Vec::new();
    token.push('{');
    token.push('%');
    token.push(' ');
    let name = to_chars(key);
    extend(&mut token, &name);
    token.push(' ');
    token.push('%');
    token.push('}');
    assert(token@ =~= placeholder(key@));
    token
}

fn failure(kind: ErrorKind, path: String, detail: String) -> (error: TemplateError)
    ensures
        error.kind == kind,
        error.path@ == path@,
        error.detail@ == detail@,
{
    TemplateError { kind, path, detail }
}

impl Template {
    /// The header of `content` that has to be decoded, where there is one.
    pub fn header(content: &str) -> (header: Option<String>)
        ensures
            match header {
                Some(text) => needs_decoding(content@) && text@ == header_of(content@),
                None => !needs_decoding(content@),
            },
    {
        let chars = to_chars(content);
        if !starts_with_delimiter(&chars) {
            return None;
        }
        match find_closing(&chars) {
            None => None,
            Some(end) => {
                proof {
                    lemma_closing_from(chars@, 0);
                }
                let between = slice(&chars, 3, end);
                let header = trimmed(&between);
                if header.len() == 0 {
                    None
                } else {
                    Some(from_chars(&header))
                }
            },
        }
    }

    /// Makes the template that `content` at `path` holds, given what the
    /// decoder made of its header: its entries, or its complaint.
    #[verifier::loop_isolation(false)]
    pub fn assemble(path: String, content: String, decoded: Result<
        Vec<(String, Decoded)>,
        String,
    >) -> (made: Result<Template, TemplateError>)
        ensures
            outcome(made) == assemble_spec(path@, content@, decoded_view(decoded)),
            made matches Ok(template) ==> well_formed(template@),
            made matches Err(error) ==> error.path@ == path@ && assemble_detail(
                error.kind,
                error.detail@,
                decoded,
            ),
    {
        let chars = to_chars(content.as_str());
        if !starts_with_delimiter(&chars) {
            return Err(failure(ErrorKind::MissingHeaderStart, path, String::new()));
        }
        let end = match find_closing(&chars) {
            None => {
                return Err(failure(ErrorKind::MissingHeaderEnd, path, String::new()));
            },
            Some(end) => end,
        };
        proof {
            lemma_closing_from(chars@, 0);
        }
        let between = slice(&chars, 3, end);
        let header = trimmed(&between);
        let mut variables = Variables::new();
        if header.len() > 0 {
            match decoded {
                Err(complaint) => {
                    return Err(failure(ErrorKind::HeaderDecodeError, path, complaint));
                },
                Ok(entries) => {
                    let ghost all = entries_view(entries@);
                    let mut i: usize = 0;
                    while i < entries.len()
                        invariant
                            i <= entries.len(),
                            all == entries_view(entries@),
                            collect(all, i as int) == Some(variables@),
                            forall|j: int| 0 <= j < i ==> accepted((#[trigger] all[j]).1) is Some,
                        decreases entries.len() - i,
                    {
                        match Value::from_decoded(&entries[i].1) {
                            None => {
                                assert(first_refused(all, i as int));
                                assert(collect(all, all.len() as int) is None) by {
                                    assert(collect(all, i as int + 1) is None);
                                    lemma_collect_fails(all, i as int + 1, all.len() as int);
                                }
                                return Err(
                                    failure(
                                        ErrorKind::HeaderDecodeError,
                                        path,
                                        entries[i].0.clone(),
                                    ),
                                );
                            },
                            Some(value) => {
                                variables.insert(entries[i].0.clone(), value);
                            },
                        }
                        i += 1;
                    }
                },
            }
        }
        let rest = slice(&chars, end + 4, chars.len());
        assert(rest@ =~= chars@.skip(end + 4));
        let body = trimmed(&rest);
        if body.len() == 0 {
            return Err(failure(ErrorKind::EmptyBody, path, String::new()));
        }
        proof {
            if header@.len() > 0 {
                let entries = decoded_view(decoded)->0;
                lemma_collect_distinct(entries, entries.len() as int);
            }
        }
        Ok(Template { path, content, variables })
    }

    /// Reads the template that `content`, the text of the file at `path`,
    /// holds.
    pub fn parse(path: &str, content: &str) -> (made: Result<Template, TemplateError>)
        ensures
            outcome(made) == parse_spec(path@, content@),
            made matches Ok(template) ==> well_formed(template@),
            made matches Err(error) ==> error.path@ == path@ && parse_detail(
                error.kind,
                error.detail@,
                content@,
            ),
    {
        let decoded = match Template::header(content) {
            Some(header) => match decode_mapping(header.as_str()) {
                Ok(entries) => Ok(entries),
                Err(error) => Err(error_message(&error)),
            },
            None => Err(String::new()),
        };
        Template::assemble(path.to_owned(), content.to_owned(), decoded)
    }
    /// The body of this template with the placeholders of its variables
    /// filled: a string with its own text, null with `null`, and a sequence
    /// with what the encoder wrote for it, trimmed. `texts` holds for each
    /// variable in turn what the encoder wrote, its text or its complaint;
    /// only the entries of sequences are looked at.
    #[verifier::loop_isolation(false)]
    pub fn substitute_with(&self, texts: &Vec<Result<String, String>>) -> (made: Result<
        String,
        TemplateError,
    >)
        ensures
            text_outcome(made) == substitute_spec(self@, texts_view(texts@)),
            made matches Err(error) ==> error.path@ == self.path@ && substitute_detail(
                error.kind,
                error.detail@,
                self.variables@,
                texts@,
            ),
    {
        let ghost given = texts_view(texts@);
        let chars = to_chars(self.content.as_str());
        let end = match find_closing(&chars) {
            None => {
                return Err(failure(ErrorKind::MissingHeaderEnd, self.path.clone(), String::new()));
            },
            Some(end) => end,
        };
        let rest = slice(&chars, end + 4, chars.len());
        assert(rest@ =~= chars@.skip(end + 4));
        let mut body = trimmed(&rest);
        if body.len() == 0 {
            return Err(failure(ErrorKind::EmptyBody, self.path.clone(), String::new()));
        }
        let count = self.variables.len();
        let mut k: usize = 0;
        while k < count
            invariant
                k <= count,
                count == self.variables@.len(),
                all_written(self.variables@, given, k as int),
                body@ == fill(body_of(self.content@), self.variables@, given, k as int),
            decreases count - k,
        {
            let key = self.variables.key_at(k);
            let text = match self.variables.value_at(k) {
                Value::String(text) => to_chars(text.as_str()),
                Value::Null => to_chars("null"),
                Value::Sequence(_) => {
                    if k >= texts.len() {
                        assert(first_unwritten(self.variables@, given, k as int, count as int));
                        return Err(
                            failure(ErrorKind::RenderError, self.path.clone(), key.clone()),
                        );
                    }
                    match &texts[k] {
                        Err(complaint) => {
                            assert(first_unwritten(
                                self.variables@,
                                given,
                                k as int,
                                count as int,
                            ));
                            return Err(
                                failure(
                                    ErrorKind::RenderError,
                                    self.path.clone(),
                                    complaint.clone(),
                                ),
                            );
                        },
                        Ok(text) => {
                            assert(encoded(given, k as int) == Some(text@));
                            trimmed(&to_chars(text.as_str()))
                        },
                    }
                },
            };
            assert(written(self.variables@, given, k as int) == Some(text@));
            let token = placeholder_for(key.as_str());
            body = replaced(&body, &token, &text);
            k += 1;
        }
        Ok(from_chars(&body))
    }

    /// The body of this template with the placeholders of its variables
    /// filled with their values: a string with its own text, null with
    /// `null`, and a sequence with what the encoder writes for it, trimmed.
    pub fn substitute(&self) -> (made: Result<String, TemplateError>)
        ensures
            text_outcome(made) == substitute_spec(self@, renderings(self@.variables)),
            made matches Err(error) ==> error.path@ == self.path@,
    {
        let mut texts: Vec<Result<String, String>> = Vec::new();
        let count = self.variables.len();
        let mut i: usize = 0;
        while i < count
            invariant
                i <= count,
                count == self.variables@.len(),
                texts@.len() == i,
                forall|j: int|
                    0 <= j < i ==> (#[trigger] texts_view(texts@)[j]) == rendering(
                        self.variables@[j].1,
                    ),
            decreases count - i,
        {
            let value = self.variables.value_at(i);
            let text = match value {
                Value::Sequence(items) => match render(items) {
                    Ok(text) => Ok(text),
                    Err(error) => Err(error_message(&error)),
                },
                _ => Err(String::new()),
            };
            let ghost before = texts@;
            texts.push(text);
            assert forall|j: int| 0 <= j < i + 1 implies (#[trigger] texts_view(texts@)[j])
                == rendering(self.variables@[j].1) by {
                if j < i {
                    assert(texts_view(before)[j] == rendering(self.variables@[j].1));
                    assert(texts@[j] == before[j]);
                }
            }
            i += 1;
        }
        assert(texts_view(texts@) =~= renderings(self@.variables));
        self.substitute_with(&texts)
    }
}

/// The name of the variable that holds the path a template is applied to.
pub open spec fn filename_key() -> Seq<char> {
    "filename"@
}

/// The name of the variable that holds the command run on an applied file.
pub open spec fn command_key() -> Seq<char> {
    "command"@
}

/// The name of the variable that holds the groups of a template.
pub open spec fn groups_key() -> Seq<char> {
    "groups"@
}

/// The groups that `variables` put a template in: the items of the
/// variable `groups` where it is a sequence, and none otherwise.
pub open spec fn groups_of(variables: Seq<(Seq<char>, ValueView)>) -> Option<Seq<Seq<char>>> {
    match lookup(variables, groups_key()) {
        Some(ValueView::Sequence(items)) => Some(items),
        _ => None,
    }
}

/// `template` with the variable `key` set to `value`.
pub open spec fn replace_spec(template: TemplateView, key: Seq<char>, value: ValueView) -> TemplateView {
    TemplateView {
        path: template.path,
        content: template.content,
        variables: upsert(template.variables, key, value),
    }
}

/// What a refusal of the kind `kind` says of the file at `path`.
pub open spec fn message_spec(kind: ErrorKind, path: Seq<char>, detail: Seq<char>) -> Seq<char> {
    match kind {
        ErrorKind::MissingHeaderStart => "invalid template: "@ + path
            + ", template must start with `---` to specify its frontmatter"@,
        ErrorKind::MissingHeaderEnd => "invalid template: "@ + path
            + ", template must contain a frontmatter ending with `---`"@,
        ErrorKind::HeaderDecodeError => "invalid template: "@ + path
            + ", frontmatter cannot be decoded: "@ + detail,
        ErrorKind::EmptyBody => "invalid template: "@ + path + ", file must contain content"@,
        ErrorKind::RenderError => "invalid template: "@ + path
            + ", value cannot be written: "@ + detail,
        ErrorKind::NameUnavailable => "failed to get template name: "@ + path,
    }
}

impl TemplateError {
    /// What this refusal says, for a person to read.
    pub fn message(&self) -> (text: String)
        ensures
            text@ == message_spec(self.kind, self.path@, self.detail@),
    {
        match self.kind {
            ErrorKind::MissingHeaderStart => String::from_str("invalid template: ").concat(
                self.path.as_str(),
            ).concat(", template must start with `---` to specify its frontmatter"),
            ErrorKind::MissingHeaderEnd => String::from_str("invalid template: ").concat(
                self.path.as_str(),
            ).concat(", template must contain a frontmatter ending with `---`"),
            ErrorKind::HeaderDecodeError => String::from_str("invalid template: ").concat(
                self.path.as_str(),
            ).concat(", frontmatter cannot be decoded: ").concat(self.detail.as_str()),
            ErrorKind::EmptyBody => String::from_str("invalid template: ").concat(
                self.path.as_str(),
            ).concat(", file must contain content"),
            ErrorKind::RenderError => String::from_str("invalid template: ").concat(
                self.path.as_str(),
            ).concat(", value cannot be written: ").concat(self.detail.as_str()),
            ErrorKind::NameUnavailable => String::from_str("failed to get template name: ").concat(
                self.path.as_str(),
            ),
        }
    }
}

impl Template {
    /// The name of this template: the stem of its file.
    pub fn name(&self) -> (name: Result<String, TemplateError>)
        ensures
            match name {
                Ok(stem) => file_stem(self.path@) == Some(stem@),
                Err(error) => file_stem(self.path@) is None && error.kind
                    == ErrorKind::NameUnavailable && error.path@ == self.path@,
            },
    {
        match stem_of(self.path.as_str()) {
            Some(stem) => Ok(stem),
            None => Err(failure(ErrorKind::NameUnavailable, self.path.clone(), String::new())),
        }
    }

    /// The value of the variable `filename`, where it is set.
    pub fn filename(&self) -> (value: Option<Value>)
        ensures
            match value {
                Some(v) => lookup(self.variables@, filename_key()) == Some(v@),
                None => lookup(self.variables@, filename_key()) is None,
            },
    {
        match self.variables.get("filename") {
            Some(value) => Some(value.duplicate()),
            None => None,
        }
    }

    /// The value of the variable `command`, where it is set.
    pub fn command(&self) -> (value: Option<Value>)
        ensures
            match value {
                Some(v) => lookup(self.variables@, command_key()) == Some(v@),
                None => lookup(self.variables@, command_key()) is None,
            },
    {
        match self.variables.get("command") {
            Some(value) => Some(value.duplicate()),
            None => None,
        }
    }

    /// The groups of this template: the items of the variable `groups`
    /// where it is a sequence. A template whose `groups` is not set, or is
    /// set to anything else, has none.
    pub fn groups(&self) -> (groups: Option<Vec<String>>)
        ensures
            match groups {
                Some(items) => groups_of(self.variables@) == Some(crate::value::texts(items@)),
                None => groups_of(self.variables@) is None,
            },
    {
        match self.variables.get("groups") {
            Some(value) => match value.duplicate() {
                Value::Sequence(items) => Some(items),
                _ => None,
            },
            None => None,
        }
    }

    /// Sets the variable `variable` to `value`. The content stays as it is.
    pub fn replace_variable(&mut self, variable: &str, value: Value)
        ensures
            final(self)@ == replace_spec(old(self)@, variable@, value@),
            distinct_keys(final(self)@.variables),
    {
        self.variables.insert(variable.to_owned(), value);
    }

    /// A copy of this template.
    pub fn duplicate(&self) -> (copy: Template)
        ensures
            copy@ == self@,
    {
        Template {
            path: self.path.clone(),
            content: self.content.clone(),
            variables: self.variables.duplicate(),
        }
    }
}

/// Once an entry is refused, the whole header is.
pub proof fn lemma_collect_fails(entries: Seq<(Seq<char>, DecodedView)>, n: int, m: int)
    requires
        n <= m,
        collect(entries, n) is None,
    ensures
        collect(entries, m) is None,
    decreases m - n,
{
    if n < m {
        lemma_collect_fails(entries, n, m - 1);
    }
}

} // verus!
