//! What holds of templates whatever their content: statements that relate
//! reading, changing and substituting, each proved from the definitions.

use crate::template::{
    all_written, body_of, closing, fill, header_of, header_variables, opens, parse_spec,
    placeholder, renderings, replace_spec, substitute_spec, value_text, well_formed, written,
    ErrorKind, TemplateView,
};
use crate::text::{
    lemma_replace_absent, lemma_replace_around, lemma_replace_first, occurs, occurs_at,
    replace_all, trim,
};
use crate::path::{file_stem, lemma_stem_of_named_file};
use crate::store::{
    contains_spec, distinct_paths, file_path, filtered, has_path, in_groups, lemma_put,
    lemma_without, named, parse_all, path_index, plain_name, put, templates_spec, without, Files,
};
use crate::value::ValueView;
use crate::variables::{distinct_keys, has_key, index_of, lemma_upsert, lookup};
use crate::yaml::{yaml_mapping, yaml_rendering};
use vstd::prelude::*;

verus! {

/// Content that does not begin with the delimiter is refused for its missing
/// header start, whatever else it holds.
pub proof fn law_missing_start(path: Seq<char>, content: Seq<char>)
    requires
        !opens(content),
    ensures
        parse_spec(path, content) == Err::<TemplateView, ErrorKind>(ErrorKind::MissingHeaderStart),
{
}

/// Content that begins with the delimiter and has no delimiter line behind
/// it is refused for its missing header end.
pub proof fn law_missing_end(path: Seq<char>, content: Seq<char>)
    requires
        opens(content),
        closing(content) is None,
    ensures
        parse_spec(path, content) == Err::<TemplateView, ErrorKind>(ErrorKind::MissingHeaderEnd),
{
}

/// Content whose header is closed and taken, and whose body holds nothing
/// but white space, is refused for its empty body.
pub proof fn law_empty_body(path: Seq<char>, content: Seq<char>)
    requires
        opens(content),
        closing(content) is Some,
        header_variables(header_of(content), yaml_mapping(header_of(content))) is Some,
        body_of(content).len() == 0,
    ensures
        parse_spec(path, content) == Err::<TemplateView, ErrorKind>(ErrorKind::EmptyBody),
{
}

/// A template that was read is well formed, and keeps the path and the
/// content it was read from.
pub proof fn law_parsed_is_well_formed(path: Seq<char>, content: Seq<char>)
    ensures
        parse_spec(path, content) matches Ok(template) ==> well_formed(template)
            && template.path == path && template.content == content,
{
    if parse_spec(path, content) is Ok {
        let decoded = yaml_mapping(header_of(content));
        if header_of(content).len() > 0 {
            crate::template::lemma_collect_distinct(decoded->0, decoded->0.len() as int);
        }
    }
}

/// A well formed template whose values can all be written substitutes
/// without a refusal.
pub proof fn law_well_formed_substitutes(template: TemplateView, texts: Seq<Option<Seq<char>>>)
    requires
        well_formed(template),
        all_written(template.variables, texts, template.variables.len() as int),
    ensures
        substitute_spec(template, texts) is Ok,
{
}

/// A string is written as its own text, letter for letter, and null as
/// `null`, whatever the encoder would make of them; a sequence is written
/// as what the encoder writes for it, without the white space around it.
pub proof fn law_written_text(text: Seq<char>, items: Seq<Seq<char>>)
    ensures
        value_text(ValueView::String(text)) == Some(text),
        value_text(ValueView::Null) == Some("null"@),
        value_text(ValueView::Sequence(items)) == match yaml_rendering(items) {
            Some(encoded) => Some(trim(encoded)),
            None => None,
        },
{
}

/// With one variable, substitution is one replacement: every occurrence of
/// the variable's placeholder in the body gives way to the text that its
/// value is written as, from the left, and nothing else changes.
pub proof fn law_single_variable(
    template: TemplateView,
    key: Seq<char>,
    value: ValueView,
    text: Seq<char>,
)
    requires
        well_formed(template),
        template.variables == seq![(key, value)],
        value_text(value) == Some(text),
    ensures
        substitute_spec(template, renderings(template.variables)) == Ok::<Seq<char>, ErrorKind>(
            replace_all(body_of(template.content), placeholder(key), text),
        ),
{
    let texts = renderings(template.variables);
    assert(written(template.variables, texts, 0) == Some(text));
    assert(all_written(template.variables, texts, 1));
    let body = body_of(template.content);
    assert(fill(body, template.variables, texts, 0) == body);
    assert(fill(body, template.variables, texts, 1) == replace_all(
        fill(body, template.variables, texts, 0),
        placeholder(template.variables[0].0),
        written(template.variables, texts, 0)->0,
    ));
}

/// With one variable, the first placeholder of the variable in the body
/// gives way to the text that its value is written as; what stands before
/// it stays as it is, and what follows it is substituted in the same way.
pub proof fn law_placeholder_gives_way(
    template: TemplateView,
    key: Seq<char>,
    value: ValueView,
    text: Seq<char>,
    before: Seq<char>,
    after: Seq<char>,
)
    requires
        well_formed(template),
        template.variables == seq![(key, value)],
        value_text(value) == Some(text),
        body_of(template.content) == before + placeholder(key) + after,
        forall|at: int|
            at < before.len() ==> !occurs_at(
                before + placeholder(key) + after,
                at,
                placeholder(key),
            ),
    ensures
        substitute_spec(template, renderings(template.variables)) == Ok::<Seq<char>, ErrorKind>(
            before + text + replace_all(after, placeholder(key), text),
        ),
{
    law_single_variable(template, key, value, text);
    assert(placeholder(key).len() > 0);
    lemma_replace_first(before, after, placeholder(key), text);
}

/// Where no placeholder of the first `n` variables occurs in `body`,
/// filling them in leaves `body` as it is.
pub proof fn lemma_fill_absent(
    body: Seq<char>,
    variables: Seq<(Seq<char>, ValueView)>,
    texts: Seq<Option<Seq<char>>>,
    n: int,
)
    requires
        n <= variables.len(),
        forall|i: int| 0 <= i < n ==> !occurs(body, placeholder(#[trigger] variables[i].0)),
    ensures
        fill(body, variables, texts, n) == body,
    decreases n,
{
    if n > 0 {
        lemma_fill_absent(body, variables, texts, n - 1);
        assert(!occurs(body, placeholder(variables[n - 1].0)));
        lemma_replace_absent(
            body,
            placeholder(variables[n - 1].0),
            written(variables, texts, n - 1)->0,
        );
    }
}

/// A body in which no placeholder of a variable occurs comes out of the
/// substitution as it went in: placeholders that name no variable stay
/// where they are, letter for letter.
pub proof fn law_unknown_placeholders_stay(template: TemplateView, texts: Seq<Option<Seq<char>>>)
    requires
        well_formed(template),
        all_written(template.variables, texts, template.variables.len() as int),
        forall|i: int|
            0 <= i < template.variables.len() ==> !occurs(
                body_of(template.content),
                placeholder(#[trigger] template.variables[i].0),
            ),
    ensures
        substitute_spec(template, texts) == Ok::<Seq<char>, ErrorKind>(body_of(template.content)),
{
    lemma_fill_absent(
        body_of(template.content),
        template.variables,
        texts,
        template.variables.len() as int,
    );
}

/// With one variable, a placeholder `unknown` in the body that no
/// occurrence of the variable's own placeholder touches is carried over
/// as it stands, and what is before and behind it is substituted by itself.
pub proof fn law_untouched_placeholder_stays(
    template: TemplateView,
    key: Seq<char>,
    value: ValueView,
    text: Seq<char>,
    before: Seq<char>,
    unknown: Seq<char>,
    after: Seq<char>,
)
    requires
        well_formed(template),
        template.variables == seq![(key, value)],
        value_text(value) == Some(text),
        body_of(template.content) == before + unknown + after,
        forall|at: int|
            at < before.len() + unknown.len() && at + placeholder(key).len() > before.len()
                ==> !occurs_at(before + unknown + after, at, placeholder(key)),
    ensures
        substitute_spec(template, renderings(template.variables)) == Ok::<Seq<char>, ErrorKind>(
            replace_all(before, placeholder(key), text) + unknown + replace_all(
                after,
                placeholder(key),
                text,
            ),
        ),
{
    law_single_variable(template, key, value, text);
    assert(placeholder(key).len() > 0);
    lemma_replace_around(before, unknown, after, placeholder(key), text);
}

/// Setting a variable changes what is substituted and nothing that is
/// stored: the variable has its new value, which is the one written for it,
/// every other variable has the value it had, and the content reads as the
/// template it read as before.
pub proof fn law_replace_variable(
    template: TemplateView,
    key: Seq<char>,
    value: ValueView,
    other: Seq<char>,
)
    requires
        distinct_keys(template.variables),
    ensures
        ({
            let changed = replace_spec(template, key, value);
            &&& parse_spec(changed.path, changed.content) == parse_spec(
                template.path,
                template.content,
            )
            &&& distinct_keys(changed.variables)
            &&& lookup(changed.variables, key) == Some(value)
            &&& other != key ==> lookup(changed.variables, other) == lookup(
                template.variables,
                other,
            )
            &&& has_key(changed.variables, key)
            &&& written(
                changed.variables,
                renderings(changed.variables),
                index_of(changed.variables, key),
            ) == value_text(value)
        }),
{
    lemma_upsert(template.variables, key, value, other);
    let changed = replace_spec(template, key, value);
    let at = index_of(changed.variables, key);
    assert(has_key(changed.variables, key));
    assert(0 <= at < changed.variables.len() && changed.variables[at].0 == key);
    assert(changed.variables[at].1 == value);
}

/// A filter with groups keeps the templates that belong to one of its
/// groups and no others; without groups, and without a filter, every
/// template is kept.
pub proof fn law_filter_keeps_members(
    templates: Seq<TemplateView>,
    groups: Seq<Seq<char>>,
    template: TemplateView,
)
    ensures
        filtered(templates, None) == templates,
        filtered(templates, Some(Seq::empty())) == templates,
        groups.len() > 0 ==> (filtered(templates, Some(groups)).contains(template) <==> (
        templates.contains(template) && in_groups(template, groups))),
{
    if groups.len() > 0 {
        let wanted = |candidate: TemplateView| in_groups(candidate, groups);
        let kept = templates.filter(wanted);
        if kept.contains(template) {
            templates.lemma_filter_contains_rev(wanted, template);
            let at = choose|i: int| 0 <= i < kept.len() && kept[i] == template;
            templates.lemma_filter_pred(wanted, at);
        }
        if templates.contains(template) && in_groups(template, groups) {
            let at = choose|i: int| 0 <= i < templates.len() && templates[i] == template;
            templates.lemma_filter_contains(wanted, at);
        }
    }
}

/// The file of a plain name has that name for its stem: a template that is
/// written under a plain name is known by that name.
pub proof fn law_written_name(root: Seq<char>, name: Seq<char>)
    requires
        plain_name(name),
    ensures
        file_stem(file_path(root, name)) == Some(name),
{
    reveal_strlit(".skeleton");
    let extension = ".skeleton"@;
    assert(extension.len() == 9);
    assert(extension[0] == '.');
    lemma_stem_of_named_file(root, name, extension);
}

/// Where the first `n` files all hold templates, the listing has one
/// template for each file, in their order, with the file's path and content.
pub proof fn lemma_parse_all_shape(files: Files, n: int)
    requires
        0 <= n <= files.len(),
        parse_all(files, n) is Ok,
    ensures
        parse_all(files, n)->Ok_0.len() == n,
        forall|i: int|
            0 <= i < n ==> (#[trigger] parse_all(files, n)->Ok_0[i]).path == files[i].0
                && parse_all(files, n)->Ok_0[i].content == files[i].1,
    decreases n,
{
    if n > 0 {
        lemma_parse_all_shape(files, n - 1);
        law_parsed_is_well_formed(files[n - 1].0, files[n - 1].1);
    }
}

/// Writing twice under one name is writing the second content once: the
/// store holds one file for the name, and it holds what was written last.
pub proof fn law_overwrite(
    files: Files,
    root: Seq<char>,
    name: Seq<char>,
    first: Seq<char>,
    second: Seq<char>,
)
    requires
        distinct_paths(files),
    ensures
        ({
            let path = file_path(root, name);
            let after = put(put(files, path, first), path, second);
            &&& after == put(files, path, second)
            &&& distinct_paths(after)
            &&& has_path(after, path)
            &&& after[path_index(after, path)] == (path, second)
        }),
{
    let path = file_path(root, name);
    let once = put(files, path, first);
    lemma_put(files, path, first);
    lemma_put(once, path, second);
    lemma_put(files, path, second);
    let at = path_index(once, path);
    if has_path(files, path) {
        let there = path_index(files, path);
        assert(once[there].0 == path);
        if at != there {
            assert(once[at].0 == once[there].0);
        }
    } else {
        let there = files.len() as int;
        assert(once[there].0 == path);
        if at != there {
            assert(once[at].0 == once[there].0);
        }
    }
    assert(put(once, path, second) =~= put(files, path, second));
}

/// After two writes under a plain name that no other file's stem is, a
/// listing that succeeds shows one template of that name, and its content
/// is what was written last.
pub proof fn law_overwrite_lists_once(
    files: Files,
    root: Seq<char>,
    name: Seq<char>,
    first: Seq<char>,
    second: Seq<char>,
)
    requires
        distinct_paths(files),
        plain_name(name),
        forall|i: int|
            0 <= i < files.len() && (#[trigger] files[i]).0 != file_path(root, name)
                ==> file_stem(files[i].0) != Some(name),
        templates_spec(
            put(put(files, file_path(root, name), first), file_path(root, name), second),
            None,
        ) is Ok,
    ensures
        ({
            let path = file_path(root, name);
            let after = put(put(files, path, first), path, second);
            let listed = templates_spec(after, None)->Ok_0;
            let at = path_index(after, path);
            &&& 0 <= at < listed.len()
            &&& file_stem(listed[at].path) == Some(name)
            &&& listed[at].content == second
            &&& forall|j: int|
                0 <= j < listed.len() && j != at ==> file_stem((#[trigger] listed[j]).path)
                    != Some(name)
        }),
{
    let path = file_path(root, name);
    let after = put(put(files, path, first), path, second);
    law_overwrite(files, root, name, first, second);
    law_written_name(root, name);
    lemma_parse_all_shape(after, after.len() as int);
    let listed = templates_spec(after, None)->Ok_0;
    let at = path_index(after, path);
    assert(listed[at].path == after[at].0);
    assert forall|j: int| 0 <= j < listed.len() && j != at implies file_stem(
        (#[trigger] listed[j]).path,
    ) != Some(name) by {
        assert(listed[j].path == after[j].0);
        if j < at {
            assert(after[j].0 != after[at].0);
        } else {
            assert(after[at].0 != after[j].0);
        }
        if has_path(files, path) {
            assert(after[j] == files[j]);
        } else {
            assert(at == files.len()) by {
                assert(after[files.len() as int].0 == path);
                if at != files.len() {
                    assert(after[at].0 == after[files.len() as int].0);
                }
            }
            assert(after[j] == files[j]);
        }
    }
}

/// After a write under a plain name that no other file's stem is, and the
/// deletion of the file that was written, the store holds what it held
/// without that file, and the question whether it holds a template of that
/// name is not answered with yes.
pub proof fn law_deleted_is_gone(
    files: Files,
    root: Seq<char>,
    name: Seq<char>,
    content: Seq<char>,
)
    requires
        distinct_paths(files),
        plain_name(name),
        forall|i: int|
            0 <= i < files.len() && (#[trigger] files[i]).0 != file_path(root, name)
                ==> file_stem(files[i].0) != Some(name),
    ensures
        ({
            let path = file_path(root, name);
            let after = without(put(files, path, content), path);
            &&& after == without(files, path)
            &&& !has_path(after, path)
            &&& contains_spec(after, name) != Ok::<bool, ErrorKind>(true)
            &&& parse_all(after, after.len() as int) is Ok ==> contains_spec(after, name) == Ok::<
                bool,
                ErrorKind,
            >(false)
        }),
{
    let path = file_path(root, name);
    let written = put(files, path, content);
    let after = without(written, path);
    lemma_put(files, path, content);
    lemma_without(written, path);
    lemma_without(files, path);
    let at = path_index(written, path);
    if has_path(files, path) {
        let there = path_index(files, path);
        assert(written[there].0 == path);
        if at != there {
            assert(written[at].0 == written[there].0);
        }
    } else {
        let there = files.len() as int;
        assert(written[there].0 == path);
        if at != there {
            assert(written[at].0 == written[there].0);
        }
    }
    assert(after =~= without(files, path));
    if parse_all(after, after.len() as int) is Ok {
        lemma_parse_all_shape(after, after.len() as int);
        let listed = parse_all(after, after.len() as int)->Ok_0;
        assert(!named(listed, name)) by {
            if named(listed, name) {
                let i = choose|i: int|
                    0 <= i < listed.len() && file_stem((#[trigger] listed[i]).path) == Some(name);
                assert(listed[i].path == after[i].0);
                assert(after[i].0 != path);
                if has_path(files, path) {
                    let there = path_index(files, path);
                    let before = if i < there { i } else { i + 1 };
                    assert(after[i] == files[before]);
                } else {
                    assert(after[i] == files[i]);
                }
            }
        }
    }
}

} // verus!
