//! Listing the templates: their names in order.

use crate::path::file_stem;
use crate::store::templates_view;
use crate::template::{ErrorKind, Template, TemplateError, TemplateView};
use crate::text::{from_chars, to_chars};
use vstd::prelude::*;

verus! {

/// `first` does not come behind `second` in the order of a dictionary whose
/// letters are ordered by their code points. This is the order of `String`.
pub open spec fn precedes(first: Seq<char>, second: Seq<char>) -> bool
    decreases first.len(),
{
    if first.len() == 0 {
        true
    } else if second.len() == 0 {
        false
    } else if first[0] != second[0] {
        (first[0] as u32) < (second[0] as u32)
    } else {
        precedes(first.skip(1), second.skip(1))
    }
}

/// `names` are in order.
pub open spec fn ordered(names: Seq<Seq<char>>) -> bool {
    forall|i: int, j: int| 0 <= i < j < names.len() ==> precedes(names[i], names[j])
}

/// Of two texts one does not come behind the other.
pub proof fn lemma_precedes_total(first: Seq<char>, second: Seq<char>)
    ensures
        precedes(first, second) || precedes(second, first),
    decreases first.len(),
{
    if first.len() > 0 && second.len() > 0 {
        if first[0] == second[0] {
            lemma_precedes_total(first.skip(1), second.skip(1));
        } else {
            vstd::utf8::char_u32_cast(first[0], first[0] as u32);
            vstd::utf8::char_u32_cast(second[0], second[0] as u32);
        }
    }
}

/// What does not come behind a text that does not come behind a third does
/// not come behind the third.
pub proof fn lemma_precedes_transitive(first: Seq<char>, second: Seq<char>, third: Seq<char>)
    requires
        precedes(first, second),
        precedes(second, third),
    ensures
        precedes(first, third),
    decreases first.len(),
{
    if first.len() > 0 && second.len() > 0 && third.len() > 0 {
        if first[0] == second[0] && second[0] == third[0] {
            lemma_precedes_transitive(first.skip(1), second.skip(1), third.skip(1));
        }
    }
}

/// Tells whether `first` does not come behind `second`.
pub fn comes_first(first: &Vec<char>, second: &Vec<char>) -> (b: bool)
    ensures
        b == precedes(first@, second@),
{
    let mut i: usize = 0;
    assert(first@.skip(0) =~= first@);
    assert(second@.skip(0) =~= second@);
    loop
        invariant
            i <= first.len(),
            i <= second.len(),
            precedes(first@, second@) == precedes(first@.skip(i as int), second@.skip(i as int)),
        decreases first.len() - i,
    {
        if i == first.len() {
            return true;
        }
        if i == second.len() {
            return false;
        }
        if first[i] != second[i] {
            return (first[i] as u32) < (second[i] as u32);
        }
        assert(first@.skip(i as int).skip(1) =~= first@.skip(i + 1));
        assert(second@.skip(i as int).skip(1) =~= second@.skip(i + 1));
        i += 1;
    }
}

/// The texts of `names`, each as its characters.
pub open spec fn rows(names: Seq<Vec<char>>) -> Seq<Seq<char>> {
    Seq::new(names.len(), |i: int| names[i]@)
}

/// `names` in order: the same names, as often as they were there.
pub fn sort_names(names: &Vec<String>) -> (sorted: Vec<String>)
    ensures
        ordered(crate::value::texts(sorted@)),
        crate::value::texts(sorted@).to_multiset() == crate::value::texts(names@).to_multiset(),
{
    let ghost given = crate::value::texts(names@);
    let mut placed: Vec<Vec<char>> = Vec::new();
    let mut i: usize = 0;
    assert(rows(placed@) =~= given.take(0));
    assert(given.take(0).to_multiset() =~= rows(placed@).to_multiset());
    while i < names.len()
        invariant
            i <= names.len(),
            given == crate::value::texts(names@),
            ordered(rows(placed@)),
            rows(placed@).to_multiset() == given.take(i as int).to_multiset(),
        decreases names.len() - i,
    {
        let name = to_chars(names[i].as_str());
        let mut at: usize = 0;
        while at < placed.len() && comes_first(&placed[at], &name)
            invariant
                at <= placed.len(),
                forall|q: int| 0 <= q < at ==> precedes(#[trigger] rows(placed@)[q], name@),
            decreases placed.len() - at,
        {
            at += 1;
        }
        let ghost before = rows(placed@);
        placed.insert(at, name);
        proof {
            let after = rows(placed@);
            assert(after =~= before.insert(at as int, name@));
            assert forall|a: int, b: int| 0 <= a < b < after.len() implies precedes(
                after[a],
                after[b],
            ) by {
                if b < at {
                    assert(after[a] == before[a] && after[b] == before[b]);
                } else if b == at {
                    assert(after[a] == before[a]);
                } else if a == at {
                    assert(after[b] == before[b - 1]);
                    lemma_precedes_total(before[at as int], name@);
                    if b - 1 > at {
                        lemma_precedes_transitive(name@, before[at as int], before[b - 1]);
                    }
                } else if a < at {
                    assert(after[a] == before[a] && after[b] == before[b - 1]);
                } else {
                    assert(after[a] == before[a - 1] && after[b] == before[b - 1]);
                }
            }
            assert(after.remove(at as int) =~= before);
            vstd::seq_lib::to_multiset_remove(after, at as int);
            after.to_multiset_ensures();
            assert(after.contains(name@)) by {
                assert(after[at as int] == name@);
            }
            assert(after.to_multiset() =~= before.to_multiset().insert(name@));
            assert(given.take(i + 1) =~= given.take(i as int).push(name@));
            vstd::seq_lib::to_multiset_build(given.take(i as int), name@);
        }
        i += 1;
    }
    assert(given.take(i as int) =~= given);
    let mut sorted: Vec<String> = Vec::new();
    let mut k: usize = 0;
    while k < placed.len()
        invariant
            k <= placed.len(),
            sorted@.len() == k,
            forall|j: int| 0 <= j < k ==> (#[trigger] sorted@[j])@ == placed@[j]@,
        decreases placed.len() - k,
    {
        sorted.push(from_chars(&placed[k]));
        k += 1;
    }
    assert(crate::value::texts(sorted@) =~= rows(placed@));
    sorted
}

/// The names of `templates`, where each of them has one.
pub open spec fn names_of(templates: Seq<TemplateView>) -> Option<Seq<Seq<char>>> {
    if forall|i: int| 0 <= i < templates.len() ==> file_stem((#[trigger] templates[i]).path) is Some {
        Some(Seq::new(templates.len(), |i: int| file_stem(templates[i].path)->0))
    } else {
        None
    }
}

/// The names of `templates` in order, as a listing shows them. A template
/// without a name fails the listing.
pub fn listing(templates: &Vec<Template>) -> (shown: Result<Vec<String>, TemplateError>)
    ensures
        match shown {
            Ok(names) => names_of(templates_view(templates@)) matches Some(given) && ordered(
                crate::value::texts(names@),
            ) && crate::value::texts(names@).to_multiset() == given.to_multiset(),
            Err(error) => names_of(templates_view(templates@)) is None && error.kind
                == ErrorKind::NameUnavailable && exists|i: int|
                0 <= i < templates@.len() && error.path@ == (#[trigger] templates@[i]).path@
                    && file_stem(templates@[i].path@) is None && forall|j: int|
                    0 <= j < i ==> file_stem((#[trigger] templates@[j]).path@) is Some,
        },
{
    let mut names: Vec<String> = Vec::new();
    let mut i: usize = 0;
    while i < templates.len()
        invariant
            i <= templates.len(),
            names@.len() == i,
            forall|j: int|
                0 <= j < i ==> file_stem(#[trigger] templates_view(templates@)[j].path) == Some(
                    names@[j]@,
                ),
            forall|j: int| 0 <= j < i ==> file_stem((#[trigger] templates@[j]).path@) is Some,
        decreases templates.len() - i,
    {
        match templates[i].name() {
            Ok(name) => {
                assert(templates_view(templates@)[i as int].path == templates@[i as int].path@);
                names.push(name);
            },
            Err(error) => {
                assert(file_stem(templates_view(templates@)[i as int].path) is None);
                return Err(error);
            },
        }
        i += 1;
    }
    assert(names_of(templates_view(templates@)) is Some) by {
        assert forall|j: int| 0 <= j < templates@.len() implies file_stem(
            (#[trigger] templates_view(templates@)[j]).path,
        ) is Some by {
            assert(file_stem(templates_view(templates@)[j].path) == Some(names@[j]@));
        }
    }
    assert(crate::value::texts(names@) =~= names_of(templates_view(templates@))->0);
    Ok(sort_names(&names))
}

} // verus!
