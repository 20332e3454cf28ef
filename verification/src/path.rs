//! Names of templates, taken from the paths of their files.

use crate::text::{from_chars, slice, to_chars};
use vstd::prelude::*;

verus! {

/// The index just behind the last `mark` in `text`, or 0 where there is none.
pub open spec fn after_last(text: Seq<char>, mark: char) -> int
    decreases text.len(),
{
    if text.len() == 0 {
        0
    } else if text.last() == mark {
        text.len() as int
    } else {
        after_last(text.drop_last(), mark)
    }
}

/// The last component of `path`: what follows its last `/`.
pub open spec fn file_name(path: Seq<char>) -> Seq<char> {
    path.skip(after_last(path, '/'))
}

/// The name of a file without its extension: what stands before the last `.`
/// of `name`, or all of `name` where it holds no `.`.
pub open spec fn without_extension(name: Seq<char>) -> Seq<char> {
    let dot = after_last(name, '.');
    if dot == 0 {
        name
    } else {
        name.take(dot - 1)
    }
}

/// The stem of the file at `path`, by which a template is known. A path has
/// none where nothing stands before the extension, and where it ends in `..`.
///
/// The last component is what follows the last `/`, as it stands. So a path
/// that ends in `/` or in `/.` has no stem here, where `Path::file_stem` of
/// std names the directory before it. A stored file never has such a path:
/// the store holds regular files, and those are named by their last
/// component.
pub open spec fn file_stem(path: Seq<char>) -> Option<Seq<char>> {
    let name = file_name(path);
    let stem = without_extension(name);
    if stem.len() == 0 || name == seq!['.', '.'] {
        None
    } else {
        Some(stem)
    }
}

/// Where `after_last` points lies in `text`, behind a `mark`, and no `mark`
/// follows.
pub proof fn lemma_after_last(text: Seq<char>, mark: char)
    ensures
        0 <= after_last(text, mark) <= text.len(),
        after_last(text, mark) > 0 ==> text[after_last(text, mark) - 1] == mark,
        forall|i: int| after_last(text, mark) <= i < text.len() ==> text[i] != mark,
    decreases text.len(),
{
    if text.len() > 0 && text.last() != mark {
        let rest = text.drop_last();
        lemma_after_last(rest, mark);
        assert forall|i: int| after_last(text, mark) <= i < text.len() implies text[i]
            != mark by {
            if i < rest.len() {
                assert(rest[i] == text[i]);
            }
        }
    }
}

/// In a text made of two parts, the last `mark` is the last one of the
/// second part, or of the first where the second holds none.
pub proof fn lemma_after_last_concat(first: Seq<char>, second: Seq<char>, mark: char)
    ensures
        after_last(first + second, mark) == if after_last(second, mark) > 0 {
            first.len() + after_last(second, mark)
        } else {
            after_last(first, mark)
        },
    decreases second.len(),
{
    let whole = first + second;
    if second.len() == 0 {
        assert(whole =~= first);
    } else {
        assert(whole.last() == second.last());
        assert(whole.drop_last() =~= first + second.drop_last());
        if second.last() != mark {
            lemma_after_last_concat(first, second.drop_last(), mark);
        }
    }
}

/// A text without `mark` has no last `mark`.
pub proof fn lemma_after_last_absent(text: Seq<char>, mark: char)
    requires
        forall|i: int| 0 <= i < text.len() ==> text[i] != mark,
    ensures
        after_last(text, mark) == 0,
    decreases text.len(),
{
    if text.len() > 0 {
        assert(text.last() == text[text.len() - 1]);
        let rest = text.drop_last();
        assert forall|i: int| 0 <= i < rest.len() implies rest[i] != mark by {
            assert(rest[i] == text[i]);
        }
        lemma_after_last_absent(rest, mark);
    }
}

/// A file named by a name and an extension has that name for its stem,
/// wherever it lies, provided the name is not empty and holds no `/`, and
/// the extension is a `.` with more behind it, and holds no other `.` and
/// no `/`.
pub proof fn lemma_stem_of_named_file(
    directory: Seq<char>,
    name: Seq<char>,
    extension: Seq<char>,
)
    requires
        name.len() > 0,
        forall|i: int| 0 <= i < name.len() ==> name[i] != '/',
        extension.len() > 1,
        extension[0] == '.',
        forall|i: int| 0 < i < extension.len() ==> extension[i] != '.',
        forall|i: int| 0 <= i < extension.len() ==> extension[i] != '/',
    ensures
        file_stem(directory + seq!['/'] + name + extension) == Some(name),
{
    let path = directory + seq!['/'] + name + extension;
    let base = name + extension;
    let head = directory + seq!['/'];
    assert(path =~= head + base);
    assert forall|i: int| 0 <= i < base.len() implies base[i] != '/' by {
        if i < name.len() {
            assert(base[i] == name[i]);
        } else {
            assert(base[i] == extension[i - name.len()]);
        }
    }
    lemma_after_last_absent(base, '/');
    lemma_after_last_concat(head, base, '/');
    assert(head.last() == '/');
    assert(after_last(head, '/') == head.len());
    assert(path.skip(head.len() as int) =~= base);
    assert(file_name(path) == base);
    let tail = extension.skip(1);
    assert(extension =~= seq!['.'] + tail);
    assert forall|i: int| 0 <= i < tail.len() implies tail[i] != '.' by {
        assert(tail[i] == extension[i + 1]);
    }
    lemma_after_last_absent(tail, '.');
    lemma_after_last_concat(seq!['.'], tail, '.');
    assert(seq!['.'].last() == '.');
    assert(after_last(seq!['.'], '.') == 1);
    assert(after_last(extension, '.') == 1);
    lemma_after_last_concat(name, extension, '.');
    assert(after_last(base, '.') == name.len() + 1);
    assert(base.take(name.len() as int) =~= name);
    assert(base.len() > 2);
    assert(seq!['.', '.'].len() == 2);
}

/// The index just behind the last `mark` in `text`.
fn last_mark(text: &Vec<char>, mark: char) -> (at: usize)
    ensures
        at == after_last(text@, mark),
        at <= text.len(),
{
    let mut at: usize = text.len();
    assert(text@.take(at as int) =~= text@);
    while at > 0 && text[at - 1] != mark
        invariant
            at <= text.len(),
            after_last(text@, mark) == after_last(text@.take(at as int), mark),
        decreases at,
    {
        assert(text@.take(at as int).drop_last() =~= text@.take(at - 1));
        at -= 1;
    }
    proof {
        lemma_after_last(text@.take(at as int), mark);
    }
    at
}

/// The stem of the file at `path`.
pub fn stem_of(path: &str) -> (stem: Option<String>)
    ensures
        match stem {
            Some(s) => file_stem(path@) == Some(s@),
            None => file_stem(path@) is None,
        },
{
    let chars = to_chars(path);
    let start = last_mark(&chars, '/');
    let name = slice(&chars, start, chars.len());
    assert(name@ =~= file_name(path@));
    let dot = last_mark(&name, '.');
    let stem = if dot == 0 {
        slice(&name, 0, name.len())
    } else {
        slice(&name, 0, dot - 1)
    };
    assert(stem@ =~= without_extension(name@));
    let dots = name.len() == 2 && name[0] == '.' && name[1] == '.';
    assert(dots == (name@ == seq!['.', '.'])) by {
        if dots {
            assert(name@ =~= seq!['.', '.']);
        }
    }
    if stem.len() == 0 || dots {
        None
    } else {
        Some(from_chars(&stem))
    }
}

} // verus!
