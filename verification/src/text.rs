//! Text as sequences of characters: searching, trimming and replacing.
//!
//! Every function here works on `Vec<char>` and is specified over `Seq<char>`,
//! the view that `String` and `str` have as well.

use vstd::prelude::*;

verus! {

/// `String::push` appends one character.
pub assume_specification[ std::string::String::push ](s: &mut std::string::String, ch: char)
    ensures
        final(s)@ == old(s)@.push(ch),
;

/// `pattern` stands in `text` at index `at`.
pub open spec fn occurs_at(text: Seq<char>, at: int, pattern: Seq<char>) -> bool {
    &&& 0 <= at
    &&& at + pattern.len() <= text.len()
    &&& text.subrange(at, at + pattern.len()) == pattern
}

/// `pattern` stands somewhere in `text`.
pub open spec fn occurs(text: Seq<char>, pattern: Seq<char>) -> bool {
    exists|at: int| occurs_at(text, at, pattern)
}

/// The characters with the Unicode property `White_Space`.
pub open spec fn is_space(c: char) -> bool {
    let n = c as u32;
    ||| 0x09 <= n <= 0x0D
    ||| n == 0x20
    ||| n == 0x85
    ||| n == 0xA0
    ||| n == 0x1680
    ||| 0x2000 <= n <= 0x200A
    ||| n == 0x2028
    ||| n == 0x2029
    ||| n == 0x202F
    ||| n == 0x205F
    ||| n == 0x3000
}

/// `text` without its leading white space.
pub open spec fn trim_start(text: Seq<char>) -> Seq<char>
    decreases text.len(),
{
    if text.len() > 0 && is_space(text[0]) {
        trim_start(text.skip(1))
    } else {
        text
    }
}

/// `text` without its trailing white space.
pub open spec fn trim_end(text: Seq<char>) -> Seq<char>
    decreases text.len(),
{
    if text.len() > 0 && is_space(text.last()) {
        trim_end(text.drop_last())
    } else {
        text
    }
}

/// `text` without its leading and trailing white space.
pub open spec fn trim(text: Seq<char>) -> Seq<char> {
    trim_end(trim_start(text))
}

/// `text` with every occurrence of `from` replaced by `to`. Occurrences are
/// taken from the left and do not overlap; what a replacement puts in is not
/// searched again. An empty `from` occurs nowhere.
pub open spec fn replace_all(text: Seq<char>, from: Seq<char>, to: Seq<char>) -> Seq<char>
    decreases text.len(),
{
    if from.len() == 0 || text.len() < from.len() {
        text
    } else if occurs_at(text, 0, from) {
        to + replace_all(text.skip(from.len() as int), from, to)
    } else {
        seq![text[0]] + replace_all(text.skip(1), from, to)
    }
}

/// The characters of `s`.
pub fn to_chars(s: &str) -> (chars: Vec<char>)
    ensures
        chars@ == s@,
{
    let mut chars: Vec<char> = Vec::new();
    for c in it: s.chars()
        invariant
            it.seq() == s@,
            chars@ == it.seq().take(it.index() as int),
    {
        chars.push(c);
    }
    chars
}

/// The string made of `chars`.
pub fn from_chars(chars: &Vec<char>) -> (s: String)
    ensures
        s@ == chars@,
{
    let mut s = String::new();
    let mut i: usize = 0;
    while i < chars.len()
        invariant
            i <= chars.len(),
            s@ == chars@.take(i as int),
        decreases chars.len() - i,
    {
        s.push(chars[i]);
        i += 1;
    }
    s
}

/// The part of `text` from `start` up to `end`.
pub fn slice(text: &Vec<char>, start: usize, end: usize) -> (part: Vec<char>)
    requires
        start <= end <= text.len(),
    ensures
        part@ == text@.subrange(start as int, end as int),
{
    let mut part: Vec<char> = Vec::new();
    let mut i: usize = start;
    while i < end
        invariant
            start <= i <= end <= text.len(),
            part@ == text@.subrange(start as int, i as int),
        decreases end - i,
    {
        part.push(text[i]);
        i += 1;
    }
    part
}

/// Tells whether `c` is white space.
pub fn space(c: char) -> (b: bool)
    ensures
        b == is_space(c),
{
    let n: u32 = c as u32;
    (0x09 <= n && n <= 0x0D) || n == 0x20 || n == 0x85 || n == 0xA0 || n == 0x1680 || (0x2000 <= n
        && n <= 0x200A) || n == 0x2028 || n == 0x2029 || n == 0x202F || n == 0x205F || n == 0x3000
}

/// Tells whether `pattern` stands in `text` at index `at`.
pub fn matches_at(text: &Vec<char>, at: usize, pattern: &Vec<char>) -> (b: bool)
    ensures
        b == occurs_at(text@, at as int, pattern@),
{
    if pattern.len() > text.len() || at > text.len() - pattern.len() {
        return false;
    }
    let mut k: usize = 0;
    while k < pattern.len()
        invariant
            k <= pattern.len(),
            at + pattern.len() <= text.len(),
            forall|j: int| 0 <= j < k ==> text@[at + j] == pattern@[j],
        decreases pattern.len() - k,
    {
        if text[at + k] != pattern[k] {
            assert(text@.subrange(at as int, at + pattern.len())[k as int] == text@[at + k]);
            return false;
        }
        k += 1;
    }
    assert(text@.subrange(at as int, at + pattern.len()) =~= pattern@);
    true
}

/// `text` without its leading and trailing white space.
pub fn trimmed(text: &Vec<char>) -> (out: Vec<char>)
    ensures
        out@ == trim(text@),
{
    let mut start: usize = 0;
    assert(text@.skip(0) =~= text@);
    while start < text.len() && space(text[start])
        invariant
            start <= text.len(),
            trim_start(text@) == trim_start(text@.skip(start as int)),
        decreases text.len() - start,
    {
        assert(text@.skip(start as int).skip(1) =~= text@.skip(start + 1));
        start += 1;
    }
    assert(text@.skip(start as int) =~= text@.subrange(start as int, text.len() as int));
    let mut end: usize = text.len();
    while end > start && space(text[end - 1])
        invariant
            start <= end <= text.len(),
            trim(text@) == trim_end(text@.subrange(start as int, end as int)),
        decreases end - start,
    {
        assert(text@.subrange(start as int, end as int).drop_last() =~= text@.subrange(
            start as int,
            end - 1,
        ));
        end -= 1;
    }
    slice(text, start, end)
}

/// Appends `more` to `out`.
pub fn extend(out: &mut Vec<char>, more: &Vec<char>)
    ensures
        final(out)@ == old(out)@ + more@,
{
    let mut k: usize = 0;
    while k < more.len()
        invariant
            k <= more.len(),
            out@ == old(out)@ + more@.take(k as int),
        decreases more.len() - k,
    {
        out.push(more[k]);
        k += 1;
    }
}

/// `text` with every occurrence of `from` replaced by `to`.
pub fn replaced(text: &Vec<char>, from: &Vec<char>, to: &Vec<char>) -> (out: Vec<char>)
    ensures
        out@ == replace_all(text@, from@, to@),
{
    let mut out: Vec<char> = Vec::new();
    let mut i: usize = 0;
    assert(text@.skip(0) =~= text@);
    assert(out@ + replace_all(text@, from@, to@) =~= replace_all(text@, from@, to@));
    while i < text.len()
        invariant
            i <= text.len(),
            out@ + replace_all(text@.skip(i as int), from@, to@) == replace_all(text@, from@, to@),
        decreases text.len() - i,
    {
        let ghost rest = text@.skip(i as int);
        let ghost before = out@;
        assert(occurs_at(rest, 0, from@) == occurs_at(text@, i as int, from@)) by {
            if i + from@.len() <= text@.len() {
                assert(rest.subrange(0, from@.len() as int) =~= text@.subrange(
                    i as int,
                    i + from@.len(),
                ));
            }
        }
        if from.len() > 0 && matches_at(text, i, from) {
            assert(rest.skip(from@.len() as int) =~= text@.skip(i + from@.len()));
            extend(&mut out, to);
            i += from.len();
            assert(out@ + replace_all(text@.skip(i as int), from@, to@) =~= before + replace_all(
                rest,
                from@,
                to@,
            ));
        } else {
            assert(rest.skip(1) =~= text@.skip(i + 1));
            assert(replace_all(rest, from@, to@) =~= seq![rest[0]] + replace_all(
                rest.skip(1),
                from@,
                to@,
            ));
            out.push(text[i]);
            i += 1;
            assert(out@ + replace_all(text@.skip(i as int), from@, to@) =~= before + replace_all(
                rest,
                from@,
                to@,
            ));
        }
    }
    assert(replace_all(text@.skip(i as int), from@, to@) =~= Seq::<char>::empty());
    assert(out@ + Seq::<char>::empty() =~= out@);
    out
}

/// An occurrence in a part of a text is an occurrence in the text.
pub proof fn lemma_occurs_in_part(
    before: Seq<char>,
    part: Seq<char>,
    after: Seq<char>,
    at: int,
    pattern: Seq<char>,
)
    requires
        occurs_at(part, at, pattern),
    ensures
        occurs_at(before + part + after, before.len() + at, pattern),
{
    let whole = before + part + after;
    assert(whole.subrange(before.len() + at, before.len() + at + pattern.len()) =~= part.subrange(
        at,
        at + pattern.len(),
    ));
}

/// A text in which `from` does not occur is left as it is.
pub proof fn lemma_replace_absent(text: Seq<char>, from: Seq<char>, to: Seq<char>)
    requires
        !occurs(text, from),
    ensures
        replace_all(text, from, to) == text,
    decreases text.len(),
{
    if from.len() > 0 && text.len() >= from.len() {
        let rest = text.skip(1);
        assert(!occurs_at(text, 0, from));
        assert(!occurs(rest, from)) by {
            if occurs(rest, from) {
                let at = choose|at: int| occurs_at(rest, at, from);
                lemma_occurs_in_part(seq![text[0]], rest, Seq::empty(), at, from);
                assert(seq![text[0]] + rest + Seq::<char>::empty() =~= text);
                assert(occurs_at(text, 1 + at, from));
            }
        }
        lemma_replace_absent(rest, from, to);
        assert(seq![text[0]] + rest =~= text);
    }
}

/// Replacing in a text made of two parts replaces in each part by itself,
/// where no occurrence of `from` begins in the first part and ends in the
/// second.
pub proof fn lemma_replace_concat(
    first: Seq<char>,
    second: Seq<char>,
    from: Seq<char>,
    to: Seq<char>,
)
    requires
        forall|at: int|
            at < first.len() && at + from.len() > first.len() ==> !occurs_at(
                first + second,
                at,
                from,
            ),
    ensures
        replace_all(first + second, from, to) == replace_all(first, from, to) + replace_all(
            second,
            from,
            to,
        ),
    decreases first.len(),
{
    let whole = first + second;
    if first.len() == 0 {
        assert(whole =~= second);
        assert(replace_all(first, from, to) + replace_all(second, from, to) =~= replace_all(
            second,
            from,
            to,
        ));
    } else if from.len() == 0 {
    } else if whole.len() < from.len() {
    } else if occurs_at(whole, 0, from) {
        let width = from.len() as int;
        assert(width <= first.len());
        assert(first.subrange(0, width) =~= whole.subrange(0, width));
        let rest = first.skip(width);
        assert(whole.skip(width) =~= rest + second);
        assert forall|at: int| at < rest.len() && at + from.len() > rest.len() implies !occurs_at(
            rest + second,
            at,
            from,
        ) by {
            if occurs_at(rest + second, at, from) {
                assert(whole.subrange(at + width, at + width + from.len()) =~= (rest
                    + second).subrange(at, at + from.len()));
                assert(occurs_at(whole, at + width, from));
            }
        }
        lemma_replace_concat(rest, second, from, to);
        assert(to + (replace_all(rest, from, to) + replace_all(second, from, to)) =~= (to
            + replace_all(rest, from, to)) + replace_all(second, from, to));
    } else {
        let rest = first.skip(1);
        assert(whole.skip(1) =~= rest + second);
        assert forall|at: int| at < rest.len() && at + from.len() > rest.len() implies !occurs_at(
            rest + second,
            at,
            from,
        ) by {
            if occurs_at(rest + second, at, from) {
                assert(whole.subrange(at + 1, at + 1 + from.len()) =~= (rest + second).subrange(
                    at,
                    at + from.len(),
                ));
                assert(occurs_at(whole, at + 1, from));
            }
        }
        lemma_replace_concat(rest, second, from, to);
        assert(whole[0] == first[0]);
        if first.len() < from.len() {
            assert(seq![first[0]] + rest =~= first);
        } else {
            assert(first.subrange(0, from.len() as int) =~= whole.subrange(
                0,
                from.len() as int,
            ));
        }
        assert(seq![first[0]] + (replace_all(rest, from, to) + replace_all(second, from, to))
            =~= (seq![first[0]] + replace_all(rest, from, to)) + replace_all(second, from, to));
    }
}

/// A stretch of text that no occurrence of `from` touches is carried over
/// as it stands, and what is before and behind it is replaced by itself.
pub proof fn lemma_replace_around(
    before: Seq<char>,
    kept: Seq<char>,
    after: Seq<char>,
    from: Seq<char>,
    to: Seq<char>,
)
    requires
        from.len() > 0,
        forall|at: int|
            at < before.len() + kept.len() && at + from.len() > before.len() ==> !occurs_at(
                before + kept + after,
                at,
                from,
            ),
    ensures
        replace_all(before + kept + after, from, to) == replace_all(before, from, to) + kept
            + replace_all(after, from, to),
{
    let whole = before + kept + after;
    assert(whole =~= before + (kept + after));
    lemma_replace_concat(before, kept + after, from, to);
    assert forall|at: int| at < kept.len() && at + from.len() > kept.len() implies !occurs_at(
        kept + after,
        at,
        from,
    ) by {
        if occurs_at(kept + after, at, from) {
            lemma_occurs_in_part(before, kept + after, Seq::empty(), at, from);
            assert(before + (kept + after) + Seq::<char>::empty() =~= whole);
        }
    }
    lemma_replace_concat(kept, after, from, to);
    assert(!occurs(kept, from)) by {
        if occurs(kept, from) {
            let at = choose|at: int| occurs_at(kept, at, from);
            lemma_occurs_in_part(before, kept, after, at, from);
        }
    }
    lemma_replace_absent(kept, from, to);
    assert(replace_all(before, from, to) + (kept + replace_all(after, from, to)) =~= replace_all(
        before,
        from,
        to,
    ) + kept + replace_all(after, from, to));
}

/// The first occurrence of `from` gives way to `to`, what stands before it
/// stays, and what follows it is replaced in turn.
pub proof fn lemma_replace_first(
    before: Seq<char>,
    after: Seq<char>,
    from: Seq<char>,
    to: Seq<char>,
)
    requires
        from.len() > 0,
        forall|at: int| at < before.len() ==> !occurs_at(before + from + after, at, from),
    ensures
        replace_all(before + from + after, from, to) == before + to + replace_all(after, from, to),
{
    let whole = before + from + after;
    assert(whole =~= before + (from + after));
    lemma_replace_concat(before, from + after, from, to);
    assert(!occurs(before, from)) by {
        if occurs(before, from) {
            let at = choose|at: int| occurs_at(before, at, from);
            lemma_occurs_in_part(Seq::empty(), before, from + after, at, from);
            assert(Seq::<char>::empty() + before + (from + after) =~= whole);
        }
    }
    lemma_replace_absent(before, from, to);
    let tail = from + after;
    assert(tail.subrange(0, from.len() as int) =~= from);
    assert(tail.skip(from.len() as int) =~= after);
    assert(before + (to + replace_all(after, from, to)) =~= before + to + replace_all(
        after,
        from,
        to,
    ));
}

} // verus!
