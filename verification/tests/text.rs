use skel::path::stem_of;
use skel::text::{extend, from_chars, matches_at, replaced, slice, space, to_chars, trimmed};

fn chars(text: &str) -> Vec<char> {
    text.chars().collect()
}

#[test]
fn chars_round_trip() {
    assert_eq!(to_chars("héllo"), vec!['h', 'é', 'l', 'l', 'o']);
    assert_eq!(from_chars(&chars("héllo")), "héllo");
    assert_eq!(to_chars(""), Vec::<char>::new());
}

#[test]
fn slice_takes_the_part() {
    assert_eq!(slice(&chars("abcdef"), 2, 4), chars("cd"));
    assert_eq!(slice(&chars("abcdef"), 0, 0), chars(""));
    assert_eq!(slice(&chars("abcdef"), 0, 6), chars("abcdef"));
}

#[test]
fn extend_appends() {
    let mut out = chars("ab");
    extend(&mut out, &chars("cd"));
    assert_eq!(out, chars("abcd"));
}

#[test]
fn space_follows_unicode() {
    for c in [' ', '\t', '\n', '\r', '\u{0B}', '\u{0C}', '\u{85}', '\u{A0}', '\u{1680}', '\u{2000}', '\u{200A}', '\u{2028}', '\u{2029}', '\u{202F}', '\u{205F}', '\u{3000}'] {
        assert!(space(c));
    }
    for c in ['a', '-', '\u{200B}', '\u{FEFF}', '\0', '\u{1F}'] {
        assert!(!space(c));
    }
    for n in 0..0x3100u32 {
        if let Some(c) = char::from_u32(n) {
            assert_eq!(space(c), c.is_whitespace());
        }
    }
}

#[test]
fn matches_at_compares_in_place() {
    let text = chars("hello world");
    assert!(matches_at(&text, 6, &chars("world")));
    assert!(!matches_at(&text, 5, &chars("world")));
    assert!(!matches_at(&text, 7, &chars("world")));
    assert!(matches_at(&text, 11, &chars("")));
    assert!(!matches_at(&text, 12, &chars("")));
}

#[test]
fn trimmed_drops_the_white_space_around() {
    assert_eq!(trimmed(&chars("  a b \n")), chars("a b"));
    assert_eq!(trimmed(&chars(" \t\r\n")), chars(""));
    assert_eq!(trimmed(&chars("")), chars(""));
    assert_eq!(trimmed(&chars("\u{A0}x\u{3000}")), chars("x"));
    assert_eq!(trimmed(&chars("x")), chars("x"));
}

#[test]
fn replaced_takes_occurrences_from_the_left() {
    assert_eq!(replaced(&chars("aaa"), &chars("aa"), &chars("b")), chars("ba"));
    assert_eq!(replaced(&chars("abcabc"), &chars("bc"), &chars("")), chars("aa"));
    assert_eq!(replaced(&chars("abc"), &chars("x"), &chars("y")), chars("abc"));
    assert_eq!(replaced(&chars("abc"), &chars(""), &chars("y")), chars("abc"));
    assert_eq!(replaced(&chars("ab"), &chars("ab"), &chars("abab")), chars("abab"));
    assert_eq!(replaced(&chars(""), &chars("a"), &chars("b")), chars(""));
    assert_eq!(
        replaced(&chars("x{% k %}y{% k %}"), &chars("{% k %}"), &chars("1")),
        chars("x1y1")
    );
}

#[test]
fn stem_is_the_name_without_extension() {
    assert_eq!(stem_of("/tmp/a/valid.skeleton"), Some("valid".to_owned()));
    assert_eq!(stem_of("valid.skeleton"), Some("valid".to_owned()));
    assert_eq!(stem_of("a.b.skeleton"), Some("a.b".to_owned()));
    assert_eq!(stem_of("/x.y/plain"), Some("plain".to_owned()));
    assert_eq!(stem_of("..skeleton"), Some(".".to_owned()));
}

#[test]
fn stem_is_missing_where_nothing_stands_before_the_extension() {
    assert_eq!(stem_of(""), None);
    assert_eq!(stem_of(".skeleton"), None);
    assert_eq!(stem_of("/tmp/.skeleton"), None);
    assert_eq!(stem_of("/tmp/"), None);
    assert_eq!(stem_of("/tmp/.."), None);
    assert_eq!(stem_of(".."), None);
    assert_eq!(stem_of("."), None);
}
