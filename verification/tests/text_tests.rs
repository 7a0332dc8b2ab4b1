use web_archive::text::{
    append_chars, chars_of, joined, contains, ends_with_char, equals, is_whitespace_char,
    last_piece, matches_at, replace, replace_chars, same_chars, split_chars, string_of,
    strip_breaks, trim_chars,
};

fn text(chars: &Vec<char>) -> String {
    chars.iter().collect()
}

#[test]
fn chars_round_trip() {
    let v = chars_of("héllo");
    assert_eq!(v, vec!['h', 'é', 'l', 'l', 'o']);
    assert_eq!(string_of(&v), "héllo");
    assert_eq!(string_of(&Vec::new()), "");
}

#[test]
fn equals_compares_characters() {
    assert!(equals("abc", "abc"));
    assert!(equals("", ""));
    assert!(!equals("abc", "abd"));
    assert!(!equals("abc", "ab"));
}

#[test]
fn concat_joins() {
    assert_eq!(joined("ab", "cd"), "abcd");
    assert_eq!(joined("", "x"), "x");
    assert_eq!(joined("x", ""), "x");
}

#[test]
fn matches_at_tests_a_position() {
    let t = chars_of("hello world");
    assert!(matches_at(&t, 6, &chars_of("world")));
    assert!(!matches_at(&t, 5, &chars_of("world")));
    assert!(!matches_at(&t, 8, &chars_of("world")));
    assert!(matches_at(&t, 11, &chars_of("")));
    assert!(same_chars(&chars_of("abc"), &chars_of("abc")));
    assert!(!same_chars(&chars_of("abc"), &chars_of("abcd")));
    assert!(!same_chars(&chars_of("abcd"), &chars_of("abc")));
}

#[test]
fn ends_with_char_looks_at_the_last() {
    assert!(ends_with_char("a/", '/'));
    assert!(!ends_with_char("a/b", '/'));
    assert!(!ends_with_char("", '/'));
}

#[test]
fn contains_finds_runs() {
    assert!(contains("data:image/png;base64,AAAA", ";base64,"));
    assert!(!contains("data:image/png;base64", ";base64,"));
    assert!(contains("abc", ""));
    assert!(contains("", ""));
    assert!(contains("abc", "c"));
    assert!(!contains("abc", "d"));
}

#[test]
fn replace_agrees_with_the_standard_library() {
    let cases = [
        ("", "a", "b"),
        ("aaa", "a", "b"),
        ("aaa", "aa", "b"),
        ("abcabc", "bc", ""),
        ("abc", "", "-"),
        ("", "", "-"),
        ("a&amp;b", "&amp;", "&"),
        ("<img src=\"logo.png\"> logo.png", "logo.png", "./images/logo.png"),
        ("ababab", "aba", "x"),
        ("héllo wörld", "ö", "oe"),
        ("abc", "abcd", "x"),
    ];
    for (t, from, to) in cases {
        assert_eq!(replace(t, from, to), t.replace(from, to), "{t:?} {from:?} {to:?}");
    }
}

#[test]
fn replace_exact_values() {
    assert_eq!(replace("aaa", "aa", "b"), "ba");
    assert_eq!(replace("abc", "", "-"), "-a-b-c-");
    assert_eq!(text(&replace_chars(&chars_of("x.y.z"), &chars_of("."), &chars_of("::"))), "x::y::z");
}

#[test]
fn append_chars_extends() {
    let mut out = chars_of("ab");
    append_chars(&mut out, &chars_of("cd"));
    assert_eq!(text(&out), "abcd");
}

#[test]
fn split_chars_agrees_with_the_standard_library() {
    for t in ["", "a", ",", "a,b", "a,,b", ",a,", "a,b, c", "no separator"] {
        let pieces: Vec<String> = split_chars(&chars_of(t), ',').iter().map(text).collect();
        let expected: Vec<String> = t.split(',').map(String::from).collect();
        assert_eq!(pieces, expected, "{t:?}");
        assert_eq!(text(&last_piece(&chars_of(t), ',')), *expected.last().unwrap());
    }
}

#[test]
fn whitespace_is_the_unicode_property() {
    for n in 0..=0x10FFFFu32 {
        if let Some(c) = char::from_u32(n) {
            assert_eq!(is_whitespace_char(c), c.is_whitespace(), "U+{n:04X}");
        }
    }
}

#[test]
fn trim_chars_agrees_with_the_standard_library() {
    for t in ["", " ", "  a  ", "a", "\u{3000}a b\u{a0}", "\r\n x \r\n", "x  ", "  x", " \u{85} "] {
        assert_eq!(text(&trim_chars(&chars_of(t))), t.trim(), "{t:?}");
    }
}

#[test]
fn strip_breaks_drops_line_feeds_and_tabs() {
    assert_eq!(text(&strip_breaks(&chars_of("\n\ta\tb\nc\r "))), "abc\r ");
    assert_eq!(text(&strip_breaks(&chars_of("\n\t\n"))), "");
}

#[test]
fn matches_at_beyond_the_end_is_false() {
    let t = chars_of("abc");
    assert!(!matches_at(&t, 4, &chars_of("")));
    assert!(matches_at(&t, 3, &chars_of("")));
}

fn sample(seed: &mut u64, alphabet: &[char], max_len: u64) -> String {
    let mut next = || {
        *seed = seed.wrapping_mul(6364136223846793005).wrapping_add(1442695040888963407);
        *seed >> 33
    };
    let len = next() % (max_len + 1);
    (0..len).map(|_| alphabet[(next() % alphabet.len() as u64) as usize]).collect()
}

#[test]
fn text_functions_agree_with_the_standard_library_on_many_inputs() {
    let alphabet = ['a', 'b', ',', ' ', '\n', 'é'];
    let mut seed = 7u64;
    for _ in 0..2000 {
        let t = sample(&mut seed, &alphabet, 12);
        let from = sample(&mut seed, &alphabet, 3);
        let to = sample(&mut seed, &alphabet, 3);
        assert_eq!(replace(&t, &from, &to), t.replace(&from, &to), "{t:?} {from:?} {to:?}");
        assert_eq!(contains(&t, &from), t.contains(&from), "{t:?} {from:?}");
        assert_eq!(text(&trim_chars(&chars_of(&t))), t.trim(), "{t:?}");
        let pieces: Vec<String> = split_chars(&chars_of(&t), ',').iter().map(text).collect();
        let expected: Vec<String> = t.split(',').map(String::from).collect();
        assert_eq!(pieces, expected, "{t:?}");
        assert_eq!(equals(&t, &from), t == from);
        assert_eq!(ends_with_char(&t, ','), t.ends_with(','));
    }
}
