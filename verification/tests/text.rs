use practice::chars::{is_ascii_punctuation, is_vowel, is_whitespace};
use practice::strings::{chars_of, same_text, string_of};
use practice::words::{first_word_bounds, is_blank, split_on, split_whitespace, trim, trim_bounds};

fn chars(s: &str) -> Vec<char> {
    s.chars().collect()
}

#[test]
fn whitespace_is_what_the_standard_library_says() {
    for code in 0..=0x10ffffu32 {
        if let Some(c) = char::from_u32(code) {
            assert_eq!(is_whitespace(c), c.is_whitespace(), "{code:x}");
        }
    }
}

#[test]
fn punctuation_is_what_the_standard_library_says() {
    for code in 0..=0x10ffffu32 {
        if let Some(c) = char::from_u32(code) {
            assert_eq!(is_ascii_punctuation(c), c.is_ascii_punctuation(), "{code:x}");
        }
    }
}

#[test]
fn vowels_are_the_five_small_letters() {
    for code in 0..=0x10ffffu32 {
        if let Some(c) = char::from_u32(code) {
            assert_eq!(is_vowel(c), matches!(c, 'a' | 'e' | 'i' | 'o' | 'u'), "{code:x}");
        }
    }
}

#[test]
fn a_string_and_its_characters() {
    assert_eq!(chars_of("h\u{e9}llo"), vec!['h', '\u{e9}', 'l', 'l', 'o']);
    assert_eq!(chars_of(""), Vec::<char>::new());
    let v = chars("h\u{e9}llo");
    assert_eq!(string_of(&v, 0, 5), "h\u{e9}llo");
    assert_eq!(string_of(&v, 1, 3), "\u{e9}l");
    assert_eq!(string_of(&v, 2, 2), "");
}

#[test]
fn texts_are_compared_by_their_characters() {
    assert!(same_text("abc", "abc"));
    assert!(same_text("", ""));
    assert!(!same_text("abc", "abd"));
    assert!(!same_text("abc", "ab"));
    assert!(!same_text("", "a"));
}

#[test]
fn words_are_the_runs_between_whitespace() {
    let texts = [
        "",
        " ",
        "one",
        " one ",
        "one two",
        "  one \t two\nthree  ",
        "a\u{a0}b\u{2003}c\u{3000}d",
        "x\u{85}y\u{1680}z",
        "tab\there",
    ];
    for text in texts {
        let expected: Vec<String> = text.split_whitespace().map(|w| w.to_string()).collect();
        assert_eq!(split_whitespace(&chars(text)), expected, "{text:?}");
    }
}

#[test]
fn the_first_word_is_found() {
    assert_eq!(first_word_bounds(&chars("  hello world")), Some((2, 7)));
    assert_eq!(first_word_bounds(&chars("hello")), Some((0, 5)));
    assert_eq!(first_word_bounds(&chars("  \t")), None);
    assert_eq!(first_word_bounds(&chars("")), None);
}

#[test]
fn trimming_agrees_with_the_standard_library() {
    let texts = ["", " ", "a", " a", "a ", "  a b  ", "\t\na\u{a0}", " \u{3000} ", "a  b"];
    for text in texts {
        assert_eq!(trim(text), text.trim(), "{text:?}");
        assert_eq!(is_blank(text), text.trim().is_empty(), "{text:?}");
    }
}

#[test]
fn trimming_a_part() {
    let v = chars("ab  cd  ef");
    assert_eq!(trim_bounds(&v, 2, 8), (4, 6));
    assert_eq!(trim_bounds(&v, 2, 4), (4, 4));
    assert_eq!(trim_bounds(&v, 0, 10), (0, 10));
    assert_eq!(trim_bounds(&v, 3, 3), (3, 3));
}

#[test]
fn splitting_agrees_with_the_standard_library() {
    let texts = ["", ",", "a", "a,b", "a,,b", ",a,", "a, b ,c", ",,,"];
    for text in texts {
        let expected: Vec<String> = text.split(',').map(|w| w.to_string()).collect();
        assert_eq!(split_on(&chars(text), ','), expected, "{text:?}");
    }
    assert_eq!(split_on(&chars("a b  c"), ' '), vec!["a", "b", "", "c"]);
}
