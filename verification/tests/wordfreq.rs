use practice::wordfreq::config::Config;
use practice::wordfreq::counts::WordCounts;
use practice::wordfreq::failure::Failure;
use practice::wordfreq::matching::find_matches;
use practice::wordfreq::normalize::{normalize, strip_punctuation};
use practice::wordfreq::report::{render, render_line, to_decimal};
use practice::wordfreq::search::{execute, search};

fn args(list: &[&str]) -> Vec<String> {
    list.iter().map(|s| s.to_string()).collect()
}

fn lines(table: &WordCounts) -> Vec<(String, usize)> {
    let mut out = Vec::new();
    let mut i = 0;
    while let Some((word, count)) = table.entry(i) {
        out.push((word.to_string(), count));
        i += 1;
    }
    assert_eq!(out.len(), table.len());
    out
}

fn pairs(list: &[(&str, usize)]) -> Vec<(String, usize)> {
    list.iter().map(|(w, c)| (w.to_string(), *c)).collect()
}

fn count_with(query: &str, contents: &str) -> usize {
    let table = search(Some(query), contents).unwrap();
    assert_eq!(table.len(), 1);
    let (word, count) = table.entry(0).unwrap();
    assert_eq!(word, query);
    count
}

#[test]
fn normalization_lowers_case_and_drops_punctuation() {
    assert_eq!(normalize("The cat sat. The CAT sat!"), "the cat sat the cat sat");
}

#[test]
fn normalization_keeps_whitespace_and_digits() {
    assert_eq!(normalize("A-1\tB_2\n"), "a1\tb2\n");
    assert_eq!(normalize("  "), "  ");
    assert_eq!(normalize(""), "");
}

#[test]
fn normalization_drops_every_ascii_punctuation_character() {
    let all = "!\"#$%&'()*+,-./:;<=>?@[\\]^_`{|}~";
    assert_eq!(all.len(), 32);
    assert_eq!(normalize(all), "");
    assert_eq!(strip_punctuation("a!b\"c#d"), "abcd");
}

#[test]
fn normalization_lowers_letters_outside_ascii_too() {
    assert_eq!(normalize("\u{c9}COLE, \u{c4}RGER!"), "\u{e9}cole \u{e4}rger");
    assert_eq!(normalize("\u{130}"), "i\u{307}");
}

#[test]
fn normalization_of_ascii_changes_capital_letters_only() {
    let all: String = (0u8..128).map(|b| b as char).collect();
    let expected: String = all
        .chars()
        .filter(|c| !c.is_ascii_punctuation())
        .map(|c| if c.is_ascii_uppercase() { (c as u8 + 32) as char } else { c })
        .collect();
    assert_eq!(normalize(&all), expected);
}

#[test]
fn strip_punctuation_keeps_case() {
    assert_eq!(strip_punctuation("The CAT."), "The CAT");
}

#[test]
fn every_word_is_counted_without_a_query() {
    let config = Config::new(&args(&["prog", "text.txt"])).unwrap();
    let table = execute(&config, "The cat sat. The CAT sat!").unwrap();
    assert_eq!(lines(&table), pairs(&[("the", 2), ("cat", 2), ("sat", 2)]));
    assert_eq!(table.get("the"), Some(2));
    assert_eq!(table.get("cat"), Some(2));
    assert_eq!(table.get("sat"), Some(2));
    assert_eq!(table.get("dog"), None);
}

#[test]
fn a_query_is_counted_as_a_substring() {
    let config = Config::new(&args(&["prog", "text.txt", "cat"])).unwrap();
    let table = execute(&config, "The cat sat. The CAT sat!").unwrap();
    assert_eq!(lines(&table), pairs(&[("cat", 2)]));
}

#[test]
fn a_query_inside_longer_words_counts() {
    assert_eq!(count_with("cat", "concatenate the cat category"), 3);
    assert_eq!(count_with("dog", "concatenate the cat category"), 0);
}

#[test]
fn a_query_is_taken_literally() {
    let config = Config::new(&args(&["prog", "text.txt", "Cat"])).unwrap();
    let table = execute(&config, "The cat sat. The CAT sat!").unwrap();
    assert_eq!(lines(&table), pairs(&[("Cat", 0)]));
}

#[test]
fn matches_do_not_overlap() {
    assert_eq!(count_with("aa", "aaa"), 1);
    assert_eq!(count_with("aa", "aaaa"), 2);
    assert_eq!(count_with("aba", "ababa"), 1);
    assert_eq!(count_with("abc", "ab"), 0);
}

#[test]
fn the_empty_query_matches_at_every_boundary() {
    assert_eq!(count_with("", "abc"), 4);
    assert_eq!(count_with("", "\u{e9}"), 2);
}

#[test]
fn match_places_are_reported_left_to_right() {
    let text: Vec<char> = "abcabcab".chars().collect();
    let pattern: Vec<char> = "ab".chars().collect();
    assert_eq!(find_matches(&text, &pattern), vec![0, 3, 6]);
    let none: Vec<char> = Vec::new();
    assert_eq!(find_matches(&text, &none), vec![0, 1, 2, 3, 4, 5, 6, 7, 8]);
    assert_eq!(find_matches(&none, &none), vec![0]);
    assert_eq!(find_matches(&none, &pattern), Vec::<usize>::new());
}

#[test]
fn matching_agrees_with_the_standard_library() {
    let texts = ["", "a", "aaaaa", "abababab", "the cat sat the cat sat", "x\u{e9}x\u{e9}\u{e9}", "mississippi"];
    let patterns = ["", "a", "aa", "ab", "aba", "cat", "\u{e9}", "ss", "issi", "the cat sat the cat sat"];
    for text in texts {
        for pattern in patterns {
            let t: Vec<char> = text.chars().collect();
            let p: Vec<char> = pattern.chars().collect();
            assert_eq!(find_matches(&t, &p).len(), text.matches(pattern).count(), "{text:?} {pattern:?}");
        }
    }
}

#[test]
fn empty_contents_are_refused() {
    assert!(matches!(search(None, ""), Err(Failure::EmptyInput)));
    assert!(matches!(search(Some("cat"), ""), Err(Failure::EmptyInput)));
    assert!(matches!(search(Some(""), ""), Err(Failure::EmptyInput)));
    let plain = Config::new(&args(&["prog", "f"])).unwrap();
    let asking = Config::new(&args(&["prog", "f", "cat"])).unwrap();
    assert!(matches!(execute(&plain, ""), Err(Failure::EmptyInput)));
    assert!(matches!(execute(&asking, ""), Err(Failure::EmptyInput)));
}

#[test]
fn contents_of_punctuation_alone_are_refused() {
    let plain = Config::new(&args(&["prog", "f"])).unwrap();
    assert!(matches!(execute(&plain, "?!..."), Err(Failure::EmptyInput)));
    assert_eq!(lines(&search(None, "?!...").unwrap()), pairs(&[("?!...", 1)]));
}

#[test]
fn contents_of_whitespace_alone_give_an_empty_table() {
    let plain = Config::new(&args(&["prog", "f"])).unwrap();
    let table = execute(&plain, " \n\t ").unwrap();
    assert_eq!(table.len(), 0);
    assert!(table.entry(0).is_none());
}

#[test]
fn a_missing_path_is_reported() {
    assert!(matches!(Config::new(&args(&["prog"])), Err(Failure::MissingArgument)));
    assert!(matches!(Config::new(&args(&[])), Err(Failure::MissingArgument)));
}

#[test]
fn the_arguments_after_the_program_name_are_path_and_query() {
    let config = Config::new(&args(&["prog", "text.txt"])).unwrap();
    assert_eq!(config.path(), "text.txt");
    assert_eq!(config.query(), None);
    let config = Config::new(&args(&["prog", "text.txt", "cat", "more"])).unwrap();
    assert_eq!(config.path(), "text.txt");
    assert_eq!(config.query(), Some("cat"));
    let config = Config::new(&args(&["prog", "", ""])).unwrap();
    assert_eq!(config.path(), "");
    assert_eq!(config.query(), Some(""));
}

#[test]
fn counts_add_up_to_the_number_of_words() {
    let texts = [
        "The cat sat. The CAT sat!",
        "a b c a b a",
        "one",
        "  spaced   out\twords\nspaced ",
        "it's a dog-eat-dog world; it's a dog's life",
    ];
    let plain = Config::new(&args(&["prog", "f"])).unwrap();
    for raw in texts {
        let text = normalize(raw);
        let table = execute(&plain, raw).unwrap();
        let sum: usize = lines(&table).iter().map(|(_, c)| *c).sum();
        assert_eq!(sum, text.split_whitespace().count(), "{raw:?}");
    }
}

#[test]
fn words_stand_in_order_of_first_occurrence() {
    let table = search(None, "b a b c a b").unwrap();
    assert_eq!(lines(&table), pairs(&[("b", 3), ("a", 2), ("c", 1)]));
}

#[test]
fn table_words_are_distinct_and_clean() {
    let plain = Config::new(&args(&["prog", "f"])).unwrap();
    let table = execute(&plain, "Wait... what?! Wait, WHAT: no-no. (no)").unwrap();
    let got = lines(&table);
    assert_eq!(got, pairs(&[("wait", 2), ("what", 2), ("nono", 1), ("no", 1)]));
    for (i, (word, _)) in got.iter().enumerate() {
        assert!(!word.is_empty());
        assert!(!word.chars().any(|c| c.is_ascii_punctuation() || c.is_whitespace()));
        assert!(got[i + 1..].iter().all(|(other, _)| other != word));
    }
}

#[test]
fn search_does_not_normalize() {
    let table = search(None, "The the THE.").unwrap();
    assert_eq!(lines(&table), pairs(&[("The", 1), ("the", 1), ("THE.", 1)]));
}

#[test]
fn a_table_of_one_line() {
    let table = WordCounts::single("cat".to_string(), 7);
    assert_eq!(lines(&table), pairs(&[("cat", 7)]));
    assert_eq!(table.get("cat"), Some(7));
    assert_eq!(table.get("ca"), None);
}

#[test]
fn a_table_of_given_words() {
    let words = args(&["x", "y", "x", "", "x"]);
    let table = WordCounts::of_words(&words);
    assert_eq!(lines(&table), pairs(&[("x", 3), ("y", 1), ("", 1)]));
    assert_eq!(WordCounts::of_words(&Vec::new()).len(), 0);
}

#[test]
fn numbers_are_written_in_decimal() {
    assert_eq!(to_decimal(0), "0");
    assert_eq!(to_decimal(7), "7");
    assert_eq!(to_decimal(10), "10");
    assert_eq!(to_decimal(1902), "1902");
    assert_eq!(to_decimal(usize::MAX), usize::MAX.to_string());
    for n in 0..2000usize {
        assert_eq!(to_decimal(n), n.to_string());
    }
}

#[test]
fn a_line_is_word_colon_count() {
    assert_eq!(render_line("cat", 2), "cat: 2");
    assert_eq!(render_line("", 0), ": 0");
    assert_eq!(render_line("cat", 2), format!("{}: {}", "cat", 2));
}

#[test]
fn a_table_is_rendered_line_by_line() {
    let plain = Config::new(&args(&["prog", "f"])).unwrap();
    let table = execute(&plain, "The cat sat. The CAT sat!").unwrap();
    assert_eq!(render(&table), vec!["the: 2", "cat: 2", "sat: 2"]);
    let asking = Config::new(&args(&["prog", "f", "cat"])).unwrap();
    let table = execute(&asking, "The cat sat. The CAT sat!").unwrap();
    assert_eq!(render(&table), vec!["cat: 2"]);
    assert!(render(&search(None, " ").unwrap()).is_empty());
}

#[test]
fn failures_explain_themselves() {
    assert_eq!(Failure::MissingArgument.message(), "Not enough arguments provided!");
    assert_eq!(Failure::EmptyInput.message(), "File is empty!");
    assert_eq!(Failure::FileReadError.message(), "File could not be read!");
    assert_eq!(Failure::MissingArgument.heading(), "Problem parsing arguments: ");
    assert_eq!(Failure::EmptyInput.heading(), "Application error: ");
    assert_eq!(Failure::FileReadError.heading(), "Application error: ");
}

#[test]
fn every_failure_ends_the_process_with_status_one() {
    assert_eq!(Failure::MissingArgument.exit_code(), 1);
    assert_eq!(Failure::FileReadError.exit_code(), 1);
    assert_eq!(Failure::EmptyInput.exit_code(), 1);
}
