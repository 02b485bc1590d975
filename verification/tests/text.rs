use jiffs::text::{
    chars_of, decimal_of, ends_in, parse_index, replace_all, same_chars,
    same_text, split_pieces, split_segments, starts_at, string_of, Separator,
};

fn chars(text: &str) -> Vec<char> {
    text.chars().collect()
}

fn strings(parts: Vec<Vec<char>>) -> Vec<String> {
    parts.iter().map(|part| part.iter().collect()).collect()
}

#[test]
fn characters_go_to_a_list_and_back() {
    assert_eq!(chars_of("a/ü*"), vec!['a', '/', 'ü', '*']);
    assert_eq!(chars_of(""), Vec::<char>::new());
    assert_eq!(string_of(&vec!['a', '/', 'ü', '*']), "a/ü*");
    assert_eq!(string_of(&vec![]), "");
}

#[test]
fn texts_are_compared_character_by_character() {
    assert!(same_text("kind", "kind"));
    assert!(same_text("", ""));
    assert!(!same_text("kind", "kinds"));
    assert!(!same_text("kind", "kinD"));
    assert!(!same_text("é", "e"));
    assert!(same_chars(&chars("abc"), &chars("abc")));
    assert!(!same_chars(&chars("abc"), &chars("abd")));
    assert!(!same_chars(&chars("abc"), &chars("ab")));
}

#[test]
fn a_path_splits_into_its_non_empty_segments() {
    assert_eq!(
        strings(split_segments(&chars("/spec/generators/0/values"))),
        vec!["spec", "generators", "0", "values"]
    );
    assert_eq!(strings(split_segments(&chars("kind"))), vec!["kind"]);
    assert_eq!(strings(split_segments(&chars("//a///b/"))), vec!["a", "b"]);
    assert!(split_segments(&chars("")).is_empty());
    assert!(split_segments(&chars("///")).is_empty());
}

#[test]
fn a_text_splits_at_line_feeds_and_at_white_space() {
    assert_eq!(
        strings(split_pieces(&chars("one\ntwo\r\n\nthree"), Separator::LineFeed)),
        vec!["one", "two\r", "three"]
    );
    assert_eq!(
        strings(split_pieces(&chars("  M\tsrc/a b.rs \u{a0}x\u{3000}y\r"), Separator::WhiteSpace)),
        vec!["M", "src/a", "b.rs", "x", "y"]
    );
    assert_eq!(
        strings(split_pieces(&chars("a\u{200b}b"), Separator::WhiteSpace)),
        vec!["a\u{200b}b"]
    );
}

#[test]
fn white_space_is_what_the_standard_library_calls_so() {
    for code in 0..0x3100u32 {
        if let Some(c) = char::from_u32(code) {
            assert_eq!(Separator::WhiteSpace.is_separator(c), c.is_whitespace(), "{:x}", code);
        }
    }
}

#[test]
fn an_index_is_a_run_of_digits() {
    assert_eq!(parse_index(&chars("0")), Some(0));
    assert_eq!(parse_index(&chars("17")), Some(17));
    assert_eq!(parse_index(&chars("007")), Some(7));
    assert_eq!(parse_index(&chars("+5")), None);
    assert_eq!(parse_index(&chars("")), None);
    assert_eq!(parse_index(&chars("+")), None);
    assert_eq!(parse_index(&chars("-1")), None);
    assert_eq!(parse_index(&chars("1a")), None);
    assert_eq!(parse_index(&chars("*")), None);
    assert_eq!(parse_index(&chars(" 1")), None);
    assert_eq!(parse_index(&chars("++1")), None);
    assert_eq!(parse_index(&chars("١")), None);
}

#[test]
fn an_index_fits_in_the_machine_word() {
    let samples = [
        "0", "9", "10", "", "00012", "18446744073709551615", "18446744073709551616",
        "99999999999999999999999", "4294967296", "1_0", "1.0", "0x1", "-0", "1 ",
    ];
    for sample in samples {
        assert_eq!(parse_index(&chars(sample)), sample.parse::<usize>().ok(), "{}", sample);
    }
    let largest = usize::MAX.to_string();
    assert_eq!(parse_index(&chars(&largest)), Some(usize::MAX));
    let beyond = format!("{}0", largest);
    assert_eq!(parse_index(&chars(&beyond)), None);
}

#[test]
fn a_number_is_written_in_base_ten() {
    assert_eq!(string_of(&decimal_of(0)), "0");
    assert_eq!(string_of(&decimal_of(7)), "7");
    assert_eq!(string_of(&decimal_of(10)), "10");
    assert_eq!(string_of(&decimal_of(1203)), "1203");
    assert_eq!(string_of(&decimal_of(usize::MAX)), usize::MAX.to_string());
}

#[test]
fn a_prefix_and_a_suffix_are_found_in_place() {
    assert!(starts_at(&chars("/a/*/b"), 2, &chars("/*")));
    assert!(!starts_at(&chars("/a/*/b"), 1, &chars("/*")));
    assert!(starts_at(&chars("abc"), 3, &chars("")));
    assert!(!starts_at(&chars("abc"), 2, &chars("cd")));
    assert!(ends_in(&chars("apps/a.yaml"), &chars(".yaml")));
    assert!(ends_in(&chars("a.yaml"), &chars("")));
    assert!(ends_in(&chars(".yaml"), &chars(".yaml")));
    assert!(!ends_in(&chars("yaml"), &chars(".yaml")));
    assert!(!ends_in(&chars("a.yaml.bak"), &chars(".yaml")));
}

#[test]
fn every_occurrence_is_replaced_from_left_to_right() {
    let replace = |text: &str, from: &str, to: &str| {
        string_of(&replace_all(&chars(text), &chars(from), &chars(to)))
    };
    assert_eq!(replace("/a/*/b/*", "*", "\\d+"), "/a/\\d+/b/\\d+");
    assert_eq!(replace("/g/*/x/g/*", "/g/*", "/g/3"), "/g/3/x/g/3");
    assert_eq!(replace("aaa", "aa", "b"), "ba");
    assert_eq!(replace("abc", "x", "y"), "abc");
    assert_eq!(replace("abc", "abcd", "y"), "abc");
    assert_eq!(replace("", "a", "b"), "");
    assert_eq!(replace("abc", "", "y"), "abc");
    assert_eq!(replace("abab", "ab", ""), "");
    for (text, from, to) in [("/a/*/b/*", "/*", "/1"), ("xxxx", "xx", "x"), ("a.b.c", ".", "..")] {
        assert_eq!(replace(text, from, to), text.replace(from, to));
    }
}
