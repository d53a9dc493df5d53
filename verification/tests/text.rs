use exemplify_lib::text::{
    chars_of, comes_before, contains_text, count_leading_spaces, decimal_string, find,
    matches_at, parse_number, same_text, spaces_string,
};

fn chars(text: &str) -> Vec<char> {
    text.chars().collect()
}

#[test]
fn the_first_occurrence_is_found() {
    assert_eq!(find(&chars("abcabc"), &chars("bc")), Some(1));
    assert_eq!(find(&chars("abcabc"), &chars("abcabc")), Some(0));
    assert_eq!(find(&chars("abcabc"), &chars("cab")), Some(2));
    assert_eq!(find(&chars("abcabc"), &chars("bd")), None);
    assert_eq!(find(&chars("abc"), &chars("abcd")), None);
    assert_eq!(find(&chars("abc"), &chars("")), Some(0));
    assert_eq!(find(&chars(""), &chars("")), Some(0));
    assert_eq!(find(&chars("aab"), &chars("ab")), Some(1));
    assert!(matches_at(&chars("abc"), &chars("bc"), 1));
    assert!(!matches_at(&chars("abc"), &chars("bc"), 0));
}

#[test]
fn texts_are_searched_by_character() {
    assert!(contains_text("größe ##x## ende", "##x##"));
    assert!(contains_text("größe", "öß"));
    assert!(!contains_text("große", "öß"));
    assert!(contains_text("anything", ""));
    assert_eq!(chars_of("aö€"), vec!['a', 'ö', '€']);
    assert!(same_text("aö", "aö"));
    assert!(!same_text("aö", "ao"));
    assert!(!same_text("a", "ab"));
    assert!(same_text("", ""));
}

#[test]
fn texts_are_ordered_like_strings() {
    let texts = ["", "a", "A", "ab", "abc", "abd", "b", "a-", "ä", "z", "€", "a b", "example-10", "example-2"];
    for left in texts {
        for right in texts {
            assert_eq!(comes_before(left, right), left < right, "{:?} {:?}", left, right);
        }
    }
}

#[test]
fn leading_spaces_are_counted() {
    assert_eq!(count_leading_spaces(&chars("   a b ")), 3);
    assert_eq!(count_leading_spaces(&chars("a")), 0);
    assert_eq!(count_leading_spaces(&chars("  ")), 2);
    assert_eq!(count_leading_spaces(&chars("")), 0);
    assert_eq!(count_leading_spaces(&chars("\t a")), 0);
    assert_eq!(spaces_string(3), "   ");
    assert_eq!(spaces_string(0), "");
}

#[test]
fn numbers_are_written_in_decimal() {
    assert_eq!(decimal_string(0), "0");
    assert_eq!(decimal_string(7), "7");
    assert_eq!(decimal_string(10), "10");
    assert_eq!(decimal_string(1234567890), "1234567890");
    assert_eq!(decimal_string(usize::MAX), usize::MAX.to_string());
}

#[test]
fn numbers_are_read_from_digits() {
    assert_eq!(parse_number("0"), Some(0));
    assert_eq!(parse_number("007"), Some(7));
    assert_eq!(parse_number("4294967295"), Some(4294967295));
    assert_eq!(parse_number("4294967296"), None);
    assert_eq!(parse_number("99999999999999999999999999"), None);
    assert_eq!(parse_number(""), None);
    assert_eq!(parse_number("12a"), None);
    assert_eq!(parse_number("-1"), None);
    assert_eq!(parse_number("+1"), None);
    assert_eq!(parse_number(" 1"), None);
}
