use exemplify_lib::read_examples::{indent, left_align};

fn lines(values: &[&str]) -> Vec<String> {
    values.iter().map(|value| value.to_string()).collect()
}

#[test]
fn test_left_align() {
    let mut data = vec!["    a".to_string(), "   b".to_string()];

    data = left_align(data);

    assert_eq!(data[0], " a");
    assert_eq!(data[1], "b");
}

#[test]
fn indent_after_left_align() {
    let aligned = left_align(lines(&["    a", "   b"]));
    let indented = indent(aligned, 2);
    assert_eq!(indented, lines(&["   a", "  b"]));
}

#[test]
fn empty_lines_stay_empty() {
    assert_eq!(left_align(lines(&["  a", "", "    b"])), lines(&["a", "", "  b"]));
    assert_eq!(left_align(lines(&["", ""])), lines(&["", ""]));
    assert_eq!(left_align(Vec::new()), Vec::<String>::new());
}

#[test]
fn a_line_of_spaces_counts_as_a_line() {
    assert_eq!(left_align(lines(&["    a", "  "])), lines(&["  a", ""]));
    assert_eq!(left_align(lines(&["   ", " "])), lines(&["  ", ""]));
}

#[test]
fn only_spaces_are_indentation() {
    assert_eq!(left_align(lines(&["\t a", "  b"])), lines(&["\t a", "  b"]));
    assert_eq!(left_align(lines(&["  ä", "   ö"])), lines(&["ä", " ö"]));
}

#[test]
fn aligned_lines_are_left_as_they_are() {
    for given in [
        lines(&["    a", "   b"]),
        lines(&["a", "  b", ""]),
        lines(&["  ", "  "]),
        lines(&["  x  ", "", "      y"]),
        Vec::new(),
    ] {
        let once = left_align(given);
        let twice = left_align(once.clone());
        assert_eq!(once, twice);
    }
}

#[test]
fn a_second_pass_goes_on_where_only_a_line_of_spaces_was_least_indented() {
    let once = left_align(lines(&["  ", "    a"]));
    assert_eq!(once, lines(&["", "  a"]));
    let twice = left_align(once);
    assert_eq!(twice, lines(&["", "a"]));
}

#[test]
fn normalized_lines_are_left_as_they_are() {
    for given in [lines(&["  ", "    a"]), lines(&["    a", "   b"]), lines(&["", "x"])] {
        let once = indent(left_align(given), 3);
        let twice = indent(left_align(once.clone()), 3);
        assert_eq!(once, twice);
    }
}

#[test]
fn indenting_puts_spaces_before_every_line() {
    assert_eq!(indent(lines(&["a", "", " b"]), 2), lines(&["  a", "  ", "   b"]));
    assert_eq!(indent(lines(&["a", ""]), 0), lines(&["a", ""]));
    assert_eq!(indent(Vec::new(), 4), Vec::<String>::new());
}
