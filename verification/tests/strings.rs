use xpct::strings::{indent, int_len, pad_int, whitespace};

#[test]
fn strings_indent_when_the_indent_len_is_zero() {
    let input = "line 1\nline 2\n line 3\n";
    let expected = input;
    assert_eq!(indent(input, "", false), expected);
}

#[test]
fn strings_indent_when_the_indent_len_is_non_zero() {
    let input = " line 1\n  line 2\n   line 3\n";
    let expected = String::from("   line 1\n    line 2\n     line 3\n");
    assert_eq!(indent(input, "  ", false), expected);
}

#[test]
fn strings_indent_when_there_is_no_trailing_newline() {
    let input = " line 1\n line 2\n line 3";
    let expected = String::from("   line 1\n   line 2\n   line 3");
    assert_eq!(indent(input, "  ", false), expected);
}

#[test]
fn strings_indent_hanging_leaves_the_first_line() {
    assert_eq!(indent("a\nb\nc", "> ", true), "a\n> b\n> c");
}

#[test]
fn int_len_counts_digits() {
    assert_eq!(int_len(0, 10), 1);
    assert_eq!(int_len(9, 10), 1);
    assert_eq!(int_len(10, 10), 2);
    assert_eq!(int_len(999, 10), 3);
    assert_eq!(int_len(1000, 10), 4);
    assert_eq!(int_len(255, 16), 2);
    assert_eq!(int_len(256, 16), 3);
    assert_eq!(int_len(5, 2), 3);
}

#[test]
fn pad_int_aligns_numbers() {
    assert_eq!(pad_int(7, 120, 10), "  ");
    assert_eq!(pad_int(42, 120, 10), " ");
    assert_eq!(pad_int(100, 120, 10), "");
}

#[test]
fn whitespace_is_spaces() {
    assert_eq!(whitespace(3), "   ");
    assert_eq!(whitespace(0), "");
}
