use xpct::indent::{dedent, indent};

fn indented_string(levels: &[usize]) -> String {
    let mut result = String::new();
    for (index, level) in levels.iter().enumerate() {
        for _ in 0..*level {
            result.push(' ');
        }
        result.push_str(&format!("line {}", index));
        result.push('\n');
    }
    result
}

#[test]
fn indent_indent_when_the_indent_len_is_zero() {
    let actual = "line 1\nline 2\n line 3";
    let expected = actual;
    assert_eq!(indent(actual, 0), expected);
}

#[test]
fn indent_indent_when_the_indent_len_is_non_zero() {
    let actual = indented_string(&[1, 2, 3]);
    let expected = indented_string(&[5, 6, 7]);
    assert_eq!(indent(&actual, 4), expected);
}

#[test]
fn indent_indent_when_there_is_no_trailing_newline() {
    let actual = " line 1\n line 2\n line 3";
    let expected = String::from("   line 1\n   line 2\n   line 3");
    assert_eq!(indent(actual, 2), expected);
}

#[test]
fn dedent_when_there_is_no_indent() {
    let actual = indented_string(&[0, 0, 0]);
    let expected = actual.clone();
    assert_eq!(dedent(&actual), expected);
}

#[test]
fn dedent_when_indent_level_increases() {
    let actual = indented_string(&[1, 2, 3]);
    let expected = indented_string(&[0, 1, 2]);
    assert_eq!(dedent(&actual), expected);
}

#[test]
fn dedent_when_indent_level_decreases() {
    let actual = indented_string(&[3, 2, 1]);
    let expected = indented_string(&[2, 1, 0]);
    assert_eq!(dedent(&actual), expected);
}

#[test]
fn dedent_when_indent_level_decreases_then_increases() {
    let actual = indented_string(&[2, 1, 3]);
    let expected = indented_string(&[1, 0, 2]);
    assert_eq!(dedent(&actual), expected);
}

#[test]
fn dedent_when_indent_level_increases_then_decreases() {
    let actual = indented_string(&[1, 3, 2]);
    let expected = indented_string(&[0, 2, 1]);
    assert_eq!(dedent(&actual), expected);
}

#[test]
fn dedent_when_there_is_a_blank_line() {
    let actual = " line 1\n\n line 3\n";
    let expected = String::from("line 1\n\nline 3\n");
    assert_eq!(dedent(actual), expected);
}

#[test]
fn dedent_when_there_is_no_trailing_newline() {
    let actual = " line 1\n\n line 3";
    let expected = String::from("line 1\n\nline 3");
    assert_eq!(dedent(actual), expected);
}

#[test]
fn indent_of_an_empty_string_is_empty() {
    assert_eq!(indent("", 4), "");
}

#[test]
fn indent_turns_crlf_into_lf() {
    assert_eq!(indent("a\r\nb\r\n", 1), " a\n b\n");
}

#[test]
fn dedent_of_whitespace_only_lines() {
    assert_eq!(dedent("  \n  x\n"), "\nx\n");
}

#[test]
fn dedent_counts_the_indent_in_bytes() {
    // A no-break space is two bytes wide, as wide as two ASCII spaces.
    assert_eq!(dedent("\u{a0}x\n  y\n"), "x\ny\n");
    assert_eq!(dedent("   a\n\u{a0}b\n"), " a\nb\n");
}
