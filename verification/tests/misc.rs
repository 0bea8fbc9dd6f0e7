use xpct::format::{DispatchFormat, FailData, FailFormat, FailureFormat, MessageFormat, NoneFormat};
use xpct::lists::{indexed_list, labeled_list, labeled_mismatch, trim_chars, Labeled, LabeledMismatch};
use xpct::style::{bad, StyleOp, TextStyle, BOLD, UNDERLINE};
use xpct::{
    be_directory, be_existing_file, be_regular_file, be_symlink, path_state,
    be_gt, be_ok, eq_casefold, equal, expect, match_json, match_regex, AssertionContext,
    FileLocation, FormattedFailure, FormattedOutput, Formatter, MatchFailure, MatchOutcome,
    OutputStream, Value,
};

fn s(x: &str) -> Value {
    Value::Str(String::from(x))
}

#[test]
fn output_streams() {
    assert!(OutputStream::Stdout.is_stdout());
    assert!(!OutputStream::Stdout.is_stderr());
    assert!(OutputStream::Stderr.is_stderr());
}

#[test]
fn match_failure_sides() {
    let p: MatchFailure<u8> = MatchFailure::Pos(1);
    let n: MatchFailure<u8> = MatchFailure::Neg(2);
    assert!(p.is_pos() && !p.is_neg());
    assert!(n.is_neg() && !n.is_pos());
    assert_eq!(n.into_inner(), 2);
}

#[test]
fn match_outcome_sides() {
    let a: MatchOutcome<u8, u8> = MatchOutcome::Success(1);
    let b: MatchOutcome<u8, u8> = MatchOutcome::Fail(2);
    assert!(a.is_success() && !a.is_fail());
    assert!(b.is_fail() && !b.is_success());
    assert_eq!(b.into_result(), Err(2));
}

#[test]
fn formatter_writes_and_styles() {
    let mut f = Formatter::new();
    f.write_str("a");
    f.set_style(bad());
    f.write_char('b');
    f.reset_style();
    f.write_str("c");
    let out = f.into_output();
    assert_eq!(out.text(), "abc");
    assert_eq!(out.segments().len(), 3);
    assert_eq!(out.indented("> ").text(), "> abc");
}

#[test]
fn formatted_failure_indented() {
    let mut f = Formatter::new();
    f.write_str("x\ny\n");
    let fail = FormattedFailure::from_output(f.into_output());
    assert_eq!(fail.into_indented(2).text(), "  x\n  y\n");
}

#[test]
fn dispatch_format_picks_by_side() {
    let format = FailFormat::Dispatch(DispatchFormat::new(
        FailFormat::Message(MessageFormat::new("pos", "neg")),
        FailFormat::Failure(FailureFormat::new()),
    ));
    let out = FormattedOutput::new(MatchFailure::Pos(FailData::Nothing), &format);
    assert_eq!(out.text(), "pos\n");
    let out = FormattedOutput::new(MatchFailure::Neg(FailData::Nothing), &format);
    assert_eq!(out.text(), "");
}

#[test]
fn none_format_writes_the_positive_failure() {
    let inner = || {
        FormattedFailure::new(
            MatchFailure::Pos(FailData::Nothing),
            &FailFormat::Message(MessageFormat::new("pos", "neg")),
        )
    };
    let format = FailFormat::PosOnly(NoneFormat);
    let out = FormattedOutput::new(MatchFailure::Pos(FailData::Failure(inner())), &format);
    assert_eq!(out.text(), "pos\n");
    let out = FormattedOutput::new(MatchFailure::Neg(FailData::Failure(inner())), &format);
    assert_eq!(out.text(), "");
}

#[test]
fn context_line_of_failed_assertion() {
    let ctx = AssertionContext {
        location: Some(FileLocation { file: String::from("src/a.rs"), line: 12, column: 5 }),
        expr: Some(String::from("x")),
    };
    let text = expect(Value::Int(1)).with_ctx(ctx).try_to(be_gt(Value::Int(2))).unwrap_err().text();
    assert!(text.starts_with("\n[src/a.rs:12:5] = x\n    Expected:\n"));
    let ctx = AssertionContext { location: None, expr: Some(String::from("y")) };
    let text = expect(Value::Int(1)).with_ctx(ctx).try_to(be_gt(Value::Int(2))).unwrap_err().text();
    assert!(text.starts_with("\ny\n    Expected:\n"));
}

#[test]
fn assertion_hands_on_values() {
    let a = expect(Value::Res(Ok(Box::new(s("x"))))).try_to(be_ok()).unwrap();
    assert_eq!(a.ctx().expr, None);
    let v = a.try_to(equal(s("x"))).unwrap().into_inner();
    assert_eq!(v.repr(), "\"x\"");
}

#[test]
fn assertion_map() {
    let a = expect(Value::Int(2)).map(|v| match v {
        Value::Int(n) => Value::Int(n * 10),
        other => other,
    });
    assert_eq!(a.into_inner().repr(), "20");
    let b = expect(Value::Int(2)).try_map(|v| Ok(Value::List(vec![v])));
    assert_eq!(b.into_inner().repr(), "[2]");
}

#[test]
fn outside_crates_are_called() {
    assert!(expect(s("HELLO")).try_to(eq_casefold("hello")).is_ok());
    assert!(expect(s("abc")).try_to(match_regex("b+c$")).is_ok());
    let text = expect(s("abc")).try_to(match_regex("(")).unwrap_err().text();
    assert!(text.contains("regex parse error"));
    assert!(expect(s("[1, 2]")).try_to(match_json(" [1,2] ")).is_ok());
    assert!(expect(s("{")).try_to(match_json("{}")).is_err());
}

#[test]
fn style_ops_follow_flags() {
    let style = TextStyle::from_bits(BOLD | UNDERLINE);
    assert_eq!(style.ops(), vec![StyleOp::Bold, StyleOp::Underline]);
    assert_eq!(bad().ops().len(), 2);
}

#[test]
fn numbered_list() {
    let mut f = Formatter::new();
    let items: Vec<String> = (0..11).map(|i| format!("item {}", i)).collect();
    indexed_list(&mut f, &items);
    let text = f.into_output().text();
    assert!(text.starts_with("[00]  item 0\n\n[01]  item 1\n\n"));
    assert!(text.ends_with("[10]  item 10\n\n"));
}

#[test]
fn numbered_list_continuation_lines() {
    let mut f = Formatter::new();
    indexed_list(&mut f, &vec![String::from("a\nb")]);
    assert_eq!(f.into_output().text(), "[0]  a\n     b\n\n");
}

#[test]
fn labeled_lists() {
    let mut f = Formatter::new();
    labeled_list(&mut f, &vec![Labeled { label: String::from("L:"), element: String::from("x\ny") }]);
    assert_eq!(f.into_output().text(), "L:\n  x\n  y\n");
}

#[test]
fn labeled_mismatches() {
    let mut f = Formatter::new();
    let m = LabeledMismatch {
        actual_label: String::from("Actual:"),
        expected_label: String::from("Expected:"),
        mismatch: xpct::format::Mismatch { actual: Value::Int(1), expected: Value::Int(2) },
    };
    labeled_mismatch(&mut f, &m);
    assert_eq!(f.into_output().text(), "Expected:\n  2\nActual:\n  1\n");
}

#[test]
fn trimming() {
    let v: Vec<char> = "  a b \n".chars().collect();
    assert_eq!(trim_chars(&v).into_iter().collect::<String>(), "a b");
    let w: Vec<char> = " \t ".chars().collect();
    assert!(trim_chars(&w).is_empty());
}

#[test]
fn file_matchers_read_the_path_state() {
    let file = || path_state("a.txt", true, true, false, false);
    assert!(expect(file()).try_to(be_existing_file()).is_ok());
    assert!(expect(file()).try_to(be_regular_file()).is_ok());
    assert!(expect(file()).try_to_not(be_directory()).is_ok());
    assert!(expect(file()).try_to_not(be_symlink()).is_ok());
    let missing = path_state("nope", false, false, false, false);
    let text = expect(missing).try_to(be_existing_file()).unwrap_err().text();
    assert_eq!(text, "\n    Expected:\n        \"nope\"\n    to exist in the filesystem\n\n");
    let text = expect(Value::Int(1)).try_to(be_directory()).unwrap_err().text();
    assert_eq!(text, "\n    the value is not the state of a path\n");
}

#[test]
fn matcher_runs_either_side() {
    let m = be_gt(Value::Int(2));
    assert!(m.match_pos(Value::Int(3)).unwrap().is_success());
    assert!(m.match_neg(Value::Int(3)).unwrap().is_fail());
    assert!(m.match_pos(Value::Int(1)).unwrap().is_fail());
    assert!(m.match_neg(Value::Int(1)).unwrap().is_success());
    assert!(m.match_pos(s("x")).is_err());
}
