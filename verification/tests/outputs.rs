use xpct::format::{DiffKind, DiffTag, FailData};
use xpct::run::compute_diff;
use xpct::{
    all, any, be_false, be_gt, be_lt, be_none, be_some, be_true, each, eq_diff, equal, every, expect,
    not, why, FormattedOutput, Matcher, Value,
};

fn s(x: &str) -> Value {
    Value::Str(String::from(x))
}

fn num(n: i128) -> Value {
    Value::Int(n)
}

fn failure_text(actual: Value, matcher: Matcher) -> String {
    expect(actual).try_to(matcher).unwrap_err().text()
}

fn negated_failure_text(actual: Value, matcher: Matcher) -> String {
    expect(actual).try_to_not(matcher).unwrap_err().text()
}

#[test]
fn mismatch_output() {
    assert_eq!(
        failure_text(s("b"), equal(s("a"))),
        "\n    Expected:\n        \"b\"\n    to equal:\n        \"a\"\n\n"
    );
}

#[test]
fn mismatch_output_negated() {
    assert_eq!(
        negated_failure_text(num(1), equal(num(1))),
        "\n    Expected:\n        1\n    to not equal:\n        1\n\n"
    );
}

#[test]
fn message_output() {
    assert_eq!(failure_text(Value::Bool(false), be_true()), "\n    Expected this to be true.\n\n");
    assert_eq!(failure_text(Value::Bool(true), be_false()), "\n    Expected this to be false.\n\n");
}

#[test]
fn expectation_output() {
    assert_eq!(
        failure_text(Value::Opt(None), be_some()),
        "\n    Expected:\n        None\n    to be Some(_)\n\n"
    );
    assert_eq!(
        failure_text(Value::Opt(Some(Box::new(num(3)))), be_none()),
        "\n    Expected:\n        Some(3)\n    to be None\n\n"
    );
}

#[test]
fn error_output() {
    assert_eq!(failure_text(num(1), be_true()), "\n    the value is not a bool\n");
}

#[test]
fn why_output() {
    assert_eq!(
        failure_text(num(1), why(be_gt(num(2)), "it should be big")),
        "\n    [why] it should be big\n    Expected:\n        1\n    to be greater than:\n        2\n\n"
    );
}

#[test]
fn to_not_reads_as_to_not() {
    let a = negated_failure_text(s("a"), equal(s("a")));
    let b = failure_text(s("a"), not(equal(s("a"))));
    assert_eq!(a, b);
}

#[test]
fn double_negation_reads_as_the_matcher() {
    let a = failure_text(s("a"), equal(s("b")));
    let b = failure_text(s("a"), not(not(equal(s("b")))));
    assert_eq!(a, b);
}

#[test]
fn be_false_reads_as_to_not_be_true() {
    let a = failure_text(Value::Bool(true), be_false());
    let b = negated_failure_text(Value::Bool(true), be_true());
    assert_eq!(a, b);
}

#[test]
fn all_reads_as_the_failed_matcher() {
    let a = failure_text(num(1), all(vec![be_lt(num(2)), be_gt(num(5))]));
    let b = failure_text(num(1), be_gt(num(5)));
    assert_eq!(a, b);
}

#[test]
fn all_negated_output() {
    assert_eq!(
        negated_failure_text(num(1), all(vec![be_lt(num(2)), be_gt(num(0))])),
        "\n    Expected at least one of these to fail.\n\n"
    );
}

#[test]
fn each_output() {
    assert_eq!(
        failure_text(num(1), each(vec![be_lt(num(0)), be_gt(num(0))])),
        "\n    Expected all of these to succeed:\n        [0]  FAILED\n             Expected:\n                 1\n             to be less than:\n                 0\n        \n\n"
    );
}

#[test]
fn any_output_numbers_every_failure() {
    let text = failure_text(num(1), any(vec![be_lt(num(0)), be_gt(num(2))]));
    assert!(text.starts_with("\n    Expected at least one of these to succeed:\n        [0]  FAILED\n"));
    assert!(text.contains("[1]  FAILED"));
}

#[test]
fn every_output_shows_the_failed_index() {
    let list = Value::List(vec![Value::Opt(Some(Box::new(num(1)))), Value::Opt(None)]);
    let text = failure_text(list, every(be_some()));
    assert!(text.contains("[1]  FAILED"));
    assert!(!text.contains("[0]  FAILED"));
}

#[test]
fn string_diff_output() {
    assert_eq!(
        failure_text(s("Hello, world!"), eq_diff(s("Hello, there!"))),
        "\n    Expected these to be equal:\n        Hello, thereworld!\n"
    );
}

#[test]
fn list_diff_output() {
    let actual = Value::List(vec![s("apple"), s("banana")]);
    let expected = Value::List(vec![s("apple"), s("kiwi")]);
    assert_eq!(
        failure_text(actual, eq_diff(expected)),
        "\n    Expected these to be equal:\n        [\n            \"apple\",\n        -   \"kiwi\",\n        +   \"banana\",\n        ]\n"
    );
}

#[test]
fn diff_pieces_give_back_both_strings() {
    let diff = compute_diff(&s("kitten"), &s("sitting")).unwrap();
    match diff {
        FailData::Diff(d) => {
            assert_eq!(d.kind, DiffKind::StringKind);
            let mut actual = String::new();
            let mut expected = String::new();
            for seg in &d.segments {
                if seg.tag != DiffTag::Delete {
                    actual.push_str(&seg.text);
                }
                if seg.tag != DiffTag::Insert {
                    expected.push_str(&seg.text);
                }
            }
            assert_eq!(actual, "kitten");
            assert_eq!(expected, "sitting");
        },
        _ => panic!("not a diff"),
    }
}

#[test]
fn values_that_cannot_be_diffed() {
    assert!(compute_diff(&num(1), &num(2)).is_none());
}

#[test]
fn indented_output_with_empty_prefix_is_unchanged() {
    let out: FormattedOutput = expect(num(1)).try_to(equal(num(2))).unwrap_err();
    let text = out.text();
    assert_eq!(out.indented("").text(), text);
}
