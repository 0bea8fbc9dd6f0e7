use xpct::formatter::{indent_segments, OutputSegment};
use xpct::style::OutputStyle;
use xpct::{
    be_gt, be_lt, be_some, consist_of, equal, every, expect, match_any_fields, match_elements,
    match_fields, why, Field, FieldSpec, FieldsSpec, Value,
};

fn num(n: i128) -> Value {
    Value::Int(n)
}

fn nums(ns: &[i128]) -> Value {
    Value::List(ns.iter().map(|n| num(*n)).collect())
}

fn point(x: i128, y: i128) -> Value {
    Value::Record(
        String::from("Point"),
        vec![
            Field { name: String::from("x"), value: num(x) },
            Field { name: String::from("y"), value: num(y) },
        ],
    )
}

fn only_x(m: xpct::Matcher) -> FieldsSpec {
    FieldsSpec {
        struct_name: String::from("Point"),
        fields: vec![FieldSpec { name: String::from("x"), matcher: m }],
    }
}

#[test]
fn match_elements_ignores_extra_elements() {
    let r = expect(nums(&[1, 2, 3])).try_to(match_elements(vec![equal(num(1)), equal(num(2))]));
    assert!(r.is_ok());
}

#[test]
fn match_elements_ignores_extra_matchers() {
    let r = expect(nums(&[1])).try_to(match_elements(vec![equal(num(1)), equal(num(5))]));
    assert!(r.is_ok());
}

#[test]
fn match_elements_fails_on_one_mismatch() {
    let r = expect(nums(&[1, 2])).try_to(match_elements(vec![equal(num(1)), equal(num(3))]));
    assert!(r.is_err());
}

#[test]
fn match_fields_ignores_fields_left_out() {
    assert!(expect(point(1, 100)).try_to(match_fields(only_x(equal(num(1))))).is_ok());
    assert!(expect(point(2, 100)).try_to(match_fields(only_x(equal(num(1))))).is_err());
}

#[test]
fn match_any_fields_needs_one_field() {
    let spec = FieldsSpec {
        struct_name: String::from("Point"),
        fields: vec![
            FieldSpec { name: String::from("x"), matcher: equal(num(7)) },
            FieldSpec { name: String::from("y"), matcher: be_gt(num(0)) },
        ],
    };
    assert!(expect(point(1, 2)).try_to(match_any_fields(spec)).is_ok());
    let spec = FieldsSpec {
        struct_name: String::from("Point"),
        fields: vec![
            FieldSpec { name: String::from("x"), matcher: equal(num(7)) },
            FieldSpec { name: String::from("y"), matcher: be_lt(num(0)) },
        ],
    };
    assert!(expect(point(1, 2)).try_to(match_any_fields(spec)).is_err());
}

#[test]
fn every_negated_needs_one_failing_element() {
    assert!(expect(nums(&[1, 5])).try_to_not(every(be_gt(num(2)))).is_ok());
    assert!(expect(nums(&[3, 5])).try_to_not(every(be_gt(num(2)))).is_err());
}

#[test]
fn every_hands_on_each_unwrapped_element() {
    let list = Value::List(vec![
        Value::Opt(Some(Box::new(num(1)))),
        Value::Opt(Some(Box::new(num(2)))),
    ]);
    let a = expect(list).try_to(every(be_some())).ok().unwrap();
    assert_eq!(a.into_inner().repr(), "[1, 2]");
}

#[test]
fn consist_of_is_symmetric_and_ignores_order() {
    assert!(expect(nums(&[1, 2, 2])).try_to(consist_of(vec![num(2), num(1), num(2)])).is_ok());
    assert!(expect(nums(&[2, 1, 2])).try_to(consist_of(vec![num(1), num(2), num(2)])).is_ok());
    assert!(expect(nums(&[1, 2])).try_to(consist_of(vec![num(1), num(2), num(2)])).is_err());
}

#[test]
fn why_keeps_the_outcome_of_its_matcher() {
    assert!(expect(num(3)).try_to(why(be_gt(num(2)), "reason")).is_ok());
    assert!(expect(num(1)).try_to(why(be_gt(num(2)), "reason")).is_err());
}

fn styled_text(parts: &[&str], prefix: &str, hanging: bool) -> String {
    let segs: Vec<OutputSegment> = parts
        .iter()
        .map(|p| OutputSegment { buf: String::from(*p), style: OutputStyle::plain() })
        .collect();
    indent_segments(segs, prefix, hanging).iter().map(|s| s.buf.as_str()).collect()
}

#[test]
fn styled_indent_reads_as_plain_indent() {
    let cases: &[&[&str]] = &[
        &["ab", "c\nd"],
        &["line 1\n", "", "line 2\n"],
        &["x\r\ny", "\n"],
        &["a\n\nb"],
        &["end\n"],
    ];
    for parts in cases {
        let text: String = parts.concat();
        for hanging in [false, true] {
            assert_eq!(styled_text(parts, "  ", hanging), xpct::strings::indent(&text, "  ", hanging));
        }
    }
}

#[test]
fn styled_indent_differs_where_the_law_excludes() {
    // A `\r` ending one segment and a `\n` starting the next.
    assert_eq!(styled_text(&["a\r", "\nb"], "> ", false), "> a\r\n> b");
    assert_eq!(xpct::strings::indent("a\r\nb", "> ", false), "> a\n> b");
    // Empty text, not hanging.
    assert_eq!(styled_text(&[], "> ", false), "> ");
    assert_eq!(xpct::strings::indent("", "> ", false), "");
}

#[test]
fn dedent_twice_is_dedent_once() {
    let once = xpct::indent::dedent("    a\n  b\n      c");
    assert_eq!(once, "  a\nb\n    c");
    assert_eq!(xpct::indent::dedent(&once), once);
}

#[test]
fn simple_neg_flips_success() {
    let format = || xpct::format::FailFormat::Mismatch(xpct::format::MismatchFormat::new("to not equal", "to equal"));
    let pos = xpct::Matcher::simple(xpct::MatchKind::Equal(num(1)), format());
    let neg = xpct::Matcher::simple_neg(xpct::MatchKind::Equal(num(1)), format());
    for v in [1, 2] {
        assert_eq!(neg.match_pos(num(v)).unwrap().is_success(), pos.match_pos(num(v)).unwrap().is_fail());
        assert_eq!(neg.match_neg(num(v)).unwrap().is_success(), pos.match_neg(num(v)).unwrap().is_fail());
    }
    assert!(neg.match_pos(num(2)).unwrap().is_success());
    assert!(neg.match_pos(Value::Str(String::from("x"))).unwrap().is_success());
}

#[test]
fn match_elements_errs_with_its_first_erring_matcher() {
    let m = match_elements(vec![equal(num(1)), be_gt(Value::Str(String::from("a"))), be_gt(Value::Bool(true))]);
    let e = m.match_pos(nums(&[1, 2, 3])).unwrap_err();
    assert_eq!(e, "the values cannot be ordered");
    assert!(m.match_pos(nums(&[5])).unwrap().is_fail());
    assert!(m.match_pos(nums(&[1])).unwrap().is_success());
}
