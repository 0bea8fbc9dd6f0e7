use xpct::{
    all, any, approx_eq_time, be_default, be_empty, be_err, be_false, be_ge, be_gt, be_in, be_le,
    be_lt, be_none, be_ok, be_some, be_sorted_asc, be_sorted_by, be_sorted_desc, be_true,
    consist_of, contain_element, contain_substr, each, eq_casefold, equal, every, expect, have_len,
    match_any_fields, match_fields, match_json, match_regex, not, Assertion, Field, FieldSpec,
    FieldsSpec, Matcher, SortKey, Value,
};

fn s(x: &str) -> Value {
    Value::Str(String::from(x))
}

fn strs(xs: &[&str]) -> Value {
    Value::List(xs.iter().map(|x| s(x)).collect())
}

fn num(n: i128) -> Value {
    Value::Int(n)
}

fn some(v: Value) -> Value {
    Value::Opt(Some(Box::new(v)))
}

fn none() -> Value {
    Value::Opt(None)
}

fn ok(v: Value) -> Value {
    Value::Res(Ok(Box::new(v)))
}

fn err(v: Value) -> Value {
    Value::Res(Err(Box::new(v)))
}

/// Asserts that `matcher` succeeds on `actual`, as `expect!(actual).to(matcher)` does.
fn to(actual: Value, matcher: Matcher) -> Assertion {
    match expect(actual).try_to(matcher) {
        Ok(a) => a,
        Err(output) => panic!("\n{}\n", output.text()),
    }
}

/// Asserts that `matcher` fails on `actual`, as `expect!(actual).to_not(matcher)` does.
fn to_not(actual: Value, matcher: Matcher) -> Assertion {
    match expect(actual).try_to_not(matcher) {
        Ok(a) => a,
        Err(output) => panic!("\n{}\n", output.text()),
    }
}

fn record() -> Value {
    Value::Record(
        String::from("Value"),
        vec![
            Field { name: String::from("foo"), value: s("some string") },
            Field { name: String::from("bar"), value: num(1) },
        ],
    )
}

fn fields(foo: &str, bar: i128) -> FieldsSpec {
    FieldsSpec {
        struct_name: String::from("Value"),
        fields: vec![
            FieldSpec { name: String::from("foo"), matcher: equal(s(foo)) },
            FieldSpec { name: String::from("bar"), matcher: equal(num(bar)) },
        ],
    }
}

const MILLI: u128 = 1_000_000;

// all

#[test]
fn all_succeeds_when_all_matchers_succeed() {
    to(num(1), all(vec![be_lt(num(2)), be_gt(num(0))]));
}

#[test]
fn all_succeeds_when_not_all_matchers_succeed() {
    to_not(num(1), all(vec![be_lt(num(0)), be_gt(num(0))]));
}

#[test]
#[should_panic]
fn all_fails_when_all_matchers_succeed() {
    to_not(num(1), all(vec![be_lt(num(2)), be_gt(num(0))]));
}

#[test]
#[should_panic]
fn all_fails_when_not_all_matchers_succeed() {
    to(num(1), all(vec![be_lt(num(0)), be_gt(num(0))]));
}

// any

#[test]
fn any_succeeds_when_any_matchers_succeed() {
    to(num(1), any(vec![be_lt(num(0)), be_gt(num(0))]));
}

#[test]
fn any_succeeds_when_not_any_matchers_succeed() {
    to_not(num(1), any(vec![be_lt(num(0)), be_gt(num(2))]));
}

#[test]
#[should_panic]
fn any_fails_when_any_matchers_succeed() {
    to_not(num(1), any(vec![be_lt(num(0)), be_gt(num(0))]));
}

#[test]
#[should_panic]
fn any_fails_when_not_any_matchers_succeed() {
    to(num(1), any(vec![be_lt(num(0)), be_gt(num(2))]));
}

// eq_casefold

#[test]
fn casefold_succeeds_when_equal() {
    to(s("Spaß"), eq_casefold("spass"));
}

#[test]
fn casefold_succeeds_when_not_equal() {
    to_not(s("Spaß"), eq_casefold("spas"));
}

#[test]
#[should_panic]
fn casefold_fails_when_equal() {
    to_not(s("Spaß"), eq_casefold("spass"));
}

#[test]
#[should_panic]
fn casefold_fails_when_not_equal() {
    to(s("Spaß"), eq_casefold("spas"));
}

// contain_element, consist_of, be_in

#[test]
fn succeeds_when_contains_elements() {
    to(strs(&["foo"]), contain_element(s("foo")));
}

#[test]
fn succeeds_when_not_contains_elements() {
    to_not(strs(&["foo"]), contain_element(s("not contained in the collection")));
}

#[test]
#[should_panic]
fn fails_when_contains_elements() {
    to_not(strs(&["foo"]), contain_element(s("foo")));
}

#[test]
#[should_panic]
fn fails_when_not_contains_elements() {
    to(strs(&["foo"]), contain_element(s("not contained in the collection")));
}

#[test]
fn succeeds_when_consists_of() {
    to(strs(&["foo", "bar"]), consist_of(vec![s("bar"), s("foo")]));
}

#[test]
fn succeeds_when_not_consists_of() {
    to_not(strs(&["foo", "bar"]), consist_of(vec![s("foo")]));
}

#[test]
#[should_panic]
fn fails_when_consists_of() {
    to_not(strs(&["foo", "bar"]), consist_of(vec![s("bar"), s("foo")]));
}

#[test]
#[should_panic]
fn fails_when_not_consists_of() {
    to(strs(&["foo", "bar"]), consist_of(vec![s("foo")]));
}

#[test]
fn succeeds_when_in_collection() {
    to(s("foo"), be_in(strs(&["foo", "bar"])));
}

#[test]
fn succeeds_when_not_in_collection() {
    to_not(s("not in collection"), be_in(strs(&["foo", "bar"])));
}

#[test]
#[should_panic]
fn fails_when_in_collection() {
    to_not(s("foo"), be_in(strs(&["foo", "bar"])));
}

#[test]
#[should_panic]
fn fails_when_not_in_collection() {
    to(s("not in collection"), be_in(strs(&["foo", "bar"])));
}

// be_default

#[test]
fn succeeds_when_default_value() {
    to(s(""), be_default());
}

#[test]
fn succeeds_when_not_default_value() {
    to_not(s("not default"), be_default());
}

#[test]
#[should_panic]
fn fails_when_default_value() {
    to_not(s(""), be_default());
}

#[test]
#[should_panic]
fn fails_when_not_default_value() {
    to(s("not default"), be_default());
}

// each

#[test]
fn each_succeeds_when_all_matchers_succeed() {
    to(num(1), each(vec![be_lt(num(2)), be_gt(num(0))]));
}

#[test]
fn each_succeeds_when_not_all_matchers_succeed() {
    to_not(num(1), each(vec![be_lt(num(0)), be_gt(num(0))]));
}

#[test]
#[should_panic]
fn each_fails_when_all_matchers_succeed() {
    to_not(num(1), each(vec![be_lt(num(2)), be_gt(num(0))]));
}

#[test]
#[should_panic]
fn each_fails_when_not_all_matchers_succeed() {
    to(num(1), each(vec![be_lt(num(0)), be_gt(num(0))]));
}

// equal

#[test]
fn equal_succeeds_when_equal() {
    to(s("some string"), equal(s("some string")));
}

#[test]
fn equal_succeeds_when_not_equal() {
    to_not(s("some string"), equal(s("a different string")));
}

#[test]
#[should_panic]
fn equal_fails_when_equal() {
    to_not(s("some string"), equal(s("some string")));
}

#[test]
#[should_panic]
fn equal_fails_when_not_equal() {
    to(s("some string"), equal(s("a different string")));
}

// every

#[test]
fn succeeds_when_every_element_succeeds() {
    to(Value::List(vec![some(s("foo")), some(s("bar"))]), every(be_some()));
}

#[test]
fn succeeds_when_not_every_element_succeeds() {
    to_not(Value::List(vec![some(s("foo")), none()]), every(be_some()));
}

#[test]
#[should_panic]
fn fails_when_every_element_succeeds() {
    to_not(Value::List(vec![some(s("foo")), some(s("bar"))]), every(be_some()));
}

#[test]
#[should_panic]
fn fails_when_not_every_element_succeeds() {
    to(Value::List(vec![some(s("foo")), none()]), every(be_some()));
}

// match_fields, match_any_fields

#[test]
fn fields_succeeds_when_all_matchers_succeed() {
    to(record(), match_fields(fields("some string", 1)));
}

#[test]
fn fields_succeeds_when_not_all_matchers_succeed() {
    to_not(record(), match_fields(fields("a different string", 2)));
}

#[test]
#[should_panic]
fn fields_fails_when_all_matchers_succeed() {
    to_not(record(), match_fields(fields("some string", 1)));
}

#[test]
#[should_panic]
fn fields_fails_when_not_all_matchers_succeed() {
    to(record(), match_fields(fields("a different string", 2)));
}

#[test]
fn fields_succeeds_when_any_matchers_succeed() {
    to(record(), match_any_fields(fields("a different string", 1)));
}

#[test]
fn fields_succeeds_when_not_any_matchers_succeed() {
    to_not(record(), match_any_fields(fields("a different string", 2)));
}

#[test]
#[should_panic]
fn fields_fails_when_any_matchers_succeed() {
    to_not(record(), match_any_fields(fields("a different string", 1)));
}

#[test]
#[should_panic]
fn fields_fails_when_not_any_matchers_succeed() {
    to(record(), match_any_fields(fields("a different string", 2)));
}

// match_json

fn json_expected() -> &'static str {
    r#"
            {
                "key1": "value1",
                "key2": "value2"
            }
        "#
}

fn json_actual() -> Value {
    s(r#"{"key2":"value2","key1":"value1"}"#)
}

#[test]
fn succeeds_when_matches_json() {
    to(json_actual(), match_json(json_expected()));
}

#[test]
fn succeeds_when_not_matches_json() {
    to_not(json_actual(), match_json(r#""different json""#));
}

#[test]
#[should_panic]
fn fails_when_matches_json() {
    to_not(json_actual(), match_json(json_expected()));
}

#[test]
#[should_panic]
fn fails_when_not_matches_json() {
    to(json_actual(), match_json(r#""different json""#));
}

// have_len, be_empty

#[test]
fn succeeds_when_has_len() {
    to(strs(&["foo"]), have_len(1));
}

#[test]
fn succeeds_when_not_has_len() {
    to_not(strs(&["foo"]), have_len(100));
}

#[test]
#[should_panic]
fn fails_when_has_len() {
    to_not(strs(&["foo"]), have_len(1));
}

#[test]
#[should_panic]
fn fails_when_not_has_len() {
    to(strs(&["foo"]), have_len(100));
}

#[test]
fn succeeds_when_is_empty() {
    to(Value::List(Vec::new()), be_empty());
}

#[test]
fn succeeds_when_not_empty() {
    to_not(strs(&["foo"]), be_empty());
}

#[test]
#[should_panic]
fn fails_when_is_empty() {
    to_not(Value::List(Vec::new()), be_empty());
}

#[test]
#[should_panic]
fn fails_when_not_empty() {
    to(strs(&["foo"]), be_empty());
}

// not

#[test]
fn succeeds_when_matcher_ok() {
    to(Value::Bool(false), not(be_true()));
}

#[test]
fn succeeds_when_matcher_fails() {
    to_not(Value::Bool(true), not(be_true()));
}

#[test]
#[should_panic]
fn fails_when_matcher_ok() {
    to_not(Value::Bool(false), not(be_true()));
}

#[test]
#[should_panic]
fn fails_when_matcher_fails() {
    to(Value::Bool(true), not(be_true()));
}

// be_some, be_none

#[test]
fn succeeds_when_some() {
    to(some(Value::Unit), be_some());
}

#[test]
fn succeeds_when_not_some() {
    to_not(none(), be_some());
}

#[test]
#[should_panic]
fn fails_when_some() {
    to_not(some(Value::Unit), be_some());
}

#[test]
#[should_panic]
fn fails_when_not_some() {
    to(none(), be_some());
}

#[test]
fn succeeds_when_none() {
    to(none(), be_none());
}

#[test]
fn succeeds_when_not_none() {
    to_not(some(Value::Unit), be_none());
}

#[test]
#[should_panic]
fn fails_when_none() {
    to_not(none(), be_none());
}

#[test]
#[should_panic]
fn fails_when_not_none() {
    to(some(Value::Unit), be_none());
}

// ordering

#[test]
fn succeeds_when_gt() {
    to(num(1), be_gt(num(0)));
}

#[test]
fn succeeds_when_not_gt() {
    to_not(num(1), be_gt(num(1)));
}

#[test]
#[should_panic]
fn fails_when_gt() {
    to_not(num(1), be_gt(num(0)));
}

#[test]
#[should_panic]
fn fails_when_not_gt() {
    to(num(1), be_gt(num(1)));
}

#[test]
fn succeeds_when_ge() {
    to(num(1), be_ge(num(1)));
}

#[test]
fn succeeds_when_not_ge() {
    to_not(num(1), be_ge(num(2)));
}

#[test]
#[should_panic]
fn fails_when_ge() {
    to_not(num(1), be_ge(num(1)));
}

#[test]
#[should_panic]
fn fails_when_not_ge() {
    to(num(1), be_ge(num(2)));
}

#[test]
fn succeeds_when_lt() {
    to(num(1), be_lt(num(2)));
}

#[test]
fn succeeds_when_not_lt() {
    to_not(num(1), be_lt(num(1)));
}

#[test]
#[should_panic]
fn fails_when_lt() {
    to_not(num(1), be_lt(num(2)));
}

#[test]
#[should_panic]
fn fails_when_not_lt() {
    to(num(1), be_lt(num(1)));
}

#[test]
fn succeeds_when_le() {
    to(num(1), be_le(num(1)));
}

#[test]
fn succeeds_when_not_le() {
    to_not(num(1), be_le(num(0)));
}

#[test]
#[should_panic]
fn fails_when_le() {
    to_not(num(1), be_le(num(1)));
}

#[test]
#[should_panic]
fn fails_when_not_le() {
    to(num(1), be_le(num(0)));
}

#[test]
fn succeeds_when_sorted_asc() {
    to(strs(&["a", "b", "c"]), be_sorted_asc());
}

#[test]
fn succeeds_when_not_sorted_asc() {
    to_not(strs(&["a", "c", "b"]), be_sorted_asc());
}

#[test]
#[should_panic]
fn fails_when_sorted_asc() {
    to_not(strs(&["a", "b", "c"]), be_sorted_asc());
}

#[test]
#[should_panic]
fn fails_when_not_sorted_asc() {
    to(strs(&["a", "c", "b"]), be_sorted_asc());
}

#[test]
fn succeeds_when_sorted_desc() {
    to(strs(&["c", "b", "a"]), be_sorted_desc());
}

#[test]
fn succeeds_when_not_sorted_desc() {
    to_not(strs(&["c", "a", "b"]), be_sorted_desc());
}

#[test]
#[should_panic]
fn fails_when_sorted_desc() {
    to_not(strs(&["c", "b", "a"]), be_sorted_desc());
}

#[test]
#[should_panic]
fn fails_when_not_sorted_desc() {
    to(strs(&["c", "a", "b"]), be_sorted_desc());
}

#[test]
fn succeeds_when_sorted_by() {
    to(strs(&["a", "B", "c"]), be_sorted_by(SortKey::Lowercase));
}

#[test]
fn succeeds_when_not_sorted_by() {
    to_not(strs(&["c", "B", "a"]), be_sorted_by(SortKey::Lowercase));
}

#[test]
#[should_panic]
fn fails_when_sorted_by() {
    to_not(strs(&["a", "B", "c"]), be_sorted_by(SortKey::Lowercase));
}

#[test]
#[should_panic]
fn fails_when_not_sorted_by() {
    to(strs(&["c", "B", "a"]), be_sorted_by(SortKey::Lowercase));
}

// match_regex

#[test]
fn succeeds_when_matches_regex() {
    to(s("foobar"), match_regex("^foo"));
}

#[test]
fn succeeds_when_not_matches_regex() {
    to_not(s("foobar"), match_regex("^a regex that does not match$"));
}

#[test]
#[should_panic]
fn fails_when_matches_regex() {
    to_not(s("foobar"), match_regex("^foo"));
}

#[test]
#[should_panic]
fn fails_when_not_matches_regex() {
    to(s("foobar"), match_regex("^a regex that does not match$"));
}

#[test]
#[should_panic]
fn fails_when_regex_is_invalid() {
    to(s("foobar"), match_regex("[an invalid regex"));
}

// be_ok, be_err

#[test]
fn succeeds_when_ok() {
    to(ok(Value::Unit), be_ok());
}

#[test]
fn succeeds_when_not_ok() {
    to_not(err(Value::Unit), be_ok());
}

#[test]
#[should_panic]
fn fails_when_ok() {
    to_not(ok(Value::Unit), be_ok());
}

#[test]
#[should_panic]
fn fails_when_not_ok() {
    to(err(Value::Unit), be_ok());
}

#[test]
fn succeeds_when_err() {
    to(err(Value::Unit), be_err());
}

#[test]
fn succeeds_when_not_err() {
    to_not(ok(Value::Unit), be_err());
}

#[test]
#[should_panic]
fn fails_when_err() {
    to_not(err(Value::Unit), be_err());
}

#[test]
#[should_panic]
fn fails_when_not_err() {
    to(ok(Value::Unit), be_err());
}

// contain_substr

#[test]
fn succeeds_when_contains_substr() {
    to(s("foobar"), contain_substr("ooba"));
}

#[test]
fn succeeds_when_not_contains_substr() {
    to_not(s("foobar"), contain_substr("not a substring"));
}

#[test]
#[should_panic]
fn fails_when_contains_substr() {
    to_not(s("foobar"), contain_substr("ooba"));
}

#[test]
#[should_panic]
fn fails_when_not_contains_substr() {
    to(s("foobar"), contain_substr("not a substring"));
}

// approx_eq_time

#[test]
fn time_succeeds_when_approx_eq() {
    to(Value::Time(0), approx_eq_time(MILLI, MILLI));
}

#[test]
fn time_succeeds_when_not_approx_eq() {
    to_not(Value::Time(0), approx_eq_time(2 * MILLI, MILLI));
}

#[test]
#[should_panic]
fn time_fails_when_approx_eq() {
    to_not(Value::Time(0), approx_eq_time(MILLI, MILLI));
}

#[test]
#[should_panic]
fn time_fails_when_not_approx_eq() {
    to(Value::Time(0), approx_eq_time(2 * MILLI, MILLI));
}

// be_false

#[test]
fn be_false_succeeds_on_false() {
    to(Value::Bool(false), be_false());
    to_not(Value::Bool(true), be_false());
}
