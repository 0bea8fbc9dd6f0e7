use xpct::value::{collection_holds, compare, default_value, is_default, same_elements, value_len, values_equal};
use xpct::{Field, Value};

fn s(x: &str) -> Value {
    Value::Str(String::from(x))
}

fn num(n: i128) -> Value {
    Value::Int(n)
}

#[test]
fn repr_of_scalars() {
    assert_eq!(Value::Unit.repr(), "()");
    assert_eq!(Value::Bool(true).repr(), "true");
    assert_eq!(num(-42).repr(), "-42");
    assert_eq!(num(i128::MIN).repr(), format!("{}", i128::MIN));
    assert_eq!(Value::Char('x').repr(), "'x'");
    assert_eq!(s("a\"b\n").repr(), "\"a\\\"b\\n\"");
}

#[test]
fn repr_of_compound_values() {
    let list = Value::List(vec![num(1), s("two")]);
    assert_eq!(list.repr(), "[1, \"two\"]");
    assert_eq!(Value::List(vec![]).repr(), "[]");
    assert_eq!(Value::Opt(Some(Box::new(num(1)))).repr(), "Some(1)");
    assert_eq!(Value::Opt(None).repr(), "None");
    assert_eq!(Value::Res(Ok(Box::new(Value::Unit))).repr(), "Ok(())");
    assert_eq!(Value::Res(Err(Box::new(s("e")))).repr(), "Err(\"e\")");
    let record = Value::Record(
        String::from("Point"),
        vec![Field { name: String::from("x"), value: num(1) }, Field { name: String::from("y"), value: num(2) }],
    );
    assert_eq!(record.repr(), "Point { x: 1, y: 2 }");
    assert_eq!(Value::Record(String::from("Unit"), vec![]).repr(), "Unit");
    assert_eq!(Value::Time(1_500_000_000).repr(), "SystemTime { tv_sec: 1, tv_nsec: 500000000 }");
}

#[test]
fn equality_is_structural() {
    assert!(values_equal(&s("a"), &s("a")));
    assert!(!values_equal(&s("a"), &s("b")));
    assert!(!values_equal(&num(1), &s("1")));
    let a = Value::List(vec![num(1), Value::Opt(Some(Box::new(num(2))))]);
    let b = a.clone();
    assert!(values_equal(&a, &b));
    assert!(!values_equal(&a, &Value::List(vec![num(1)])));
}

#[test]
fn order_of_values() {
    assert_eq!(compare(&num(1), &num(2)), Some(-1));
    assert_eq!(compare(&num(2), &num(2)), Some(0));
    assert_eq!(compare(&s("b"), &s("abc")), Some(1));
    assert_eq!(compare(&s("ab"), &s("abc")), Some(-1));
    assert_eq!(compare(&Value::Bool(false), &Value::Bool(true)), Some(-1));
    assert_eq!(compare(&Value::Char('z'), &Value::Char('a')), Some(1));
    assert_eq!(compare(&num(1), &s("1")), None);
    assert_eq!(compare(&Value::List(vec![]), &Value::List(vec![])), None);
}

#[test]
fn length_of_values() {
    assert_eq!(value_len(&s("abc")), Some(3));
    assert_eq!(value_len(&s("ß")), Some(2));
    assert_eq!(value_len(&s("日本")), Some(6));
    assert_eq!(value_len(&Value::List(vec![num(1), num(2)])), Some(2));
    assert_eq!(value_len(&num(1)), None);
}

#[test]
fn default_values() {
    assert_eq!(is_default(&s("")), Some(true));
    assert_eq!(is_default(&num(0)), Some(true));
    assert_eq!(is_default(&num(3)), Some(false));
    assert_eq!(is_default(&Value::Opt(None)), Some(true));
    assert_eq!(is_default(&Value::Time(0)), None);
    assert!(default_value(&Value::Res(Ok(Box::new(Value::Unit)))).is_none());
}

#[test]
fn collections_hold_elements() {
    let list = Value::List(vec![s("a"), s("b")]);
    assert_eq!(collection_holds(&list, &s("b")), Some(true));
    assert_eq!(collection_holds(&list, &s("c")), Some(false));
    assert_eq!(collection_holds(&s("Cuno"), &Value::Char('C')), Some(true));
    assert_eq!(collection_holds(&s("Cuno"), &s("C")), None);
    assert_eq!(collection_holds(&num(1), &num(1)), None);
}

#[test]
fn same_elements_in_any_order() {
    assert!(same_elements(&vec![s("a"), s("b"), s("a")], &vec![s("a"), s("a"), s("b")]));
    assert!(!same_elements(&vec![s("a"), s("a")], &vec![s("a"), s("b")]));
    assert!(!same_elements(&vec![s("a")], &vec![s("a"), s("a")]));
    assert!(same_elements(&vec![], &vec![]));
}
