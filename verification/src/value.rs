//! The values that assertions are made on, with their equality, their order,
//! their length and their debug representation.

use vstd::prelude::*;
use crate::text::{decimal, decimal_chars, extend_chars, signed_decimal, signed_decimal_chars, to_chars};

verus! {

/// A value passed to an assertion.
///
/// Matchers take a value and, when they transform it (like `be_some` or
/// `be_ok`), hand another one on to the next matcher.
#[derive(Debug)]
pub enum Value {
    /// The unit value `()`.
    Unit,
    /// A boolean.
    Bool(bool),
    /// An integer.
    Int(i128),
    /// A character.
    Char(char),
    /// A string.
    Str(String),
    /// A list of values, such as a slice or a `Vec`.
    List(Vec<Value>),
    /// An `Option`.
    Opt(Option<Box<Value>>),
    /// A `Result`.
    Res(Result<Box<Value>, Box<Value>>),
    /// A struct: its type name and its named fields, in order.
    Record(String, Vec<Field>),
    /// A point in time, in nanoseconds since the UNIX epoch.
    Time(u128),
}

/// A named field of a [`Value::Record`].
#[derive(Debug)]
pub struct Field {
    /// The name of the field.
    pub name: String,
    /// The value of the field.
    pub value: Value,
}

/// The mathematical value that a [`Value`] stands for.
pub enum Val {
    Unit,
    Bool(bool),
    Int(int),
    Char(char),
    Str(Seq<char>),
    List(Seq<Val>),
    Opt(Option<Box<Val>>),
    Res(Result<Box<Val>, Box<Val>>),
    Record(Seq<char>, Seq<(Seq<char>, Val)>),
    Time(nat),
}

/// The mathematical value of `v`.
pub open spec fn model(v: Value) -> Val
    decreases v,
{
    match v {
        Value::Unit => Val::Unit,
        Value::Bool(b) => Val::Bool(b),
        Value::Int(n) => Val::Int(n as int),
        Value::Char(c) => Val::Char(c),
        Value::Str(s) => Val::Str(s@),
        Value::List(xs) => Val::List(model_seq(xs@)),
        Value::Opt(o) => Val::Opt(
            match o {
                Option::None => Option::None,
                Option::Some(b) => Option::Some(Box::new(model(*b))),
            },
        ),
        Value::Res(r) => Val::Res(
            match r {
                Result::Ok(b) => Result::Ok(Box::new(model(*b))),
                Result::Err(b) => Result::Err(Box::new(model(*b))),
            },
        ),
        Value::Record(n, fs) => Val::Record(n@, model_fields(fs@)),
        Value::Time(t) => Val::Time(t as nat),
    }
}

/// The mathematical values of a list of values.
pub open spec fn model_seq(s: Seq<Value>) -> Seq<Val>
    decreases s,
{
    if s.len() == 0 {
        seq![]
    } else {
        model_seq(s.drop_last()).push(model(s.last()))
    }
}

/// The names and mathematical values of a list of fields.
pub open spec fn model_fields(s: Seq<Field>) -> Seq<(Seq<char>, Val)>
    decreases s,
{
    if s.len() == 0 {
        seq![]
    } else {
        model_fields(s.drop_last()).push((s.last().name@, model(s.last().value)))
    }
}

impl View for Value {
    type V = Val;

    open spec fn view(&self) -> Val {
        model(*self)
    }
}

/// The models of a list, element by element.
pub proof fn lemma_model_seq(s: Seq<Value>)
    ensures
        model_seq(s).len() == s.len(),
        forall|i: int| 0 <= i < s.len() ==> #[trigger] model_seq(s)[i] == model(s[i]),
    decreases s.len(),
{
    if s.len() > 0 {
        lemma_model_seq(s.drop_last());
    }
}

/// The models of a list of fields, field by field.
pub proof fn lemma_model_fields(s: Seq<Field>)
    ensures
        model_fields(s).len() == s.len(),
        forall|i: int|
            0 <= i < s.len() ==> #[trigger] model_fields(s)[i] == (s[i].name@, model(s[i].value)),
    decreases s.len(),
{
    if s.len() > 0 {
        lemma_model_fields(s.drop_last());
    }
}

/// A copy of `v`.
pub fn clone_value(v: &Value) -> (r: Value)
    ensures
        r@ == v@,
    decreases v,
{
    match v {
        Value::Unit => Value::Unit,
        Value::Bool(b) => Value::Bool(*b),
        Value::Int(n) => Value::Int(*n),
        Value::Char(c) => Value::Char(*c),
        Value::Str(s) => Value::Str(s.clone()),
        Value::List(xs) => {
            let mut out: Vec<Value> = Vec::new();
            let mut i: usize = 0;
            while i < xs.len()
                invariant
                    *v == Value::List(*xs),
                    i <= xs@.len(),
                    out@.len() == i,
                    forall|j: int| 0 <= j < i ==> #[trigger] model(out@[j]) == model(xs@[j]),
                decreases xs@.len() - i,
            {
                proof {
                    assert(decreases_to!(*v => v->List_0));
                    assert(decreases_to!(*xs => xs[i as int]));
                }
                let c = clone_value(&xs[i]);
                out.push(c);
                i = i + 1;
            }
            proof {
                lemma_model_seq(out@);
                lemma_model_seq(xs@);
                assert(model_seq(out@) =~= model_seq(xs@));
            }
            Value::List(out)
        },
        Value::Opt(o) => match o {
            Option::None => Value::Opt(Option::None),
            Option::Some(b) => Value::Opt(Option::Some(Box::new(clone_value(b)))),
        },
        Value::Res(r) => match r {
            Result::Ok(b) => Value::Res(Result::Ok(Box::new(clone_value(b)))),
            Result::Err(b) => Value::Res(Result::Err(Box::new(clone_value(b)))),
        },
        Value::Record(n, fs) => {
            let mut out: Vec<Field> = Vec::new();
            let mut i: usize = 0;
            while i < fs.len()
                invariant
                    *v == Value::Record(*n, *fs),
                    i <= fs@.len(),
                    out@.len() == i,
                    forall|j: int|
                        0 <= j < i ==> (#[trigger] out@[j]).name@ == fs@[j].name@ && model(
                            out@[j].value,
                        ) == model(fs@[j].value),
                decreases fs@.len() - i,
            {
                proof {
                    assert(decreases_to!(*v => v->Record_1));
                    assert(decreases_to!(*fs => fs[i as int]));
                    assert(decreases_to!(fs[i as int] => fs[i as int].value));
                }
                let f = &fs[i];
                let c = Field { name: f.name.clone(), value: clone_value(&f.value) };
                out.push(c);
                i = i + 1;
            }
            proof {
                lemma_model_fields(out@);
                lemma_model_fields(fs@);
                assert(model_fields(out@) =~= model_fields(fs@));
            }
            Value::Record(n.clone(), out)
        },
        Value::Time(t) => Value::Time(*t),
    }
}

impl Clone for Value {
    fn clone(&self) -> (r: Value)
        ensures
            r@ == self@,
    {
        clone_value(self)
    }
}

/// Whether two strings are equal.
pub fn string_eq(a: &String, b: &String) -> (r: bool)
    ensures
        r == (a@ == b@),
{
    let x = to_chars(a.as_str());
    let y = to_chars(b.as_str());
    if x.len() != y.len() {
        return false;
    }
    let mut i: usize = 0;
    while i < x.len()
        invariant
            i <= x@.len(),
            x@.len() == y@.len(),
            x@ == a@,
            y@ == b@,
            forall|j: int| 0 <= j < i ==> x@[j] == y@[j],
        decreases x@.len() - i,
    {
        if x[i] != y[i] {
            return false;
        }
        i = i + 1;
    }
    assert(x@ =~= y@);
    true
}

/// Whether two values are equal.
pub fn values_equal(a: &Value, b: &Value) -> (r: bool)
    ensures
        r == (a@ == b@),
    decreases a,
{
    match (a, b) {
        (Value::Unit, Value::Unit) => true,
        (Value::Bool(x), Value::Bool(y)) => *x == *y,
        (Value::Int(x), Value::Int(y)) => *x == *y,
        (Value::Char(x), Value::Char(y)) => *x == *y,
        (Value::Str(x), Value::Str(y)) => string_eq(x, y),
        (Value::Time(x), Value::Time(y)) => *x == *y,
        (Value::List(xs), Value::List(ys)) => {
            proof {
                lemma_model_seq(xs@);
                lemma_model_seq(ys@);
            }
            if xs.len() != ys.len() {
                return false;
            }
            let mut i: usize = 0;
            while i < xs.len()
                invariant
                    *a == Value::List(*xs),
                    *b == Value::List(*ys),
                    i <= xs@.len(),
                    xs@.len() == ys@.len(),
                    forall|j: int| 0 <= j < i ==> model(#[trigger] xs@[j]) == model(ys@[j]),
                decreases xs@.len() - i,
            {
                proof {
                    assert(decreases_to!(*a => a->List_0));
                    assert(decreases_to!(*xs => xs[i as int]));
                }
                if !values_equal(&xs[i], &ys[i]) {
                    proof {
                        lemma_model_seq(xs@);
                        lemma_model_seq(ys@);
                    }
                    assert(model_seq(xs@)[i as int] != model_seq(ys@)[i as int]);
                    return false;
                }
                i = i + 1;
            }
            assert(model_seq(xs@) =~= model_seq(ys@));
            true
        },
        (Value::Opt(x), Value::Opt(y)) => match (x, y) {
            (Option::None, Option::None) => true,
            (Option::Some(p), Option::Some(q)) => values_equal(p, q),
            _ => false,
        },
        (Value::Res(x), Value::Res(y)) => match (x, y) {
            (Result::Ok(p), Result::Ok(q)) => values_equal(p, q),
            (Result::Err(p), Result::Err(q)) => values_equal(p, q),
            _ => false,
        },
        (Value::Record(n, fs), Value::Record(m, gs)) => {
            proof {
                lemma_model_fields(fs@);
                lemma_model_fields(gs@);
            }
            if !string_eq(n, m) || fs.len() != gs.len() {
                return false;
            }
            let mut i: usize = 0;
            while i < fs.len()
                invariant
                    *a == Value::Record(*n, *fs),
                    *b == Value::Record(*m, *gs),
                    i <= fs@.len(),
                    fs@.len() == gs@.len(),
                    forall|j: int|
                        0 <= j < i ==> (#[trigger] fs@[j]).name@ == gs@[j].name@ && model(
                            fs@[j].value,
                        ) == model(gs@[j].value),
                decreases fs@.len() - i,
            {
                proof {
                    assert(decreases_to!(*a => a->Record_1));
                    assert(decreases_to!(*fs => fs[i as int]));
                    assert(decreases_to!(fs[i as int] => fs[i as int].value));
                }
                if !string_eq(&fs[i].name, &gs[i].name) || !values_equal(&fs[i].value, &gs[i].value) {
                    proof {
                        lemma_model_fields(fs@);
                        lemma_model_fields(gs@);
                    }
                    assert(model_fields(fs@)[i as int] != model_fields(gs@)[i as int]);
                    return false;
                }
                i = i + 1;
            }
            assert(model_fields(fs@) =~= model_fields(gs@));
            true
        },
        _ => false,
    }
}


/// How `std` debug-formats a string: quoted, with special characters escaped.
pub uninterp spec fn str_debug(s: Seq<char>) -> Seq<char>;

/// How `std` debug-formats a character: quoted, with special characters escaped.
pub uninterp spec fn char_debug(c: char) -> Seq<char>;

/// The `Debug` form of a string slice, written by `std`'s `format!("{:?}", ..)`.
/// The contract only names the result.
#[verifier::external_body]
fn debug_str(s: &str) -> (r: String)
    ensures
        r@ == str_debug(s@),
{
    format!("{:?}", s)
}

/// The `Debug` form of a `char`, written by `std`'s `format!("{:?}", ..)`.
/// The contract only names the result.
#[verifier::external_body]
fn debug_char(c: char) -> (r: String)
    ensures
        r@ == char_debug(c),
{
    format!("{:?}", c)
}

/// The number of nanoseconds in a second.
pub const NANOS_PER_SEC: u128 = 1000000000u128;

/// The debug representation of a value, as `#[derive(Debug)]` and `std`
/// write it: `Some(1)`, `["a", "b"]`, `Point { x: 1, y: 2 }`.
pub open spec fn repr(v: Val) -> Seq<char>
    decreases v,
{
    match v {
        Val::Unit => "()"@,
        Val::Bool(b) => if b { "true"@ } else { "false"@ },
        Val::Int(n) => signed_decimal(n),
        Val::Char(c) => char_debug(c),
        Val::Str(s) => str_debug(s),
        Val::List(xs) => "["@ + repr_list(xs) + "]"@,
        Val::Opt(o) => match o {
            Option::None => "None"@,
            Option::Some(b) => "Some("@ + repr(*b) + ")"@,
        },
        Val::Res(r) => match r {
            Result::Ok(b) => "Ok("@ + repr(*b) + ")"@,
            Result::Err(b) => "Err("@ + repr(*b) + ")"@,
        },
        Val::Record(n, fs) => if fs.len() == 0 {
            n
        } else {
            n + " { "@ + repr_fields(fs) + " }"@
        },
        Val::Time(t) => "SystemTime { tv_sec: "@ + decimal(t / (NANOS_PER_SEC as nat)) + ", tv_nsec: "@
            + decimal(t % (NANOS_PER_SEC as nat)) + " }"@,
    }
}

/// The debug representations of a list's elements, separated by `, `.
pub open spec fn repr_list(xs: Seq<Val>) -> Seq<char>
    decreases xs,
{
    if xs.len() == 0 {
        seq![]
    } else if xs.len() == 1 {
        repr(xs[0])
    } else {
        repr_list(xs.drop_last()) + ", "@ + repr(xs.last())
    }
}

/// The fields of a struct in debug form, `name: value`, separated by `, `.
pub open spec fn repr_fields(fs: Seq<(Seq<char>, Val)>) -> Seq<char>
    decreases fs,
{
    if fs.len() == 0 {
        seq![]
    } else if fs.len() == 1 {
        fs[0].0 + ": "@ + repr(fs[0].1)
    } else {
        repr_fields(fs.drop_last()) + ", "@ + fs.last().0 + ": "@ + repr(fs.last().1)
    }
}

fn push_str(out: &mut Vec<char>, s: &str)
    ensures
        final(out)@ == old(out)@ + s@,
{
    let cs = to_chars(s);
    extend_chars(out, cs.as_slice());
}

/// Appends the debug representation of `v` to `out`.
pub fn repr_into(v: &Value, out: &mut Vec<char>)
    ensures
        final(out)@ == old(out)@ + repr(v@),
    decreases v,
{
    match v {
        Value::Unit => push_str(out, "()"),
        Value::Bool(b) => if *b {
            push_str(out, "true")
        } else {
            push_str(out, "false")
        },
        Value::Int(n) => {
            let d = signed_decimal_chars(*n);
            extend_chars(out, d.as_slice());
        },
        Value::Char(c) => {
            let d = debug_char(*c);
            push_str(out, d.as_str());
        },
        Value::Str(s) => {
            let d = debug_str(s.as_str());
            push_str(out, d.as_str());
        },
        Value::List(xs) => {
            let ghost o0 = out@;
            push_str(out, "[");
            let ghost ms = model_seq(xs@);
            proof {
                lemma_model_seq(xs@);
            }
            let mut i: usize = 0;
            while i < xs.len()
                invariant
                    *v == Value::List(*xs),
                    i <= xs@.len(),
                    ms == model_seq(xs@),
                    ms.len() == xs@.len(),
                    forall|j: int| 0 <= j < xs@.len() ==> #[trigger] ms[j] == model(xs@[j]),
                    out@ == o0 + "["@ + repr_list(ms.take(i as int)),
                decreases xs@.len() - i,
            {
                proof {
                    assert(decreases_to!(*v => v->List_0));
                    assert(decreases_to!(*xs => xs[i as int]));
                    assert(ms.take(i + 1).drop_last() =~= ms.take(i as int));
                }
                if i > 0 {
                    push_str(out, ", ");
                }
                repr_into(&xs[i], out);
                i = i + 1;
            }
            assert(ms.take(xs@.len() as int) =~= ms);
            push_str(out, "]");
        },
        Value::Opt(o) => match o {
            Option::None => push_str(out, "None"),
            Option::Some(b) => {
                push_str(out, "Some(");
                repr_into(b, out);
                push_str(out, ")");
            },
        },
        Value::Res(r) => match r {
            Result::Ok(b) => {
                push_str(out, "Ok(");
                repr_into(b, out);
                push_str(out, ")");
            },
            Result::Err(b) => {
                push_str(out, "Err(");
                repr_into(b, out);
                push_str(out, ")");
            },
        },
        Value::Record(n, fs) => {
            let ghost o0 = out@;
            let ghost mf = model_fields(fs@);
            proof {
                lemma_model_fields(fs@);
            }
            push_str(out, n.as_str());
            if fs.len() > 0 {
                push_str(out, " { ");
                let mut i: usize = 0;
                while i < fs.len()
                    invariant
                        *v == Value::Record(*n, *fs),
                        i <= fs@.len(),
                        mf == model_fields(fs@),
                        mf.len() == fs@.len(),
                        forall|j: int|
                            0 <= j < fs@.len() ==> #[trigger] mf[j] == (fs@[j].name@, model(fs@[j].value)),
                        out@ == o0 + n@ + " { "@ + repr_fields(mf.take(i as int)),
                    decreases fs@.len() - i,
                {
                    proof {
                        assert(decreases_to!(*v => v->Record_1));
                        assert(decreases_to!(*fs => fs[i as int]));
                        assert(decreases_to!(fs[i as int] => fs[i as int].value));
                        assert(mf.take(i + 1).drop_last() =~= mf.take(i as int));
                    }
                    if i > 0 {
                        push_str(out, ", ");
                    }
                    push_str(out, fs[i].name.as_str());
                    push_str(out, ": ");
                    repr_into(&fs[i].value, out);
                    i = i + 1;
                }
                assert(mf.take(fs@.len() as int) =~= mf);
                push_str(out, " }");
            }
        },
        Value::Time(t) => {
            push_str(out, "SystemTime { tv_sec: ");
            let secs = decimal_chars(*t / NANOS_PER_SEC);
            extend_chars(out, secs.as_slice());
            push_str(out, ", tv_nsec: ");
            let nanos = decimal_chars(*t % NANOS_PER_SEC);
            extend_chars(out, nanos.as_slice());
            push_str(out, " }");
        },
    }
}

impl Value {
    /// The debug representation of this value.
    pub fn repr(&self) -> (r: String)
        ensures
            r@ == repr(self@),
    {
        let mut out: Vec<char> = Vec::new();
        repr_into(self, &mut out);
        crate::text::from_chars(out.as_slice())
    }
}


/// The sign of `x`: `-1`, `0` or `1`.
pub open spec fn sign(x: int) -> int {
    if x < 0 {
        -1
    } else if x == 0 {
        0
    } else {
        1
    }
}

/// Lexicographic order of two strings, by code point (which is also the
/// byte order of their UTF-8 encodings): `-1`, `0` or `1`.
pub open spec fn seq_order(a: Seq<char>, b: Seq<char>) -> int
    decreases a.len(),
{
    if a.len() == 0 {
        if b.len() == 0 {
            0
        } else {
            -1
        }
    } else if b.len() == 0 {
        1
    } else if a[0] != b[0] {
        sign(a[0] as int - b[0] as int)
    } else {
        seq_order(a.drop_first(), b.drop_first())
    }
}

/// The order of two values as `-1`, `0` or `1`, when values of their kind are
/// ordered (`false < true`, integers, characters, strings, times).
pub open spec fn order(a: Val, b: Val) -> Option<int> {
    match (a, b) {
        (Val::Unit, Val::Unit) => Option::Some(0),
        (Val::Bool(x), Val::Bool(y)) => Option::Some(
            if x == y {
                0
            } else if !x {
                -1
            } else {
                1
            },
        ),
        (Val::Int(x), Val::Int(y)) => Option::Some(sign(x - y)),
        (Val::Char(x), Val::Char(y)) => Option::Some(sign(x as int - y as int)),
        (Val::Str(x), Val::Str(y)) => Option::Some(seq_order(x, y)),
        (Val::Time(x), Val::Time(y)) => Option::Some(sign(x - y)),
        _ => Option::None,
    }
}

fn sign_of(x: bool, y: bool) -> (r: i8)
    ensures
        r == (if x { -1int } else if y { 1int } else { 0int }),
{
    if x {
        -1
    } else if y {
        1
    } else {
        0
    }
}

pub proof fn lemma_seq_order_skip(a: Seq<char>, b: Seq<char>, i: int)
    requires
        0 <= i <= a.len(),
        i <= b.len(),
        forall|j: int| 0 <= j < i ==> a[j] == b[j],
    ensures
        seq_order(a, b) == seq_order(a.skip(i), b.skip(i)),
    decreases i,
{
    if i > 0 {
        lemma_seq_order_skip(a.drop_first(), b.drop_first(), i - 1);
        assert(a.drop_first().skip(i - 1) =~= a.skip(i));
        assert(b.drop_first().skip(i - 1) =~= b.skip(i));
    } else {
        assert(a.skip(0) =~= a);
        assert(b.skip(0) =~= b);
    }
}

fn str_order(a: &String, b: &String) -> (r: i8)
    ensures
        r as int == seq_order(a@, b@),
{
    let x = to_chars(a.as_str());
    let y = to_chars(b.as_str());
    let mut i: usize = 0;
    while i < x.len() && i < y.len() && x[i] == y[i]
        invariant
            i <= x@.len(),
            i <= y@.len(),
            x@ == a@,
            y@ == b@,
            forall|j: int| 0 <= j < i ==> x@[j] == y@[j],
        decreases x@.len() - i,
    {
        i = i + 1;
    }
    proof {
        lemma_seq_order_skip(x@, y@, i as int);
    }
    if i == x.len() {
        if i == y.len() {
            0
        } else {
            -1
        }
    } else if i == y.len() {
        1
    } else {
        assert(x@.skip(i as int)[0] == x@[i as int]);
        assert(y@.skip(i as int)[0] == y@[i as int]);
        sign_of(x[i] < y[i], x[i] > y[i])
    }
}

/// The order of two values, when values of their kind are ordered.
pub fn compare(a: &Value, b: &Value) -> (r: Option<i8>)
    ensures
        match r {
            Option::Some(c) => order(a@, b@) == Option::Some(c as int),
            Option::None => order(a@, b@) is None,
        },
{
    match (a, b) {
        (Value::Unit, Value::Unit) => Option::Some(0),
        (Value::Bool(x), Value::Bool(y)) => Option::Some(sign_of(!*x && *y, *x && !*y)),
        (Value::Int(x), Value::Int(y)) => Option::Some(sign_of(*x < *y, *x > *y)),
        (Value::Char(x), Value::Char(y)) => Option::Some(
            sign_of((*x as u32) < (*y as u32), (*x as u32) > (*y as u32)),
        ),
        (Value::Str(x), Value::Str(y)) => Option::Some(str_order(x, y)),
        (Value::Time(x), Value::Time(y)) => Option::Some(sign_of(*x < *y, *x > *y)),
        _ => Option::None,
    }
}

/// The number of bytes in the UTF-8 encoding of `c`.
pub open spec fn utf8_width(c: char) -> nat {
    if (c as u32) < 0x80 {
        1
    } else if (c as u32) < 0x800 {
        2
    } else if (c as u32) < 0x10000 {
        3
    } else {
        4
    }
}

/// The number of bytes in the UTF-8 encoding of `s`, which is what
/// `str::len` returns.
pub open spec fn utf8_len(s: Seq<char>) -> nat
    decreases s.len(),
{
    if s.len() == 0 {
        0
    } else {
        utf8_len(s.drop_last()) + utf8_width(s.last())
    }
}

/// The length of a value that has one: the number of bytes of a string, or
/// the number of elements of a list.
pub open spec fn len_of(v: Val) -> Option<nat> {
    match v {
        Val::Str(s) => Option::Some(utf8_len(s)),
        Val::List(xs) => Option::Some(xs.len()),
        _ => Option::None,
    }
}

proof fn lemma_utf8_len_bound(s: Seq<char>)
    ensures
        utf8_len(s) <= 4 * s.len(),
    decreases s.len(),
{
    if s.len() > 0 {
        lemma_utf8_len_bound(s.drop_last());
    }
}

/// The length of a value, when it has one.
pub fn value_len(v: &Value) -> (r: Option<u128>)
    ensures
        match r {
            Option::Some(n) => len_of(v@) == Option::Some(n as nat) && n <= 4 * (usize::MAX as nat),
            Option::None => len_of(v@) is None,
        },
{
    match v {
        Value::Str(s) => {
            let cs = to_chars(s.as_str());
            let mut n: u128 = 0;
            let mut i: usize = 0;
            while i < cs.len()
                invariant
                    i <= cs@.len(),
                    n == utf8_len(cs@.take(i as int)),
                decreases cs@.len() - i,
            {
                proof {
                    assert(cs@.take(i + 1).drop_last() =~= cs@.take(i as int));
                    lemma_utf8_len_bound(cs@.take(i as int));
                    lemma_utf8_len_bound(cs@.take(i + 1));
                }
                let c = cs[i] as u32;
                let w: u128 = if c < 0x80 {
                    1
                } else if c < 0x800 {
                    2
                } else if c < 0x10000 {
                    3
                } else {
                    4
                };
                n = n + w;
                i = i + 1;
            }
            assert(cs@.take(cs@.len() as int) =~= cs@);
            proof {
                lemma_utf8_len_bound(cs@);
            }
            Option::Some(n)
        },
        Value::List(xs) => {
            proof {
                lemma_model_seq(xs@);
            }
            Option::Some(xs.len() as u128)
        },
        _ => Option::None,
    }
}

/// The `Default` value of the type of `v`, when that type has one.
pub open spec fn default_of(v: Val) -> Option<Val> {
    match v {
        Val::Unit => Option::Some(Val::Unit),
        Val::Bool(_) => Option::Some(Val::Bool(false)),
        Val::Int(_) => Option::Some(Val::Int(0)),
        Val::Char(_) => Option::Some(Val::Char('\0')),
        Val::Str(_) => Option::Some(Val::Str(seq![])),
        Val::List(_) => Option::Some(Val::List(seq![])),
        Val::Opt(_) => Option::Some(Val::Opt(Option::None)),
        _ => Option::None,
    }
}

/// The `Default` value of the type of `v`, when that type has one.
pub fn default_value(v: &Value) -> (r: Option<Value>)
    ensures
        match r {
            Option::Some(d) => default_of(v@) == Option::Some(d@),
            Option::None => default_of(v@) is None,
        },
{
    match v {
        Value::Unit => Option::Some(Value::Unit),
        Value::Bool(_) => Option::Some(Value::Bool(false)),
        Value::Int(_) => Option::Some(Value::Int(0)),
        Value::Char(_) => Option::Some(Value::Char('\0')),
        Value::Str(_) => {
            let r = Value::Str(String::new());
            assert(r@ == Val::Str(seq![]));
            Option::Some(r)
        },
        Value::List(_) => {
            let r = Value::List(Vec::new());
            assert(model_seq(Seq::<Value>::empty()) =~= seq![]);
            Option::Some(r)
        },
        Value::Opt(_) => Option::Some(Value::Opt(Option::None)),
        _ => Option::None,
    }
}

/// Whether `v` is the `Default` value of its type, when that type has one.
pub fn is_default(v: &Value) -> (r: Option<bool>)
    ensures
        match r {
            Option::Some(b) => match default_of(v@) {
                Option::Some(d) => b == (v@ == d),
                Option::None => false,
            },
            Option::None => default_of(v@) is None,
        },
{
    match v {
        Value::Unit => {
            assert(v@ == Val::Unit);
            Option::Some(true)
        },
        Value::Bool(b) => Option::Some(!*b),
        Value::Int(n) => Option::Some(*n == 0),
        Value::Char(c) => Option::Some(*c == '\0'),
        Value::Str(s) => {
            let cs = to_chars(s.as_str());
            if cs.len() == 0 {
                assert(s@ =~= seq![]);
            }
            Option::Some(cs.len() == 0)
        },
        Value::List(xs) => {
            proof {
                lemma_model_seq(xs@);
                if xs@.len() == 0 {
                    assert(model_seq(xs@) =~= seq![]);
                }
            }
            Option::Some(xs.len() == 0)
        },
        Value::Opt(o) => Option::Some(o.is_none()),
        _ => Option::None,
    }
}

/// Whether the collection `coll` holds `x`, when `coll` is a collection: a
/// list holds its elements and a string its characters.
pub open spec fn holds(coll: Val, x: Val) -> Option<bool> {
    match coll {
        Val::List(xs) => Option::Some(xs.contains(x)),
        Val::Str(s) => match x {
            Val::Char(c) => Option::Some(s.contains(c)),
            _ => Option::None,
        },
        _ => Option::None,
    }
}

/// Whether the collection `coll` holds `x`, when `coll` is a collection.
pub fn collection_holds(coll: &Value, x: &Value) -> (r: Option<bool>)
    ensures
        match r {
            Option::Some(b) => holds(coll@, x@) == Option::Some(b),
            Option::None => holds(coll@, x@) is None,
        },
{
    match coll {
        Value::List(xs) => {
            proof {
                lemma_model_seq(xs@);
            }
            let ghost ms = model_seq(xs@);
            let mut i: usize = 0;
            while i < xs.len()
                invariant
                    *coll == Value::List(*xs),
                    i <= xs@.len(),
                    ms == model_seq(xs@),
                    ms.len() == xs@.len(),
                    forall|j: int| 0 <= j < xs@.len() ==> #[trigger] ms[j] == model(xs@[j]),
                    forall|j: int| 0 <= j < i ==> ms[j] != x@,
                decreases xs@.len() - i,
            {
                if values_equal(&xs[i], x) {
                    assert(ms[i as int] == x@);
                    assert(ms.contains(x@));
                    return Option::Some(true);
                }
                i = i + 1;
            }
            Option::Some(false)
        },
        Value::Str(s) => match x {
            Value::Char(c) => {
                let cs = to_chars(s.as_str());
                let mut i: usize = 0;
                while i < cs.len()
                    invariant
                        *coll == Value::Str(*s),
                        *x == Value::Char(*c),
                        i <= cs@.len(),
                        cs@ == s@,
                        forall|j: int| 0 <= j < i ==> cs@[j] != *c,
                    decreases cs@.len() - i,
                {
                    if cs[i] == *c {
                        assert(s@[i as int] == *c);
                        assert(s@.contains(*c));
                        return Option::Some(true);
                    }
                    i = i + 1;
                }
                Option::Some(false)
            },
            _ => Option::None,
        },
        _ => Option::None,
    }
}

/// Whether two lists hold the same elements the same number of times, in
/// any order.
pub fn same_elements(a: &Vec<Value>, b: &Vec<Value>) -> (r: bool)
    ensures
        r == (model_seq(a@).to_multiset() == model_seq(b@).to_multiset()),
{
    broadcast use vstd::seq_lib::group_to_multiset_ensures, vstd::multiset::group_multiset_axioms;
    let ghost ma = model_seq(a@);
    let ghost mb = model_seq(b@);
    proof {
        lemma_model_seq(a@);
        lemma_model_seq(b@);
    }
    let mut rest: Vec<Value> = Vec::new();
    let mut k: usize = 0;
    while k < b.len()
        invariant
            k <= b@.len(),
            mb == model_seq(b@),
            mb.len() == b@.len(),
            forall|j: int| 0 <= j < b@.len() ==> #[trigger] mb[j] == model(b@[j]),
            rest@.len() == k,
            forall|j: int| 0 <= j < k ==> #[trigger] model(rest@[j]) == mb[j],
        decreases b@.len() - k,
    {
        rest.push(clone_value(&b[k]));
        k = k + 1;
    }
    let ghost mut rm: Seq<Val> = mb;
    assert(rm =~= model_seq(rest@)) by {
        lemma_model_seq(rest@);
    }
    assert(ma.take(0).to_multiset() =~= vstd::multiset::Multiset::<Val>::empty());
    assert(mb.to_multiset() =~= ma.take(0).to_multiset().add(rm.to_multiset()));
    let mut i: usize = 0;
    while i < a.len()
        invariant
            i <= a@.len(),
            ma == model_seq(a@),
            ma.len() == a@.len(),
            forall|j: int| 0 <= j < a@.len() ==> #[trigger] ma[j] == model(a@[j]),
            rm.len() == rest@.len(),
            forall|j: int| 0 <= j < rest@.len() ==> #[trigger] rm[j] == model(rest@[j]),
            mb.to_multiset() == ma.take(i as int).to_multiset().add(rm.to_multiset()),
            mb == model_seq(b@),
        decreases a@.len() - i,
    {
        let mut j: usize = 0;
        let mut found = false;
        while j < rest.len()
            invariant_except_break
                !found,
            invariant
                i < a@.len(),
                j <= rest@.len(),
                rm.len() == rest@.len(),
                forall|l: int| 0 <= l < rest@.len() ==> #[trigger] rm[l] == model(rest@[l]),
                ma[i as int] == model(a@[i as int]),
                forall|l: int| 0 <= l < j ==> rm[l] != ma[i as int],
            ensures
                !found ==> forall|l: int| 0 <= l < rest@.len() ==> rm[l] != ma[i as int],
                found ==> j < rest@.len() && rm[j as int] == ma[i as int],
            decreases rest@.len() - j,
        {
            if values_equal(&rest[j], &a[i]) {
                found = true;
                break;
            }
            j = j + 1;
        }
        proof {
            assert(ma.take(i + 1) =~= ma.take(i as int).push(ma[i as int]));
        }
        if !found {
            proof {
                let x = ma[i as int];
                assert(!rm.contains(x));
                vstd::seq_lib::to_multiset_contains(rm, x);
                vstd::seq_lib::to_multiset_build(ma.take(i as int), x);
                assert(rm.to_multiset().count(x) == 0);
                assert(ma =~= ma.take(i + 1) + ma.skip(i + 1));
                vstd::seq_lib::lemma_multiset_commutative(ma.take(i + 1), ma.skip(i + 1));
                assert(ma.to_multiset().count(x) >= ma.take(i + 1).to_multiset().count(x));
                assert(ma.to_multiset().count(x) != mb.to_multiset().count(x));
            }
            return false;
        }
        proof {
            let x = ma[i as int];
            vstd::seq_lib::to_multiset_remove(rm, j as int);
            assert(rm[j as int] == x);
            assert(rm.contains(x));
            vstd::seq_lib::to_multiset_contains(rm, x);
            vstd::seq_lib::to_multiset_build(ma.take(i as int), x);
            assert(rm.to_multiset().count(x) > 0);
            assert(ma.take(i + 1).to_multiset().add(rm.remove(j as int).to_multiset())
                =~= ma.take(i as int).to_multiset().add(rm.to_multiset()));
            rm = rm.remove(j as int);
        }
        rest.remove(j);
        i = i + 1;
    }
    assert(ma.take(a@.len() as int) =~= ma);
    if rest.len() == 0 {
        assert(rm.to_multiset() =~= vstd::multiset::Multiset::<Val>::empty());
        assert(mb.to_multiset() =~= ma.to_multiset());
        true
    } else {
        proof {
            vstd::seq_lib::to_multiset_len(ma);
            vstd::seq_lib::to_multiset_len(mb);
            vstd::seq_lib::to_multiset_len(rm);
        }
        false
    }
}

} // verus!
