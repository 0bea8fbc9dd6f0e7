//! What the tests of single values decide, stated in terms of the values
//! themselves: times within a threshold, the order of numbers, sorted lists,
//! membership, lengths and default values.

use vstd::prelude::*;
use crate::matcher::{eval, Inequality, MatchKind, Matcher, Outcome, SortOrder};
use crate::value::{model_seq, order, Val};

verus! {

/// `approx_eq_time(e, th)` succeeds on a time `t` exactly when `t` is at
/// most `th` away from `e`, before it or after it, and then hands `t` on;
/// expected to fail, it succeeds exactly when `t` is further away.
pub proof fn law_approx_eq_time(m: Matcher, e: u128, th: u128, t: nat)
    requires
        m.kind == MatchKind::ApproxEqTime(e, th),
        !m.negated,
    ensures
        eval(m, Val::Time(t), true) is Success <==> (t <= e + th && e <= t + th),
        eval(m, Val::Time(t), true) is Success ==> eval(m, Val::Time(t), true) == Outcome::Success(Val::Time(t)),
        eval(m, Val::Time(t), false) is Success <==> !(t <= e + th && e <= t + th),
        !(eval(m, Val::Time(t), true) is Error),
{
}

/// Integers, times, characters and booleans are ordered as numbers
/// (`false` before `true`), negative integers included: the order of two
/// of them is `-1`, `0` or `1` as the first is less than, equal to or
/// greater than the second.
pub proof fn law_order_numbers(x: int, y: int, a: nat, b: nat, p: bool, q: bool)
    ensures
        order(Val::Int(x), Val::Int(y)) == Option::Some(if x < y { -1int } else if x == y { 0int } else { 1int }),
        order(Val::Time(a), Val::Time(b)) == Option::Some(if a < b { -1int } else if a == b { 0int } else { 1int }),
        order(Val::Bool(p), Val::Bool(q)) == Option::Some(if !p && q { -1int } else if p == q { 0int } else { 1int }),
{
}

/// `be_lt`, `be_le`, `be_gt` and `be_ge` compare integers as integers:
/// `be_lt(y)` succeeds on `x` exactly when `x < y`, and so on; expected to
/// fail, each succeeds exactly when the comparison does not hold.
pub proof fn law_compare_ints(m: Matcher, e: crate::value::Value, ineq: Inequality, x: int, y: int)
    requires
        m.kind == MatchKind::Ord(e, ineq),
        !m.negated,
        e@ == Val::Int(y),
    ensures
        eval(m, Val::Int(x), true) is Success <==> match ineq {
            Inequality::Less => x < y,
            Inequality::LessOrEqual => x <= y,
            Inequality::Greater => x > y,
            Inequality::GreaterOrEqual => x >= y,
        },
        eval(m, Val::Int(x), false) is Success <==> !(eval(m, Val::Int(x), true) is Success),
        !(eval(m, Val::Int(x), true) is Error),
{
}

/// Every element of `xs` is an integer.
pub open spec fn all_ints(xs: Seq<Val>) -> bool {
    forall|i: int| 0 <= i < xs.len() ==> (#[trigger] xs[i]) is Int
}

proof fn lemma_adjacent_to_pairs(xs: Seq<Val>, asc: bool, i: int, j: int)
    requires
        all_ints(xs),
        0 <= i < j < xs.len(),
        forall|k: int| 0 <= k < xs.len() - 1 ==> if asc {
            (#[trigger] xs[k])->Int_0 <= xs[k + 1]->Int_0
        } else {
            xs[k]->Int_0 >= xs[k + 1]->Int_0
        },
    ensures
        if asc { xs[i]->Int_0 <= xs[j]->Int_0 } else { xs[i]->Int_0 >= xs[j]->Int_0 },
    decreases j - i,
{
    if j > i + 1 {
        lemma_adjacent_to_pairs(xs, asc, i, j - 1);
        assert(if asc { xs[j - 1]->Int_0 <= xs[j]->Int_0 } else { xs[j - 1]->Int_0 >= xs[j]->Int_0 });
    } else {
        assert(if asc { xs[i]->Int_0 <= xs[i + 1]->Int_0 } else { xs[i]->Int_0 >= xs[i + 1]->Int_0 });
    }
}

/// `be_sorted_asc` succeeds on a list of integers exactly when every element
/// is at most every element after it (the first pair included), and
/// `be_sorted_desc` exactly when every element is at least every element
/// after it; expected to fail, each succeeds exactly when that does not hold.
pub proof fn law_sorted_ints(m: Matcher, sort: SortOrder, xs: Seq<Val>)
    requires
        m.kind == MatchKind::BeSorted(sort),
        !m.negated,
        all_ints(xs),
    ensures
        eval(m, Val::List(xs), true) is Success <==> forall|i: int, j: int| 0 <= i < j < xs.len() ==> match sort {
            SortOrder::Asc => (#[trigger] xs[i])->Int_0 <= (#[trigger] xs[j])->Int_0,
            SortOrder::Desc => xs[i]->Int_0 >= xs[j]->Int_0,
        },
        eval(m, Val::List(xs), false) is Success <==> !(eval(m, Val::List(xs), true) is Success),
        !(eval(m, Val::List(xs), true) is Error),
{
    let asc = sort == SortOrder::Asc;
    assert forall|k: int| 0 <= k < xs.len() - 1 implies (#[trigger] order(xs[k], xs[k + 1])) is Some
        && order(xs[k], xs[k + 1])->Some_0 == (if xs[k]->Int_0 < xs[k + 1]->Int_0 { -1int } else if xs[k]->Int_0
        == xs[k + 1]->Int_0 { 0int } else { 1int }) by {
        assert(xs[k] is Int && xs[k + 1] is Int);
    }
    let adjacent = forall|k: int| 0 <= k < xs.len() - 1 ==> if asc {
        (#[trigger] xs[k])->Int_0 <= xs[k + 1]->Int_0
    } else {
        xs[k]->Int_0 >= xs[k + 1]->Int_0
    };
    let pairs = forall|i: int, j: int| 0 <= i < j < xs.len() ==> match sort {
        SortOrder::Asc => (#[trigger] xs[i])->Int_0 <= (#[trigger] xs[j])->Int_0,
        SortOrder::Desc => xs[i]->Int_0 >= xs[j]->Int_0,
    };
    assert(crate::matcher::sorted(xs, sort) == Option::Some(adjacent)) by {
        if adjacent {
            assert forall|k: int| 0 <= k < xs.len() - 1 implies match sort {
                SortOrder::Asc => (#[trigger] order(xs[k], xs[k + 1]))->Some_0 <= 0,
                SortOrder::Desc => order(xs[k], xs[k + 1])->Some_0 >= 0,
            } by {
                assert(if asc { xs[k]->Int_0 <= xs[k + 1]->Int_0 } else { xs[k]->Int_0 >= xs[k + 1]->Int_0 });
            }
        } else {
            let k = choose|k: int| 0 <= k < xs.len() - 1 && !(if asc {
                (#[trigger] xs[k])->Int_0 <= xs[k + 1]->Int_0
            } else {
                xs[k]->Int_0 >= xs[k + 1]->Int_0
            });
            assert(order(xs[k], xs[k + 1]) is Some);
        }
    }
    assert(adjacent <==> pairs) by {
        if adjacent {
            assert forall|i: int, j: int| 0 <= i < j < xs.len() implies match sort {
                SortOrder::Asc => (#[trigger] xs[i])->Int_0 <= (#[trigger] xs[j])->Int_0,
                SortOrder::Desc => xs[i]->Int_0 >= xs[j]->Int_0,
            } by {
                lemma_adjacent_to_pairs(xs, asc, i, j);
            }
        }
        if pairs {
            assert forall|k: int| 0 <= k < xs.len() - 1 implies if asc {
                (#[trigger] xs[k])->Int_0 <= xs[k + 1]->Int_0
            } else {
                xs[k]->Int_0 >= xs[k + 1]->Int_0
            } by {
                assert(match sort {
                    SortOrder::Asc => xs[k]->Int_0 <= xs[k + 1]->Int_0,
                    SortOrder::Desc => xs[k]->Int_0 >= xs[k + 1]->Int_0,
                });
            }
        }
    }
}

/// `contain_elements(es)` succeeds on a list exactly when the list holds
/// each element of `es` (a missing one makes it fail); `be_in(ys)` succeeds
/// on a value exactly when the list `ys` holds it.
pub proof fn law_contain_elements(m: Matcher, b: Matcher, es: Vec<crate::value::Value>, c: crate::value::Value,
    xs: Seq<Val>, x: Val)
    requires
        m.kind == MatchKind::ContainElements(es),
        !m.negated,
        b.kind == MatchKind::BeIn(c),
        !b.negated,
        c@ is List,
    ensures
        eval(m, Val::List(xs), true) is Success <==> forall|i: int| 0 <= i < model_seq(es@).len() ==> exists|j: int|
            0 <= j < xs.len() && xs[j] == #[trigger] model_seq(es@)[i],
        eval(m, Val::List(xs), false) is Success <==> !(eval(m, Val::List(xs), true) is Success),
        eval(b, x, true) is Success <==> exists|j: int| 0 <= j < c@->List_0.len() && c@->List_0[j] == x,
{
    let ms = model_seq(es@);
    let v = Val::List(xs);
    assert forall|i: int| 0 <= i < ms.len() implies (#[trigger] crate::value::holds(v, ms[i])) == Option::Some(
        xs.contains(ms[i]),
    ) by {}
    let a = forall|i: int| 0 <= i < ms.len() ==> #[trigger] crate::value::holds(v, ms[i]) == Option::Some(true);
    let a2 = forall|i: int| 0 <= i < ms.len() ==> xs.contains(#[trigger] ms[i]);
    assert(a == a2) by {
        if a {
            assert forall|i: int| 0 <= i < ms.len() implies xs.contains(#[trigger] ms[i]) by {
                assert(crate::value::holds(v, ms[i]) == Option::Some(true));
            }
        }
        if a2 {
            assert forall|i: int| 0 <= i < ms.len() implies #[trigger] crate::value::holds(v, ms[i]) == Option::Some(true) by {
                assert(xs.contains(ms[i]));
            }
        }
    }
    assert(!exists|i: int| 0 <= i < ms.len() && (#[trigger] crate::value::holds(v, ms[i])) is None);
    assert(crate::matcher::holds_all(v, ms) == Option::Some(a));
}

/// `be_default` succeeds on a value exactly when it is the default of its
/// type: `false`, `0`, `'\0'`, the empty string, the empty list, `None`,
/// and `()`; expected to fail, exactly when it is not.
pub proof fn law_be_default(m: Matcher, p: bool, x: int, c: char, s: Seq<char>, xs: Seq<Val>, o: Option<Box<Val>>)
    requires
        m.kind == MatchKind::BeDefault,
        !m.negated,
    ensures
        eval(m, Val::Bool(p), true) is Success <==> !p,
        eval(m, Val::Int(x), true) is Success <==> x == 0,
        eval(m, Val::Char(c), true) is Success <==> c == '\0',
        eval(m, Val::Str(s), true) is Success <==> s.len() == 0,
        eval(m, Val::List(xs), true) is Success <==> xs.len() == 0,
        eval(m, Val::Opt(o), true) is Success <==> o is None,
        eval(m, Val::Unit, true) is Success,
        eval(m, Val::Bool(p), false) is Success <==> p,
        eval(m, Val::Int(x), false) is Success <==> x != 0,
{
    if s.len() == 0 {
        assert(s =~= Seq::<char>::empty());
    }
    if xs.len() == 0 {
        assert(xs =~= Seq::<Val>::empty());
    }
}

/// Strings are ordered lexicographically by their characters: after a
/// common start of length `k`, the string that ends there comes first, and
/// otherwise the one whose next character is smaller; equal strings are in
/// order `0`.
pub proof fn law_order_strings(a: Seq<char>, b: Seq<char>, k: int)
    requires
        0 <= k <= a.len(),
        k <= b.len(),
        forall|j: int| 0 <= j < k ==> a[j] == b[j],
    ensures
        k == a.len() && k == b.len() ==> order(Val::Str(a), Val::Str(b)) == Option::Some(0int),
        k == a.len() && k < b.len() ==> order(Val::Str(a), Val::Str(b)) == Option::Some(-1int),
        k < a.len() && k == b.len() ==> order(Val::Str(a), Val::Str(b)) == Option::Some(1int),
        k < a.len() && k < b.len() && a[k] != b[k] ==> order(Val::Str(a), Val::Str(b)) == Option::Some(
            if (a[k] as int) < (b[k] as int) { -1int } else { 1int },
        ),
{
    crate::value::lemma_seq_order_skip(a, b, k);
    let x = a.skip(k);
    let y = b.skip(k);
    if k < a.len() {
        assert(x[0] == a[k]);
    }
    if k < b.len() {
        assert(y[0] == b[k]);
    }
}

proof fn lemma_ascii_bytes(s: Seq<char>)
    requires
        forall|i: int| 0 <= i < s.len() ==> (#[trigger] s[i] as u32) < 0x80,
    ensures
        crate::value::utf8_len(s) == s.len(),
    decreases s.len(),
{
    if s.len() > 0 {
        let t = s.drop_last();
        assert forall|i: int| 0 <= i < t.len() implies (#[trigger] t[i] as u32) < 0x80 by {
            assert(t[i] == s[i]);
        }
        lemma_ascii_bytes(t);
        assert((s[s.len() - 1] as u32) < 0x80);
    }
}

/// `have_len(n)` succeeds on a list exactly when it has `n` elements, and on
/// an ASCII string exactly when it has `n` characters (a string's length is
/// its number of bytes); `be_empty` succeeds on a list or a string exactly
/// when it has no element or no character.
pub proof fn law_have_len(m: Matcher, e: Matcher, n: usize, xs: Seq<Val>, s: Seq<char>)
    requires
        m.kind == MatchKind::HaveLen(n),
        !m.negated,
        e.kind == MatchKind::BeEmpty,
        !e.negated,
    ensures
        eval(m, Val::List(xs), true) is Success <==> xs.len() == n,
        (forall|i: int| 0 <= i < s.len() ==> (#[trigger] s[i] as u32) < 0x80) ==> (eval(m, Val::Str(s), true) is Success
            <==> s.len() == n),
        eval(e, Val::List(xs), true) is Success <==> xs.len() == 0,
        eval(e, Val::Str(s), true) is Success <==> s.len() == 0,
{
    if forall|i: int| 0 <= i < s.len() ==> (#[trigger] s[i] as u32) < 0x80 {
        lemma_ascii_bytes(s);
    }
    if s.len() > 0 {
        crate::indent::lemma_utf8_take_strict(s, 0, s.len() as int);
        assert(s.take(0) =~= Seq::<char>::empty());
        assert(s.take(s.len() as int) =~= s);
    }
}

} // verus!
