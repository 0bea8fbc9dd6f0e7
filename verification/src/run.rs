//! Running matchers on values.

use vstd::prelude::*;
use crate::format::{Expectation, FailData, FailView, fail_view, Mismatch};
use crate::foreign::{casefold_eq, json_eq, lowercase, regex_is_match};
use crate::matcher::{
    chars_of, common_prefix_len, common_suffix_len, diff_of, diff_pieces, group, holds_all, inequality_holds, is_substring, simple_step, sort_key, sorted, time_distance, CombinatorMode,
    Inequality, MatchKind, Matcher, Outcome, SortKey, SortOrder, Step, all_ok, any_ok, by_field,
    chain_fold, combinator_tally, elements_tally, eval, every_tally, fields_tally, find_field,
    kind_eval, list_step, mode_ok, tally_push, ChainState, FieldSpec, Tally, file_flag_name,
    FileExistsMode,
};
use crate::format::{opt_view, FieldFailure};
use crate::result::MatchFailure;
use crate::result::{FormattedFailure, MatchOutcome};
use crate::text::to_chars;
use crate::value::{
    lemma_model_fields, model_fields, Field,
    clone_value, collection_holds, compare, default_value, holds, lemma_model_seq, model, model_seq,
    order, same_elements, value_len, values_equal, Val, Value,
};

verus! {

/// What running a test gave, as the specifications see it.
pub open spec fn step_of(r: Result<MatchOutcome<Value, FailData>, String>) -> Step {
    match r {
        Result::Err(e) => Step::Error(e@),
        Result::Ok(MatchOutcome::Success(x)) => Step::Success(x@),
        Result::Ok(MatchOutcome::Fail(d)) => Step::Fail(fail_view(d)),
    }
}

/// What running a matcher gave, as the specifications see it.
pub open spec fn outcome_of(r: Result<MatchOutcome<Value, FormattedFailure>, String>) -> Outcome {
    match r {
        Result::Err(e) => Outcome::Error(e@),
        Result::Ok(MatchOutcome::Success(x)) => Outcome::Success(x@),
        Result::Ok(MatchOutcome::Fail(f)) => Outcome::Fail(f@),
    }
}

/// Whether a test is one that the combinators do not build on.
pub open spec fn is_leaf(k: MatchKind) -> bool {
    !(k is Not || k is Wrapped || k is All || k is Combinator || k is Every || k is Elements
        || k is Fields)
}

fn error_text(msg: &str) -> (r: String)
    ensures
        r@ == msg@,
{
    String::from_str(msg)
}

fn mismatch_step(b: bool, pos: bool, v: Value, expected: Value) -> (r: Result<MatchOutcome<Value, FailData>, String>)
    ensures
        step_of(r) == simple_step(b, pos, v@, FailView::Mismatch(v@, expected@)),
{
    if b == pos {
        Ok(MatchOutcome::Success(v))
    } else {
        Ok(MatchOutcome::Fail(FailData::Mismatch(Mismatch { actual: v, expected })))
    }
}

fn plain_step(b: bool, pos: bool, v: Value, data: FailData) -> (r: Result<MatchOutcome<Value, FailData>, String>)
    ensures
        step_of(r) == simple_step(b, pos, v@, fail_view(data)),
{
    if b == pos {
        Ok(MatchOutcome::Success(v))
    } else {
        Ok(MatchOutcome::Fail(data))
    }
}

fn expectation_step(b: bool, pos: bool, v: Value) -> (r: Result<MatchOutcome<Value, FailData>, String>)
    ensures
        step_of(r) == simple_step(b, pos, v@, FailView::Expectation(v@)),
{
    if b == pos {
        Ok(MatchOutcome::Success(v))
    } else {
        Ok(MatchOutcome::Fail(FailData::Expectation(Expectation { actual: v })))
    }
}

fn inequality_test(ineq: Inequality, c: i8) -> (r: bool)
    ensures
        r == inequality_holds(ineq, c as int),
{
    match ineq {
        Inequality::Greater => c > 0,
        Inequality::GreaterOrEqual => c >= 0,
        Inequality::Less => c < 0,
        Inequality::LessOrEqual => c <= 0,
    }
}

/// Whether `s` occurs in `t`.
pub fn contains_chars(t: &[char], s: &[char]) -> (r: bool)
    ensures
        r == is_substring(s@, t@),
{
    if s.len() > t.len() {
        return false;
    }
    if s.len() == 0 {
        assert(t@.subrange(0int, 0int + s@.len()) =~= s@);
        return true;
    }
    let end = t.len() - s.len() + 1;
    let mut i: usize = 0;
    while i < end
        invariant
            0 < s@.len() <= t@.len(),
            end == t@.len() - s@.len() + 1,
            i <= end,
            forall|k: int| 0 <= k < i ==> #[trigger] t@.subrange(k, k + s@.len()) != s@,
        decreases end - i,
    {
        let mut j: usize = 0;
        while j < s.len()
            invariant
                0 < s@.len() <= t@.len(),
                i < end,
                end == t@.len() - s@.len() + 1,
                j <= s@.len(),
                forall|l: int| 0 <= l < j ==> t@[i + l] == s@[l],
            ensures
                j <= s@.len(),
                forall|l: int| 0 <= l < j ==> t@[i + l] == s@[l],
                j < s@.len() ==> t@[i + j] != s@[j as int],
            decreases s@.len() - j,
        {
            assert(i + j < t@.len());
            assert(t@.len() == t.len());
            if t[i + j] != s[j] {
                break;
            }
            j = j + 1;
        }
        if j == s.len() {
            assert(t@.subrange(i as int, i + s@.len()) =~= s@);
            return true;
        }
        assert(t@.subrange(i as int, i + s@.len())[j as int] != s@[j as int]);
        i = i + 1;
    }
    assert forall|k: int| 0 <= k && k + s@.len() <= t@.len() implies #[trigger] t@.subrange(k, k + s@.len()) != s@ by {
        assert(k < end);
    }
    false
}

/// Whether a list is sorted in `sort`, when each adjacent pair is ordered.
pub fn check_sorted(xs: &Vec<Value>, sort: SortOrder) -> (r: Option<bool>)
    ensures
        r == sorted(model_seq(xs@), sort),
{
    let ghost ms = model_seq(xs@);
    proof {
        lemma_model_seq(xs@);
    }
    if xs.len() == 0 {
        return Option::Some(true);
    }
    let mut ok = true;
    let mut i: usize = 0;
    while i < xs.len() - 1
        invariant
            xs@.len() > 0,
            i + 1 <= xs@.len(),
            ms == model_seq(xs@),
            ms.len() == xs@.len(),
            forall|j: int| 0 <= j < xs@.len() ==> #[trigger] ms[j] == model(xs@[j]),
            forall|j: int| 0 <= j < i ==> (#[trigger] order(ms[j], ms[j + 1])) is Some,
            ok == forall|j: int|
                0 <= j < i ==> match sort {
                    SortOrder::Asc => (#[trigger] order(ms[j], ms[j + 1]))->Some_0 <= 0,
                    SortOrder::Desc => order(ms[j], ms[j + 1])->Some_0 >= 0,
                },
        decreases xs@.len() - i,
    {
        match compare(&xs[i], &xs[i + 1]) {
            Option::None => {
                assert(order(ms[i as int], ms[i + 1]) is None);
                return Option::None;
            },
            Option::Some(c) => {
                let good = match sort {
                    SortOrder::Asc => c <= 0,
                    SortOrder::Desc => c >= 0,
                };
                ok = ok && good;
            },
        }
        i = i + 1;
    }
    Option::Some(ok)
}

/// The keys a list is sorted by.
fn sort_keys(xs: &Vec<Value>, key: SortKey) -> (r: Vec<Value>)
    ensures
        model_seq(r@) == model_seq(xs@).map_values(|x: Val| sort_key(x, key)),
{
    proof {
        lemma_model_seq(xs@);
    }
    let mut out: Vec<Value> = Vec::new();
    let mut i: usize = 0;
    while i < xs.len()
        invariant
            i <= xs@.len(),
            out@.len() == i,
            model_seq(xs@).len() == xs@.len(),
            forall|j: int| 0 <= j < xs@.len() ==> #[trigger] model_seq(xs@)[j] == model(xs@[j]),
            forall|j: int| 0 <= j < i ==> #[trigger] model(out@[j]) == sort_key(model(xs@[j]), key),
        decreases xs@.len() - i,
    {
        let k = match (key, &xs[i]) {
            (SortKey::Lowercase, Value::Str(s)) => Value::Str(lowercase(s.as_str())),
            _ => clone_value(&xs[i]),
        };
        out.push(k);
        i = i + 1;
    }
    proof {
        lemma_model_seq(out@);
        assert(model_seq(out@) =~= model_seq(xs@).map_values(|x: Val| sort_key(x, key)));
    }
    out
}

/// Whether the collection `c` holds each of `es`, when it is a collection
/// that could hold them.
fn check_holds_all(c: &Value, es: &Vec<Value>) -> (r: Option<bool>)
    ensures
        r == holds_all(c@, model_seq(es@)),
{
    let ghost ms = model_seq(es@);
    proof {
        lemma_model_seq(es@);
    }
    let is_coll = match c {
        Value::List(_) => true,
        Value::Str(_) => true,
        _ => false,
    };
    if !is_coll {
        return Option::None;
    }
    let mut all = true;
    let mut i: usize = 0;
    while i < es.len()
        invariant
            c@ is List || c@ is Str,
            i <= es@.len(),
            ms == model_seq(es@),
            ms.len() == es@.len(),
            forall|j: int| 0 <= j < es@.len() ==> #[trigger] ms[j] == model(es@[j]),
            forall|j: int| 0 <= j < i ==> (#[trigger] holds(c@, ms[j])) is Some,
            all == forall|j: int| 0 <= j < i ==> #[trigger] holds(c@, ms[j]) == Option::Some(true),
        decreases es@.len() - i,
    {
        match collection_holds(c, &es[i]) {
            Option::None => {
                assert(holds(c@, ms[i as int]) is None);
                return Option::None;
            },
            Option::Some(b) => {
                all = all && b;
            },
        }
        i = i + 1;
    }
    Option::Some(all)
}


fn chars_equal(x: &Vec<char>, y: &Vec<char>) -> (r: bool)
    ensures
        r == (x@ == y@),
{
    if x.len() != y.len() {
        return false;
    }
    let mut i: usize = 0;
    while i < x.len()
        invariant
            i <= x@.len(),
            x@.len() == y@.len(),
            forall|j: int| 0 <= j < i ==> x@[j] == y@[j],
        decreases x@.len() - i,
    {
        if x[i] != y[i] {
            return false;
        }
        i = i + 1;
    }
    assert(x@ =~= y@);
    true
}

proof fn lemma_prefix_step(a: Seq<Seq<char>>, b: Seq<Seq<char>>, k: int)
    requires
        0 <= k < a.len(),
        k < b.len(),
        a[k] == b[k],
    ensures
        common_prefix_len(a.skip(k), b.skip(k)) == 1 + common_prefix_len(a.skip(k + 1), b.skip(k + 1)),
{
    assert(a.skip(k).drop_first() =~= a.skip(k + 1));
    assert(b.skip(k).drop_first() =~= b.skip(k + 1));
}

fn common_prefix(a: &Vec<Vec<char>>, b: &Vec<Vec<char>>) -> (p: usize)
    ensures
        p == common_prefix_len(crate::text::views(a@), crate::text::views(b@)),
        p <= a@.len() && p <= b@.len(),
{
    let ghost va = crate::text::views(a@);
    let ghost vb = crate::text::views(b@);
    let mut k: usize = 0;
    assert(va.skip(0) =~= va);
    assert(vb.skip(0) =~= vb);
    while k < a.len() && k < b.len() && chars_equal(&a[k], &b[k])
        invariant
            k <= a@.len(),
            k <= b@.len(),
            va == crate::text::views(a@),
            vb == crate::text::views(b@),
            common_prefix_len(va, vb) == k + common_prefix_len(va.skip(k as int), vb.skip(k as int)),
        decreases a@.len() - k,
    {
        proof {
            lemma_prefix_step(va, vb, k as int);
        }
        k = k + 1;
    }
    k
}

proof fn lemma_suffix_step(a: Seq<Seq<char>>, b: Seq<Seq<char>>, p: nat, s: int)
    requires
        0 <= s,
        p + s < a.len(),
        p + s < b.len(),
        a[a.len() - 1 - s] == b[b.len() - 1 - s],
    ensures
        common_suffix_len(a.take(a.len() - s), b.take(b.len() - s), p) == 1 + common_suffix_len(
            a.take(a.len() - s - 1),
            b.take(b.len() - s - 1),
            p,
        ),
{
    assert(a.take(a.len() - s).drop_last() =~= a.take(a.len() - s - 1));
    assert(b.take(b.len() - s).drop_last() =~= b.take(b.len() - s - 1));
}

fn common_suffix(a: &Vec<Vec<char>>, b: &Vec<Vec<char>>, p: usize) -> (s: usize)
    requires
        p <= a@.len() && p <= b@.len(),
    ensures
        s == common_suffix_len(crate::text::views(a@), crate::text::views(b@), p as nat),
        p + s <= a@.len() && p + s <= b@.len(),
{
    let ghost va = crate::text::views(a@);
    let ghost vb = crate::text::views(b@);
    let mut k: usize = 0;
    assert(va.take(va.len() as int) =~= va);
    assert(vb.take(vb.len() as int) =~= vb);
    while k < a.len() - p && k < b.len() - p && chars_equal(&a[a.len() - 1 - k], &b[b.len() - 1 - k])
        invariant
            p + k <= a@.len(),
            p + k <= b@.len(),
            va == crate::text::views(a@),
            vb == crate::text::views(b@),
            common_suffix_len(va, vb, p as nat) == k + common_suffix_len(
                va.take(va.len() - k),
                vb.take(vb.len() - k),
                p as nat,
            ),
        decreases a@.len() - k,
    {
        proof {
            lemma_suffix_step(va, vb, p as nat, k as int);
        }
        k = k + 1;
    }
    k
}

/// The pieces of a diff as the specifications see them.
pub open spec fn pieces_of(v: Seq<crate::format::DiffSegment>) -> Seq<(crate::format::DiffTag, Seq<char>)> {
    v.map_values(|x: crate::format::DiffSegment| crate::format::diff_segment_view(x))
}

fn push_group(
    out: &mut Vec<crate::format::DiffSegment>,
    tag: crate::format::DiffTag,
    items: &Vec<Vec<char>>,
    lo: usize,
    hi: usize,
    join: bool,
)
    requires
        lo <= hi <= items@.len(),
    ensures
        pieces_of(final(out)@) == pieces_of(old(out)@) + group(
            tag,
            crate::text::views(items@).subrange(lo as int, hi as int),
            join,
        ),
{
    let ghost vi = crate::text::views(items@).subrange(lo as int, hi as int);
    if lo == hi {
        assert(pieces_of(out@) =~= pieces_of(out@) + group(tag, vi, join));
        return;
    }
    if join {
        let mut text: Vec<char> = Vec::new();
        let mut i: usize = lo;
        assert(vi.take(0).flatten() =~= seq![]);
        while i < hi
            invariant
                lo <= i <= hi <= items@.len(),
                vi == crate::text::views(items@).subrange(lo as int, hi as int),
                text@ == vi.take(i - lo).flatten(),
            decreases hi - i,
        {
            proof {
                assert(vi.take(i - lo + 1) =~= vi.take(i - lo).push(vi[i - lo]));
                vi.take(i - lo).lemma_flatten_push(vi[i - lo]);
            }
            crate::text::extend_chars(&mut text, items[i].as_slice());
            i = i + 1;
        }
        assert(vi.take(hi - lo) =~= vi);
        let ghost o0 = pieces_of(out@);
        out.push(crate::format::DiffSegment { tag, text: crate::text::from_chars(text.as_slice()) });
        assert(pieces_of(out@) =~= o0 + group(tag, vi, join));
    } else {
        let ghost o0 = pieces_of(out@);
        let mut i: usize = lo;
        while i < hi
            invariant
                lo <= i <= hi <= items@.len(),
                vi == crate::text::views(items@).subrange(lo as int, hi as int),
                pieces_of(out@) == o0 + vi.take(i - lo).map_values(|x: Seq<char>| (tag, x)),
            decreases hi - i,
        {
            let ghost prev = pieces_of(out@);
            proof {
                assert(vi[i - lo] == crate::text::views(items@)[i as int]);
                assert(crate::text::views(items@)[i as int] == items@[i as int]@);
            }
            out.push(crate::format::DiffSegment { tag, text: crate::text::from_chars(items[i].as_slice()) });
            assert(pieces_of(out@) =~= prev.push((tag, vi[i - lo])));
            assert(vi.take(i - lo + 1).map_values(|x: Seq<char>| (tag, x)) =~= vi.take(i - lo).map_values(
                |x: Seq<char>| (tag, x),
            ).push((tag, vi[i - lo])));
            assert(pieces_of(out@) =~= o0 + vi.take(i - lo + 1).map_values(|x: Seq<char>| (tag, x)));
            i = i + 1;
        }
        assert(vi.take(hi - lo) =~= vi);
    }
}

/// The pieces of a diff of two sequences of rendered items.
fn diff_items(actual: &Vec<Vec<char>>, expected: &Vec<Vec<char>>, join: bool) -> (r: Vec<crate::format::DiffSegment>)
    ensures
        pieces_of(r@) == diff_pieces(crate::text::views(actual@), crate::text::views(expected@), join),
{
    let ghost va = crate::text::views(actual@);
    let ghost ve = crate::text::views(expected@);
    let p = common_prefix(actual, expected);
    let s = common_suffix(actual, expected, p);
    let mut out: Vec<crate::format::DiffSegment> = Vec::new();
    assert(pieces_of(out@) =~= seq![]);
    push_group(&mut out, crate::format::DiffTag::Equal, actual, 0, p, join);
    push_group(&mut out, crate::format::DiffTag::Delete, expected, p, expected.len() - s, join);
    push_group(&mut out, crate::format::DiffTag::Insert, actual, p, actual.len() - s, join);
    push_group(&mut out, crate::format::DiffTag::Equal, actual, actual.len() - s, actual.len(), join);
    assert(va.subrange(0, p as int) =~= va.take(p as int));
    assert(va.subrange(va.len() - s, va.len() as int) =~= va.skip(va.len() - s));
    assert(seq![] + group(crate::format::DiffTag::Equal, va.take(p as int), join) =~= group(
        crate::format::DiffTag::Equal,
        va.take(p as int),
        join,
    ));
    out
}


fn char_items(s: &String) -> (r: Vec<Vec<char>>)
    ensures
        crate::text::views(r@) == chars_of(s@),
{
    let cs = to_chars(s.as_str());
    let mut r: Vec<Vec<char>> = Vec::new();
    let mut i: usize = 0;
    while i < cs.len()
        invariant
            i <= cs@.len(),
            cs@ == s@,
            r@.len() == i,
            forall|j: int| 0 <= j < i ==> #[trigger] r@[j]@ == seq![cs@[j]],
        decreases cs@.len() - i,
    {
        let mut one: Vec<char> = Vec::new();
        one.push(cs[i]);
        r.push(one);
        i = i + 1;
    }
    assert(crate::text::views(r@) =~= chars_of(s@));
    r
}

fn repr_items(xs: &Vec<Value>) -> (r: Vec<Vec<char>>)
    ensures
        crate::text::views(r@) == model_seq(xs@).map_values(|x: Val| crate::value::repr(x)),
{
    proof {
        lemma_model_seq(xs@);
    }
    let mut r: Vec<Vec<char>> = Vec::new();
    let mut i: usize = 0;
    while i < xs.len()
        invariant
            i <= xs@.len(),
            r@.len() == i,
            model_seq(xs@).len() == xs@.len(),
            forall|j: int| 0 <= j < xs@.len() ==> #[trigger] model_seq(xs@)[j] == model(xs@[j]),
            forall|j: int| 0 <= j < i ==> #[trigger] r@[j]@ == crate::value::repr(model(xs@[j])),
        decreases xs@.len() - i,
    {
        let mut out: Vec<char> = Vec::new();
        crate::value::repr_into(&xs[i], &mut out);
        r.push(out);
        i = i + 1;
    }
    assert(crate::text::views(r@) =~= model_seq(xs@).map_values(|x: Val| crate::value::repr(x)));
    r
}

/// The diff between two values, when they can be diffed.
pub fn compute_diff(actual: &Value, expected: &Value) -> (r: Option<FailData>)
    ensures
        match r {
            Option::Some(d) => diff_of(actual@, expected@) == Option::Some(fail_view(d)),
            Option::None => diff_of(actual@, expected@) is None,
        },
{
    match (actual, expected) {
        (Value::Str(a), Value::Str(e)) => {
            let ia = char_items(a);
            let ie = char_items(e);
            let segments = diff_items(&ia, &ie, true);
            Option::Some(FailData::Diff(crate::format::Diff { kind: crate::format::DiffKind::StringKind, segments }))
        },
        (Value::List(a), Value::List(e)) => {
            let ia = repr_items(a);
            let ie = repr_items(e);
            let segments = diff_items(&ia, &ie, false);
            Option::Some(FailData::Diff(crate::format::Diff { kind: crate::format::DiffKind::SliceKind, segments }))
        },
        _ => Option::None,
    }
}

/// Runs a test that the combinators do not build on.
pub fn run_leaf(k: &MatchKind, v: Value, pos: bool) -> (r: Result<MatchOutcome<Value, FailData>, String>)
    requires
        is_leaf(*k),
    ensures
        step_of(r) == crate::matcher::leaf_step(*k, v@, pos),
{
    match k {
        MatchKind::Equal(e) => {
            let b = values_equal(&v, e);
            mismatch_step(b, pos, v, clone_value(e))
        },
        MatchKind::EqDiff(e) => match compute_diff(&v, e) {
            Option::None => Err(error_text("the values cannot be diffed")),
            Option::Some(d) => {
                let b = values_equal(&v, e);
                plain_step(b, pos, v, d)
            },
        },
        MatchKind::Ord(e, ineq) => match compare(&v, e) {
            Option::None => Err(error_text("the values cannot be ordered")),
            Option::Some(c) => {
                let b = inequality_test(*ineq, c);
                mismatch_step(b, pos, v, clone_value(e))
            },
        },
        MatchKind::BeTrue => match v {
            Value::Bool(b) => plain_step(b, pos, Value::Bool(b), FailData::Nothing),
            _ => Err(error_text("the value is not a bool")),
        },
        MatchKind::BeDefault => match default_value(&v) {
            Option::None => Err(error_text("the value's type has no default value")),
            Option::Some(d) => {
                let b = values_equal(&v, &d);
                mismatch_step(b, pos, v, d)
            },
        },
        MatchKind::ContainElements(es) => match check_holds_all(&v, es) {
            Option::None => Err(error_text("the collection cannot hold the element")),
            Option::Some(b) => {
                let mut copy: Vec<Value> = Vec::new();
                let mut i: usize = 0;
                while i < es.len()
                    invariant
                        i <= es@.len(),
                        copy@.len() == i,
                        forall|j: int| 0 <= j < i ==> #[trigger] model(copy@[j]) == model(es@[j]),
                    decreases es@.len() - i,
                {
                    copy.push(clone_value(&es[i]));
                    i = i + 1;
                }
                proof {
                    lemma_model_seq(copy@);
                    lemma_model_seq(es@);
                    assert(model_seq(copy@) =~= model_seq(es@));
                }
                mismatch_step(b, pos, v, Value::List(copy))
            },
        },
        MatchKind::ConsistOf(es) => match &v {
            Value::List(xs) => {
                let b = same_elements(xs, es);
                let mut copy: Vec<Value> = Vec::new();
                let mut i: usize = 0;
                while i < es.len()
                    invariant
                        i <= es@.len(),
                        copy@.len() == i,
                        forall|j: int| 0 <= j < i ==> #[trigger] model(copy@[j]) == model(es@[j]),
                    decreases es@.len() - i,
                {
                    copy.push(clone_value(&es[i]));
                    i = i + 1;
                }
                proof {
                    lemma_model_seq(copy@);
                    lemma_model_seq(es@);
                    assert(model_seq(copy@) =~= model_seq(es@));
                }
                mismatch_step(b, pos, v, Value::List(copy))
            },
            _ => Err(error_text("the value is not a list")),
        },
        MatchKind::BeIn(c) => match collection_holds(c, &v) {
            Option::None => Err(error_text("the collection cannot hold the element")),
            Option::Some(b) => mismatch_step(b, pos, v, clone_value(c)),
        },
        MatchKind::HaveLen(n) => match value_len(&v) {
            Option::None => Err(error_text("the value has no length")),
            Option::Some(l) => {
                let b = l == *n as u128;
                if b == pos {
                    Ok(MatchOutcome::Success(v))
                } else {
                    Ok(MatchOutcome::Fail(FailData::Mismatch(Mismatch {
                        actual: Value::Int(l as i128),
                        expected: Value::Int(*n as i128),
                    })))
                }
            },
        },
        MatchKind::BeEmpty => match value_len(&v) {
            Option::None => Err(error_text("the value has no length")),
            Option::Some(l) => expectation_step(l == 0, pos, v),
        },
        MatchKind::BeSome => match v {
            Value::Opt(o) => match o {
                Option::Some(x) => if pos {
                    Ok(MatchOutcome::Success(*x))
                } else {
                    Ok(MatchOutcome::Fail(FailData::Expectation(Expectation { actual: Value::Opt(Option::Some(x)) })))
                },
                Option::None => if pos {
                    Ok(MatchOutcome::Fail(FailData::Expectation(Expectation { actual: Value::Opt(Option::None) })))
                } else {
                    Ok(MatchOutcome::Success(Value::Opt(Option::None)))
                },
            },
            _ => Err(error_text("the value is not an Option")),
        },
        MatchKind::BeOk => match v {
            Value::Res(r) => match r {
                Result::Ok(x) => if pos {
                    Ok(MatchOutcome::Success(*x))
                } else {
                    Ok(MatchOutcome::Fail(FailData::Expectation(Expectation { actual: Value::Res(Result::Ok(x)) })))
                },
                Result::Err(x) => if pos {
                    Ok(MatchOutcome::Fail(FailData::Expectation(Expectation { actual: Value::Res(Result::Err(x)) })))
                } else {
                    Ok(MatchOutcome::Success(*x))
                },
            },
            _ => Err(error_text("the value is not a Result")),
        },
        MatchKind::ContainSubstr(sub) => match &v {
            Value::Str(t) => {
                let tc = to_chars(t.as_str());
                let sc = to_chars(sub.as_str());
                let b = contains_chars(tc.as_slice(), sc.as_slice());
                mismatch_step(b, pos, v, Value::Str(sub.clone()))
            },
            _ => Err(error_text("the value is not a string")),
        },
        MatchKind::EqCasefold(e) => match &v {
            Value::Str(t) => {
                let b = casefold_eq(t.as_str(), e.as_str());
                mismatch_step(b, pos, v, Value::Str(e.clone()))
            },
            _ => Err(error_text("the value is not a string")),
        },
        MatchKind::MatchRegex(p) => match &v {
            Value::Str(t) => match regex_is_match(p.as_str(), t.as_str()) {
                Result::Err(e) => Err(e),
                Result::Ok(b) => mismatch_step(b, pos, v, Value::Str(p.clone())),
            },
            _ => Err(error_text("the value is not a string")),
        },
        MatchKind::MatchJson(j) => match &v {
            Value::Str(t) => match json_eq(t.as_str(), j.as_str()) {
                Result::Err(e) => Err(e),
                Result::Ok(b) => mismatch_step(b, pos, v, Value::Str(j.clone())),
            },
            _ => Err(error_text("the value is not a string")),
        },
        MatchKind::BeSorted(sort) => match &v {
            Value::List(xs) => match check_sorted(xs, *sort) {
                Option::None => Err(error_text("the values cannot be ordered")),
                Option::Some(b) => plain_step(b, pos, v, FailData::Nothing),
            },
            _ => Err(error_text("the value is not a list")),
        },
        MatchKind::BeSortedBy(key) => match &v {
            Value::List(xs) => {
                let keys = sort_keys(xs, *key);
                match check_sorted(&keys, SortOrder::Asc) {
                    Option::None => Err(error_text("the values cannot be ordered")),
                    Option::Some(b) => plain_step(b, pos, v, FailData::Nothing),
                }
            },
            _ => Err(error_text("the value is not a list")),
        },
        MatchKind::ApproxEqTime(e, threshold) => match v {
            Value::Time(t) => {
                let d = if t >= *e { t - *e } else { *e - t };
                mismatch_step(d <= *threshold, pos, Value::Time(t), Value::Time(*e))
            },
            _ => Err(error_text("the value is not a time")),
        },
        MatchKind::FileExists(mode) => match &v {
            Value::Record(_, fs) => {
                let path_name = String::from_str("path");
                let flag_name = String::from_str(file_flag(*mode));
                let path = find_field_value(fs, &path_name);
                let flag = find_field_value(fs, &flag_name);
                match (path, flag) {
                    (Option::Some(Value::Str(p)), Option::Some(Value::Bool(b))) => {
                        if b == pos {
                            Ok(MatchOutcome::Success(v))
                        } else {
                            Ok(MatchOutcome::Fail(FailData::Expectation(Expectation { actual: Value::Str(p) })))
                        }
                    },
                    _ => Err(error_text("the value is not the state of a path")),
                }
            },
            _ => Err(error_text("the value is not the state of a path")),
        },
        _ => Err(String::new()),
    }
}

fn file_flag(mode: FileExistsMode) -> (r: &'static str)
    ensures
        r@ == file_flag_name(mode),
{
    match mode {
        FileExistsMode::Exists => "exists",
        FileExistsMode::RegularFile => "is_file",
        FileExistsMode::Directory => "is_dir",
        FileExistsMode::Symlink => "is_symlink",
    }
}


/// Failures (`None` for each success) and the values the successes handed on.
pub type Tallied = Result<(Vec<Option<FormattedFailure>>, Vec<Value>), String>;

/// A tally as the specifications see it.
pub open spec fn tally_of(t: Tallied) -> Tally {
    match t {
        Result::Err(e) => Tally::Error(e@),
        Result::Ok((results, outs)) => Tally::Done(
            results@.map_values(|o: Option<FormattedFailure>| opt_view(o)),
            model_seq(outs@),
        ),
    }
}

/// The state of a chain as the specifications see it.
pub open spec fn chain_of(c: Result<Result<Value, FormattedFailure>, String>) -> ChainState {
    match c {
        Result::Err(e) => ChainState::Error(e@),
        Result::Ok(Result::Ok(v)) => ChainState::Running(v@),
        Result::Ok(Result::Err(f)) => ChainState::Failed(f@),
    }
}

fn empty_tally() -> (t: Tallied)
    ensures
        tally_of(t) == Tally::Done(seq![], seq![]),
{
    let results: Vec<Option<FormattedFailure>> = Vec::new();
    let outs: Vec<Value> = Vec::new();
    proof {
        assert(results@.map_values(|o: Option<FormattedFailure>| opt_view(o)) =~= seq![]);
        assert(model_seq(outs@) =~= seq![]);
    }
    Ok((results, outs))
}

fn tally_add(t: Tallied, o: Result<MatchOutcome<Value, FormattedFailure>, String>) -> (r: Tallied)
    ensures
        tally_of(r) == tally_push(tally_of(t), outcome_of(o)),
{
    match t {
        Err(e) => Err(e),
        Ok((mut results, mut outs)) => match o {
            Err(e) => Err(e),
            Ok(MatchOutcome::Success(x)) => {
                let ghost r0 = results@;
                let ghost o0 = outs@;
                results.push(None);
                outs.push(x);
                proof {
                    assert(results@.map_values(|o: Option<FormattedFailure>| opt_view(o)) =~= r0.map_values(
                        |o: Option<FormattedFailure>| opt_view(o),
                    ).push(Option::None));
                    assert(outs@.drop_last() =~= o0);
                }
                Ok((results, outs))
            },
            Ok(MatchOutcome::Fail(f)) => {
                let ghost r0 = results@;
                let ghost fv = f@;
                results.push(Some(f));
                proof {
                    assert(results@.map_values(|o: Option<FormattedFailure>| opt_view(o)) =~= r0.map_values(
                        |o: Option<FormattedFailure>| opt_view(o),
                    ).push(Option::Some(fv)));
                }
                Ok((results, outs))
            },
        },
    }
}

fn results_ok(results: &Vec<Option<FormattedFailure>>, all: bool) -> (r: bool)
    ensures
        r == (if all {
            all_ok(results@.map_values(|o: Option<FormattedFailure>| opt_view(o)))
        } else {
            any_ok(results@.map_values(|o: Option<FormattedFailure>| opt_view(o)))
        }),
{
    let ghost rv = results@.map_values(|o: Option<FormattedFailure>| opt_view(o));
    let mut i: usize = 0;
    while i < results.len()
        invariant
            i <= results@.len(),
            rv == results@.map_values(|o: Option<FormattedFailure>| opt_view(o)),
            all ==> forall|j: int| 0 <= j < i ==> (#[trigger] rv[j]) is None,
            !all ==> forall|j: int| 0 <= j < i ==> (#[trigger] rv[j]) is Some,
        decreases results@.len() - i,
    {
        let none = results[i].is_none();
        if all && !none {
            assert(rv[i as int] is Some);
            return false;
        }
        if !all && none {
            assert(rv[i as int] is None);
            return true;
        }
        i = i + 1;
    }
    all
}

fn mode_satisfied(mode: CombinatorMode, pos: bool, results: &Vec<Option<FormattedFailure>>) -> (r: bool)
    ensures
        r == mode_ok(mode, pos, results@.map_values(|o: Option<FormattedFailure>| opt_view(o))),
{
    let all = (mode == CombinatorMode::All) == pos;
    results_ok(results, all)
}

/// Runs matcher `m` on `v`, expecting it to succeed (`pos`) or to fail.
pub fn run(m: &Matcher, v: Value, pos: bool) -> (r: Result<MatchOutcome<Value, FormattedFailure>, String>)
    ensures
        outcome_of(r) == eval(*m, v@, pos),
    decreases m, 0nat,
{
    let inner_pos = pos != m.negated;
    match run_kind(&m.kind, v, inner_pos) {
        Err(e) => Err(e),
        Ok(MatchOutcome::Success(o)) => Ok(MatchOutcome::Success(o)),
        Ok(MatchOutcome::Fail(d)) => {
            let fail = if pos {
                MatchFailure::Pos(d)
            } else {
                MatchFailure::Neg(d)
            };
            Ok(MatchOutcome::Fail(FormattedFailure::new(fail, &m.format)))
        },
    }
}

impl Matcher {
    /// Tests `actual`, expecting the matcher to succeed.
    pub fn match_pos(&self, actual: Value) -> (r: Result<MatchOutcome<Value, FormattedFailure>, String>)
        ensures
            outcome_of(r) == eval(*self, actual@, true),
    {
        run(self, actual, true)
    }

    /// Tests `actual`, expecting the matcher to fail.
    pub fn match_neg(&self, actual: Value) -> (r: Result<MatchOutcome<Value, FormattedFailure>, String>)
        ensures
            outcome_of(r) == eval(*self, actual@, false),
    {
        run(self, actual, false)
    }
}

fn run_chain(ms: &Vec<Matcher>, v: Value) -> (r: Result<Result<Value, FormattedFailure>, String>)
    ensures
        chain_of(r) == chain_fold(ms@, v@),
    decreases ms, 0nat,
{
    let ghost v0 = v@;
    let mut state: Result<Result<Value, FormattedFailure>, String> = Ok(Ok(v));
    assert(ms@.take(0) =~= seq![]);
    let mut i: usize = 0;
    while i < ms.len()
        invariant
            i <= ms@.len(),
            chain_of(state) == chain_fold(ms@.take(i as int), v0),
        decreases ms@.len() - i,
    {
        proof {
            assert(ms@.take(i + 1).drop_last() =~= ms@.take(i as int));
            assert(ms@.take(i + 1).last() == ms@[i as int]);
            assert(decreases_to!(*ms => ms[i as int]));
        }
        state = match state {
            Ok(Ok(cur)) => match run(&ms[i], cur, true) {
                Err(e) => Err(e),
                Ok(MatchOutcome::Success(o)) => Ok(Ok(o)),
                Ok(MatchOutcome::Fail(f)) => Ok(Err(f)),
            },
            other => other,
        };
        i = i + 1;
    }
    assert(ms@.take(ms@.len() as int) =~= ms@);
    state
}

fn run_combinator(ms: &Vec<Matcher>, v: &Value, pos: bool) -> (r: Tallied)
    ensures
        tally_of(r) == combinator_tally(ms@, v@, pos),
    decreases ms, 0nat,
{
    let mut t = empty_tally();
    assert(ms@.take(0) =~= seq![]);
    let mut i: usize = 0;
    while i < ms.len()
        invariant
            i <= ms@.len(),
            tally_of(t) == combinator_tally(ms@.take(i as int), v@, pos),
        decreases ms@.len() - i,
    {
        proof {
            assert(ms@.take(i + 1).drop_last() =~= ms@.take(i as int));
            assert(ms@.take(i + 1).last() == ms@[i as int]);
            assert(decreases_to!(*ms => ms[i as int]));
        }
        if t.is_ok() {
            let o = run(&ms[i], clone_value(v), pos);
            t = tally_add(t, o);
        }
        i = i + 1;
    }
    assert(ms@.take(ms@.len() as int) =~= ms@);
    t
}

fn run_every(m: &Matcher, items: Vec<Value>, pos: bool) -> (r: Tallied)
    ensures
        tally_of(r) == every_tally(*m, model_seq(items@), pos),
    decreases m, items@.len(),
{
    let ghost mx = model_seq(items@);
    proof {
        lemma_model_seq(items@);
    }
    let n = items.len();
    let mut xs = items;
    let mut t = empty_tally();
    assert(mx.take(0) =~= seq![]);
    let mut i: usize = 0;
    while i < n
        invariant
            i <= n,
            n == xs@.len(),
            mx.len() == n,
            n == items@.len(),
            forall|j: int| i <= j < n ==> #[trigger] model(xs@[j]) == mx[j],
            tally_of(t) == every_tally(*m, mx.take(i as int), pos),
        decreases n - i,
    {
        proof {
            assert(mx.take(i + 1).drop_last() =~= mx.take(i as int));
            assert(mx.take(i + 1).last() == mx[i as int]);
        }
        let mut x = Value::Unit;
        let ghost before = xs@;
        std::mem::swap(&mut x, &mut xs[i]);
        proof {
            assert forall|j: int| i < j < n implies #[trigger] model(xs@[j]) == mx[j] by {
                assert(xs@[j] == before[j]);
            }
        }
        if t.is_ok() {
            let o = run(m, x, pos);
            t = tally_add(t, o);
        }
        i = i + 1;
    }
    assert(mx.take(n as int) =~= mx);
    t
}

proof fn lemma_elements_prefix(ms: Seq<Matcher>, xs: Seq<Val>, pos: bool, i: int)
    requires
        0 <= i < ms.len(),
        i < xs.len(),
    ensures
        elements_tally(ms.take(i + 1), xs, pos) == tally_push(
            elements_tally(ms.take(i), xs, pos),
            eval(ms[i], xs[i], pos),
        ),
{
    assert(ms.take(i + 1).drop_last() =~= ms.take(i));
    assert(ms.take(i + 1).last() == ms[i]);
}

proof fn lemma_elements_whole(ms: Seq<Matcher>, xs: Seq<Val>, pos: bool)
    ensures
        elements_tally(ms, xs, pos) == elements_tally(
            ms.take(if ms.len() <= xs.len() { ms.len() as int } else { xs.len() as int }),
            xs,
            pos,
        ),
{
    if ms.len() <= xs.len() {
        assert(ms.take(ms.len() as int) =~= ms);
    }
}

fn run_elements(ms: &Vec<Matcher>, xs: Vec<Value>, pos: bool) -> (r: Tallied)
    ensures
        tally_of(r) == elements_tally(ms@, model_seq(xs@), pos),
    decreases ms, 0nat,
{
    let ghost mx = model_seq(xs@);
    proof {
        lemma_model_seq(xs@);
        lemma_elements_whole(ms@, mx, pos);
    }
    let n = if ms.len() <= xs.len() { ms.len() } else { xs.len() };
    let mut xs = xs;
    let mut t = empty_tally();
    assert(ms@.take(0) =~= seq![]);
    let mut i: usize = 0;
    while i < n
        invariant
            i <= n,
            n <= ms@.len(),
            n <= xs@.len(),
            mx.len() == xs@.len(),
            forall|j: int| i <= j < xs@.len() ==> #[trigger] model(xs@[j]) == mx[j],
            tally_of(t) == elements_tally(ms@.take(i as int), mx, pos),
        decreases n - i,
    {
        proof {
            lemma_elements_prefix(ms@, mx, pos, i as int);
            assert(decreases_to!(*ms => ms[i as int]));
        }
        let mut x = Value::Unit;
        let ghost before = xs@;
        std::mem::swap(&mut x, &mut xs[i]);
        proof {
            assert forall|j: int| i < j < xs@.len() implies #[trigger] model(xs@[j]) == mx[j] by {
                assert(xs@[j] == before[j]);
            }
        }
        if t.is_ok() {
            let o = run(&ms[i], x, pos);
            t = tally_add(t, o);
        }
        i = i + 1;
    }
    t
}

/// A copy of the value of the first field named `name`.
fn find_field_value(fs: &Vec<Field>, name: &String) -> (r: Option<Value>)
    ensures
        match r {
            Option::Some(x) => find_field(model_fields(fs@), name@) == Option::Some(x@),
            Option::None => find_field(model_fields(fs@), name@) is None,
        },
{
    let ghost mf = model_fields(fs@);
    proof {
        lemma_model_fields(fs@);
    }
    assert(mf.skip(0) =~= mf);
    let mut i: usize = 0;
    while i < fs.len()
        invariant
            i <= fs@.len(),
            mf == model_fields(fs@),
            mf.len() == fs@.len(),
            forall|j: int| 0 <= j < fs@.len() ==> #[trigger] mf[j] == (fs@[j].name@, model(fs@[j].value)),
            find_field(mf, name@) == find_field(mf.skip(i as int), name@),
        decreases fs@.len() - i,
    {
        let ghost rest = mf.skip(i as int);
        assert(rest[0] == mf[i as int]);
        assert(rest.drop_first() =~= mf.skip(i + 1));
        if crate::value::string_eq(&fs[i].name, name) {
            return Option::Some(clone_value(&fs[i].value));
        }
        i = i + 1;
    }
    assert(mf.skip(i as int) =~= seq![]);
    Option::None
}

fn run_fields(specs: &Vec<FieldSpec>, fs: &Vec<Field>, pos: bool) -> (r: Tallied)
    ensures
        tally_of(r) == fields_tally(specs@, model_fields(fs@), pos),
    decreases specs, 0nat,
{
    let mut t = empty_tally();
    assert(specs@.take(0) =~= seq![]);
    let mut i: usize = 0;
    while i < specs.len()
        invariant
            i <= specs@.len(),
            tally_of(t) == fields_tally(specs@.take(i as int), model_fields(fs@), pos),
        decreases specs@.len() - i,
    {
        proof {
            assert(specs@.take(i + 1).drop_last() =~= specs@.take(i as int));
            assert(specs@.take(i + 1).last() == specs@[i as int]);
            assert(decreases_to!(*specs => specs[i as int]));
            assert(decreases_to!(specs[i as int] => specs[i as int].matcher));
        }
        if t.is_ok() {
            match find_field_value(fs, &specs[i].name) {
                Option::None => {
                    t = Err(error_text("the struct has no field of that name"));
                },
                Option::Some(x) => {
                    let o = run(&specs[i].matcher, x, pos);
                    t = tally_add(t, o);
                },
            }
        }
        i = i + 1;
    }
    assert(specs@.take(specs@.len() as int) =~= specs@);
    t
}

fn by_field_data(specs: &Vec<FieldSpec>, results: Vec<Option<FormattedFailure>>) -> (r: FailData)
    requires
        results@.len() <= specs@.len(),
    ensures
        fail_view(r) == FailView::ByField(
            by_field(specs@, results@.map_values(|o: Option<FormattedFailure>| opt_view(o))),
        ),
{
    let ghost rv = results@.map_values(|o: Option<FormattedFailure>| opt_view(o));
    let n = results.len();
    let mut results = results;
    let mut out: Vec<FieldFailure> = Vec::new();
    let mut i: usize = 0;
    while i < n
        invariant
            i <= n,
            n == results@.len(),
            n <= specs@.len(),
            rv.len() == n,
            forall|j: int| i <= j < n ==> #[trigger] opt_view(results@[j]) == rv[j],
            out@.len() == i,
            forall|j: int| 0 <= j < i ==> #[trigger] crate::format::field_view(out@[j]) == (specs@[j].name@, rv[j]),
        decreases n - i,
    {
        let mut slot: Option<FormattedFailure> = None;
        let ghost before = results@;
        std::mem::swap(&mut slot, &mut results[i]);
        proof {
            assert forall|j: int| i < j < n implies #[trigger] opt_view(results@[j]) == rv[j] by {
                assert(results@[j] == before[j]);
            }
            assert(opt_view(slot) == rv[i as int]);
        }
        out.push(FieldFailure { name: specs[i].name.clone(), failure: slot });
        i = i + 1;
    }
    let r = FailData::ByField(out);
    assert(out@.map_values(|x: FieldFailure| crate::format::field_view(x)) =~= by_field(specs@, rv));
    r
}

/// Runs the test of kind `k` on `v`, for the side `pos`.
pub fn run_kind(k: &MatchKind, v: Value, pos: bool) -> (r: Result<MatchOutcome<Value, FailData>, String>)
    ensures
        step_of(r) == kind_eval(*k, v@, pos),
    decreases k, 0nat,
{
    match k {
        MatchKind::Not(b) => match run(b, v, !pos) {
            Err(e) => Err(e),
            Ok(MatchOutcome::Success(o)) => Ok(MatchOutcome::Success(o)),
            Ok(MatchOutcome::Fail(f)) => Ok(MatchOutcome::Fail(FailData::Failure(f))),
        },
        MatchKind::Wrapped(b) => match run(b, v, pos) {
            Err(e) => Err(e),
            Ok(MatchOutcome::Success(o)) => Ok(MatchOutcome::Success(o)),
            Ok(MatchOutcome::Fail(f)) => Ok(MatchOutcome::Fail(FailData::Failure(f))),
        },
        MatchKind::All(ms) => match run_chain(ms, v) {
            Err(e) => Err(e),
            Ok(Ok(o)) => if pos {
                Ok(MatchOutcome::Success(o))
            } else {
                Ok(MatchOutcome::Fail(FailData::Nothing))
            },
            Ok(Err(f)) => if pos {
                Ok(MatchOutcome::Fail(FailData::Failure(f)))
            } else {
                Ok(MatchOutcome::Success(Value::Unit))
            },
        },
        MatchKind::Combinator(mode, ms) => match run_combinator(ms, &v, pos) {
            Err(e) => Err(e),
            Ok((results, _outs)) => if mode_satisfied(*mode, pos, &results) {
                Ok(MatchOutcome::Success(v))
            } else {
                Ok(MatchOutcome::Fail(FailData::SomeFailures(results)))
            },
        },
        MatchKind::Every(b) => match v {
            Value::List(xs) => list_result(run_every(b, xs, pos), pos),
            _ => Err(error_text("the value is not a list")),
        },
        MatchKind::Elements(ms) => match v {
            Value::List(xs) => list_result(run_elements(ms, xs, pos), pos),
            _ => Err(error_text("the value is not a list")),
        },
        MatchKind::Fields(mode, specs) => match &v {
            Value::Record(_, fs) => {
                proof {
                    lemma_model_fields(fs@);
                }
                match run_fields(specs, fs, pos) {
                    Err(e) => Err(e),
                    Ok((results, _outs)) => {
                        proof {
                            lemma_fields_tally_len(specs@, model_fields(fs@), pos);
                        }
                        if mode_satisfied(*mode, pos, &results) {
                            Ok(MatchOutcome::Success(Value::Unit))
                        } else {
                            Ok(MatchOutcome::Fail(by_field_data(specs, results)))
                        }
                    },
                }
            },
            _ => Err(error_text("the value is not a struct")),
        },
        _ => run_leaf(k, v, pos),
    }
}

proof fn lemma_fields_tally_len(specs: Seq<FieldSpec>, fs: Seq<(Seq<char>, Val)>, pos: bool)
    ensures
        fields_tally(specs, fs, pos) matches Tally::Done(results, _) ==> results.len() == specs.len(),
    decreases specs.len(),
{
    if specs.len() > 0 {
        lemma_fields_tally_len(specs.drop_last(), fs, pos);
    }
}

fn list_result(t: Tallied, pos: bool) -> (r: Result<MatchOutcome<Value, FailData>, String>)
    ensures
        step_of(r) == list_step(tally_of(t), pos),
{
    match t {
        Err(e) => Err(e),
        Ok((results, outs)) => {
            let ok = if pos { results_ok(&results, true) } else { results_ok(&results, false) };
            if ok {
                proof {
                    lemma_model_seq(outs@);
                }
                Ok(MatchOutcome::Success(Value::List(outs)))
            } else {
                Ok(MatchOutcome::Fail(FailData::SomeFailures(results)))
            }
        },
    }
}

} // verus!
