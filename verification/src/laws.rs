//! What holds of the matchers and the formatters taken together.

use vstd::prelude::*;
use crate::format::{DiffTag, FailFormat, FailView};
use crate::formatter::{fm_output, fresh, lemma_text_concat, text_of, Seg};
use crate::matcher::{
    all_ok, any_ok, combinator_tally, eval, every_tally, kind_eval, mode_ok, tally_push, chain_fold,
    ChainState, CombinatorMode, FieldSpec, MatchKind, Matcher, Outcome, Step, Tally, common_prefix_len, common_suffix_len,
    fields_tally, find_field, group,
};
use crate::style::plain;
use crate::value::{model_seq, Val};

verus! {

/// Two outcomes agree: the same value handed on, the same error, or
/// failures whose output reads the same.
pub open spec fn agree(a: Outcome, b: Outcome) -> bool {
    match (a, b) {
        (Outcome::Success(x), Outcome::Success(y)) => x == y,
        (Outcome::Error(x), Outcome::Error(y)) => x == y,
        (Outcome::Fail(x), Outcome::Fail(y)) => text_of(x) == text_of(y),
        _ => false,
    }
}

/// Output passed through a fresh formatter reads the same.
pub proof fn lemma_pass_through(out: Seq<Seg>)
    ensures
        text_of(fm_output(fresh(plain()), out)) == text_of(out),
{
    let empty = seq![(Seq::<char>::empty(), plain())];
    lemma_text_concat(fresh(plain()) + out, empty);
    lemma_text_concat(fresh(plain()), out);
    assert(text_of(empty) =~= text_of(empty.drop_last()) + Seq::<char>::empty());
    assert(empty.drop_last() =~= Seq::<Seg>::empty());
    assert(fresh(plain()).drop_last() =~= Seq::<Seg>::empty());
    assert(text_of(fresh(plain())) =~= Seq::<char>::empty());
    assert(text_of(fm_output(fresh(plain()), out)) =~= text_of(out));
}

/// `not(m)` expected to succeed is `m` expected to fail, and the other way
/// round: `to(not(m))` is `to_not(m)`. It hands on the same value, gives the
/// same error, and its failures read the same.
pub proof fn law_not_negates(n: Matcher, m: Matcher, v: Val, pos: bool)
    requires
        n.kind == MatchKind::Not(Box::new(m)),
        !n.negated,
        n.format is Failure,
    ensures
        agree(eval(n, v, pos), eval(m, v, !pos)),
{
    match eval(m, v, !pos) {
        Outcome::Fail(out) => {
            lemma_pass_through(out);
        },
        _ => {},
    }
}

/// Negating a matcher twice gives it back: `not(not(m))` agrees with `m`.
pub proof fn law_double_negation(nn: Matcher, n: Matcher, m: Matcher, v: Val, pos: bool)
    requires
        nn.kind == MatchKind::Not(Box::new(n)),
        !nn.negated,
        nn.format is Failure,
        n.kind == MatchKind::Not(Box::new(m)),
        !n.negated,
        n.format is Failure,
    ensures
        agree(eval(nn, v, pos), eval(m, v, pos)),
{
    law_not_negates(nn, n, v, pos);
    law_not_negates(n, m, v, !pos);
}

/// A negated matcher whose formatter negates that of another matcher of the
/// same test is that other matcher expected the other way round: `to(be_false())`
/// is `to_not(be_true())`, `to(be_none())` is `to_not(be_some())`, and
/// `to(be_err())` is `to_not(be_ok())`, failures included.
pub proof fn law_negated_matcher(n: Matcher, p: Matcher, v: Val, pos: bool)
    requires
        n.kind == p.kind,
        n.negated,
        !p.negated,
        n.format matches FailFormat::Neg(x) && *x.0 == p.format,
    ensures
        eval(n, v, pos) == eval(p, v, !pos),
{
}

/// `Outcome` of running `m` on what `o` handed on, if it succeeded.
pub open spec fn then_eval(o: Outcome, m: Matcher) -> Outcome {
    match o {
        Outcome::Success(x) => eval(m, x, true),
        other => other,
    }
}

/// A chain stopped or running, as the outcome it stands for.
pub open spec fn chain_outcome(c: ChainState) -> Outcome {
    match c {
        ChainState::Error(e) => Outcome::Error(e),
        ChainState::Failed(out) => Outcome::Fail(out),
        ChainState::Running(x) => Outcome::Success(x),
    }
}

/// One more matcher at the end of a chain runs on what the chain handed on.
pub proof fn law_chain_push(ms: Seq<Matcher>, m: Matcher, v: Val)
    ensures
        chain_outcome(chain_fold(ms.push(m), v)) == then_eval(chain_outcome(chain_fold(ms, v)), m),
{
    assert(ms.push(m).drop_last() =~= ms);
}

/// `all` expected to succeed is its matchers applied one after the other:
/// `to(all([m1, .., mk, m]))` agrees with `to(all([m1, .., mk])).to(m)`.
pub proof fn law_all_is_chained_to(a: Matcher, b: Matcher, ms: Seq<Matcher>, m: Matcher, v: Val)
    requires
        a.kind matches MatchKind::All(x) && x@ == ms.push(m),
        b.kind matches MatchKind::All(y) && y@ == ms,
        !a.negated,
        !b.negated,
        a.format matches FailFormat::Dispatch(d) && *d.pos_fmt is Failure,
        b.format matches FailFormat::Dispatch(d) && *d.pos_fmt is Failure,
    ensures
        agree(eval(a, v, true), then_eval(eval(b, v, true), m)),
{
    law_chain_push(ms, m, v);
    let xa = a.kind->All_0;
    let xb = b.kind->All_0;
    assert(kind_eval(a.kind, v, true) == kind_eval(MatchKind::All(xa), v, true));
    assert(kind_eval(b.kind, v, true) == kind_eval(MatchKind::All(xb), v, true));
    reveal_with_fuel(crate::format::format_output, 2);
    match chain_fold(ms, v) {
        ChainState::Failed(out) => {
            assert(chain_fold(ms.push(m), v) == ChainState::Failed(out));
            let d = crate::result::MatchFailure::Pos(FailView::Failure(out));
            lemma_pass_through(out);
            assert(eval(a, v, true) == Outcome::Fail(crate::format::formatted(a.format, d)));
            assert(eval(b, v, true) == Outcome::Fail(crate::format::formatted(b.format, d)));
            assert(crate::format::formatted(a.format, d) == fm_output(fresh(plain()), out));
            assert(crate::format::formatted(b.format, d) == fm_output(fresh(plain()), out));
        },
        ChainState::Running(x) => {
            assert(eval(b, v, true) == Outcome::Success(x));
            match eval(m, x, true) {
                Outcome::Fail(out) => {
                    lemma_pass_through(out);
                    assert(chain_fold(ms.push(m), v) == ChainState::Failed(out));
                    let d = crate::result::MatchFailure::Pos(FailView::Failure(out));
                    assert(eval(a, v, true) == Outcome::Fail(crate::format::formatted(a.format, d)));
                    assert(crate::format::formatted(a.format, d) == fm_output(fresh(plain()), out));
                },
                Outcome::Success(o) => {
                    assert(chain_fold(ms.push(m), v) == ChainState::Running(o));
                    assert(eval(a, v, true) == Outcome::Success(o));
                },
                Outcome::Error(e) => {
                    assert(chain_fold(ms.push(m), v) == ChainState::Error(e));
                    assert(eval(a, v, true) == Outcome::Error(e));
                },
            }
        },
        ChainState::Error(e) => {
            assert(chain_fold(ms.push(m), v) == ChainState::Error(e));
            assert(eval(a, v, true) == Outcome::Error(e));
            assert(eval(b, v, true) == Outcome::Error(e));
        },
    }
}

/// No matcher of the list errs on `v`.
pub open spec fn no_errors(ms: Seq<Matcher>, v: Val, pos: bool) -> bool {
    forall|i: int| 0 <= i < ms.len() ==> !(eval(#[trigger] ms[i], v, pos) is Error)
}

/// When no matcher errs, the tally of a combinator records, for each
/// matcher in order, whether it succeeded.
pub proof fn lemma_combinator_tally(ms: Seq<Matcher>, v: Val, pos: bool)
    requires
        no_errors(ms, v, pos),
    ensures
        combinator_tally(ms, v, pos) matches Tally::Done(results, _) && results.len() == ms.len()
            && forall|i: int| 0 <= i < ms.len() ==> ((#[trigger] results[i]) is None <==> eval(
                ms[i],
                v,
                pos,
            ) is Success),
    decreases ms.len(),
{
    if ms.len() > 0 {
        let init = ms.drop_last();
        assert forall|i: int| 0 <= i < init.len() implies !(eval(#[trigger] init[i], v, pos) is Error) by {
            assert(init[i] == ms[i]);
        }
        lemma_combinator_tally(init, v, pos);
        assert(!(eval(ms[ms.len() - 1], v, pos) is Error));
    }
}

/// `each(ms)` expected to succeed succeeds exactly when every matcher
/// succeeds on the value; expected to fail, exactly when one of them fails
/// (when none errs).
pub proof fn law_each(e: Matcher, ms: Seq<Matcher>, v: Val, pos: bool)
    requires
        e.kind matches MatchKind::Combinator(mode, x) && mode == CombinatorMode::All && x@ == ms,
        !e.negated,
        no_errors(ms, v, pos),
    ensures
        pos ==> (eval(e, v, pos) is Success <==> forall|i: int| 0 <= i < ms.len() ==> #[trigger] eval(ms[i], v, pos) is Success),
        !pos ==> (eval(e, v, pos) is Success <==> exists|i: int| 0 <= i < ms.len() && #[trigger] eval(ms[i], v, pos) is Success),
        eval(e, v, pos) is Success ==> eval(e, v, pos) == Outcome::Success(v),
{
    lemma_combinator_tally(ms, v, pos);
    let x = e.kind->Combinator_1;
    assert(kind_eval(e.kind, v, pos) == kind_eval(MatchKind::Combinator(CombinatorMode::All, x), v, pos));
    if let Tally::Done(results, _) = combinator_tally(ms, v, pos) {
        if pos {
            if all_ok(results) {
                assert forall|i: int| 0 <= i < ms.len() implies #[trigger] eval(ms[i], v, pos) is Success by {
                    assert(results[i] is None);
                }
            }
            if forall|i: int| 0 <= i < ms.len() ==> #[trigger] eval(ms[i], v, pos) is Success {
                assert forall|i: int| 0 <= i < results.len() implies (#[trigger] results[i]) is None by {
                    assert(eval(ms[i], v, pos) is Success);
                }
            }
        } else {
            if any_ok(results) {
                let i = choose|i: int| 0 <= i < results.len() && (#[trigger] results[i]) is None;
                assert(eval(ms[i], v, pos) is Success);
            }
            if exists|i: int| 0 <= i < ms.len() && #[trigger] eval(ms[i], v, pos) is Success {
                let i = choose|i: int| 0 <= i < ms.len() && #[trigger] eval(ms[i], v, pos) is Success;
                assert(results[i] is None);
            }
        }
    }
}

/// `any(ms)` expected to succeed succeeds exactly when one matcher succeeds
/// on the value; expected to fail, exactly when every one of them fails
/// (when none errs).
pub proof fn law_any(a: Matcher, ms: Seq<Matcher>, v: Val, pos: bool)
    requires
        a.kind matches MatchKind::Combinator(mode, x) && mode == CombinatorMode::Any && x@ == ms,
        !a.negated,
        no_errors(ms, v, pos),
    ensures
        pos ==> (eval(a, v, pos) is Success <==> exists|i: int| 0 <= i < ms.len() && #[trigger] eval(ms[i], v, pos) is Success),
        !pos ==> (eval(a, v, pos) is Success <==> forall|i: int| 0 <= i < ms.len() ==> #[trigger] eval(ms[i], v, pos) is Success),
        eval(a, v, pos) is Success ==> eval(a, v, pos) == Outcome::Success(v),
{
    lemma_combinator_tally(ms, v, pos);
    let x = a.kind->Combinator_1;
    assert(kind_eval(a.kind, v, pos) == kind_eval(MatchKind::Combinator(CombinatorMode::Any, x), v, pos));
    if let Tally::Done(results, _) = combinator_tally(ms, v, pos) {
        if !pos {
            if all_ok(results) {
                assert forall|i: int| 0 <= i < ms.len() implies #[trigger] eval(ms[i], v, pos) is Success by {
                    assert(results[i] is None);
                }
            }
            if forall|i: int| 0 <= i < ms.len() ==> #[trigger] eval(ms[i], v, pos) is Success {
                assert forall|i: int| 0 <= i < results.len() implies (#[trigger] results[i]) is None by {
                    assert(eval(ms[i], v, pos) is Success);
                }
            }
        } else {
            if any_ok(results) {
                let i = choose|i: int| 0 <= i < results.len() && (#[trigger] results[i]) is None;
                assert(eval(ms[i], v, pos) is Success);
            }
            if exists|i: int| 0 <= i < ms.len() && #[trigger] eval(ms[i], v, pos) is Success {
                let i = choose|i: int| 0 <= i < ms.len() && #[trigger] eval(ms[i], v, pos) is Success;
                assert(results[i] is None);
            }
        }
    }
}

/// The matcher errs on no element of the list.
pub open spec fn no_element_errors(m: Matcher, xs: Seq<Val>, pos: bool) -> bool {
    forall|i: int| 0 <= i < xs.len() ==> !(#[trigger] eval(m, xs[i], pos) is Error)
}

/// When the matcher errs on no element, the tally of `every` records, for
/// each element in order, whether the matcher succeeded on it, and the
/// values it handed on.
#[verifier::spinoff_prover]
pub proof fn lemma_every_tally(m: Matcher, xs: Seq<Val>, pos: bool)
    requires
        no_element_errors(m, xs, pos),
    ensures
        every_tally(m, xs, pos) matches Tally::Done(results, outs) && results.len() == xs.len()
            && (forall|i: int| 0 <= i < xs.len() ==> ((#[trigger] results[i]) is None <==> eval(m, xs[i], pos) is Success))
            && (all_ok(results) ==> outs == xs.map_values(|x: Val| eval(m, x, pos)->Success_0)),
    decreases xs.len(),
{
    if xs.len() > 0 {
        let init = xs.drop_last();
        assert forall|i: int| 0 <= i < init.len() implies !(#[trigger] eval(m, init[i], pos) is Error) by {
            assert(init[i] == xs[i]);
        }
        lemma_every_tally(m, init, pos);
        assert(!(eval(m, xs[xs.len() - 1], pos) is Error));
        if let Tally::Done(results, outs) = every_tally(m, xs, pos) {
            if all_ok(results) {
                if let Tally::Done(r0, o0) = every_tally(m, init, pos) {
                    assert(all_ok(r0)) by {
                        assert forall|i: int| 0 <= i < r0.len() implies (#[trigger] r0[i]) is None by {
                            assert(r0[i] == results[i]);
                        }
                    }
                    assert(results[xs.len() - 1] is None);
                    let last = xs[xs.len() - 1];
                    assert(eval(m, last, pos) is Success);
                    assert(results == r0.push(Option::None));
                    assert(outs == o0.push(eval(m, last, pos)->Success_0));
                    assert(o0 =~= init.map_values(|x: Val| eval(m, x, pos)->Success_0));
                    assert(outs =~= xs.map_values(|x: Val| eval(m, x, pos)->Success_0));
                }
            }
        }
    }
}

/// `every(m)` on a list expected to succeed succeeds exactly when `m`
/// succeeds on each element, and then hands on what `m` handed on for each
/// element, in order (when `m` errs on none of them).
pub proof fn law_every(e: Matcher, m: Matcher, xs: Seq<Val>)
    requires
        e.kind == MatchKind::Every(Box::new(m)),
        !e.negated,
        no_element_errors(m, xs, true),
    ensures
        eval(e, Val::List(xs), true) is Success <==> forall|i: int| 0 <= i < xs.len() ==> #[trigger] eval(m, xs[i], true) is Success,
        eval(e, Val::List(xs), true) is Success ==> eval(e, Val::List(xs), true) == Outcome::Success(
            Val::List(xs.map_values(|x: Val| eval(m, x, true)->Success_0)),
        ),
{
    lemma_every_tally(m, xs, true);
    assert(kind_eval(e.kind, Val::List(xs), true) == kind_eval(MatchKind::Every(Box::new(m)), Val::List(xs), true));
    if let Tally::Done(results, _) = every_tally(m, xs, true) {
        if all_ok(results) {
            assert forall|i: int| 0 <= i < xs.len() implies #[trigger] eval(m, xs[i], true) is Success by {
                assert(results[i] is None);
            }
        }
        if forall|i: int| 0 <= i < xs.len() ==> #[trigger] eval(m, xs[i], true) is Success {
            assert forall|i: int| 0 <= i < results.len() implies (#[trigger] results[i]) is None by {
                assert(eval(m, xs[i], true) is Success);
            }
        }
    }
}


/// `consist_of` does not care about the order of the expected elements: two
/// lists with the same elements, each as often, give the same success or
/// failure on any value.
pub proof fn law_consist_of_any_order(c1: Matcher, c2: Matcher, v: Val, pos: bool)
    requires
        c1.kind matches MatchKind::ConsistOf(e1) && c2.kind matches MatchKind::ConsistOf(e2)
            && model_seq(e1@).to_multiset() == model_seq(e2@).to_multiset(),
        c1.negated == c2.negated,
    ensures
        eval(c1, v, pos) is Success <==> eval(c2, v, pos) is Success,
{
}

/// `consist_of` is symmetric: list `a` consists of the elements of list `b`
/// exactly when `b` consists of those of `a`.
pub proof fn law_consist_of_symmetric(c1: Matcher, c2: Matcher, pos: bool)
    requires
        c1.kind is ConsistOf,
        c2.kind is ConsistOf,
        c1.negated == c2.negated,
    ensures
        eval(c1, Val::List(model_seq(c2.kind->ConsistOf_0@)), pos) is Success <==> eval(
            c2,
            Val::List(model_seq(c1.kind->ConsistOf_0@)),
            pos,
        ) is Success,
{
}

/// `equal(x)` succeeds on `x` itself, handing it on.
pub proof fn law_equal_reflexive(e: Matcher, x: Val)
    requires
        e.kind matches MatchKind::Equal(y) && y@ == x,
        !e.negated,
    ensures
        eval(e, x, true) == Outcome::Success(x),
{
}

/// `be_some()` on `Some(x)` hands on `x`; `be_ok()` on `Ok(x)` hands on `x`;
/// negated, `be_ok()` (that is, `be_err()`) on `Err(x)` hands on `x`.
pub proof fn law_unwrapping_matchers(s: Matcher, o: Matcher, x: Val)
    requires
        s.kind is BeSome,
        o.kind is BeOk,
    ensures
        eval(s, Val::Opt(Option::Some(Box::new(x))), !s.negated) == Outcome::Success(x),
        eval(o, Val::Res(Result::Ok(Box::new(x))), !o.negated) == Outcome::Success(x),
        eval(o, Val::Res(Result::Err(Box::new(x))), o.negated) == Outcome::Success(x),
{
}

/// The texts of the pieces of a diff that are not tagged `skip`, in order.
pub open spec fn side_items(ps: Seq<(crate::format::DiffTag, Seq<char>)>, skip: crate::format::DiffTag) -> Seq<Seq<char>>
    decreases ps.len(),
{
    if ps.len() == 0 {
        seq![]
    } else {
        let rest = side_items(ps.drop_last(), skip);
        if ps.last().0 == skip {
            rest
        } else {
            rest.push(ps.last().1)
        }
    }
}

proof fn lemma_side_items_concat(x: Seq<(crate::format::DiffTag, Seq<char>)>, y: Seq<(crate::format::DiffTag, Seq<char>)>, skip: crate::format::DiffTag)
    ensures
        side_items(x + y, skip) == side_items(x, skip) + side_items(y, skip),
    decreases y.len(),
{
    if y.len() == 0 {
        assert(x + y =~= x);
        assert(side_items(x, skip) + side_items(y, skip) =~= side_items(x, skip));
    } else {
        assert((x + y).drop_last() =~= x + y.drop_last());
        lemma_side_items_concat(x, y.drop_last(), skip);
        assert(side_items(x + y, skip) =~= side_items(x, skip) + side_items(y, skip));
    }
}

proof fn lemma_side_items_group(tag: crate::format::DiffTag, items: Seq<Seq<char>>, skip: crate::format::DiffTag)
    ensures
        side_items(crate::matcher::group(tag, items, false), skip) == (if tag == skip { seq![] } else { items }),
        (side_items(crate::matcher::group(tag, items, true), skip)).flatten() == (if tag == skip {
            Seq::<char>::empty()
        } else {
            items.flatten()
        }),
    decreases items.len(),
{
    if items.len() > 0 {
        let init = items.drop_last();
        lemma_side_items_group(tag, init, skip);
        let g = crate::matcher::group(tag, items, false);
        assert(g.drop_last() =~= crate::matcher::group(tag, init, false));
        assert(side_items(g, skip) =~= (if tag == skip { seq![] } else { items }));
        let gj = crate::matcher::group(tag, items, true);
        assert(gj.drop_last() =~= Seq::<(crate::format::DiffTag, Seq<char>)>::empty());
        assert(side_items(gj.drop_last(), skip) =~= Seq::<Seq<char>>::empty());
        assert(Seq::<Seq<char>>::empty().flatten() =~= Seq::<char>::empty());
        if tag != skip {
            assert(side_items(gj, skip) =~= seq![items.flatten()]);
            seq![items.flatten()].lemma_flatten_one_element();
        }
    } else {
        assert(side_items(crate::matcher::group(tag, items, false), skip) =~= (if tag == skip { seq![] } else { items }));
        assert(Seq::<Seq<char>>::empty().flatten() =~= Seq::<char>::empty());
        assert(items =~= Seq::<Seq<char>>::empty());
    }
}

proof fn lemma_prefix_equal<T>(a: Seq<T>, b: Seq<T>)
    ensures
        crate::matcher::common_prefix_len(a, b) <= a.len(),
        crate::matcher::common_prefix_len(a, b) <= b.len(),
        a.take(crate::matcher::common_prefix_len(a, b) as int) == b.take(crate::matcher::common_prefix_len(a, b) as int),
    decreases a.len(),
{
    if a.len() > 0 && b.len() > 0 && a[0] == b[0] {
        lemma_prefix_equal(a.drop_first(), b.drop_first());
        let p = crate::matcher::common_prefix_len(a, b) as int;
        assert(a.take(p) =~= seq![a[0]] + a.drop_first().take(p - 1));
        assert(b.take(p) =~= seq![b[0]] + b.drop_first().take(p - 1));
    } else {
        assert(a.take(0) =~= b.take(0));
    }
}

proof fn lemma_suffix_equal<T>(a: Seq<T>, b: Seq<T>, p: nat)
    ensures
        p + crate::matcher::common_suffix_len(a, b, p) <= a.len() || crate::matcher::common_suffix_len(a, b, p) == 0,
        p + crate::matcher::common_suffix_len(a, b, p) <= b.len() || crate::matcher::common_suffix_len(a, b, p) == 0,
        crate::matcher::common_suffix_len(a, b, p) <= a.len(),
        crate::matcher::common_suffix_len(a, b, p) <= b.len(),
        a.skip(a.len() - crate::matcher::common_suffix_len(a, b, p)) == b.skip(b.len() - crate::matcher::common_suffix_len(a, b, p)),
    decreases a.len(),
{
    if a.len() <= p || b.len() <= p || a.last() != b.last() {
        assert(a.skip(a.len() as int) =~= b.skip(b.len() as int));
    } else {
        lemma_suffix_equal(a.drop_last(), b.drop_last(), p);
        let s = crate::matcher::common_suffix_len(a, b, p) as int;
        assert(a.skip(a.len() - s) =~= a.drop_last().skip(a.len() - s) + seq![a.last()]);
        assert(b.skip(b.len() - s) =~= b.drop_last().skip(b.len() - s) + seq![b.last()]);
    }
}

proof fn lemma_suffix_bound<T>(a: Seq<T>, b: Seq<T>, p: nat)
    requires
        p <= a.len(),
        p <= b.len(),
    ensures
        p + crate::matcher::common_suffix_len(a, b, p) <= a.len(),
        p + crate::matcher::common_suffix_len(a, b, p) <= b.len(),
    decreases a.len(),
{
    if !(a.len() <= p || b.len() <= p || a.last() != b.last()) {
        lemma_suffix_bound(a.drop_last(), b.drop_last(), p);
    }
}

proof fn lemma_sides(
    pre: Seq<Seq<char>>,
    del: Seq<Seq<char>>,
    ins: Seq<Seq<char>>,
    suf: Seq<Seq<char>>,
    join: bool,
)
    ensures
        ({
            let ps = crate::matcher::group(crate::format::DiffTag::Equal, pre, join)
                + crate::matcher::group(crate::format::DiffTag::Delete, del, join)
                + crate::matcher::group(crate::format::DiffTag::Insert, ins, join)
                + crate::matcher::group(crate::format::DiffTag::Equal, suf, join);
            &&& !join ==> side_items(ps, crate::format::DiffTag::Delete) == pre + ins + suf
            &&& !join ==> side_items(ps, crate::format::DiffTag::Insert) == pre + del + suf
            &&& join ==> side_items(ps, crate::format::DiffTag::Delete).flatten() == (pre + ins + suf).flatten()
            &&& join ==> side_items(ps, crate::format::DiffTag::Insert).flatten() == (pre + del + suf).flatten()
        }),
{
    let g0 = group(DiffTag::Equal, pre, join);
    let g1 = group(DiffTag::Delete, del, join);
    let g2 = group(DiffTag::Insert, ins, join);
    let g3 = group(DiffTag::Equal, suf, join);
    lemma_side_items_concat(g0 + g1 + g2, g3, DiffTag::Delete);
    lemma_side_items_concat(g0 + g1, g2, DiffTag::Delete);
    lemma_side_items_concat(g0, g1, DiffTag::Delete);
    lemma_side_items_concat(g0 + g1 + g2, g3, DiffTag::Insert);
    lemma_side_items_concat(g0 + g1, g2, DiffTag::Insert);
    lemma_side_items_concat(g0, g1, DiffTag::Insert);
    lemma_side_items_group(DiffTag::Equal, pre, DiffTag::Delete);
    lemma_side_items_group(DiffTag::Delete, del, DiffTag::Delete);
    lemma_side_items_group(DiffTag::Insert, ins, DiffTag::Delete);
    lemma_side_items_group(DiffTag::Equal, suf, DiffTag::Delete);
    lemma_side_items_group(DiffTag::Equal, pre, DiffTag::Insert);
    lemma_side_items_group(DiffTag::Delete, del, DiffTag::Insert);
    lemma_side_items_group(DiffTag::Insert, ins, DiffTag::Insert);
    lemma_side_items_group(DiffTag::Equal, suf, DiffTag::Insert);
    if !join {
        assert(side_items(g0 + g1 + g2 + g3, DiffTag::Delete) =~= pre + ins + suf);
        assert(side_items(g0 + g1 + g2 + g3, DiffTag::Insert) =~= pre + del + suf);
    } else {
        let d0 = side_items(g0, DiffTag::Delete);
        let d1 = side_items(g1, DiffTag::Delete);
        let d2 = side_items(g2, DiffTag::Delete);
        let d3 = side_items(g3, DiffTag::Delete);
        vstd::seq_lib::lemma_flatten_concat(d0 + d1 + d2, d3);
        vstd::seq_lib::lemma_flatten_concat(d0 + d1, d2);
        vstd::seq_lib::lemma_flatten_concat(d0, d1);
        vstd::seq_lib::lemma_flatten_concat(pre + ins, suf);
        vstd::seq_lib::lemma_flatten_concat(pre, ins);
        assert(d1 =~= seq![] || d1.flatten() =~= Seq::<char>::empty());
        assert(Seq::<Seq<char>>::empty().flatten() =~= Seq::<char>::empty());
        assert(side_items(g0 + g1 + g2 + g3, DiffTag::Delete).flatten() =~= (pre + ins + suf).flatten());
        let i0 = side_items(g0, DiffTag::Insert);
        let i1 = side_items(g1, DiffTag::Insert);
        let i2 = side_items(g2, DiffTag::Insert);
        let i3 = side_items(g3, DiffTag::Insert);
        vstd::seq_lib::lemma_flatten_concat(i0 + i1 + i2, i3);
        vstd::seq_lib::lemma_flatten_concat(i0 + i1, i2);
        vstd::seq_lib::lemma_flatten_concat(i0, i1);
        vstd::seq_lib::lemma_flatten_concat(pre + del, suf);
        vstd::seq_lib::lemma_flatten_concat(pre, del);
        assert(side_items(g0 + g1 + g2 + g3, DiffTag::Insert).flatten() =~= (pre + del + suf).flatten());
    }
}

/// A diff shows both values: the pieces that are not deletions are the
/// items of the actual value, and the pieces that are not insertions are
/// those of the expected value. For a string diff (`join`), the pieces put
/// together give back the two strings.
pub proof fn law_diff_shows_both(a: Seq<Seq<char>>, e: Seq<Seq<char>>)
    ensures
        side_items(crate::matcher::diff_pieces(a, e, false), crate::format::DiffTag::Delete) == a,
        side_items(crate::matcher::diff_pieces(a, e, false), crate::format::DiffTag::Insert) == e,
        side_items(crate::matcher::diff_pieces(a, e, true), crate::format::DiffTag::Delete).flatten() == a.flatten(),
        side_items(crate::matcher::diff_pieces(a, e, true), crate::format::DiffTag::Insert).flatten() == e.flatten(),
{
    lemma_prefix_equal(a, e);
    let p = common_prefix_len(a, e);
    lemma_suffix_equal(a, e, p);
    lemma_suffix_bound(a, e, p);
    let s = common_suffix_len(a, e, p);
    let pre = a.take(p as int);
    let del = e.subrange(p as int, e.len() - s);
    let ins = a.subrange(p as int, a.len() - s);
    let suf = a.skip(a.len() - s);
    assert(pre + ins + suf =~= a);
    assert(e.take(p as int) + del + e.skip(e.len() - s) =~= e);
    lemma_sides(pre, del, ins, suf, false);
    lemma_sides(pre, del, ins, suf, true);
}


/// `every(m)` on a list expected to fail succeeds exactly when `m` fails on
/// at least one element (when `m` errs on none of them).
pub proof fn law_every_negated(e: Matcher, m: Matcher, xs: Seq<Val>)
    requires
        e.kind == MatchKind::Every(Box::new(m)),
        !e.negated,
        no_element_errors(m, xs, false),
    ensures
        eval(e, Val::List(xs), false) is Success <==> exists|i: int| 0 <= i < xs.len() && #[trigger] eval(m, xs[i], false) is Success,
{
    lemma_every_tally(m, xs, false);
    assert(kind_eval(e.kind, Val::List(xs), false) == kind_eval(MatchKind::Every(Box::new(m)), Val::List(xs), false));
    if let Tally::Done(results, _) = every_tally(m, xs, false) {
        if any_ok(results) {
            let i = choose|i: int| 0 <= i < results.len() && (#[trigger] results[i]) is None;
            assert(eval(m, xs[i], false) is Success);
        }
        if exists|i: int| 0 <= i < xs.len() && #[trigger] eval(m, xs[i], false) is Success {
            let i = choose|i: int| 0 <= i < xs.len() && #[trigger] eval(m, xs[i], false) is Success;
            assert(results[i] is None);
        }
    }
}

/// The number of elements that `match_elements` tests: as many as the
/// shorter of the two lists has.
pub open spec fn paired(ms: Seq<Matcher>, xs: Seq<Val>) -> int {
    if ms.len() <= xs.len() { ms.len() as int } else { xs.len() as int }
}

/// No matcher errs on the element at its index.
pub open spec fn no_pair_errors(ms: Seq<Matcher>, xs: Seq<Val>, pos: bool) -> bool {
    forall|i: int| 0 <= i < paired(ms, xs) ==> !(eval(#[trigger] ms[i], xs[i], pos) is Error)
}

/// The values that the matchers of `match_elements` handed on, in order.
pub open spec fn paired_outs(ms: Seq<Matcher>, xs: Seq<Val>, pos: bool) -> Seq<Val> {
    Seq::new(paired(ms, xs) as nat, |i: int| eval(ms[i], xs[i], pos)->Success_0)
}

proof fn lemma_elements_tally(ms: Seq<Matcher>, xs: Seq<Val>, pos: bool)
    requires
        no_pair_errors(ms, xs, pos),
    ensures
        crate::matcher::elements_tally(ms, xs, pos) matches Tally::Done(results, outs) && results.len() == paired(ms, xs)
            && (forall|i: int| 0 <= i < paired(ms, xs) ==> ((#[trigger] results[i]) is None <==> eval(ms[i], xs[i], pos) is Success))
            && (all_ok(results) ==> outs == paired_outs(ms, xs, pos)),
    decreases ms.len(),
{
    if ms.len() > xs.len() {
        let t = ms.take(xs.len() as int);
        assert forall|i: int| 0 <= i < paired(t, xs) implies !(eval(#[trigger] t[i], xs[i], pos) is Error) by {
            assert(t[i] == ms[i]);
        }
        lemma_elements_tally(t, xs, pos);
        assert forall|i: int| 0 <= i < paired(ms, xs) implies t[i] == ms[i] by {}
        assert(paired_outs(t, xs, pos) =~= paired_outs(ms, xs, pos));
    } else if ms.len() > 0 {
        let init = ms.drop_last();
        let n = ms.len() - 1;
        assert forall|i: int| 0 <= i < paired(init, xs) implies !(eval(#[trigger] init[i], xs[i], pos) is Error) by {
            assert(init[i] == ms[i]);
        }
        lemma_elements_tally(init, xs, pos);
        assert(!(eval(ms[n], xs[n], pos) is Error));
        assert forall|i: int| 0 <= i < paired(init, xs) implies init[i] == ms[i] by {}
        if let Tally::Done(results, outs) = crate::matcher::elements_tally(ms, xs, pos) {
            if all_ok(results) {
                if let Tally::Done(r0, o0) = crate::matcher::elements_tally(init, xs, pos) {
                    assert(all_ok(r0)) by {
                        assert forall|i: int| 0 <= i < r0.len() implies (#[trigger] r0[i]) is None by {
                            assert(r0[i] == results[i]);
                        }
                    }
                    assert(results[n] is None);
                    assert(eval(ms[n], xs[n], pos) is Success);
                    assert(outs == o0.push(eval(ms[n], xs[n], pos)->Success_0));
                    assert(outs =~= paired_outs(ms, xs, pos));
                }
            }
        }
    } else {
        assert(paired_outs(ms, xs, pos) =~= Seq::<Val>::empty());
    }
}

/// The index of the first pair below `paired(ms, xs)` whose matcher errs on
/// its element gives `err`, and no earlier pair errs.
pub open spec fn first_pair_error(ms: Seq<Matcher>, xs: Seq<Val>, pos: bool, i: int, err: Seq<char>) -> bool {
    &&& 0 <= i < paired(ms, xs)
    &&& eval(ms[i], xs[i], pos) == Outcome::Error(err)
    &&& forall|j: int| 0 <= j < i ==> !(eval(#[trigger] ms[j], xs[j], pos) is Error)
}

#[verifier::spinoff_prover]
#[verifier::rlimit(50)]
/// An error of `match_elements` is that of the first pair whose matcher errs.
pub open spec fn error_is_first_pair(o: Outcome, ms: Seq<Matcher>, xs: Seq<Val>, pos: bool) -> bool {
    match o {
        Outcome::Error(err) => exists|i: int| first_pair_error(ms, xs, pos, i, err),
        _ => true,
    }
}

proof fn lemma_elements_tally_errors(ms: Seq<Matcher>, xs: Seq<Val>, pos: bool)
    ensures
        crate::matcher::elements_tally(ms, xs, pos) is Error <==> !no_pair_errors(ms, xs, pos),
        match crate::matcher::elements_tally(ms, xs, pos) {
            Tally::Error(err) => error_is_first_pair(Outcome::Error(err), ms, xs, pos),
            _ => true,
        },
    decreases ms.len(),
{
    let t = crate::matcher::elements_tally(ms, xs, pos);
    if ms.len() == 0 {
    } else if ms.len() > xs.len() {
        let tk = ms.take(xs.len() as int);
        lemma_elements_tally_errors(tk, xs, pos);
        assert(t == crate::matcher::elements_tally(tk, xs, pos));
        assert(paired(tk, xs) == paired(ms, xs));
        assert forall|i: int| 0 <= i < paired(ms, xs) implies tk[i] == ms[i] by {}
        if !no_pair_errors(ms, xs, pos) {
            let i = choose|i: int| 0 <= i < paired(ms, xs) && eval(#[trigger] ms[i], xs[i], pos) is Error;
            assert(eval(tk[i], xs[i], pos) is Error);
        }
        if !no_pair_errors(tk, xs, pos) {
            let i = choose|i: int| 0 <= i < paired(tk, xs) && eval(#[trigger] tk[i], xs[i], pos) is Error;
            assert(eval(ms[i], xs[i], pos) is Error);
        }
        if let Tally::Error(err) = t {
            let i = choose|i: int| first_pair_error(tk, xs, pos, i, err);
            assert forall|j: int| 0 <= j < i implies !(eval(#[trigger] ms[j], xs[j], pos) is Error) by {
                assert(tk[j] == ms[j]);
                assert(!(eval(tk[j], xs[j], pos) is Error));
            }
            assert(first_pair_error(ms, xs, pos, i, err));
        }
    } else {
        let init = ms.drop_last();
        let n = ms.len() - 1;
        lemma_elements_tally_errors(init, xs, pos);
        assert(paired(init, xs) == n);
        assert(paired(ms, xs) == ms.len());
        assert forall|i: int| 0 <= i < n implies init[i] == ms[i] by {}
        let prev = crate::matcher::elements_tally(init, xs, pos);
        let last = eval(ms[n], xs[n], pos);
        assert(t == tally_push(prev, last));
        if let Tally::Error(err) = prev {
            let i = choose|i: int| first_pair_error(init, xs, pos, i, err);
            assert forall|j: int| 0 <= j < i implies !(eval(#[trigger] ms[j], xs[j], pos) is Error) by {
                assert(init[j] == ms[j]);
                assert(!(eval(init[j], xs[j], pos) is Error));
            }
            assert(first_pair_error(ms, xs, pos, i, err));
            assert(!no_pair_errors(ms, xs, pos));
        } else {
            assert(no_pair_errors(init, xs, pos));
            assert forall|j: int| 0 <= j < n implies !(eval(#[trigger] ms[j], xs[j], pos) is Error) by {
                assert(init[j] == ms[j]);
                assert(!(eval(init[j], xs[j], pos) is Error));
            }
            if let Outcome::Error(err) = last {
                assert(first_pair_error(ms, xs, pos, n, err));
                assert(!no_pair_errors(ms, xs, pos));
            } else {
                assert forall|j: int| 0 <= j < paired(ms, xs) implies !(eval(#[trigger] ms[j], xs[j], pos) is Error) by {
                    if j < n {
                    }
                }
            }
        }
    }
}

/// `match_elements(ms)` on a list expected to succeed runs matcher `i` on
/// element `i` for the indices both lists have, and neither list's extra
/// items count: it errs exactly when one of those matchers errs, with the
/// error of the first one that does, and otherwise succeeds exactly when each
/// of them succeeds, handing on what each handed on.
#[verifier::spinoff_prover]
pub proof fn law_match_elements(e: Matcher, ms: Seq<Matcher>, xs: Seq<Val>)
    requires
        e.kind matches MatchKind::Elements(x) && x@ == ms,
        !e.negated,
    ensures
        eval(e, Val::List(xs), true) is Error <==> !no_pair_errors(ms, xs, true),
        error_is_first_pair(eval(e, Val::List(xs), true), ms, xs, true),
        no_pair_errors(ms, xs, true) ==> (eval(e, Val::List(xs), true) is Success <==> forall|i: int|
            0 <= i < paired(ms, xs) ==> #[trigger] eval(ms[i], xs[i], true) is Success),
        eval(e, Val::List(xs), true) is Success ==> eval(e, Val::List(xs), true) == Outcome::Success(
            Val::List(paired_outs(ms, xs, true)),
        ),
{
    lemma_elements_tally_errors(ms, xs, true);
    let x = e.kind->Elements_0;
    assert(kind_eval(e.kind, Val::List(xs), true) == kind_eval(MatchKind::Elements(x), Val::List(xs), true));
    let t = crate::matcher::elements_tally(ms, xs, true);
    assert(kind_eval(e.kind, Val::List(xs), true) == crate::matcher::list_step(t, true));
    if let Tally::Error(err) = t {
        assert(eval(e, Val::List(xs), true) == Outcome::Error(err));
    }
    if no_pair_errors(ms, xs, true) {
        lemma_elements_tally(ms, xs, true);
        if let Tally::Done(results, outs) = crate::matcher::elements_tally(ms, xs, true) {
            if all_ok(results) {
                assert forall|i: int| 0 <= i < paired(ms, xs) implies #[trigger] eval(ms[i], xs[i], true) is Success by {
                    assert(results[i] is None);
                }
            }
            if forall|i: int| 0 <= i < paired(ms, xs) ==> #[trigger] eval(ms[i], xs[i], true) is Success {
                assert forall|i: int| 0 <= i < results.len() implies (#[trigger] results[i]) is None by {
                    assert(eval(ms[i], xs[i], true) is Success);
                }
            }
        }
    }
}

/// `why(m, reason)` succeeds and errs exactly as `m` does; its failure is
/// the reason after `[why] ` on a line of its own, then the failure of `m`.
pub proof fn law_why(w: Matcher, m: Matcher, v: Val, pos: bool)
    requires
        w.kind == MatchKind::Wrapped(Box::new(m)),
        !w.negated,
        w.format is Why,
    ensures
        match (eval(w, v, pos), eval(m, v, pos)) {
            (Outcome::Success(a), Outcome::Success(b)) => a == b,
            (Outcome::Error(a), Outcome::Error(b)) => a == b,
            (Outcome::Fail(a), Outcome::Fail(b)) => text_of(a) == crate::style::WHY_SYMBOL@ + " "@
                + w.format->Why_0.reason() + "\n"@ + text_of(b),
            _ => false,
        },
{
    match eval(m, v, pos) {
        Outcome::Fail(out) => {
            let f = fresh(plain());
            let m1 = crate::formatter::fm_style(f, crate::style::styled(0, Option::Some(crate::style::Color::Cyan)));
            let m2 = crate::formatter::fm_write(m1, crate::style::WHY_SYMBOL@);
            let m3 = crate::formatter::fm_write(m2, " "@);
            let m4 = crate::formatter::fm_write(m3, w.format->Why_0.reason());
            let m5 = crate::formatter::fm_style(m4, plain());
            let m6 = crate::formatter::fm_write(m5, "\n"@);
            assert(f.drop_last() =~= Seq::<Seg>::empty());
            assert(text_of(f.drop_last()) =~= Seq::<char>::empty());
            assert(f.last().0 =~= Seq::<char>::empty());
            assert(text_of(f) =~= Seq::<char>::empty());
            crate::formatter::lemma_text_style(f, crate::style::styled(0, Option::Some(crate::style::Color::Cyan)));
            crate::formatter::lemma_text_write(m1, crate::style::WHY_SYMBOL@);
            crate::formatter::lemma_text_write(m2, " "@);
            crate::formatter::lemma_text_write(m3, w.format->Why_0.reason());
            crate::formatter::lemma_text_style(m4, plain());
            crate::formatter::lemma_text_write(m5, "\n"@);
            crate::formatter::lemma_text_output(m6, out);
            let d = crate::result::MatchFailure::Pos(FailView::Failure(out));
            let dn = crate::result::MatchFailure::Neg(FailView::Failure(out));
            assert(crate::format::formatted(w.format, d) == fm_output(m6, out));
            assert(crate::format::formatted(w.format, dn) == fm_output(m6, out));
            assert(Seq::<char>::empty() + crate::style::WHY_SYMBOL@ + " "@ + w.format->Why_0.reason() + "\n"@ + text_of(out)
                =~= crate::style::WHY_SYMBOL@ + " "@ + w.format->Why_0.reason() + "\n"@ + text_of(out));
        },
        _ => {},
    }
}

/// The value of the field that `spec` names in the struct `fs`.
pub open spec fn field_of(fs: Seq<(Seq<char>, Val)>, spec: FieldSpec) -> Val {
    find_field(fs, spec.name@)->Some_0
}

/// Every field named is in the struct, and no matcher errs on its field.
pub open spec fn fields_found(specs: Seq<FieldSpec>, fs: Seq<(Seq<char>, Val)>, pos: bool) -> bool {
    forall|i: int| 0 <= i < specs.len() ==> find_field(fs, (#[trigger] specs[i]).name@) is Some
        && !(eval(specs[i].matcher, field_of(fs, specs[i]), pos) is Error)
}

proof fn lemma_fields_tally(specs: Seq<FieldSpec>, fs: Seq<(Seq<char>, Val)>, pos: bool)
    requires
        fields_found(specs, fs, pos),
    ensures
        fields_tally(specs, fs, pos) matches Tally::Done(results, _) && results.len() == specs.len()
            && forall|i: int| 0 <= i < specs.len() ==> ((#[trigger] results[i]) is None <==> eval(
                specs[i].matcher,
                field_of(fs, specs[i]),
                pos,
            ) is Success),
    decreases specs.len(),
{
    if specs.len() > 0 {
        let init = specs.drop_last();
        assert forall|i: int| 0 <= i < init.len() implies find_field(fs, (#[trigger] init[i]).name@) is Some
            && !(eval(init[i].matcher, field_of(fs, init[i]), pos) is Error) by {
            assert(init[i] == specs[i]);
        }
        lemma_fields_tally(init, fs, pos);
        let last = specs[specs.len() - 1];
        assert(find_field(fs, last.name@) is Some);
        assert(!(eval(last.matcher, field_of(fs, last), pos) is Error));
        assert forall|i: int| 0 <= i < init.len() implies init[i] == specs[i] by {}
    }
}

/// `match_fields(spec)` on a struct expected to succeed succeeds exactly
/// when each field named succeeds on its value, and `match_any_fields(spec)`
/// exactly when one of them does (when every field named is there and no
/// matcher errs): the fields left out do not count.
pub proof fn law_match_fields(e: Matcher, specs: Seq<FieldSpec>, name: Seq<char>, fs: Seq<(Seq<char>, Val)>)
    requires
        e.kind matches MatchKind::Fields(_, x) && x@ == specs,
        !e.negated,
        fields_found(specs, fs, true),
    ensures
        e.kind->Fields_0 == CombinatorMode::All ==> (eval(e, Val::Record(name, fs), true) is Success
            <==> forall|i: int| 0 <= i < specs.len() ==> eval((#[trigger] specs[i]).matcher, field_of(fs, specs[i]), true) is Success),
        e.kind->Fields_0 == CombinatorMode::Any ==> (eval(e, Val::Record(name, fs), true) is Success
            <==> exists|i: int| 0 <= i < specs.len() && eval((#[trigger] specs[i]).matcher, field_of(fs, specs[i]), true) is Success),
        eval(e, Val::Record(name, fs), true) is Success ==> eval(e, Val::Record(name, fs), true) == Outcome::Success(Val::Unit),
{
    lemma_fields_tally(specs, fs, true);
    let mode = e.kind->Fields_0;
    let x = e.kind->Fields_1;
    let v = Val::Record(name, fs);
    assert(kind_eval(e.kind, v, true) == kind_eval(MatchKind::Fields(mode, x), v, true));
    if let Tally::Done(results, _) = fields_tally(specs, fs, true) {
        if mode == CombinatorMode::All {
            if all_ok(results) {
                assert forall|i: int| 0 <= i < specs.len() implies eval((#[trigger] specs[i]).matcher, field_of(fs, specs[i]), true) is Success by {
                    assert(results[i] is None);
                }
            }
            if forall|i: int| 0 <= i < specs.len() ==> eval((#[trigger] specs[i]).matcher, field_of(fs, specs[i]), true) is Success {
                assert forall|i: int| 0 <= i < results.len() implies (#[trigger] results[i]) is None by {
                    assert(eval(specs[i].matcher, field_of(fs, specs[i]), true) is Success);
                }
            }
        } else {
            if any_ok(results) {
                let i = choose|i: int| 0 <= i < results.len() && (#[trigger] results[i]) is None;
                assert(eval(specs[i].matcher, field_of(fs, specs[i]), true) is Success);
            }
            if exists|i: int| 0 <= i < specs.len() && eval((#[trigger] specs[i]).matcher, field_of(fs, specs[i]), true) is Success {
                let i = choose|i: int| 0 <= i < specs.len() && eval((#[trigger] specs[i]).matcher, field_of(fs, specs[i]), true) is Success;
                assert(results[i] is None);
            }
        }
    }
}

/// Two outcomes of one matcher on one value, the first for one side and the
/// second for the other: the same error, or one succeeds and the other fails.
pub open spec fn opposite(a: Outcome, b: Outcome) -> bool {
    match (a, b) {
        (Outcome::Error(x), Outcome::Error(y)) => x == y,
        (Outcome::Success(_), Outcome::Fail(_)) => true,
        (Outcome::Fail(_), Outcome::Success(_)) => true,
        _ => false,
    }
}

/// [`opposite`], for what a test gives before its failure is formatted.
pub open spec fn opposite_steps(a: Step, b: Step) -> bool {
    match (a, b) {
        (Step::Error(x), Step::Error(y)) => x == y,
        (Step::Success(_), Step::Fail(_)) => true,
        (Step::Fail(_), Step::Success(_)) => true,
        _ => false,
    }
}

/// Each succeeded where the other failed.
pub open spec fn opposite_results(r: Seq<Option<Seq<Seg>>>, s: Seq<Option<Seq<Seg>>>) -> bool {
    r.len() == s.len() && forall|i: int| 0 <= i < r.len() ==> ((#[trigger] r[i]) is None <==> s[i] is Some)
}

/// [`opposite`], for two tallies: the same error, or opposite results.
pub open spec fn opposite_tallies(a: Tally, b: Tally) -> bool {
    match (a, b) {
        (Tally::Error(x), Tally::Error(y)) => x == y,
        (Tally::Done(r, _), Tally::Done(s, _)) => opposite_results(r, s),
        _ => false,
    }
}

proof fn lemma_push_opposite(t1: Tally, t2: Tally, o1: Outcome, o2: Outcome)
    requires
        opposite_tallies(t1, t2),
        opposite(o1, o2),
    ensures
        opposite_tallies(tally_push(t1, o1), tally_push(t2, o2)),
{
    if let (Tally::Done(r, _), Tally::Done(s, _)) = (t1, t2) {
        if let (Tally::Done(r1, _), Tally::Done(s1, _)) = (tally_push(t1, o1), tally_push(t2, o2)) {
            assert forall|i: int| 0 <= i < r1.len() implies ((#[trigger] r1[i]) is None <==> s1[i] is Some) by {
                if i < r.len() {
                    assert(r1[i] == r[i] && s1[i] == s[i]);
                }
            }
        }
    }
}

proof fn lemma_mode_opposite(mode: CombinatorMode, p: bool, r: Seq<Option<Seq<Seg>>>, s: Seq<Option<Seq<Seg>>>)
    requires
        opposite_results(r, s),
    ensures
        mode_ok(mode, p, r) == !mode_ok(mode, !p, s),
{
    assert(all_ok(r) <==> !any_ok(s)) by {
        if all_ok(r) && any_ok(s) {
            let i = choose|i: int| 0 <= i < s.len() && (#[trigger] s[i]) is None;
            assert(r[i] is None);
        }
        if !all_ok(r) {
            let i = choose|i: int| 0 <= i < r.len() && !((#[trigger] r[i]) is None);
            assert(s[i] is None);
        }
    }
    assert(any_ok(r) <==> !all_ok(s)) by {
        if any_ok(r) && all_ok(s) {
            let i = choose|i: int| 0 <= i < r.len() && (#[trigger] r[i]) is None;
            assert(s[i] is None);
        }
        if !all_ok(s) {
            let i = choose|i: int| 0 <= i < s.len() && !((#[trigger] s[i]) is None);
            assert(r[i] is None);
        }
    }
}

proof fn lemma_eval_opposite(m: Matcher, v: Val, p: bool)
    ensures
        opposite(eval(m, v, p), eval(m, v, !p)),
    decreases m, 0nat,
{
    lemma_kind_opposite(m.kind, v, p != m.negated);
    assert((!p != m.negated) == !(p != m.negated));
}

proof fn lemma_kind_opposite(k: MatchKind, v: Val, p: bool)
    ensures
        opposite_steps(kind_eval(k, v, p), kind_eval(k, v, !p)),
    decreases k, 0nat,
{
    match k {
        MatchKind::Not(b) => {
            lemma_eval_opposite(*b, v, !p);
        },
        MatchKind::Wrapped(b) => {
            lemma_eval_opposite(*b, v, p);
        },
        MatchKind::All(_) => {},
        MatchKind::Combinator(mode, ms) => {
            lemma_combinator_opposite(ms@, v, p);
            if let (Tally::Done(r, _), Tally::Done(s, _)) = (combinator_tally(ms@, v, p), combinator_tally(ms@, v, !p)) {
                lemma_mode_opposite(mode, p, r, s);
            }
        },
        MatchKind::Every(b) => {
            if let Val::List(xs) = v {
                lemma_every_opposite(*b, xs, p);
                if let (Tally::Done(r, _), Tally::Done(s, _)) = (every_tally(*b, xs, p), every_tally(*b, xs, !p)) {
                    lemma_mode_opposite(CombinatorMode::All, p, r, s);
                }
            }
        },
        MatchKind::Elements(ms) => {
            if let Val::List(xs) = v {
                lemma_elements_opposite(ms@, xs, p);
                if let (Tally::Done(r, _), Tally::Done(s, _)) = (
                    crate::matcher::elements_tally(ms@, xs, p),
                    crate::matcher::elements_tally(ms@, xs, !p),
                ) {
                    lemma_mode_opposite(CombinatorMode::All, p, r, s);
                }
            }
        },
        MatchKind::Fields(mode, specs) => {
            if let Val::Record(_, fs) = v {
                lemma_fields_opposite(specs@, fs, p);
                if let (Tally::Done(r, _), Tally::Done(s, _)) = (fields_tally(specs@, fs, p), fields_tally(specs@, fs, !p)) {
                    lemma_mode_opposite(mode, p, r, s);
                }
            }
        },
        _ => {},
    }
}

proof fn lemma_combinator_opposite(ms: Seq<Matcher>, v: Val, p: bool)
    ensures
        opposite_tallies(combinator_tally(ms, v, p), combinator_tally(ms, v, !p)),
    decreases ms, 0nat,
{
    if ms.len() > 0 {
        lemma_combinator_opposite(ms.drop_last(), v, p);
        lemma_eval_opposite(ms.last(), v, p);
        lemma_push_opposite(
            combinator_tally(ms.drop_last(), v, p),
            combinator_tally(ms.drop_last(), v, !p),
            eval(ms.last(), v, p),
            eval(ms.last(), v, !p),
        );
    }
}

proof fn lemma_every_opposite(m: Matcher, xs: Seq<Val>, p: bool)
    ensures
        opposite_tallies(every_tally(m, xs, p), every_tally(m, xs, !p)),
    decreases m, xs.len(),
{
    if xs.len() > 0 {
        lemma_every_opposite(m, xs.drop_last(), p);
        lemma_eval_opposite(m, xs.last(), p);
        lemma_push_opposite(
            every_tally(m, xs.drop_last(), p),
            every_tally(m, xs.drop_last(), !p),
            eval(m, xs.last(), p),
            eval(m, xs.last(), !p),
        );
    }
}

proof fn lemma_elements_opposite(ms: Seq<Matcher>, xs: Seq<Val>, p: bool)
    ensures
        opposite_tallies(crate::matcher::elements_tally(ms, xs, p), crate::matcher::elements_tally(ms, xs, !p)),
    decreases ms, 0nat,
{
    if ms.len() == 0 {
    } else if ms.len() > xs.len() {
        lemma_elements_opposite(ms.take(xs.len() as int), xs, p);
    } else {
        lemma_elements_opposite(ms.drop_last(), xs, p);
        lemma_eval_opposite(ms.last(), xs[ms.len() - 1], p);
        lemma_push_opposite(
            crate::matcher::elements_tally(ms.drop_last(), xs, p),
            crate::matcher::elements_tally(ms.drop_last(), xs, !p),
            eval(ms.last(), xs[ms.len() - 1], p),
            eval(ms.last(), xs[ms.len() - 1], !p),
        );
    }
}

proof fn lemma_fields_opposite(specs: Seq<FieldSpec>, fs: Seq<(Seq<char>, Val)>, p: bool)
    ensures
        opposite_tallies(fields_tally(specs, fs, p), fields_tally(specs, fs, !p)),
    decreases specs, 0nat,
{
    if specs.len() > 0 {
        lemma_fields_opposite(specs.drop_last(), fs, p);
        if let Option::Some(x) = find_field(fs, specs.last().name@) {
            lemma_eval_opposite(specs.last().matcher, x, p);
            lemma_push_opposite(
                fields_tally(specs.drop_last(), fs, p),
                fields_tally(specs.drop_last(), fs, !p),
                eval(specs.last().matcher, x, p),
                eval(specs.last().matcher, x, !p),
            );
        }
    }
}

/// `to_not(m)` is `to(m)` turned round: on any value, it succeeds exactly
/// when `to(m)` fails and fails exactly when `to(m)` succeeds, and when one
/// of them errs the other gives the same error.
pub proof fn law_to_not_is_opposite(m: Matcher, v: Val)
    ensures
        eval(m, v, true) is Success <==> eval(m, v, false) is Fail,
        eval(m, v, true) is Fail <==> eval(m, v, false) is Success,
        eval(m, v, true) is Error <==> eval(m, v, false) is Error,
        eval(m, v, true) is Error ==> eval(m, v, true) == eval(m, v, false),
{
    lemma_eval_opposite(m, v, true);
}

/// A simple test (one that hands on the value it tested) hands on that value
/// unchanged whenever it succeeds.
proof fn lemma_simple_hands_on(k: MatchKind, v: Val, p: bool)
    requires
        crate::matchers::is_simple(k),
    ensures
        kind_eval(k, v, p) is Success ==> kind_eval(k, v, p) == Step::Success(v),
{
}

/// A matcher made by `Matcher::simple_neg` is the one made by
/// `Matcher::simple` from the same test with its success turned round: on
/// any value and for either side, it succeeds (handing the value on
/// unchanged) exactly when the other fails, fails exactly when the other
/// succeeds, and errs with the same error exactly when the other errs.
pub proof fn law_simple_neg_flips(n: Matcher, p: Matcher, v: Val, pos: bool)
    requires
        crate::matchers::is_simple(n.kind),
        n.kind == p.kind,
        n.negated,
        !p.negated,
    ensures
        eval(n, v, pos) is Success <==> eval(p, v, pos) is Fail,
        eval(n, v, pos) is Fail <==> eval(p, v, pos) is Success,
        eval(n, v, pos) is Error <==> eval(p, v, pos) is Error,
        eval(n, v, pos) is Error ==> eval(n, v, pos) == eval(p, v, pos),
        eval(n, v, pos) is Success ==> eval(n, v, pos) == Outcome::Success(v),
{
    lemma_kind_opposite(n.kind, v, pos);
    lemma_simple_hands_on(n.kind, v, !pos);
    assert((pos != n.negated) == !pos);
}

} // verus!
