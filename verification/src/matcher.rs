//! Matchers: what each one decides about a value, what it hands on when it
//! succeeds, and what its formatter writes when it fails.

use vstd::prelude::*;
use crate::format::{formatted, FailFormat, FailView};
use crate::formatter::Seg;
use crate::foreign::{casefold_equal, json_compare, regex_search, str_lowercase};
use crate::result::MatchFailure;
use crate::value::{default_of, holds, len_of, model_seq, order, Val, Value};

verus! {

/// Which inequality an ordering matcher tests.
#[derive(Debug, Clone, Copy, PartialEq, Eq, Structural)]
pub enum Inequality {
    /// `actual > expected`.
    Greater,
    /// `actual >= expected`.
    GreaterOrEqual,
    /// `actual < expected`.
    Less,
    /// `actual <= expected`.
    LessOrEqual,
}

/// The order a sortedness matcher expects.
#[derive(Debug, Clone, Copy, PartialEq, Eq, Structural)]
pub enum SortOrder {
    /// Each element is at most the next one.
    Asc,
    /// Each element is at least the next one.
    Desc,
}

/// What elements are compared by when testing that a list is sorted.
#[derive(Debug, Clone, Copy, PartialEq, Eq, Structural)]
pub enum SortKey {
    /// The elements themselves.
    Natural,
    /// The lowercase forms of strings (other elements as they are).
    Lowercase,
}

/// Whether a combinator needs all of its matchers to succeed, or one.
#[derive(Debug, Clone, Copy, PartialEq, Eq, Structural)]
pub enum CombinatorMode {
    /// All of them.
    All,
    /// At least one of them.
    Any,
}

/// What a file matcher expects of a path.
#[derive(Debug, Clone, Copy, PartialEq, Eq, Structural)]
pub enum FileExistsMode {
    /// That something exists there.
    Exists,
    /// That a regular file exists there.
    RegularFile,
    /// That a directory exists there.
    Directory,
    /// That a symbolic link exists there.
    Symlink,
}

/// The field of a path's state that a file matcher reads.
pub open spec fn file_flag_name(mode: FileExistsMode) -> Seq<char> {
    match mode {
        FileExistsMode::Exists => "exists"@,
        FileExistsMode::RegularFile => "is_file"@,
        FileExistsMode::Directory => "is_dir"@,
        FileExistsMode::Symlink => "is_symlink"@,
    }
}

/// What a matcher tests.
#[derive(Debug)]
pub enum MatchKind {
    /// The value equals this one.
    Equal(Value),
    /// The value equals this one; a failure shows a diff.
    EqDiff(Value),
    /// The value compares with this one as the inequality says.
    Ord(Value, Inequality),
    /// The value is `true`.
    BeTrue,
    /// The value is the default value of its type.
    BeDefault,
    /// The value (a collection) holds each of these elements.
    ContainElements(Vec<Value>),
    /// The value (a list) holds exactly these elements, in any order.
    ConsistOf(Vec<Value>),
    /// This collection holds the value.
    BeIn(Value),
    /// The value has this length.
    HaveLen(usize),
    /// The value has length zero.
    BeEmpty,
    /// The value is `Some`; the matcher hands on what it holds.
    BeSome,
    /// The value is `Ok`; the matcher hands on what it holds.
    BeOk,
    /// The value (a string) contains this substring.
    ContainSubstr(String),
    /// The value (a string) equals this one up to case.
    EqCasefold(String),
    /// The value (a string) matches this regular expression.
    MatchRegex(String),
    /// The value (a JSON document) is the same JSON value as this one.
    MatchJson(String),
    /// The value (a list) is sorted in this order.
    BeSorted(SortOrder),
    /// The value (a list) is sorted in ascending order of this key.
    BeSortedBy(SortKey),
    /// The value (a time) is at most the second number of nanoseconds away
    /// from the first.
    ApproxEqTime(u128, u128),
    /// The value (the observed state of a path: a struct with a string field
    /// `path` and boolean fields `exists`, `is_file`, `is_dir` and
    /// `is_symlink`) has what the mode expects.
    FileExists(FileExistsMode),
    /// The matcher fails.
    Not(Box<Matcher>),
    /// Each matcher succeeds on what the one before handed on.
    All(Vec<Matcher>),
    /// All of the matchers (or one of them) succeed on the value.
    Combinator(CombinatorMode, Vec<Matcher>),
    /// The matcher succeeds on every element of the value (a list).
    Every(Box<Matcher>),
    /// Each matcher succeeds on the element of the value (a list) at its index.
    Elements(Vec<Matcher>),
    /// The matchers of all the fields (or of one) succeed on the value (a struct).
    Fields(CombinatorMode, Vec<FieldSpec>),
    /// The matcher succeeds; a failure is formatted once more.
    Wrapped(Box<Matcher>),
}

/// A matcher for one field of a struct.
#[derive(Debug)]
pub struct FieldSpec {
    /// The name of the field.
    pub name: String,
    /// The matcher of its value.
    pub matcher: Matcher,
}

/// A matcher: what it tests, whether the test is negated, and the formatter
/// of its failures.
#[derive(Debug)]
pub struct Matcher {
    /// What the matcher tests.
    pub kind: MatchKind,
    /// Whether it succeeds when the test fails.
    pub negated: bool,
    /// The formatter of its failures.
    pub format: FailFormat,
}

/// What a matcher gives: an error, a success with the value it hands on, or
/// a failure with its formatted output.
pub enum Outcome {
    Error(Seq<char>),
    Success(Val),
    Fail(Seq<Seg>),
}

/// What a test gives before its failure is formatted.
pub enum Step {
    Error(Seq<char>),
    Success(Val),
    Fail(FailView),
}

/// Errors of matchers handed a value of a kind they do not test.
pub open spec fn err_not_bool() -> Seq<char> {
    "the value is not a bool"@
}

pub open spec fn err_not_ordered() -> Seq<char> {
    "the values cannot be ordered"@
}

pub open spec fn err_no_default() -> Seq<char> {
    "the value's type has no default value"@
}

pub open spec fn err_not_collection() -> Seq<char> {
    "the collection cannot hold the element"@
}

pub open spec fn err_no_len() -> Seq<char> {
    "the value has no length"@
}

pub open spec fn err_not_option() -> Seq<char> {
    "the value is not an Option"@
}

pub open spec fn err_not_result() -> Seq<char> {
    "the value is not a Result"@
}

pub open spec fn err_not_string() -> Seq<char> {
    "the value is not a string"@
}

pub open spec fn err_not_list() -> Seq<char> {
    "the value is not a list"@
}

pub open spec fn err_not_diffable() -> Seq<char> {
    "the values cannot be diffed"@
}

pub open spec fn err_not_time() -> Seq<char> {
    "the value is not a time"@
}

pub open spec fn err_not_record() -> Seq<char> {
    "the value is not a struct"@
}

pub open spec fn err_no_field() -> Seq<char> {
    "the struct has no field of that name"@
}

pub open spec fn err_not_path() -> Seq<char> {
    "the value is not the state of a path"@
}

/// A test that passes its value on: it succeeds when the test's result is
/// the side expected.
pub open spec fn simple_step(result: bool, pos: bool, v: Val, data: FailView) -> Step {
    if result == pos {
        Step::Success(v)
    } else {
        Step::Fail(data)
    }
}

/// Whether the order `c` (`-1`, `0` or `1`) satisfies the inequality.
pub open spec fn inequality_holds(ineq: Inequality, c: int) -> bool {
    match ineq {
        Inequality::Greater => c > 0,
        Inequality::GreaterOrEqual => c >= 0,
        Inequality::Less => c < 0,
        Inequality::LessOrEqual => c <= 0,
    }
}

/// Whether `s` occurs in `t` at some index.
pub open spec fn is_substring(s: Seq<char>, t: Seq<char>) -> bool {
    exists|i: int| 0 <= i && i + s.len() <= t.len() && #[trigger] t.subrange(i, i + s.len()) == s
}

/// Whether every adjacent pair of `xs` is ordered (else `None`), and if so
/// whether the list is sorted in `order`.
pub open spec fn sorted(xs: Seq<Val>, sort: SortOrder) -> Option<bool> {
    if exists|i: int| 0 <= i < xs.len() - 1 && (#[trigger] order(xs[i], xs[i + 1])) is None {
        Option::None
    } else {
        Option::Some(
            forall|i: int|
                0 <= i < xs.len() - 1 ==> match sort {
                    SortOrder::Asc => (#[trigger] order(xs[i], xs[i + 1]))->Some_0 <= 0,
                    SortOrder::Desc => order(xs[i], xs[i + 1])->Some_0 >= 0,
                },
        )
    }
}

/// The key an element is sorted by.
pub open spec fn sort_key(x: Val, key: SortKey) -> Val {
    match (key, x) {
        (SortKey::Lowercase, Val::Str(s)) => Val::Str(str_lowercase(s)),
        _ => x,
    }
}

/// Whether a collection holds each element of `es`; `None` when the value
/// is no collection that could hold them.
pub open spec fn holds_all(c: Val, es: Seq<Val>) -> Option<bool> {
    if !(c is List || c is Str) || exists|i: int| 0 <= i < es.len() && (#[trigger] holds(c, es[i])) is None {
        Option::None
    } else {
        Option::Some(forall|i: int| 0 <= i < es.len() ==> #[trigger] holds(c, es[i]) == Option::Some(true))
    }
}

/// The distance between two times.
pub open spec fn time_distance(a: nat, b: nat) -> nat {
    if a >= b {
        (a - b) as nat
    } else {
        (b - a) as nat
    }
}

/// The pieces of a diff of strings: their common prefix, what only the
/// expected one has in between, what only the actual one has, and their
/// common suffix.
pub open spec fn common_prefix_len<T>(a: Seq<T>, b: Seq<T>) -> nat
    decreases a.len(),
{
    if a.len() == 0 || b.len() == 0 || a[0] != b[0] {
        0
    } else {
        1 + common_prefix_len(a.drop_first(), b.drop_first())
    }
}

/// The length of the longest common suffix of `a` and `b` that does not
/// reach into their first `p` items.
pub open spec fn common_suffix_len<T>(a: Seq<T>, b: Seq<T>, p: nat) -> nat
    decreases a.len(),
{
    if a.len() <= p || b.len() <= p || a.last() != b.last() {
        0
    } else {
        1 + common_suffix_len(a.drop_last(), b.drop_last(), p)
    }
}

/// A diff of two sequences of rendered items: the common prefix (equal),
/// the rest of the expected one (deleted), the rest of the actual one
/// (inserted), the common suffix (equal). Empty pieces are left out.
pub open spec fn diff_pieces(
    actual: Seq<Seq<char>>,
    expected: Seq<Seq<char>>,
    join: bool,
) -> Seq<(crate::format::DiffTag, Seq<char>)> {
    let p = common_prefix_len(actual, expected);
    let s = common_suffix_len(actual, expected, p);
    let pre = actual.take(p as int);
    let del = expected.subrange(p as int, expected.len() - s);
    let ins = actual.subrange(p as int, actual.len() - s);
    let suf = actual.skip(actual.len() - s);
    group(crate::format::DiffTag::Equal, pre, join) + group(crate::format::DiffTag::Delete, del, join)
        + group(crate::format::DiffTag::Insert, ins, join) + group(crate::format::DiffTag::Equal, suf, join)
}

/// Items with one tag: for a string diff (`join`) one piece of all of them
/// together, for a collection diff one piece per item; nothing for no items.
pub open spec fn group(tag: crate::format::DiffTag, items: Seq<Seq<char>>, join: bool) -> Seq<(crate::format::DiffTag, Seq<char>)> {
    if items.len() == 0 {
        seq![]
    } else if join {
        seq![(tag, items.flatten())]
    } else {
        items.map_values(|x: Seq<char>| (tag, x))
    }
}

/// The one-character strings of a string.
pub open spec fn chars_of(s: Seq<char>) -> Seq<Seq<char>> {
    s.map_values(|c: char| seq![c])
}

/// The diff between two values, when they can be diffed: strings by
/// character, lists by the debug representations of their elements.
pub open spec fn diff_of(actual: Val, expected: Val) -> Option<FailView> {
    match (actual, expected) {
        (Val::Str(a), Val::Str(e)) => Option::Some(
            FailView::Diff(crate::format::DiffKind::StringKind, diff_pieces(chars_of(a), chars_of(e), true)),
        ),
        (Val::List(a), Val::List(e)) => Option::Some(
            FailView::Diff(
                crate::format::DiffKind::SliceKind,
                diff_pieces(
                    a.map_values(|x: Val| crate::value::repr(x)),
                    e.map_values(|x: Val| crate::value::repr(x)),
                    false,
                ),
            ),
        ),
        _ => Option::None,
    }
}

/// What a test of kind `k` gives on `v`, testing for the side `pos`.
pub open spec fn leaf_step(k: MatchKind, v: Val, pos: bool) -> Step {
    match k {
        MatchKind::Equal(e) => simple_step(v == e@, pos, v, FailView::Mismatch(v, e@)),
        MatchKind::EqDiff(e) => match diff_of(v, e@) {
            Option::None => Step::Error(err_not_diffable()),
            Option::Some(d) => simple_step(v == e@, pos, v, d),
        },
        MatchKind::Ord(e, ineq) => match order(v, e@) {
            Option::None => Step::Error(err_not_ordered()),
            Option::Some(c) => simple_step(inequality_holds(ineq, c), pos, v, FailView::Mismatch(v, e@)),
        },
        MatchKind::BeTrue => match v {
            Val::Bool(b) => simple_step(b, pos, v, FailView::Nothing),
            _ => Step::Error(err_not_bool()),
        },
        MatchKind::BeDefault => match default_of(v) {
            Option::None => Step::Error(err_no_default()),
            Option::Some(d) => simple_step(v == d, pos, v, FailView::Mismatch(v, d)),
        },
        MatchKind::ContainElements(es) => match holds_all(v, model_seq(es@)) {
            Option::None => Step::Error(err_not_collection()),
            Option::Some(b) => simple_step(b, pos, v, FailView::Mismatch(v, Val::List(model_seq(es@)))),
        },
        MatchKind::ConsistOf(es) => match v {
            Val::List(xs) => simple_step(
                xs.to_multiset() == model_seq(es@).to_multiset(),
                pos,
                v,
                FailView::Mismatch(v, Val::List(model_seq(es@))),
            ),
            _ => Step::Error(err_not_list()),
        },
        MatchKind::BeIn(c) => match holds(c@, v) {
            Option::None => Step::Error(err_not_collection()),
            Option::Some(b) => simple_step(b, pos, v, FailView::Mismatch(v, c@)),
        },
        MatchKind::HaveLen(n) => match len_of(v) {
            Option::None => Step::Error(err_no_len()),
            Option::Some(l) => simple_step(
                l == n,
                pos,
                v,
                FailView::Mismatch(Val::Int(l as int), Val::Int(n as int)),
            ),
        },
        MatchKind::BeEmpty => match len_of(v) {
            Option::None => Step::Error(err_no_len()),
            Option::Some(l) => simple_step(l == 0, pos, v, FailView::Expectation(v)),
        },
        MatchKind::BeSome => match v {
            Val::Opt(o) => match o {
                Option::Some(x) => if pos {
                    Step::Success(*x)
                } else {
                    Step::Fail(FailView::Expectation(v))
                },
                Option::None => if pos {
                    Step::Fail(FailView::Expectation(v))
                } else {
                    Step::Success(v)
                },
            },
            _ => Step::Error(err_not_option()),
        },
        MatchKind::BeOk => match v {
            Val::Res(r) => match r {
                Result::Ok(x) => if pos {
                    Step::Success(*x)
                } else {
                    Step::Fail(FailView::Expectation(v))
                },
                Result::Err(x) => if pos {
                    Step::Fail(FailView::Expectation(v))
                } else {
                    Step::Success(*x)
                },
            },
            _ => Step::Error(err_not_result()),
        },
        MatchKind::ContainSubstr(s) => match v {
            Val::Str(t) => simple_step(is_substring(s@, t), pos, v, FailView::Mismatch(v, Val::Str(s@))),
            _ => Step::Error(err_not_string()),
        },
        MatchKind::EqCasefold(s) => match v {
            Val::Str(t) => simple_step(casefold_equal(t, s@), pos, v, FailView::Mismatch(v, Val::Str(s@))),
            _ => Step::Error(err_not_string()),
        },
        MatchKind::MatchRegex(p) => match v {
            Val::Str(t) => match regex_search(p@, t) {
                Result::Err(e) => Step::Error(e),
                Result::Ok(b) => simple_step(b, pos, v, FailView::Mismatch(v, Val::Str(p@))),
            },
            _ => Step::Error(err_not_string()),
        },
        MatchKind::MatchJson(j) => match v {
            Val::Str(t) => match json_compare(t, j@) {
                Result::Err(e) => Step::Error(e),
                Result::Ok(b) => simple_step(b, pos, v, FailView::Mismatch(v, Val::Str(j@))),
            },
            _ => Step::Error(err_not_string()),
        },
        MatchKind::BeSorted(sort) => match v {
            Val::List(xs) => match sorted(xs, sort) {
                Option::None => Step::Error(err_not_ordered()),
                Option::Some(b) => simple_step(b, pos, v, FailView::Nothing),
            },
            _ => Step::Error(err_not_list()),
        },
        MatchKind::BeSortedBy(key) => match v {
            Val::List(xs) => match sorted(xs.map_values(|x: Val| sort_key(x, key)), SortOrder::Asc) {
                Option::None => Step::Error(err_not_ordered()),
                Option::Some(b) => simple_step(b, pos, v, FailView::Nothing),
            },
            _ => Step::Error(err_not_list()),
        },
        MatchKind::ApproxEqTime(e, threshold) => match v {
            Val::Time(t) => simple_step(
                time_distance(t, e as nat) <= threshold,
                pos,
                v,
                FailView::Mismatch(v, Val::Time(e as nat)),
            ),
            _ => Step::Error(err_not_time()),
        },
        MatchKind::FileExists(mode) => match v {
            Val::Record(_, fs) => match (find_field(fs, "path"@), find_field(fs, file_flag_name(mode))) {
                (Option::Some(Val::Str(p)), Option::Some(Val::Bool(b))) => simple_step(
                    b,
                    pos,
                    v,
                    FailView::Expectation(Val::Str(p)),
                ),
                _ => Step::Error(err_not_path()),
            },
            _ => Step::Error(err_not_path()),
        },
        _ => Step::Error(seq![]),
    }
}


/// Where a chain of matchers stands: stopped on an error, stopped on a
/// failure, or running with the value the last matcher handed on.
pub enum ChainState {
    Error(Seq<char>),
    Failed(Seq<Seg>),
    Running(Val),
}

/// What a list of matchers gave so far, each on its own: stopped on an
/// error, or the failures (`None` for each success) and the values the
/// successes handed on.
pub enum Tally {
    Error(Seq<char>),
    Done(Seq<Option<Seq<Seg>>>, Seq<Val>),
}

/// Adds the outcome of one more matcher to a tally. After an error, no
/// further outcome counts.
pub open spec fn tally_push(t: Tally, o: Outcome) -> Tally {
    match t {
        Tally::Error(e) => Tally::Error(e),
        Tally::Done(results, outs) => match o {
            Outcome::Error(e) => Tally::Error(e),
            Outcome::Success(x) => Tally::Done(results.push(Option::None), outs.push(x)),
            Outcome::Fail(out) => Tally::Done(results.push(Option::Some(out)), outs),
        },
    }
}

/// Whether every matcher succeeded.
pub open spec fn all_ok(results: Seq<Option<Seq<Seg>>>) -> bool {
    forall|i: int| 0 <= i < results.len() ==> (#[trigger] results[i]) is None
}

/// Whether one matcher succeeded.
pub open spec fn any_ok(results: Seq<Option<Seq<Seg>>>) -> bool {
    exists|i: int| 0 <= i < results.len() && (#[trigger] results[i]) is None
}

/// Whether the results satisfy the mode; a negated combinator needs the
/// other mode of its negated matchers (all fail unless one fails).
pub open spec fn mode_ok(mode: CombinatorMode, pos: bool, results: Seq<Option<Seq<Seg>>>) -> bool {
    if (mode == CombinatorMode::All) == pos {
        all_ok(results)
    } else {
        any_ok(results)
    }
}

/// The first field of a struct with the given name.
pub open spec fn find_field(fs: Seq<(Seq<char>, Val)>, name: Seq<char>) -> Option<Val>
    decreases fs.len(),
{
    if fs.len() == 0 {
        Option::None
    } else if fs[0].0 == name {
        Option::Some(fs[0].1)
    } else {
        find_field(fs.drop_first(), name)
    }
}

/// What matcher `m` gives on `v`, when expected to succeed (`pos`) or to
/// fail. A failure is formatted with the side expected.
pub open spec fn eval(m: Matcher, v: Val, pos: bool) -> Outcome
    decreases m, 0nat,
{
    match kind_eval(m.kind, v, pos != m.negated) {
        Step::Error(e) => Outcome::Error(e),
        Step::Success(o) => Outcome::Success(o),
        Step::Fail(d) => Outcome::Fail(
            formatted(m.format, if pos { MatchFailure::Pos(d) } else { MatchFailure::Neg(d) }),
        ),
    }
}

/// Runs the matchers one after the other, each on what the one before
/// handed on, until one fails or errs.
pub open spec fn chain_fold(ms: Seq<Matcher>, v: Val) -> ChainState
    decreases ms, 0nat,
{
    if ms.len() == 0 {
        ChainState::Running(v)
    } else {
        match chain_fold(ms.drop_last(), v) {
            ChainState::Running(cur) => match eval(ms.last(), cur, true) {
                Outcome::Error(e) => ChainState::Error(e),
                Outcome::Success(o) => ChainState::Running(o),
                Outcome::Fail(out) => ChainState::Failed(out),
            },
            other => other,
        }
    }
}

/// Runs each matcher on `v`.
pub open spec fn combinator_tally(ms: Seq<Matcher>, v: Val, pos: bool) -> Tally
    decreases ms, 0nat,
{
    if ms.len() == 0 {
        Tally::Done(seq![], seq![])
    } else {
        tally_push(combinator_tally(ms.drop_last(), v, pos), eval(ms.last(), v, pos))
    }
}

/// Runs `m` on each element of `xs`.
pub open spec fn every_tally(m: Matcher, xs: Seq<Val>, pos: bool) -> Tally
    decreases m, xs.len(),
{
    if xs.len() == 0 {
        Tally::Done(seq![], seq![])
    } else {
        tally_push(every_tally(m, xs.drop_last(), pos), eval(m, xs.last(), pos))
    }
}

/// Runs each matcher on the element at its index, for the indices that
/// both lists have.
pub open spec fn elements_tally(ms: Seq<Matcher>, xs: Seq<Val>, pos: bool) -> Tally
    decreases ms, 0nat,
{
    if ms.len() == 0 {
        Tally::Done(seq![], seq![])
    } else if ms.len() > xs.len() {
        elements_tally(ms.take(xs.len() as int), xs, pos)
    } else {
        tally_push(elements_tally(ms.drop_last(), xs, pos), eval(ms.last(), xs[ms.len() - 1], pos))
    }
}

/// Runs the matcher of each field spec on the struct's field of that name.
pub open spec fn fields_tally(specs: Seq<FieldSpec>, fs: Seq<(Seq<char>, Val)>, pos: bool) -> Tally
    decreases specs, 0nat,
{
    if specs.len() == 0 {
        Tally::Done(seq![], seq![])
    } else {
        let prev = fields_tally(specs.drop_last(), fs, pos);
        match find_field(fs, specs.last().name@) {
            Option::None => match prev {
                Tally::Error(e) => Tally::Error(e),
                _ => Tally::Error(err_no_field()),
            },
            Option::Some(x) => tally_push(prev, eval(specs.last().matcher, x, pos)),
        }
    }
}

/// The outcome of each field, by name.
pub open spec fn by_field(specs: Seq<FieldSpec>, results: Seq<Option<Seq<Seg>>>) -> Seq<(Seq<char>, Option<Seq<Seg>>)> {
    Seq::new(results.len(), |i: int| (specs[i].name@, results[i]))
}

/// What a list matcher gives from the tally of its elements: it succeeds
/// with the values handed on when all succeeded (or, negated, when one did).
pub open spec fn list_step(t: Tally, pos: bool) -> Step {
    match t {
        Tally::Error(e) => Step::Error(e),
        Tally::Done(results, outs) => if (pos && all_ok(results)) || (!pos && any_ok(results)) {
            Step::Success(Val::List(outs))
        } else {
            Step::Fail(FailView::SomeFailures(results))
        },
    }
}

/// What the test of kind `k` gives on `v`, for the side `pos`.
pub open spec fn kind_eval(k: MatchKind, v: Val, pos: bool) -> Step
    decreases k, 0nat,
{
    match k {
        MatchKind::Not(b) => match eval(*b, v, !pos) {
            Outcome::Error(e) => Step::Error(e),
            Outcome::Success(o) => Step::Success(o),
            Outcome::Fail(out) => Step::Fail(FailView::Failure(out)),
        },
        MatchKind::Wrapped(b) => match eval(*b, v, pos) {
            Outcome::Error(e) => Step::Error(e),
            Outcome::Success(o) => Step::Success(o),
            Outcome::Fail(out) => Step::Fail(FailView::Failure(out)),
        },
        MatchKind::All(ms) => match chain_fold(ms@, v) {
            ChainState::Error(e) => Step::Error(e),
            ChainState::Running(o) => if pos {
                Step::Success(o)
            } else {
                Step::Fail(FailView::Nothing)
            },
            ChainState::Failed(out) => if pos {
                Step::Fail(FailView::Failure(out))
            } else {
                Step::Success(Val::Unit)
            },
        },
        MatchKind::Combinator(mode, ms) => match combinator_tally(ms@, v, pos) {
            Tally::Error(e) => Step::Error(e),
            Tally::Done(results, _) => if mode_ok(mode, pos, results) {
                Step::Success(v)
            } else {
                Step::Fail(FailView::SomeFailures(results))
            },
        },
        MatchKind::Every(b) => match v {
            Val::List(xs) => list_step(every_tally(*b, xs, pos), pos),
            _ => Step::Error(err_not_list()),
        },
        MatchKind::Elements(ms) => match v {
            Val::List(xs) => list_step(elements_tally(ms@, xs, pos), pos),
            _ => Step::Error(err_not_list()),
        },
        MatchKind::Fields(mode, specs) => match v {
            Val::Record(_, fs) => match fields_tally(specs@, fs, pos) {
                Tally::Error(e) => Step::Error(e),
                Tally::Done(results, _) => if mode_ok(mode, pos, results) {
                    Step::Success(Val::Unit)
                } else {
                    Step::Fail(FailView::ByField(by_field(specs@, results)))
                },
            },
            _ => Step::Error(err_not_record()),
        },
        _ => leaf_step(k, v, pos),
    }
}

} // verus!
