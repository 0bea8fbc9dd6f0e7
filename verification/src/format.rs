//! The formatters that turn a failed matcher into styled output.
//!
//! A matcher that fails hands its formatter a [`MatchFailure`] of
//! [`FailData`]: the data its formatter reads. Each formatter has a spec
//! function that says exactly which segments it writes; a formatter handed
//! data of another kind than the one it formats writes nothing.

use vstd::prelude::*;
use crate::formatter::{
    fm_output, fm_style, fm_text_indented, fm_write, fresh, spec_indent_segments, FormattedOutput,
    Formatter, Seg,
};
use crate::result::{FormattedFailure, MatchFailure};
use crate::strings::{digits, int_len, lemma_digits_mono, pad_int, whitespace};
use crate::style::{
    bad, failure, important, index, info, plain, styled, success, Color, OutputStyle, BOLD,
    FAILED_MSG, OK_MSG, UNDERLINE, WHY_SYMBOL,
};
use crate::text::{decimal, decimal_chars, extend_chars, spaces, to_chars};
use crate::value::{repr, repr_into, Val, Value};

verus! {

/// Two values that should have matched: the actual value and what it was
/// compared with.
#[derive(Debug)]
pub struct Mismatch {
    /// The actual value.
    pub actual: Value,
    /// The expected value.
    pub expected: Value,
}

/// A value that did not meet an expectation.
#[derive(Debug)]
pub struct Expectation {
    /// The actual value.
    pub actual: Value,
}

/// The outcome of one field of a struct: `None` when it matched.
#[derive(Debug)]
pub struct FieldFailure {
    /// The name of the field.
    pub name: String,
    /// Why its matcher failed, if it did.
    pub failure: Option<FormattedFailure>,
}

/// Whether a piece of a diff is in the actual value only, in the expected
/// value only, or in both.
#[derive(Debug, Clone, Copy, PartialEq, Eq, Structural)]
pub enum DiffTag {
    /// In the actual value but not the expected value.
    Insert,
    /// In the expected value but not the actual value.
    Delete,
    /// In both values.
    Equal,
}

/// What kind of value a diff is of, which decides how it is shown.
#[derive(Debug, Clone, Copy, PartialEq, Eq, Structural)]
pub enum DiffKind {
    /// A string, diffed by character.
    StringKind,
    /// A list, diffed by element.
    SliceKind,
    /// A set, diffed by element.
    SetKind,
    /// A map, diffed by entry.
    MapKind,
}

/// A piece of a diff, with its text already rendered.
#[derive(Debug)]
pub struct DiffSegment {
    /// Which of the two values it is in.
    pub tag: DiffTag,
    /// The text: a substring for a string diff, an element's debug
    /// representation for a collection.
    pub text: String,
}

/// A diff between an actual and an expected value.
#[derive(Debug)]
pub struct Diff {
    /// The kind of values diffed.
    pub kind: DiffKind,
    /// The pieces, in order.
    pub segments: Vec<DiffSegment>,
}

/// What a failed matcher hands its formatter.
#[derive(Debug)]
pub enum FailData {
    /// The actual value and the expected one.
    Mismatch(Mismatch),
    /// The actual value.
    Expectation(Expectation),
    /// Nothing more than that the matcher failed.
    Nothing,
    /// The formatted failure of the matcher it wraps.
    Failure(FormattedFailure),
    /// The formatted failures of several matchers, `None` for those that succeeded.
    SomeFailures(Vec<Option<FormattedFailure>>),
    /// The outcome of each field of a struct.
    ByField(Vec<FieldFailure>),
    /// A diff between the actual and the expected value.
    Diff(Diff),
}

/// The data of a failed matcher, as the specifications see it.
pub enum FailView {
    Mismatch(Val, Val),
    Expectation(Val),
    Nothing,
    Failure(Seq<Seg>),
    SomeFailures(Seq<Option<Seq<Seg>>>),
    ByField(Seq<(Seq<char>, Option<Seq<Seg>>)>),
    Diff(DiffKind, Seq<(DiffTag, Seq<char>)>),
}

/// The output of a failure, if there is one.
pub open spec fn opt_view(o: Option<FormattedFailure>) -> Option<Seq<Seg>> {
    match o {
        Option::Some(f) => Option::Some(f@),
        Option::None => Option::None,
    }
}

/// The name and the failure output of a field.
pub open spec fn field_view(x: FieldFailure) -> (Seq<char>, Option<Seq<Seg>>) {
    (x.name@, opt_view(x.failure))
}

/// The tag and text of a piece of a diff.
pub open spec fn diff_segment_view(x: DiffSegment) -> (DiffTag, Seq<char>) {
    (x.tag, x.text@)
}

/// The data of a failed matcher.
pub open spec fn fail_view(d: FailData) -> FailView {
    match d {
        FailData::Mismatch(m) => FailView::Mismatch(m.actual@, m.expected@),
        FailData::Expectation(e) => FailView::Expectation(e.actual@),
        FailData::Nothing => FailView::Nothing,
        FailData::Failure(f) => FailView::Failure(f@),
        FailData::SomeFailures(v) => FailView::SomeFailures(
            v@.map_values(|o: Option<FormattedFailure>| opt_view(o)),
        ),
        FailData::ByField(v) => FailView::ByField(v@.map_values(|x: FieldFailure| field_view(x))),
        FailData::Diff(d) => FailView::Diff(
            d.kind,
            d.segments@.map_values(|x: DiffSegment| diff_segment_view(x)),
        ),
    }
}

/// The data of a failed matcher, with the side it failed on.
pub open spec fn failure_view(v: MatchFailure<FailData>) -> MatchFailure<FailView> {
    match v {
        MatchFailure::Pos(d) => MatchFailure::Pos(fail_view(d)),
        MatchFailure::Neg(d) => MatchFailure::Neg(fail_view(d)),
    }
}

/// The data of a failure, whichever side it failed on.
pub open spec fn inner_view(v: MatchFailure<FailView>) -> FailView {
    match v {
        MatchFailure::Pos(d) => d,
        MatchFailure::Neg(d) => d,
    }
}

/// Bold text.
pub open spec fn important_style() -> OutputStyle {
    styled(BOLD, Option::None)
}

/// Bold red text.
pub open spec fn bad_style() -> OutputStyle {
    styled(BOLD, Option::Some(Color::Red))
}

/// A value written on a line of its own, indented one level, in bold red.
pub open spec fn fm_bad_value(m: Seq<Seg>, v: Val) -> Seq<Seg> {
    fm_write(fm_text_indented(fm_style(m, bad_style()), spaces(4), repr(v)), "\n"@)
}

/// Writes the debug representation of `v`, indented one level, then a newline.
fn write_bad_value(f: &mut Formatter, v: &Value)
    ensures
        final(f)@ == fm_bad_value(old(f)@, v@),
{
    f.set_style(bad());
    let mut out: Vec<char> = Vec::new();
    repr_into(v, &mut out);
    let prefix = crate::style::indent(1);
    f.write_indented(prefix.as_str(), out.as_slice());
    f.write_str("\n");
}

// ---------------------------------------------------------------------------
// MismatchFormat

/// A formatter for [`Mismatch`] values: the actual value, a message, and the
/// expected value.
#[derive(Debug)]
pub struct MismatchFormat {
    pos_msg: String,
    neg_msg: String,
}

/// The output of a [`MismatchFormat`] with message `msg`.
pub open spec fn mismatch_text(m: Seq<Seg>, actual: Val, msg: Seq<char>, expected: Val) -> Seq<Seg> {
    let m1 = fm_write(fm_style(m, important_style()), "Expected:\n"@);
    let m2 = fm_bad_value(m1, actual);
    let m3 = fm_write(fm_write(fm_style(m2, important_style()), msg), ":\n"@);
    fm_bad_value(m3, expected)
}

impl MismatchFormat {
    /// A formatter with the message for the positive case (the matcher was
    /// expected to succeed) and the one for the negative case.
    pub fn new(pos_msg: &str, neg_msg: &str) -> (r: MismatchFormat)
        ensures
            r.pos_msg() == pos_msg@,
            r.neg_msg() == neg_msg@,
    {
        MismatchFormat { pos_msg: String::from_str(pos_msg), neg_msg: String::from_str(neg_msg) }
    }

    /// The message for the positive case.
    pub closed spec fn pos_msg(&self) -> Seq<char> {
        self.pos_msg@
    }

    /// The message for the negative case.
    pub closed spec fn neg_msg(&self) -> Seq<char> {
        self.neg_msg@
    }

    /// What this formatter writes, from state `m`.
    pub open spec fn output(&self, m: Seq<Seg>, v: MatchFailure<FailView>) -> Seq<Seg> {
        let msg = if v is Pos { self.pos_msg() } else { self.neg_msg() };
        match inner_view(v) {
            FailView::Mismatch(a, e) => mismatch_text(m, a, msg, e),
            _ => m,
        }
    }

    /// Write a failure.
    pub fn fmt(&self, f: &mut Formatter, value: MatchFailure<FailData>)
        ensures
            final(f)@ == self.output(old(f)@, failure_view(value)),
    {
        let is_pos = value.is_pos();
        let data = value.into_inner();
        match data {
            FailData::Mismatch(mismatch) => {
                f.set_style(important());
                f.write_str("Expected:\n");
                write_bad_value(f, &mismatch.actual);
                f.set_style(important());
                if is_pos {
                    f.write_str(self.pos_msg.as_str());
                } else {
                    f.write_str(self.neg_msg.as_str());
                }
                f.write_str(":\n");
                write_bad_value(f, &mismatch.expected);
            },
            _ => {},
        }
    }
}

// ---------------------------------------------------------------------------
// ExpectationFormat

/// A formatter for [`Expectation`] values: the actual value and a message.
#[derive(Debug)]
pub struct ExpectationFormat {
    pos_msg: String,
    neg_msg: String,
}

/// The output of an [`ExpectationFormat`] with message `msg`.
pub open spec fn expectation_text(m: Seq<Seg>, actual: Val, msg: Seq<char>) -> Seq<Seg> {
    let m1 = fm_write(fm_style(m, important_style()), "Expected:\n"@);
    let m2 = fm_bad_value(m1, actual);
    fm_write(fm_write(fm_style(m2, important_style()), msg), "\n"@)
}

impl ExpectationFormat {
    /// A formatter with the message for the positive case and the one for
    /// the negative case.
    pub fn new(pos_msg: &str, neg_msg: &str) -> (r: ExpectationFormat)
        ensures
            r.pos_msg() == pos_msg@,
            r.neg_msg() == neg_msg@,
    {
        ExpectationFormat { pos_msg: String::from_str(pos_msg), neg_msg: String::from_str(neg_msg) }
    }

    /// The message for the positive case.
    pub closed spec fn pos_msg(&self) -> Seq<char> {
        self.pos_msg@
    }

    /// The message for the negative case.
    pub closed spec fn neg_msg(&self) -> Seq<char> {
        self.neg_msg@
    }

    /// What this formatter writes, from state `m`.
    pub open spec fn output(&self, m: Seq<Seg>, v: MatchFailure<FailView>) -> Seq<Seg> {
        let msg = if v is Pos { self.pos_msg() } else { self.neg_msg() };
        match inner_view(v) {
            FailView::Expectation(a) => expectation_text(m, a, msg),
            _ => m,
        }
    }

    /// Write a failure.
    pub fn fmt(&self, f: &mut Formatter, value: MatchFailure<FailData>)
        ensures
            final(f)@ == self.output(old(f)@, failure_view(value)),
    {
        let is_pos = value.is_pos();
        let data = value.into_inner();
        match data {
            FailData::Expectation(expectation) => {
                f.set_style(important());
                f.write_str("Expected:\n");
                write_bad_value(f, &expectation.actual);
                f.set_style(important());
                if is_pos {
                    f.write_str(self.pos_msg.as_str());
                } else {
                    f.write_str(self.neg_msg.as_str());
                }
                f.write_str("\n");
            },
            _ => {},
        }
    }
}

// ---------------------------------------------------------------------------
// MessageFormat

/// A formatter which writes a fixed message.
#[derive(Debug)]
pub struct MessageFormat {
    pos_msg: String,
    neg_msg: String,
}

impl MessageFormat {
    /// A formatter with the message for the positive case and the one for
    /// the negative case.
    pub fn new(pos_msg: &str, neg_msg: &str) -> (r: MessageFormat)
        ensures
            r.pos_msg() == pos_msg@,
            r.neg_msg() == neg_msg@,
    {
        MessageFormat { pos_msg: String::from_str(pos_msg), neg_msg: String::from_str(neg_msg) }
    }

    /// The message for the positive case.
    pub closed spec fn pos_msg(&self) -> Seq<char> {
        self.pos_msg@
    }

    /// The message for the negative case.
    pub closed spec fn neg_msg(&self) -> Seq<char> {
        self.neg_msg@
    }

    /// What this formatter writes, from state `m`: the message in bold red,
    /// then a newline. It writes the same for data of any kind.
    pub open spec fn output(&self, m: Seq<Seg>, v: MatchFailure<FailView>) -> Seq<Seg> {
        let msg = if v is Pos { self.pos_msg() } else { self.neg_msg() };
        fm_write(fm_style(fm_write(fm_style(m, bad_style()), msg), plain()), "\n"@)
    }

    /// Write a failure.
    pub fn fmt(&self, f: &mut Formatter, value: MatchFailure<FailData>)
        ensures
            final(f)@ == self.output(old(f)@, failure_view(value)),
    {
        f.set_style(bad());
        if value.is_pos() {
            f.write_str(self.pos_msg.as_str());
        } else {
            f.write_str(self.neg_msg.as_str());
        }
        f.reset_style();
        f.write_str("\n");
    }
}

// ---------------------------------------------------------------------------
// FailureFormat

/// A formatter which writes the formatted failure of the matcher it wraps.
#[derive(Debug, Default)]
pub struct FailureFormat;

impl FailureFormat {
    /// Create a new [`FailureFormat`].
    pub fn new() -> (r: FailureFormat) {
        FailureFormat
    }

    /// What this formatter writes, from state `m`.
    pub open spec fn output(&self, m: Seq<Seg>, v: MatchFailure<FailView>) -> Seq<Seg> {
        match inner_view(v) {
            FailView::Failure(out) => fm_output(m, out),
            _ => m,
        }
    }

    /// Write a failure.
    pub fn fmt(&self, f: &mut Formatter, value: MatchFailure<FailData>)
        ensures
            final(f)@ == self.output(old(f)@, failure_view(value)),
    {
        match value.into_inner() {
            FailData::Failure(fail) => f.write_fmt(fail.into_output()),
            _ => {},
        }
    }
}

// ---------------------------------------------------------------------------
// NoneFormat

/// The formatter of a matcher that can only fail when expected to succeed:
/// it writes the formatted failure of that side.
#[derive(Debug, Default)]
pub struct NoneFormat;

impl NoneFormat {
    /// What this formatter writes, from state `m`: a failure of the side
    /// expected to fail cannot occur, and writes nothing.
    pub open spec fn output(&self, m: Seq<Seg>, v: MatchFailure<FailView>) -> Seq<Seg> {
        match v {
            MatchFailure::Pos(FailView::Failure(out)) => fm_output(m, out),
            _ => m,
        }
    }

    /// Write a failure.
    pub fn fmt(&self, f: &mut Formatter, value: MatchFailure<FailData>)
        ensures
            final(f)@ == self.output(old(f)@, failure_view(value)),
    {
        match value {
            MatchFailure::Pos(FailData::Failure(fail)) => f.write_fmt(fail.into_output()),
            _ => {},
        }
    }
}

// ---------------------------------------------------------------------------
// WhyFormat

/// A formatter which writes a reason before the failure of the matcher it wraps.
#[derive(Debug)]
pub struct WhyFormat {
    reason: String,
}

impl WhyFormat {
    /// A formatter that gives `reason`.
    pub fn new(reason: &str) -> (r: WhyFormat)
        ensures
            r.reason() == reason@,
    {
        WhyFormat { reason: String::from_str(reason) }
    }

    /// A formatter that gives the reason `reason` computes.
    pub fn lazy(reason: String) -> (r: WhyFormat)
        ensures
            r.reason() == reason@,
    {
        WhyFormat { reason }
    }

    /// The reason given.
    pub closed spec fn reason(&self) -> Seq<char> {
        self.reason@
    }

    /// What this formatter writes, from state `m`.
    pub open spec fn output(&self, m: Seq<Seg>, v: MatchFailure<FailView>) -> Seq<Seg> {
        match inner_view(v) {
            FailView::Failure(out) => {
                let m1 = fm_write(fm_write(fm_write(fm_style(m, styled(0, Option::Some(Color::Cyan))), WHY_SYMBOL@), " "@), self.reason());
                fm_output(fm_write(fm_style(m1, plain()), "\n"@), out)
            },
            _ => m,
        }
    }

    /// Write a failure.
    pub fn fmt(&self, f: &mut Formatter, value: MatchFailure<FailData>)
        ensures
            final(f)@ == self.output(old(f)@, failure_view(value)),
    {
        match value.into_inner() {
            FailData::Failure(fail) => {
                f.set_style(info());
                f.write_str(WHY_SYMBOL);
                f.write_str(" ");
                f.write_str(self.reason.as_str());
                f.reset_style();
                f.write_str("\n");
                f.write_fmt(fail.into_output());
            },
            _ => {},
        }
    }
}

// ---------------------------------------------------------------------------
// InfallibleFormat

/// The formatter of a matcher that cannot fail. It writes nothing.
#[derive(Debug, Default)]
pub struct InfallibleFormat;

impl InfallibleFormat {
    /// Write a failure: nothing at all.
    pub fn fmt(&self, f: &mut Formatter, value: MatchFailure<FailData>)
        ensures
            final(f)@ == old(f)@,
    {
    }
}


// ---------------------------------------------------------------------------
// SomeFailuresFormat

/// A formatter for the failures of several matchers: for each one that
/// failed, its index and its indented output.
#[derive(Debug, Default)]
pub struct SomeFailuresFormat;

/// The label written before the failure at index `i` of `n`: the index,
/// padded to the width of `n`, in brackets.
pub open spec fn index_label(i: nat, n: nat) -> Seq<char> {
    spaces((digits(n, 10) - digits(i, 10)) as nat) + "["@ + decimal(i) + "]  "@
}

/// The output of a [`SomeFailuresFormat`] for the first `k` of `v`.
pub open spec fn some_failures_upto(m: Seq<Seg>, v: Seq<Option<Seq<Seg>>>, k: nat) -> Seq<Seg>
    decreases k,
{
    if k == 0 {
        m
    } else {
        let m0 = some_failures_upto(m, v, (k - 1) as nat);
        match v[k - 1] {
            Option::None => m0,
            Option::Some(out) => {
                let m1 = fm_write(fm_style(m0, styled(0, Option::Some(Color::Yellow))), index_label((k - 1) as nat, v.len()));
                let m3 = fm_write(fm_style(fm_write(fm_style(fm_style(m1, plain()), styled(BOLD | UNDERLINE, Option::Some(Color::Red))), FAILED_MSG@), plain()), "\n"@);
                let indent = spaces(digits(v.len(), 10) + 4);
                fm_write(fm_output(m3, spec_indent_segments(out, indent, false)), "\n"@)
            },
        }
    }
}

fn index_label_chars(i: usize, n: usize) -> (r: Vec<char>)
    requires
        i <= n,
    ensures
        r@ == index_label(i as nat, n as nat),
{
    proof {
        lemma_digits_mono(i as nat, n as nat, 10);
    }
    let pad = pad_int(i, n, 10);
    let mut r = to_chars(pad.as_str());
    let open = to_chars("[");
    extend_chars(&mut r, open.as_slice());
    let d = decimal_chars(i as u128);
    extend_chars(&mut r, d.as_slice());
    let close = to_chars("]  ");
    extend_chars(&mut r, close.as_slice());
    r
}

impl SomeFailuresFormat {
    /// Create a new [`SomeFailuresFormat`].
    pub fn new() -> (r: SomeFailuresFormat) {
        SomeFailuresFormat
    }

    /// What this formatter writes, from state `m`.
    pub open spec fn output(&self, m: Seq<Seg>, d: FailView) -> Seq<Seg> {
        match d {
            FailView::SomeFailures(v) => some_failures_upto(m, v, v.len()),
            _ => m,
        }
    }

    /// Write the failures.
    pub fn fmt(&self, f: &mut Formatter, value: FailData)
        ensures
            final(f)@ == self.output(old(f)@, fail_view(value)),
    {
        match value {
            FailData::SomeFailures(v) => {
                let ghost vv = v@.map_values(|o: Option<FormattedFailure>| opt_view(o));
                let ghost m0 = f@;
                let n = v.len();
                proof {
                    vstd::arithmetic::power2::lemma2_to64();
                    crate::strings::lemma_digits_bound(n as nat, 10, 64);
                }
                let indent_len = int_len(n, 10) + crate::style::INDENT_LEN;
                let indent = whitespace(indent_len as usize);
                let mut v = v;
                let mut i: usize = 0;
                while i < n
                    invariant
                        i <= n,
                        n == v@.len(),
                        vv.len() == n,
                        forall|j: int| i <= j < n ==> #[trigger] opt_view(v@[j]) == vv[j],
                        indent@ == spaces(digits(n as nat, 10) + 4),
                        f@ == some_failures_upto(m0, vv, i as nat),
                    decreases n - i,
                {
                    let mut slot: Option<FormattedFailure> = None;
                    proof {
                        assert(opt_view(v@[i as int]) == vv[i as int]);
                    }
                    let ghost before = v@;
                    std::mem::swap(&mut slot, &mut v[i]);
                    proof {
                        assert forall|j: int| i < j < n implies #[trigger] opt_view(v@[j]) == vv[j] by {
                            assert(v@[j] == before[j]);
                        }
                        assert(opt_view(slot) == vv[i as int]);
                    }
                    match slot {
                        Option::Some(fail) => {
                            f.set_style(index());
                            let label = index_label_chars(i, n);
                            f.write_chars(label.as_slice());
                            f.reset_style();
                            f.set_style(failure());
                            f.write_str(FAILED_MSG);
                            f.reset_style();
                            f.write_str("\n");
                            f.write_fmt(fail.into_output().indented(indent.as_str()));
                            f.write_str("\n");
                        },
                        Option::None => {},
                    }
                    i = i + 1;
                }
            },
            _ => {},
        }
    }
}

// ---------------------------------------------------------------------------
// ByFieldFormat

/// A formatter for the outcome of each field of a struct.
#[derive(Debug)]
pub struct ByFieldFormat {
    struct_name: String,
}

/// The output of a [`ByFieldFormat`] for the first `k` fields of `v`.
pub open spec fn by_field_upto(m: Seq<Seg>, v: Seq<(Seq<char>, Option<Seq<Seg>>)>, k: nat) -> Seq<Seg>
    decreases k,
{
    if k == 0 {
        m
    } else {
        let m0 = by_field_upto(m, v, (k - 1) as nat);
        let (name, o) = v[k - 1];
        let m1 = fm_write(fm_write(fm_write(m0, spaces(4)), name), ": "@);
        match o {
            Option::Some(out) => {
                let m2 = fm_write(fm_style(fm_write(fm_style(m1, styled(BOLD | UNDERLINE, Option::Some(Color::Red))), FAILED_MSG@), plain()), "\n"@);
                fm_output(m2, spec_indent_segments(out, spaces(8), false))
            },
            Option::None => fm_write(fm_style(fm_write(fm_style(m1, styled(BOLD | UNDERLINE, Option::Some(Color::Green))), OK_MSG@), plain()), "\n"@),
        }
    }
}

impl ByFieldFormat {
    /// A formatter for a struct of the given type name.
    pub fn new(struct_name: &str) -> (r: ByFieldFormat)
        ensures
            r.struct_name() == struct_name@,
    {
        ByFieldFormat { struct_name: String::from_str(struct_name) }
    }

    /// The type name written.
    pub closed spec fn struct_name(&self) -> Seq<char> {
        self.struct_name@
    }

    /// What this formatter writes, from state `m`.
    pub open spec fn output(&self, m: Seq<Seg>, d: FailView) -> Seq<Seg> {
        match d {
            FailView::ByField(v) => {
                let m1 = fm_write(fm_write(m, self.struct_name()), " {\n"@);
                fm_write(by_field_upto(m1, v, v.len()), "}"@)
            },
            _ => m,
        }
    }

    /// Write the outcome of each field.
    pub fn fmt(&self, f: &mut Formatter, value: FailData)
        ensures
            final(f)@ == self.output(old(f)@, fail_view(value)),
    {
        match value {
            FailData::ByField(v) => {
                let ghost vv = v@.map_values(|x: FieldFailure| field_view(x));
                f.write_str(self.struct_name.as_str());
                f.write_str(" {\n");
                let ghost m1 = f@;
                let ind1 = crate::style::indent(1);
                let ind2 = crate::style::indent(2);
                let n = v.len();
                let mut v = v;
                let mut i: usize = 0;
                while i < n
                    invariant
                        i <= n,
                        n == v@.len(),
                        vv.len() == n,
                        forall|j: int| i <= j < n ==> #[trigger] field_view(v@[j]) == vv[j],
                        ind1@ == spaces(4),
                        ind2@ == spaces(8),
                        f@ == by_field_upto(m1, vv, i as nat),
                    decreases n - i,
                {
                    let mut slot = FieldFailure { name: String::new(), failure: None };
                    proof {
                        assert(field_view(v@[i as int]) == vv[i as int]);
                    }
                    let ghost before = v@;
                    std::mem::swap(&mut slot, &mut v[i]);
                    proof {
                        assert forall|j: int| i < j < n implies #[trigger] field_view(v@[j]) == vv[j] by {
                            assert(v@[j] == before[j]);
                        }
                        assert(field_view(slot) == vv[i as int]);
                    }
                    f.write_str(ind1.as_str());
                    f.write_str(slot.name.as_str());
                    f.write_str(": ");
                    match slot.failure {
                        Option::Some(fail) => {
                            f.set_style(failure());
                            f.write_str(FAILED_MSG);
                            f.reset_style();
                            f.write_str("\n");
                            f.write_fmt(fail.into_output().indented(ind2.as_str()));
                        },
                        Option::None => {
                            f.set_style(success());
                            f.write_str(OK_MSG);
                            f.reset_style();
                            f.write_str("\n");
                        },
                    }
                    i = i + 1;
                }
                f.write_str("}");
            },
            _ => {},
        }
    }
}

// ---------------------------------------------------------------------------
// HeaderFormat

/// The formatter a [`HeaderFormat`] writes its body with.
#[derive(Debug)]
pub enum HeaderBody {
    /// The failures of several matchers.
    SomeFailures(SomeFailuresFormat),
    /// The outcome of each field of a struct.
    ByField(ByFieldFormat),
}

impl HeaderBody {
    /// What this formatter writes, from state `m`.
    pub open spec fn output(&self, m: Seq<Seg>, d: FailView) -> Seq<Seg> {
        match self {
            HeaderBody::SomeFailures(x) => x.output(m, d),
            HeaderBody::ByField(x) => x.output(m, d),
        }
    }

    /// Write the body.
    pub fn fmt(&self, f: &mut Formatter, value: FailData)
        ensures
            final(f)@ == self.output(old(f)@, fail_view(value)),
    {
        match self {
            HeaderBody::SomeFailures(x) => x.fmt(f, value),
            HeaderBody::ByField(x) => x.fmt(f, value),
        }
    }
}

/// A formatter which writes a header, then the output of another formatter
/// indented one level.
#[derive(Debug)]
pub struct HeaderFormat {
    inner: HeaderBody,
    pos_header: String,
    neg_header: String,
}

impl HeaderFormat {
    /// A formatter with the header for the positive case and the one for the
    /// negative case.
    pub fn new(inner: HeaderBody, pos_header: &str, neg_header: &str) -> (r: HeaderFormat)
        ensures
            r.inner() == inner,
            r.pos_header() == pos_header@,
            r.neg_header() == neg_header@,
    {
        HeaderFormat {
            inner,
            pos_header: String::from_str(pos_header),
            neg_header: String::from_str(neg_header),
        }
    }

    /// The formatter of the body.
    pub closed spec fn inner(&self) -> HeaderBody {
        self.inner
    }

    /// The header for the positive case.
    pub closed spec fn pos_header(&self) -> Seq<char> {
        self.pos_header@
    }

    /// The header for the negative case.
    pub closed spec fn neg_header(&self) -> Seq<char> {
        self.neg_header@
    }

    /// What this formatter writes, from state `m`.
    pub open spec fn output(&self, m: Seq<Seg>, v: MatchFailure<FailView>) -> Seq<Seg> {
        let header = if v is Pos { self.pos_header() } else { self.neg_header() };
        let m1 = fm_write(fm_style(fm_write(fm_style(m, important_style()), header), plain()), "\n"@);
        let body = self.inner().output(fresh(plain()), inner_view(v));
        fm_output(m1, spec_indent_segments(body, spaces(4), false))
    }

    /// Write a failure.
    pub fn fmt(&self, f: &mut Formatter, value: MatchFailure<FailData>)
        ensures
            final(f)@ == self.output(old(f)@, failure_view(value)),
    {
        f.set_style(important());
        if value.is_pos() {
            f.write_str(self.pos_header.as_str());
        } else {
            f.write_str(self.neg_header.as_str());
        }
        f.reset_style();
        f.write_str("\n");
        let mut body = Formatter::new();
        self.inner.fmt(&mut body, value.into_inner());
        let ind = crate::style::indent(1);
        f.write_fmt(body.into_output().indented(ind.as_str()));
    }
}


// ---------------------------------------------------------------------------
// DiffFormat

/// A setting of a diff's style that differs for each of the three tags.
#[derive(Debug, Clone, PartialEq, Eq)]
pub struct DiffSegmentStyle<T> {
    /// For what is in the actual value but not the expected value.
    pub insert: T,
    /// For what is in the expected value but not the actual value.
    pub delete: T,
    /// For what is in both values.
    pub equal: T,
}

/// The setting for pieces with tag `tag`.
pub open spec fn pick<T>(s: DiffSegmentStyle<T>, tag: DiffTag) -> T {
    match tag {
        DiffTag::Insert => s.insert,
        DiffTag::Delete => s.delete,
        DiffTag::Equal => s.equal,
    }
}

impl<T> DiffSegmentStyle<T> {
    /// The setting for pieces with tag `tag`.
    pub fn get(&self, tag: DiffTag) -> (r: &T)
        ensures
            *r == pick(*self, tag),
    {
        match tag {
            DiffTag::Insert => &self.insert,
            DiffTag::Delete => &self.delete,
            DiffTag::Equal => &self.equal,
        }
    }
}

/// The styling of string diffs.
#[derive(Debug, Clone, PartialEq, Eq)]
pub struct StringDiffStyle {
    /// The style of each kind of piece.
    pub style: DiffSegmentStyle<OutputStyle>,
    /// Format strings that each kind of piece is written with: the first `%s`
    /// in one is replaced by the piece's text. A format string without `%s`
    /// hides the text.
    pub format: DiffSegmentStyle<String>,
}

/// The styling of diffs of collections.
#[derive(Debug, Clone, PartialEq, Eq)]
pub struct CollectionDiffStyle {
    /// The style of each kind of element.
    pub element_style: DiffSegmentStyle<OutputStyle>,
    /// The character in the gutter before each kind of element.
    pub gutter_char: DiffSegmentStyle<char>,
    /// The style of the gutter characters.
    pub gutter_style: DiffSegmentStyle<OutputStyle>,
}

/// The style sheet of a [`DiffFormat`].
#[derive(Debug, Clone, PartialEq, Eq)]
pub struct DiffStyle {
    /// The styling of string diffs.
    pub string: StringDiffStyle,
    /// The styling of diffs of collections.
    pub collection: CollectionDiffStyle,
}

fn plain_segment_style() -> (r: DiffSegmentStyle<OutputStyle>)
    ensures
        r.insert == plain() && r.delete == plain() && r.equal == plain(),
{
    DiffSegmentStyle { insert: OutputStyle::plain(), delete: OutputStyle::plain(), equal: OutputStyle::plain() }
}

fn placeholder_formats() -> (r: DiffSegmentStyle<String>)
    ensures
        r.insert@ == "%s"@ && r.delete@ == "%s"@ && r.equal@ == "%s"@,
{
    DiffSegmentStyle {
        insert: String::from_str("%s"),
        delete: String::from_str("%s"),
        equal: String::from_str("%s"),
    }
}

impl StringDiffStyle {
    /// The styling that `eq_diff` uses: insertions bold, reversed and bright
    /// green, deletions bold, underlined and bright red.
    pub fn provided() -> (r: StringDiffStyle)
        ensures
            r.style.insert == styled(BOLD | crate::style::REVERSED, Option::Some(Color::BrightGreen)),
            r.style.delete == styled(BOLD | UNDERLINE, Option::Some(Color::BrightRed)),
            r.style.equal == plain(),
            r.format.insert@ == "%s"@,
            r.format.delete@ == "%s"@,
            r.format.equal@ == "%s"@,
    {
        StringDiffStyle {
            style: DiffSegmentStyle {
                insert: OutputStyle {
                    style: crate::style::TextStyle { bits: BOLD | crate::style::REVERSED },
                    color: crate::style::TextColor { fg: Some(Color::BrightGreen), bg: None },
                },
                delete: OutputStyle {
                    style: crate::style::TextStyle { bits: BOLD | UNDERLINE },
                    color: crate::style::TextColor { fg: Some(Color::BrightRed), bg: None },
                },
                equal: OutputStyle::plain(),
            },
            format: placeholder_formats(),
        }
    }
}

impl Default for StringDiffStyle {
    /// No styling at all.
    fn default() -> (r: StringDiffStyle)
        ensures
            r.style.insert == plain() && r.style.delete == plain() && r.style.equal == plain(),
            r.format.insert@ == "%s"@,
            r.format.delete@ == "%s"@,
            r.format.equal@ == "%s"@,
    {
        StringDiffStyle { style: plain_segment_style(), format: placeholder_formats() }
    }
}

impl CollectionDiffStyle {
    /// The styling that `eq_diff` uses: `+` and `-` in the gutter, added
    /// elements bold and bright green, removed ones bold and bright red.
    pub fn provided() -> (r: CollectionDiffStyle)
        ensures
            r.element_style.insert == styled(BOLD, Option::Some(Color::BrightGreen)),
            r.element_style.delete == styled(BOLD, Option::Some(Color::BrightRed)),
            r.element_style.equal == plain(),
            r.gutter_char == (DiffSegmentStyle { insert: '+', delete: '-', equal: ' ' }),
            r.gutter_style.insert == styled(0, Option::Some(Color::BrightGreen)),
            r.gutter_style.delete == styled(0, Option::Some(Color::BrightRed)),
            r.gutter_style.equal == plain(),
    {
        CollectionDiffStyle {
            element_style: DiffSegmentStyle {
                insert: OutputStyle {
                    style: crate::style::TextStyle { bits: BOLD },
                    color: crate::style::TextColor { fg: Some(Color::BrightGreen), bg: None },
                },
                delete: OutputStyle {
                    style: crate::style::TextStyle { bits: BOLD },
                    color: crate::style::TextColor { fg: Some(Color::BrightRed), bg: None },
                },
                equal: OutputStyle::plain(),
            },
            gutter_char: DiffSegmentStyle { insert: '+', delete: '-', equal: ' ' },
            gutter_style: DiffSegmentStyle {
                insert: OutputStyle {
                    style: crate::style::TextStyle { bits: 0 },
                    color: crate::style::TextColor { fg: Some(Color::BrightGreen), bg: None },
                },
                delete: OutputStyle {
                    style: crate::style::TextStyle { bits: 0 },
                    color: crate::style::TextColor { fg: Some(Color::BrightRed), bg: None },
                },
                equal: OutputStyle::plain(),
            },
        }
    }
}

impl Default for CollectionDiffStyle {
    /// No styling, and blank gutters.
    fn default() -> (r: CollectionDiffStyle)
        ensures
            r.element_style.insert == plain() && r.element_style.delete == plain()
                && r.element_style.equal == plain(),
            r.gutter_char == (DiffSegmentStyle { insert: ' ', delete: ' ', equal: ' ' }),
            r.gutter_style.insert == plain() && r.gutter_style.delete == plain()
                && r.gutter_style.equal == plain(),
    {
        CollectionDiffStyle {
            element_style: plain_segment_style(),
            gutter_char: DiffSegmentStyle { insert: ' ', delete: ' ', equal: ' ' },
            gutter_style: plain_segment_style(),
        }
    }
}

/// `r` is the styling that `eq_diff` uses.
pub open spec fn is_provided_style(r: DiffStyle) -> bool {
    &&& r.string.style.insert == styled(BOLD | crate::style::REVERSED, Option::Some(Color::BrightGreen))
    &&& r.string.style.delete == styled(BOLD | UNDERLINE, Option::Some(Color::BrightRed))
    &&& r.string.style.equal == plain()
    &&& r.string.format.insert@ == "%s"@
    &&& r.string.format.delete@ == "%s"@
    &&& r.string.format.equal@ == "%s"@
    &&& r.collection.element_style.insert == styled(BOLD, Option::Some(Color::BrightGreen))
    &&& r.collection.element_style.delete == styled(BOLD, Option::Some(Color::BrightRed))
    &&& r.collection.element_style.equal == plain()
    &&& r.collection.gutter_char == (DiffSegmentStyle { insert: '+', delete: '-', equal: ' ' })
    &&& r.collection.gutter_style.insert == styled(0, Option::Some(Color::BrightGreen))
    &&& r.collection.gutter_style.delete == styled(0, Option::Some(Color::BrightRed))
    &&& r.collection.gutter_style.equal == plain()
}

impl DiffStyle {
    /// The styling that `eq_diff` uses.
    pub fn provided() -> (r: DiffStyle)
        ensures
            is_provided_style(r),
    {
        DiffStyle { string: StringDiffStyle::provided(), collection: CollectionDiffStyle::provided() }
    }
}

impl Default for DiffStyle {
    /// No styling at all.
    fn default() -> (r: DiffStyle)
        ensures
            r.string.style.insert == plain() && r.string.style.delete == plain()
                && r.string.style.equal == plain(),
            r.string.format.insert@ == "%s"@,
            r.string.format.delete@ == "%s"@,
            r.string.format.equal@ == "%s"@,
            r.collection.element_style.insert == plain() && r.collection.element_style.delete
                == plain() && r.collection.element_style.equal == plain(),
            r.collection.gutter_char == (DiffSegmentStyle { insert: ' ', delete: ' ', equal: ' ' }),
            r.collection.gutter_style.insert == plain() && r.collection.gutter_style.delete
                == plain() && r.collection.gutter_style.equal == plain(),
    {
        DiffStyle { string: StringDiffStyle::default(), collection: CollectionDiffStyle::default() }
    }
}

/// Whether `%s` starts at index `k` of `f`.
pub open spec fn placeholder_at(f: Seq<char>, k: int) -> bool {
    0 <= k && k + 1 < f.len() && f[k] == '%' && f[k + 1] == 's'
}

/// The first index at or after `k` where `%s` starts in `f`, if any.
pub open spec fn first_placeholder(f: Seq<char>, k: nat) -> Option<nat>
    decreases f.len() - k,
{
    if k + 1 >= f.len() {
        Option::None
    } else if placeholder_at(f, k as int) {
        Option::Some(k)
    } else {
        first_placeholder(f, k + 1)
    }
}

/// `f` with its first `%s` replaced by `text`, as `str::replacen(.., 1)` does.
pub open spec fn replace_first(f: Seq<char>, text: Seq<char>) -> Seq<char> {
    match first_placeholder(f, 0) {
        Option::Some(k) => f.take(k as int) + text + f.skip(k + 2int),
        Option::None => f,
    }
}

/// Replace the first `%s` in `format` by `text`.
pub fn replace_placeholder(format: &str, text: &[char]) -> (r: Vec<char>)
    ensures
        r@ == replace_first(format@, text@),
{
    let f = to_chars(format);
    let mut k: usize = 0;
    while k < f.len() && k + 1 < f.len()
        invariant
            k <= f@.len(),
            f@ == format@,
            first_placeholder(f@, 0) == first_placeholder(f@, k as nat),
        decreases f@.len() - k,
    {
        if f[k] == '%' && f[k + 1] == 's' {
            let mut r: Vec<char> = Vec::new();
            let mut i: usize = 0;
            while i < k
                invariant
                    i <= k,
                    k < f@.len(),
                    r@ == f@.take(i as int),
                decreases k - i,
            {
                r.push(f[i]);
                assert(f@.take(i + 1) =~= f@.take(i as int).push(f@[i as int]));
                i = i + 1;
            }
            extend_chars(&mut r, text);
            let mut j: usize = k + 2;
            let ghost base = r@;
            while j < f.len()
                invariant
                    k + 2 <= j <= f@.len(),
                    r@ == base + f@.subrange(k + 2, j as int),
                decreases f@.len() - j,
            {
                r.push(f[j]);
                assert(f@.subrange(k + 2, j + 1) =~= f@.subrange(k + 2, j as int).push(f@[j as int]));
                j = j + 1;
            }
            assert(f@.subrange(k + 2, f@.len() as int) =~= f@.skip(k + 2));
            return r;
        }
        k = k + 1;
    }
    f
}

/// The pieces of a string diff, each in its style and written with its
/// format string, for the first `k` pieces.
pub open spec fn string_diff_upto(st: StringDiffStyle, m: Seq<Seg>, segs: Seq<(DiffTag, Seq<char>)>, k: nat) -> Seq<Seg>
    decreases k,
{
    if k == 0 {
        m
    } else {
        let (tag, text) = segs[k - 1];
        fm_write(fm_style(string_diff_upto(st, m, segs, (k - 1) as nat), pick(st.style, tag)), replace_first(pick(st.format, tag)@, text))
    }
}

/// The elements of a collection diff, one per line after a gutter
/// character, for the first `k` pieces.
pub open spec fn collection_diff_upto(st: CollectionDiffStyle, m: Seq<Seg>, segs: Seq<(DiffTag, Seq<char>)>, k: nat) -> Seq<Seg>
    decreases k,
{
    if k == 0 {
        m
    } else {
        let (tag, text) = segs[k - 1];
        let m0 = collection_diff_upto(st, m, segs, (k - 1) as nat);
        let m1 = fm_write(fm_style(m0, pick(st.gutter_style, tag)), seq![pick(st.gutter_char, tag)]);
        let m2 = fm_write(fm_style(m1, plain()), spaces(3));
        let m3 = fm_style(fm_write(fm_style(m2, pick(st.element_style, tag)), text), plain());
        fm_write(fm_write(m3, seq![',']), seq!['\n'])
    }
}

/// The bracket that opens a collection of the given kind.
pub open spec fn open_bracket(kind: DiffKind) -> char {
    if kind == DiffKind::SliceKind { '[' } else { '{' }
}

/// The bracket that closes a collection of the given kind.
pub open spec fn close_bracket(kind: DiffKind) -> char {
    if kind == DiffKind::SliceKind { ']' } else { '}' }
}

/// The body of a diff, before it is indented.
pub open spec fn diff_body(style: DiffStyle, kind: DiffKind, segs: Seq<(DiffTag, Seq<char>)>) -> Seq<Seg> {
    if kind == DiffKind::StringKind {
        string_diff_upto(style.string, fresh(plain()), segs, segs.len())
    } else {
        let m0 = fm_write(fm_write(fresh(plain()), seq![open_bracket(kind)]), seq!['\n']);
        fm_write(collection_diff_upto(style.collection, m0, segs, segs.len()), seq![close_bracket(kind)])
    }
}

/// A formatter for [`Diff`] values.
#[derive(Debug)]
pub struct DiffFormat {
    style: DiffStyle,
}

impl DiffFormat {
    /// A formatter with the given style sheet.
    pub fn new(style: DiffStyle) -> (r: DiffFormat)
        ensures
            r.style() == style,
    {
        DiffFormat { style }
    }

    /// The style sheet.
    pub closed spec fn style(&self) -> DiffStyle {
        self.style
    }

    /// What this formatter writes, from state `m`.
    pub open spec fn output(&self, m: Seq<Seg>, v: MatchFailure<FailView>) -> Seq<Seg> {
        match inner_view(v) {
            FailView::Diff(kind, segs) => {
                let header = if v is Pos {
                    "Expected these to be equal:\n"@
                } else {
                    "Expected these to not be equal:\n"@
                };
                let m1 = fm_style(fm_write(fm_style(m, important_style()), header), plain());
                fm_output(m1, spec_indent_segments(diff_body(self.style(), kind, segs), spaces(4), false))
            },
            _ => m,
        }
    }

    fn write_string_diff(&self, f: &mut Formatter, segs: &Vec<DiffSegment>)
        ensures
            final(f)@ == string_diff_upto(
                self.style.string,
                old(f)@,
                segs@.map_values(|x: DiffSegment| diff_segment_view(x)),
                segs@.len(),
            ),
    {
        let ghost sv = segs@.map_values(|x: DiffSegment| diff_segment_view(x));
        let ghost m0 = f@;
        let mut i: usize = 0;
        while i < segs.len()
            invariant
                i <= segs@.len(),
                sv == segs@.map_values(|x: DiffSegment| diff_segment_view(x)),
                f@ == string_diff_upto(self.style.string, m0, sv, i as nat),
            decreases segs@.len() - i,
        {
            let seg = &segs[i];
            let format = self.style.string.format.get(seg.tag);
            let style = self.style.string.style.get(seg.tag);
            let text = to_chars(seg.text.as_str());
            let formatted = replace_placeholder(format.as_str(), text.as_slice());
            f.set_style(*style);
            f.write_chars(formatted.as_slice());
            i = i + 1;
        }
    }

    fn write_collection_diff(&self, f: &mut Formatter, segs: &Vec<DiffSegment>)
        ensures
            final(f)@ == collection_diff_upto(
                self.style.collection,
                old(f)@,
                segs@.map_values(|x: DiffSegment| diff_segment_view(x)),
                segs@.len(),
            ),
    {
        let ghost sv = segs@.map_values(|x: DiffSegment| diff_segment_view(x));
        let ghost m0 = f@;
        let gap = whitespace((crate::style::indent_len(1) - 1) as usize);
        let mut i: usize = 0;
        while i < segs.len()
            invariant
                i <= segs@.len(),
                sv == segs@.map_values(|x: DiffSegment| diff_segment_view(x)),
                gap@ == spaces(3),
                f@ == collection_diff_upto(self.style.collection, m0, sv, i as nat),
            decreases segs@.len() - i,
        {
            let seg = &segs[i];
            let st = &self.style.collection;
            f.set_style(*st.gutter_style.get(seg.tag));
            f.write_char(*st.gutter_char.get(seg.tag));
            f.reset_style();
            f.write_str(gap.as_str());
            f.set_style(*st.element_style.get(seg.tag));
            f.write_str(seg.text.as_str());
            f.reset_style();
            f.write_char(',');
            f.write_char('\n');
            i = i + 1;
        }
    }

    /// Write a failure.
    pub fn fmt(&self, f: &mut Formatter, value: MatchFailure<FailData>)
        ensures
            final(f)@ == self.output(old(f)@, failure_view(value)),
    {
        let is_pos = value.is_pos();
        match value.into_inner() {
            FailData::Diff(diff) => {
                f.set_style(important());
                if is_pos {
                    f.write_str("Expected these to be equal:\n");
                } else {
                    f.write_str("Expected these to not be equal:\n");
                }
                f.reset_style();
                let mut body = f.child();
                match diff.kind {
                    DiffKind::StringKind => {
                        self.write_string_diff(&mut body, &diff.segments);
                    },
                    _ => {
                        let is_slice = diff.kind == DiffKind::SliceKind;
                        body.write_char(if is_slice { '[' } else { '{' });
                        body.write_char('\n');
                        self.write_collection_diff(&mut body, &diff.segments);
                        body.write_char(if is_slice { ']' } else { '}' });
                    },
                }
                let ind = crate::style::indent(1);
                f.indented(ind.as_str(), body.into_output());
            },
            _ => {},
        }
    }
}


// ---------------------------------------------------------------------------
// NegFormat, DispatchFormat and the formatter of a matcher

/// A formatter that negates another one: it writes what the other writes
/// for the opposite case.
#[derive(Debug)]
pub struct NegFormat(pub Box<FailFormat>);

/// A formatter that writes the positive case with one formatter and the
/// negative case with another.
#[derive(Debug)]
pub struct DispatchFormat {
    /// The formatter of the positive case.
    pub pos_fmt: Box<FailFormat>,
    /// The formatter of the negative case.
    pub neg_fmt: Box<FailFormat>,
}

impl DispatchFormat {
    /// A formatter that dispatches to `pos_fmt` and `neg_fmt`.
    pub fn new(pos_fmt: FailFormat, neg_fmt: FailFormat) -> (r: DispatchFormat)
        ensures
            *r.pos_fmt == pos_fmt,
            *r.neg_fmt == neg_fmt,
    {
        DispatchFormat { pos_fmt: Box::new(pos_fmt), neg_fmt: Box::new(neg_fmt) }
    }
}

/// The formatter of a matcher.
#[derive(Debug)]
pub enum FailFormat {
    /// See [`MismatchFormat`].
    Mismatch(MismatchFormat),
    /// See [`ExpectationFormat`].
    Expectation(ExpectationFormat),
    /// See [`MessageFormat`].
    Message(MessageFormat),
    /// See [`FailureFormat`].
    Failure(FailureFormat),
    /// See [`WhyFormat`].
    Why(WhyFormat),
    /// See [`HeaderFormat`].
    Header(HeaderFormat),
    /// See [`DiffFormat`].
    Diff(DiffFormat),
    /// See [`NegFormat`].
    Neg(NegFormat),
    /// See [`DispatchFormat`].
    Dispatch(DispatchFormat),
    /// See [`InfallibleFormat`].
    Infallible(InfallibleFormat),
    /// See [`NoneFormat`].
    PosOnly(NoneFormat),
}

/// The same failure seen from the other side.
pub open spec fn swap_side<T>(v: MatchFailure<T, T>) -> MatchFailure<T, T> {
    match v {
        MatchFailure::Pos(x) => MatchFailure::Neg(x),
        MatchFailure::Neg(x) => MatchFailure::Pos(x),
    }
}

/// What `format` writes for the failure `v`, from state `m`.
pub open spec fn format_output(format: FailFormat, m: Seq<Seg>, v: MatchFailure<FailView>) -> Seq<Seg>
    decreases format,
{
    match format {
        FailFormat::Mismatch(x) => x.output(m, v),
        FailFormat::Expectation(x) => x.output(m, v),
        FailFormat::Message(x) => x.output(m, v),
        FailFormat::Failure(x) => x.output(m, v),
        FailFormat::Why(x) => x.output(m, v),
        FailFormat::Header(x) => x.output(m, v),
        FailFormat::Diff(x) => x.output(m, v),
        FailFormat::Neg(x) => format_output(*x.0, m, swap_side(v)),
        FailFormat::Dispatch(x) => match v {
            MatchFailure::Pos(_) => format_output(*x.pos_fmt, m, v),
            MatchFailure::Neg(_) => format_output(*x.neg_fmt, m, v),
        },
        FailFormat::Infallible(_) => m,
        FailFormat::PosOnly(x) => x.output(m, v),
    }
}

/// The output of `format` for the failure `v`, on its own.
pub open spec fn formatted(format: FailFormat, v: MatchFailure<FailView>) -> Seq<Seg> {
    format_output(format, fresh(plain()), v)
}

fn swap_failure(v: MatchFailure<FailData>) -> (r: MatchFailure<FailData>)
    ensures
        failure_view(r) == swap_side(failure_view(v)),
{
    match v {
        MatchFailure::Pos(x) => MatchFailure::Neg(x),
        MatchFailure::Neg(x) => MatchFailure::Pos(x),
    }
}

impl FailFormat {
    /// Write a failure.
    pub fn fmt(&self, f: &mut Formatter, value: MatchFailure<FailData>)
        ensures
            final(f)@ == format_output(*self, old(f)@, failure_view(value)),
        decreases self,
    {
        match self {
            FailFormat::Mismatch(x) => x.fmt(f, value),
            FailFormat::Expectation(x) => x.fmt(f, value),
            FailFormat::Message(x) => x.fmt(f, value),
            FailFormat::Failure(x) => x.fmt(f, value),
            FailFormat::Why(x) => x.fmt(f, value),
            FailFormat::Header(x) => x.fmt(f, value),
            FailFormat::Diff(x) => x.fmt(f, value),
            FailFormat::Neg(x) => x.0.fmt(f, swap_failure(value)),
            FailFormat::Dispatch(x) => {
                if value.is_pos() {
                    x.pos_fmt.fmt(f, value)
                } else {
                    x.neg_fmt.fmt(f, value)
                }
            },
            FailFormat::Infallible(x) => x.fmt(f, value),
            FailFormat::PosOnly(x) => x.fmt(f, value),
        }
    }
}

impl FormattedFailure {
    /// Format `fail` with `format`.
    pub fn new(fail: MatchFailure<FailData>, format: &FailFormat) -> (r: FormattedFailure)
        ensures
            r@ == formatted(*format, failure_view(fail)),
    {
        FormattedFailure::from_output(FormattedOutput::new(fail, format))
    }
}

impl FormattedOutput {
    /// Format `value` with `format`.
    pub fn new(value: MatchFailure<FailData>, format: &FailFormat) -> (r: FormattedOutput)
        ensures
            r@ == formatted(*format, failure_view(value)),
    {
        let mut f = Formatter::new();
        format.fmt(&mut f, value);
        f.into_output()
    }
}

} // verus!
