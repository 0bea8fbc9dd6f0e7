//! The provided matchers, each a test paired with the formatter of its
//! failures.

use vstd::prelude::*;
use crate::format::{
    DiffFormat, DiffStyle, DispatchFormat, ExpectationFormat, FailFormat, FailureFormat,
    HeaderBody, HeaderFormat, MessageFormat, MismatchFormat, NegFormat, SomeFailuresFormat,
    ByFieldFormat, WhyFormat,
};
use crate::matcher::{
    CombinatorMode, FieldSpec, FileExistsMode, Inequality, MatchKind, Matcher, SortKey, SortOrder,
};
use crate::style::{
    ALL_FIELDS_OK_HEADER, ALL_OK_HEADER, AT_LESAT_ONE_FIELD_OK_HEADER, AT_LESAT_ONE_NOT_OK_MSG,
    AT_LESAT_ONE_OK_HEADER,
};
use crate::value::Value;

verus! {

/// `f` is a [`MismatchFormat`] with these messages.
pub open spec fn is_mismatch_format(f: FailFormat, pos: Seq<char>, neg: Seq<char>) -> bool {
    f matches FailFormat::Mismatch(x) && x.pos_msg() == pos && x.neg_msg() == neg
}

/// `f` is an [`ExpectationFormat`] with these messages.
pub open spec fn is_expectation_format(f: FailFormat, pos: Seq<char>, neg: Seq<char>) -> bool {
    f matches FailFormat::Expectation(x) && x.pos_msg() == pos && x.neg_msg() == neg
}

/// `f` is a [`MessageFormat`] with these messages.
pub open spec fn is_message_format(f: FailFormat, pos: Seq<char>, neg: Seq<char>) -> bool {
    f matches FailFormat::Message(x) && x.pos_msg() == pos && x.neg_msg() == neg
}

/// `f` is a [`HeaderFormat`] over the failures of several matchers, with
/// these headers.
pub open spec fn is_some_failures_format(f: FailFormat, pos: Seq<char>, neg: Seq<char>) -> bool {
    f matches FailFormat::Header(x) && x.inner() is SomeFailures && x.pos_header() == pos
        && x.neg_header() == neg
}

/// `f` is a [`HeaderFormat`] over the fields of the struct `name`, with
/// these headers.
pub open spec fn is_by_field_format(f: FailFormat, name: Seq<char>, pos: Seq<char>, neg: Seq<char>) -> bool {
    f matches FailFormat::Header(x) && x.inner() matches HeaderBody::ByField(b) && b.struct_name()
        == name && x.pos_header() == pos && x.neg_header() == neg
}

/// Whether a test hands on the value it was given, unchanged, whenever it
/// succeeds.
pub open spec fn is_simple(k: MatchKind) -> bool {
    !(k is BeSome || k is BeOk || k is Not || k is All || k is Every || k is Elements
        || k is Fields || k is Wrapped)
}

impl Matcher {
    /// A matcher that runs the test `kind` and formats its failures with `format`.
    pub fn new(kind: MatchKind, format: FailFormat) -> (r: Matcher)
        ensures
            r.kind == kind,
            !r.negated,
            r.format == format,
    {
        Matcher { kind, negated: false, format }
    }

    /// Same as [`Matcher::new`], but negated: it succeeds when the test fails.
    pub fn neg(kind: MatchKind, format: FailFormat) -> (r: Matcher)
        ensures
            r.kind == kind,
            r.negated,
            r.format == format,
    {
        Matcher { kind, negated: true, format }
    }

    /// Same as [`Matcher::new`], for a test that hands on its value unchanged.
    pub fn simple(kind: MatchKind, format: FailFormat) -> (r: Matcher)
        requires
            is_simple(kind),
        ensures
            r.kind == kind,
            !r.negated,
            r.format == format,
    {
        Matcher::new(kind, format)
    }

    /// Same as [`Matcher::neg`], for a test that hands on its value unchanged.
    pub fn simple_neg(kind: MatchKind, format: FailFormat) -> (r: Matcher)
        requires
            is_simple(kind),
        ensures
            r.kind == kind,
            r.negated,
            r.format == format,
    {
        Matcher::neg(kind, format)
    }

    /// This matcher, with its failures formatted once more by `format`.
    pub fn wrapped(self, format: FailFormat) -> (r: Matcher)
        ensures
            r.kind == MatchKind::Wrapped(Box::new(self)),
            !r.negated,
            r.format == format,
    {
        Matcher::new(MatchKind::Wrapped(Box::new(self)), format)
    }
}

fn mismatch(pos: &str, neg: &str) -> (r: FailFormat)
    ensures
        is_mismatch_format(r, pos@, neg@),
{
    FailFormat::Mismatch(MismatchFormat::new(pos, neg))
}

fn expectation(pos: &str, neg: &str) -> (r: FailFormat)
    ensures
        is_expectation_format(r, pos@, neg@),
{
    FailFormat::Expectation(ExpectationFormat::new(pos, neg))
}

fn message(pos: &str, neg: &str) -> (r: FailFormat)
    ensures
        is_message_format(r, pos@, neg@),
{
    FailFormat::Message(MessageFormat::new(pos, neg))
}

fn some_failures(pos: &str, neg: &str) -> (r: FailFormat)
    ensures
        is_some_failures_format(r, pos@, neg@),
{
    FailFormat::Header(HeaderFormat::new(HeaderBody::SomeFailures(SomeFailuresFormat::new()), pos, neg))
}

/// Succeeds when the actual value equals `expected`.
pub fn equal(expected: Value) -> (r: Matcher)
    ensures
        r.kind == MatchKind::Equal(expected),
        !r.negated,
        is_mismatch_format(r.format, "to equal"@, "to not equal"@),
{
    Matcher::new(MatchKind::Equal(expected), mismatch("to equal", "to not equal"))
}

/// Succeeds when the actual value equals `expected`; a failure shows a diff.
pub fn eq_diff(expected: Value) -> (r: Matcher)
    ensures
        r.kind == MatchKind::EqDiff(expected),
        !r.negated,
        r.format matches FailFormat::Diff(d) && crate::format::is_provided_style(d.style()),
{
    let style = DiffStyle::provided();
    Matcher::new(MatchKind::EqDiff(expected), FailFormat::Diff(DiffFormat::new(style)))
}

/// Succeeds when the actual value is greater than `expected`.
pub fn be_gt(expected: Value) -> (r: Matcher)
    ensures
        r.kind == MatchKind::Ord(expected, Inequality::Greater),
        !r.negated,
        is_mismatch_format(r.format, "to be greater than"@, "to not be greater than"@),
{
    Matcher::new(
        MatchKind::Ord(expected, Inequality::Greater),
        mismatch("to be greater than", "to not be greater than"),
    )
}

/// Succeeds when the actual value is greater than or equal to `expected`.
pub fn be_ge(expected: Value) -> (r: Matcher)
    ensures
        r.kind == MatchKind::Ord(expected, Inequality::GreaterOrEqual),
        !r.negated,
        is_mismatch_format(
            r.format,
            "to be greater than or equal to"@,
            "to not be greater than or equal to"@,
        ),
{
    Matcher::new(
        MatchKind::Ord(expected, Inequality::GreaterOrEqual),
        mismatch("to be greater than or equal to", "to not be greater than or equal to"),
    )
}

/// Succeeds when the actual value is less than `expected`.
pub fn be_lt(expected: Value) -> (r: Matcher)
    ensures
        r.kind == MatchKind::Ord(expected, Inequality::Less),
        !r.negated,
        is_mismatch_format(r.format, "to be less than"@, "to not be less than"@),
{
    Matcher::new(
        MatchKind::Ord(expected, Inequality::Less),
        mismatch("to be less than", "to not be less than"),
    )
}

/// Succeeds when the actual value is less than or equal to `expected`.
pub fn be_le(expected: Value) -> (r: Matcher)
    ensures
        r.kind == MatchKind::Ord(expected, Inequality::LessOrEqual),
        !r.negated,
        is_mismatch_format(
            r.format,
            "to be less than or equal to"@,
            "to not be less than or equal to"@,
        ),
{
    Matcher::new(
        MatchKind::Ord(expected, Inequality::LessOrEqual),
        mismatch("to be less than or equal to", "to not be less than or equal to"),
    )
}

fn bool_format() -> (r: FailFormat)
    ensures
        is_message_format(r, "Expected this to be true."@, "Expected this to be false."@),
{
    message("Expected this to be true.", "Expected this to be false.")
}

/// Succeeds when the actual value is `true`.
pub fn be_true() -> (r: Matcher)
    ensures
        r.kind == MatchKind::BeTrue,
        !r.negated,
        is_message_format(r.format, "Expected this to be true."@, "Expected this to be false."@),
{
    Matcher::simple(MatchKind::BeTrue, bool_format())
}

/// Succeeds when the actual value is `false`.
pub fn be_false() -> (r: Matcher)
    ensures
        r.kind == MatchKind::BeTrue,
        r.negated,
        r.format matches FailFormat::Neg(x) && is_message_format(
            *x.0,
            "Expected this to be true."@,
            "Expected this to be false."@,
        ),
{
    Matcher::simple_neg(MatchKind::BeTrue, FailFormat::Neg(NegFormat(Box::new(bool_format()))))
}

fn option_format() -> (r: FailFormat)
    ensures
        is_expectation_format(r, "to be Some(_)"@, "to be None"@),
{
    expectation("to be Some(_)", "to be None")
}

/// Succeeds when the actual value is `Some`; hands on what it holds.
pub fn be_some() -> (r: Matcher)
    ensures
        r.kind == MatchKind::BeSome,
        !r.negated,
        is_expectation_format(r.format, "to be Some(_)"@, "to be None"@),
{
    Matcher::new(MatchKind::BeSome, option_format())
}

/// Succeeds when the actual value is `None`.
pub fn be_none() -> (r: Matcher)
    ensures
        r.kind == MatchKind::BeSome,
        r.negated,
        r.format matches FailFormat::Neg(x) && is_expectation_format(*x.0, "to be Some(_)"@, "to be None"@),
{
    Matcher::neg(MatchKind::BeSome, FailFormat::Neg(NegFormat(Box::new(option_format()))))
}

fn result_format() -> (r: FailFormat)
    ensures
        is_expectation_format(r, "to be Ok(_)"@, "to be Err(_)"@),
{
    expectation("to be Ok(_)", "to be Err(_)")
}

/// Succeeds when the actual value is `Ok`; hands on what it holds.
pub fn be_ok() -> (r: Matcher)
    ensures
        r.kind == MatchKind::BeOk,
        !r.negated,
        is_expectation_format(r.format, "to be Ok(_)"@, "to be Err(_)"@),
{
    Matcher::new(MatchKind::BeOk, result_format())
}

/// Succeeds when the actual value is `Err`; hands on what it holds.
pub fn be_err() -> (r: Matcher)
    ensures
        r.kind == MatchKind::BeOk,
        r.negated,
        r.format matches FailFormat::Neg(x) && is_expectation_format(*x.0, "to be Ok(_)"@, "to be Err(_)"@),
{
    Matcher::neg(MatchKind::BeOk, FailFormat::Neg(NegFormat(Box::new(result_format()))))
}

/// Negates the matcher passed to it.
pub fn not(matcher: Matcher) -> (r: Matcher)
    ensures
        r.kind == MatchKind::Not(Box::new(matcher)),
        !r.negated,
        r.format is Failure,
{
    Matcher::new(MatchKind::Not(Box::new(matcher)), FailFormat::Failure(FailureFormat::new()))
}

/// Succeeds when each matcher succeeds on what the one before handed on;
/// hands on what the last one handed on.
pub fn all(matchers: Vec<Matcher>) -> (r: Matcher)
    ensures
        r.kind == MatchKind::All(matchers),
        !r.negated,
        r.format matches FailFormat::Dispatch(d) && *d.pos_fmt is Failure && is_message_format(
            *d.neg_fmt,
            ""@,
            AT_LESAT_ONE_NOT_OK_MSG@,
        ),
{
    let format = DispatchFormat::new(
        FailFormat::Failure(FailureFormat::new()),
        message("", AT_LESAT_ONE_NOT_OK_MSG),
    );
    Matcher::new(MatchKind::All(matchers), FailFormat::Dispatch(format))
}

/// Succeeds when at least one of the matchers succeeds on the value.
pub fn any(matchers: Vec<Matcher>) -> (r: Matcher)
    ensures
        r.kind == MatchKind::Combinator(CombinatorMode::Any, matchers),
        !r.negated,
        is_some_failures_format(r.format, AT_LESAT_ONE_OK_HEADER@, ALL_OK_HEADER@),
{
    Matcher::new(
        MatchKind::Combinator(CombinatorMode::Any, matchers),
        some_failures(AT_LESAT_ONE_OK_HEADER, ALL_OK_HEADER),
    )
}

/// Succeeds when each of the matchers succeeds on the value.
pub fn each(matchers: Vec<Matcher>) -> (r: Matcher)
    ensures
        r.kind == MatchKind::Combinator(CombinatorMode::All, matchers),
        !r.negated,
        is_some_failures_format(r.format, ALL_OK_HEADER@, AT_LESAT_ONE_OK_HEADER@),
{
    Matcher::new(
        MatchKind::Combinator(CombinatorMode::All, matchers),
        some_failures(ALL_OK_HEADER, AT_LESAT_ONE_OK_HEADER),
    )
}

/// Succeeds when `matcher` succeeds on every element of the actual list;
/// hands on the list of what it handed on.
pub fn every(matcher: Matcher) -> (r: Matcher)
    ensures
        r.kind == MatchKind::Every(Box::new(matcher)),
        !r.negated,
        is_some_failures_format(r.format, ALL_OK_HEADER@, AT_LESAT_ONE_OK_HEADER@),
{
    Matcher::new(MatchKind::Every(Box::new(matcher)), some_failures(ALL_OK_HEADER, AT_LESAT_ONE_OK_HEADER))
}

/// Tests each element of the actual list against the matcher at its index;
/// elements or matchers beyond the shorter of the two are ignored.
pub fn match_elements(matchers: Vec<Matcher>) -> (r: Matcher)
    ensures
        r.kind == MatchKind::Elements(matchers),
        !r.negated,
        is_some_failures_format(r.format, ALL_OK_HEADER@, AT_LESAT_ONE_OK_HEADER@),
{
    Matcher::new(MatchKind::Elements(matchers), some_failures(ALL_OK_HEADER, AT_LESAT_ONE_OK_HEADER))
}

/// The matchers for the fields of a struct of the given name.
#[derive(Debug)]
pub struct FieldsSpec {
    /// The name of the struct, as its failures show it.
    pub struct_name: String,
    /// The matcher of each field.
    pub fields: Vec<FieldSpec>,
}

/// Succeeds when the matchers of all the fields succeed.
pub fn match_fields(spec: FieldsSpec) -> (r: Matcher)
    ensures
        r.kind == MatchKind::Fields(CombinatorMode::All, spec.fields),
        !r.negated,
        is_by_field_format(
            r.format,
            spec.struct_name@,
            ALL_FIELDS_OK_HEADER@,
            AT_LESAT_ONE_FIELD_OK_HEADER@,
        ),
{
    let body = HeaderBody::ByField(ByFieldFormat::new(spec.struct_name.as_str()));
    let format = HeaderFormat::new(body, ALL_FIELDS_OK_HEADER, AT_LESAT_ONE_FIELD_OK_HEADER);
    Matcher::new(MatchKind::Fields(CombinatorMode::All, spec.fields), FailFormat::Header(format))
}

/// Succeeds when the matcher of at least one of the fields succeeds.
pub fn match_any_fields(spec: FieldsSpec) -> (r: Matcher)
    ensures
        r.kind == MatchKind::Fields(CombinatorMode::Any, spec.fields),
        !r.negated,
        is_by_field_format(
            r.format,
            spec.struct_name@,
            AT_LESAT_ONE_FIELD_OK_HEADER@,
            ALL_FIELDS_OK_HEADER@,
        ),
{
    let body = HeaderBody::ByField(ByFieldFormat::new(spec.struct_name.as_str()));
    let format = HeaderFormat::new(body, AT_LESAT_ONE_FIELD_OK_HEADER, ALL_FIELDS_OK_HEADER);
    Matcher::new(MatchKind::Fields(CombinatorMode::Any, spec.fields), FailFormat::Header(format))
}

/// Attaches a reason to a matcher, written above its failures.
pub fn why(matcher: Matcher, reason: &str) -> (r: Matcher)
    ensures
        r.kind == MatchKind::Wrapped(Box::new(matcher)),
        !r.negated,
        r.format matches FailFormat::Why(w) && w.reason() == reason@,
{
    matcher.wrapped(FailFormat::Why(WhyFormat::new(reason)))
}

/// Same as [`why`], with a reason computed beforehand.
pub fn why_lazy(matcher: Matcher, reason: String) -> (r: Matcher)
    ensures
        r.kind == MatchKind::Wrapped(Box::new(matcher)),
        !r.negated,
        r.format matches FailFormat::Why(w) && w.reason() == reason@,
{
    matcher.wrapped(FailFormat::Why(WhyFormat::lazy(reason)))
}

/// Succeeds when the actual collection holds `element`.
pub fn contain_element(element: Value) -> (r: Matcher)
    ensures
        r.kind matches MatchKind::ContainElements(es) && es@ == seq![element],
        !r.negated,
        is_mismatch_format(r.format, "to contain elements"@, "to not contain elements"@),
{
    let mut es: Vec<Value> = Vec::new();
    es.push(element);
    Matcher::new(MatchKind::ContainElements(es), mismatch("to contain elements", "to not contain elements"))
}

/// Succeeds when the actual collection holds each of `elements`.
pub fn contain_elements(elements: Vec<Value>) -> (r: Matcher)
    ensures
        r.kind == MatchKind::ContainElements(elements),
        !r.negated,
        is_mismatch_format(r.format, "to contain elements"@, "to not contain elements"@),
{
    Matcher::new(MatchKind::ContainElements(elements), mismatch("to contain elements", "to not contain elements"))
}

/// Succeeds when the actual list holds exactly `elements`, in any order.
pub fn consist_of(elements: Vec<Value>) -> (r: Matcher)
    ensures
        r.kind == MatchKind::ConsistOf(elements),
        !r.negated,
        is_mismatch_format(r.format, "to consist of elements"@, "to consist of elements"@),
{
    Matcher::new(MatchKind::ConsistOf(elements), mismatch("to consist of elements", "to consist of elements"))
}

/// Succeeds when `collection` holds the actual value.
pub fn be_in(collection: Value) -> (r: Matcher)
    ensures
        r.kind == MatchKind::BeIn(collection),
        !r.negated,
        is_mismatch_format(r.format, "to be in"@, "to not be in"@),
{
    Matcher::new(MatchKind::BeIn(collection), mismatch("to be in", "to not be in"))
}

/// Succeeds when the actual value is the default value of its type.
pub fn be_default() -> (r: Matcher)
    ensures
        r.kind == MatchKind::BeDefault,
        !r.negated,
        is_mismatch_format(r.format, "to be the default value"@, "to not be the default value"@),
{
    Matcher::new(MatchKind::BeDefault, mismatch("to be the default value", "to not be the default value"))
}

/// Succeeds when the actual value has length `len`.
pub fn have_len(len: usize) -> (r: Matcher)
    ensures
        r.kind == MatchKind::HaveLen(len),
        !r.negated,
        is_mismatch_format(r.format, "to have length"@, "to not have length"@),
{
    Matcher::simple(MatchKind::HaveLen(len), mismatch("to have length", "to not have length"))
}

/// Succeeds when the actual value has length zero.
pub fn be_empty() -> (r: Matcher)
    ensures
        r.kind == MatchKind::BeEmpty,
        !r.negated,
        is_expectation_format(r.format, "to be empty"@, "to not be empty"@),
{
    Matcher::simple(MatchKind::BeEmpty, expectation("to be empty", "to not be empty"))
}

/// Succeeds when the actual string contains `substr`.
pub fn contain_substr(substr: &str) -> (r: Matcher)
    ensures
        r.kind matches MatchKind::ContainSubstr(s) && s@ == substr@,
        !r.negated,
        is_mismatch_format(r.format, "to contain the substring"@, "to not contain the substring"@),
{
    Matcher::simple(
        MatchKind::ContainSubstr(String::from_str(substr)),
        mismatch("to contain the substring", "to not contain the substring"),
    )
}

/// Succeeds when the actual string equals `expected` up to case.
pub fn eq_casefold(expected: &str) -> (r: Matcher)
    ensures
        r.kind matches MatchKind::EqCasefold(s) && s@ == expected@,
        !r.negated,
        is_mismatch_format(
            r.format,
            "to equal case-insensitively"@,
            "to not equal case-insensitively"@,
        ),
{
    Matcher::new(
        MatchKind::EqCasefold(String::from_str(expected)),
        mismatch("to equal case-insensitively", "to not equal case-insensitively"),
    )
}

/// Succeeds when the actual string matches the regular expression `regex`.
pub fn match_regex(regex: &str) -> (r: Matcher)
    ensures
        r.kind matches MatchKind::MatchRegex(s) && s@ == regex@,
        !r.negated,
        is_mismatch_format(r.format, "to match the regex"@, "to not match the regex"@),
{
    Matcher::simple(
        MatchKind::MatchRegex(String::from_str(regex)),
        mismatch("to match the regex", "to not match the regex"),
    )
}

/// Succeeds when the actual string is the same JSON value as `json`.
pub fn match_json(json: &str) -> (r: Matcher)
    ensures
        r.kind matches MatchKind::MatchJson(s) && s@ == json@,
        !r.negated,
        is_mismatch_format(r.format, "to be equivalent JSON to"@, "to not be equivalent JSON to"@),
{
    Matcher::simple(
        MatchKind::MatchJson(String::from_str(json)),
        mismatch("to be equivalent JSON to", "to not be equivalent JSON to"),
    )
}

/// Succeeds when the actual list is sorted in ascending order.
pub fn be_sorted_asc() -> (r: Matcher)
    ensures
        r.kind == MatchKind::BeSorted(SortOrder::Asc),
        !r.negated,
        is_message_format(
            r.format,
            "Expected this to be sorted in ascending order"@,
            "Expected this to not be sorted in ascending order"@,
        ),
{
    Matcher::simple(
        MatchKind::BeSorted(SortOrder::Asc),
        message(
            "Expected this to be sorted in ascending order",
            "Expected this to not be sorted in ascending order",
        ),
    )
}

/// Succeeds when the actual list is sorted in descending order.
pub fn be_sorted_desc() -> (r: Matcher)
    ensures
        r.kind == MatchKind::BeSorted(SortOrder::Desc),
        !r.negated,
        is_message_format(
            r.format,
            "Expected this to be sorted in descending order"@,
            "Expected this to not be sorted in descending order"@,
        ),
{
    Matcher::simple(
        MatchKind::BeSorted(SortOrder::Desc),
        message(
            "Expected this to be sorted in descending order",
            "Expected this to not be sorted in descending order",
        ),
    )
}

/// Succeeds when the actual list is sorted in ascending order of `key`.
pub fn be_sorted_by(key: SortKey) -> (r: Matcher)
    ensures
        r.kind == MatchKind::BeSortedBy(key),
        !r.negated,
        is_message_format(r.format, "Expected this to be sorted"@, "Expected this to not be sorted"@),
{
    Matcher::simple(
        MatchKind::BeSortedBy(key),
        message("Expected this to be sorted", "Expected this to not be sorted"),
    )
}

/// Succeeds when the actual time is at most `threshold` nanoseconds away
/// from `expected` (nanoseconds since the UNIX epoch).
pub fn approx_eq_time(expected: u128, threshold: u128) -> (r: Matcher)
    ensures
        r.kind == MatchKind::ApproxEqTime(expected, threshold),
        !r.negated,
        is_mismatch_format(r.format, "to approximately equal"@, "to not approximately equal"@),
{
    Matcher::simple(
        MatchKind::ApproxEqTime(expected, threshold),
        mismatch("to approximately equal", "to not approximately equal"),
    )
}


/// Succeeds when something exists at the path whose state is the actual
/// value.
pub fn be_existing_file() -> (r: Matcher)
    ensures
        r.kind == MatchKind::FileExists(FileExistsMode::Exists),
        !r.negated,
        is_expectation_format(r.format, "to exist in the filesystem"@, "to not exist in the filesystem"@),
{
    Matcher::new(
        MatchKind::FileExists(FileExistsMode::Exists),
        expectation("to exist in the filesystem", "to not exist in the filesystem"),
    )
}

/// Succeeds when a regular file exists at the path whose state is the actual
/// value.
pub fn be_regular_file() -> (r: Matcher)
    ensures
        r.kind == MatchKind::FileExists(FileExistsMode::RegularFile),
        !r.negated,
        is_expectation_format(r.format, "to exist and be a regular file"@, "to not be a regular file"@),
{
    Matcher::new(
        MatchKind::FileExists(FileExistsMode::RegularFile),
        expectation("to exist and be a regular file", "to not be a regular file"),
    )
}

/// Succeeds when a directory exists at the path whose state is the actual
/// value.
pub fn be_directory() -> (r: Matcher)
    ensures
        r.kind == MatchKind::FileExists(FileExistsMode::Directory),
        !r.negated,
        is_expectation_format(r.format, "to exist and be a directory"@, "to not be a directory"@),
{
    Matcher::new(
        MatchKind::FileExists(FileExistsMode::Directory),
        expectation("to exist and be a directory", "to not be a directory"),
    )
}

/// Succeeds when a symbolic link exists at the path whose state is the
/// actual value.
pub fn be_symlink() -> (r: Matcher)
    ensures
        r.kind == MatchKind::FileExists(FileExistsMode::Symlink),
        !r.negated,
        is_expectation_format(r.format, "to exist and be a symbolic link"@, "to not be a symbolic link"@),
{
    Matcher::new(
        MatchKind::FileExists(FileExistsMode::Symlink),
        expectation("to exist and be a symbolic link", "to not be a symbolic link"),
    )
}

/// The state of a path as the file matchers read it: a struct named
/// `PathState` with the path and what was found there.
pub fn path_state(path: &str, exists: bool, is_file: bool, is_dir: bool, is_symlink: bool) -> (r: Value)
    ensures
        r@ == crate::value::Val::Record(
            "PathState"@,
            seq![
                ("path"@, crate::value::Val::Str(path@)),
                ("exists"@, crate::value::Val::Bool(exists)),
                ("is_file"@, crate::value::Val::Bool(is_file)),
                ("is_dir"@, crate::value::Val::Bool(is_dir)),
                ("is_symlink"@, crate::value::Val::Bool(is_symlink)),
            ],
        ),
{
    let mut fs: Vec<crate::value::Field> = Vec::new();
    fs.push(crate::value::Field { name: String::from_str("path"), value: Value::Str(String::from_str(path)) });
    fs.push(crate::value::Field { name: String::from_str("exists"), value: Value::Bool(exists) });
    fs.push(crate::value::Field { name: String::from_str("is_file"), value: Value::Bool(is_file) });
    fs.push(crate::value::Field { name: String::from_str("is_dir"), value: Value::Bool(is_dir) });
    fs.push(crate::value::Field { name: String::from_str("is_symlink"), value: Value::Bool(is_symlink) });
    let r = Value::Record(String::from_str("PathState"), fs);
    proof {
        crate::value::lemma_model_fields(fs@);
    }
    assert(crate::value::model_fields(fs@) =~= seq![
        ("path"@, crate::value::Val::Str(path@)),
        ("exists"@, crate::value::Val::Bool(exists)),
        ("is_file"@, crate::value::Val::Bool(is_file)),
        ("is_dir"@, crate::value::Val::Bool(is_dir)),
        ("is_symlink"@, crate::value::Val::Bool(is_symlink)),
    ]);
    r
}

} // verus!
