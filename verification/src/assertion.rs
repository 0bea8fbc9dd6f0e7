//! Assertions: a value, where it came from, and the matchers it is put through.

use vstd::prelude::*;
use crate::format::formatted;
use crate::formatter::{fm_output, fm_style, fm_write, fresh, spec_indent_segments, FormattedOutput, Formatter, Seg};
use crate::matcher::{eval, Matcher, Outcome};
use crate::result::{AssertionFailure, MatchError, MatchOutcome};
use crate::run::run;
use crate::strings::spec_indent;
use crate::style::{info, plain, styled, Color};
use crate::text::{decimal, decimal_chars, extend_chars, spaces, to_chars};
use crate::value::{Val, Value};

verus! {

/// Where in the source an assertion was made.
#[derive(Debug, Clone, PartialEq, Eq)]
pub struct FileLocation {
    /// The file name.
    pub file: String,
    /// The line number.
    pub line: u32,
    /// The column number.
    pub column: u32,
}

/// What an assertion knows of where it was made: the location and the
/// expression under test, when they were recorded.
#[derive(Debug, Clone, PartialEq, Eq)]
pub struct AssertionContext {
    /// The location of the assertion.
    pub location: Option<FileLocation>,
    /// The expression that was passed to the assertion, as written.
    pub expr: Option<String>,
}

impl Default for AssertionContext {
    /// A context that knows nothing.
    fn default() -> (r: AssertionContext)
        ensures
            r.location is None,
            r.expr is None,
    {
        AssertionContext { location: None, expr: None }
    }
}

/// The first line of a failed assertion: the location and the expression,
/// each when known.
pub open spec fn context_line(ctx: AssertionContext) -> Option<Seq<char>> {
    match (ctx.location, ctx.expr) {
        (Option::Some(l), Option::Some(e)) => Option::Some(
            "["@ + l.file@ + ":"@ + decimal(l.line as nat) + ":"@ + decimal(l.column as nat) + "] = "@ + e@
                + "\n"@,
        ),
        (Option::Some(l), Option::None) => Option::Some(
            l.file@ + ":"@ + decimal(l.line as nat) + ":"@ + decimal(l.column as nat) + "\n"@,
        ),
        (Option::None, Option::Some(e)) => Option::Some(e@ + "\n"@),
        (Option::None, Option::None) => Option::None,
    }
}

/// What a failed assertion holds, as the specifications see it: the output
/// of the matcher that failed, or the message of the error.
pub open spec fn error_view(e: MatchError) -> Result<Seq<Seg>, Seq<char>> {
    match e {
        MatchError::Fail(f) => Result::Ok(f@),
        MatchError::Error(s) => Result::Err(s@),
    }
}

/// The formatter of failed assertions.
#[derive(Debug, Default)]
pub struct DefaultAssertionFormat;

impl DefaultAssertionFormat {
    /// What this formatter writes, from state `m`: a newline, the context in
    /// cyan, then the failure indented one level, then a newline.
    pub open spec fn output(&self, m: Seq<Seg>, ctx: AssertionContext, error: Result<Seq<Seg>, Seq<char>>) -> Seq<Seg> {
        let m1 = fm_style(fm_write(m, "\n"@), styled(0, Option::Some(Color::Cyan)));
        let m2 = match context_line(ctx) {
            Option::Some(line) => fm_write(m1, line),
            Option::None => m1,
        };
        let m3 = fm_style(m2, plain());
        let m4 = match error {
            Result::Ok(out) => fm_output(m3, spec_indent_segments(out, spaces(4), false)),
            Result::Err(msg) => fm_write(m3, spec_indent(msg, spaces(4), false)),
        };
        fm_write(m4, "\n"@)
    }

    /// Write a failed assertion.
    pub fn fmt(&self, f: &mut Formatter, value: AssertionFailure<AssertionContext>)
        ensures
            final(f)@ == self.output(old(f)@, value.ctx, error_view(value.error)),
    {
        f.write_str("\n");
        f.set_style(info());
        let line = context_text(&value.ctx);
        match line {
            Option::Some(l) => f.write_chars(l.as_slice()),
            Option::None => {},
        }
        f.reset_style();
        match value.error {
            MatchError::Fail(fail) => f.write_fmt(fail.into_indented(crate::style::indent_len(1))),
            MatchError::Error(msg) => {
                let prefix = crate::style::indent(1);
                let text = crate::strings::indent(msg.as_str(), prefix.as_str(), false);
                f.write_str(text.as_str());
            },
        }
        f.write_str("\n");
    }
}

fn push_str(out: &mut Vec<char>, s: &str)
    ensures
        final(out)@ == old(out)@ + s@,
{
    let cs = to_chars(s);
    extend_chars(out, cs.as_slice());
}

fn context_text(ctx: &AssertionContext) -> (r: Option<Vec<char>>)
    ensures
        match r {
            Option::Some(t) => context_line(*ctx) == Option::Some(t@),
            Option::None => context_line(*ctx) is None,
        },
{
    match (&ctx.location, &ctx.expr) {
        (Option::Some(l), Option::Some(e)) => {
            let mut out: Vec<char> = Vec::new();
            push_str(&mut out, "[");
            push_str(&mut out, l.file.as_str());
            push_str(&mut out, ":");
            let line = decimal_chars(l.line as u128);
            extend_chars(&mut out, line.as_slice());
            push_str(&mut out, ":");
            let column = decimal_chars(l.column as u128);
            extend_chars(&mut out, column.as_slice());
            push_str(&mut out, "] = ");
            push_str(&mut out, e.as_str());
            push_str(&mut out, "\n");
            Option::Some(out)
        },
        (Option::Some(l), Option::None) => {
            let mut out: Vec<char> = Vec::new();
            push_str(&mut out, l.file.as_str());
            push_str(&mut out, ":");
            let line = decimal_chars(l.line as u128);
            extend_chars(&mut out, line.as_slice());
            push_str(&mut out, ":");
            let column = decimal_chars(l.column as u128);
            extend_chars(&mut out, column.as_slice());
            push_str(&mut out, "\n");
            assert(out@ =~= l.file@ + ":"@ + decimal(l.line as nat) + ":"@ + decimal(l.column as nat) + "\n"@);
            Option::Some(out)
        },
        (Option::None, Option::Some(e)) => {
            let mut out: Vec<char> = Vec::new();
            push_str(&mut out, e.as_str());
            push_str(&mut out, "\n");
            assert(out@ =~= e@ + "\n"@);
            Option::Some(out)
        },
        (Option::None, Option::None) => Option::None,
    }
}

/// The output of a failed assertion, on its own.
pub open spec fn assertion_output(ctx: AssertionContext, error: Result<Seq<Seg>, Seq<char>>) -> Seq<Seg> {
    DefaultAssertionFormat.output(fresh(plain()), ctx, error)
}

/// Format a failed assertion.
pub fn failure_output(failure: AssertionFailure<AssertionContext>) -> (r: FormattedOutput)
    ensures
        r@ == assertion_output(failure.ctx, error_view(failure.error)),
{
    let mut f = Formatter::new();
    DefaultAssertionFormat.fmt(&mut f, failure);
    f.into_output()
}

/// An assertion: the value under test, the formatter of its failures, and
/// what it knows of where it was made.
#[derive(Debug)]
pub struct Assertion {
    value: Value,
    format: DefaultAssertionFormat,
    ctx: AssertionContext,
}

/// What the failure of a matcher that did not give `o` would be: its output,
/// or its error.
pub open spec fn outcome_error(o: Outcome) -> Result<Seq<Seg>, Seq<char>> {
    match o {
        Outcome::Fail(out) => Result::Ok(out),
        Outcome::Error(e) => Result::Err(e),
        Outcome::Success(_) => Result::Err(seq![]),
    }
}

impl Assertion {
    /// The value under test.
    pub closed spec fn actual(&self) -> Val {
        self.value@
    }

    /// The value under test itself.
    pub closed spec fn held(&self) -> Value {
        self.value
    }

    /// What the assertion knows of where it was made.
    pub closed spec fn context(&self) -> AssertionContext {
        self.ctx
    }

    /// The formatter of the assertion's failures.
    pub closed spec fn formatter(&self) -> DefaultAssertionFormat {
        self.format
    }

    fn check(self, matcher: Matcher, pos: bool) -> (r: Result<Assertion, FormattedOutput>)
        ensures
            match eval(matcher, self.actual(), pos) {
                Outcome::Success(out) => r matches Result::Ok(a) && a.actual() == out && a.context()
                    == self.context(),
                o => r matches Result::Err(f) && f@ == assertion_output(self.context(), outcome_error(o)),
            },
    {
        let Assertion { value, format, ctx } = self;
        match run(&matcher, value, pos) {
            Ok(MatchOutcome::Success(out)) => Ok(Assertion { value: out, format, ctx }),
            Ok(MatchOutcome::Fail(fail)) => Err(failure_output(AssertionFailure { ctx, error: MatchError::Fail(fail) })),
            Err(e) => Err(failure_output(AssertionFailure { ctx, error: MatchError::Error(e) })),
        }
    }

    /// Make an assertion with `matcher`, which must succeed; the assertion
    /// goes on with the value the matcher hands on.
    pub fn to(self, matcher: Matcher) -> (r: Assertion)
        requires
            eval(matcher, self.actual(), true) is Success,
        ensures
            r.actual() == eval(matcher, self.actual(), true)->Success_0,
            r.context() == self.context(),
    {
        match self.check(matcher, true) {
            Ok(a) => a,
            Err(_) => {
                assert(false);
                Assertion { value: Value::Unit, format: DefaultAssertionFormat, ctx: AssertionContext::default() }
            },
        }
    }

    /// Same as [`Assertion::to`], but negated: the matcher must fail.
    pub fn to_not(self, matcher: Matcher) -> (r: Assertion)
        requires
            eval(matcher, self.actual(), false) is Success,
        ensures
            r.actual() == eval(matcher, self.actual(), false)->Success_0,
            r.context() == self.context(),
    {
        match self.check(matcher, false) {
            Ok(a) => a,
            Err(_) => {
                assert(false);
                Assertion { value: Value::Unit, format: DefaultAssertionFormat, ctx: AssertionContext::default() }
            },
        }
    }

    /// Make an assertion with `matcher`: the assertion that goes on when it
    /// succeeds, else the output of the failed assertion.
    pub fn try_to(self, matcher: Matcher) -> (r: Result<Assertion, FormattedOutput>)
        ensures
            match eval(matcher, self.actual(), true) {
                Outcome::Success(out) => r matches Result::Ok(a) && a.actual() == out && a.context()
                    == self.context(),
                o => r matches Result::Err(f) && f@ == assertion_output(self.context(), outcome_error(o)),
            },
    {
        self.check(matcher, true)
    }

    /// Same as [`Assertion::try_to`], but negated.
    pub fn try_to_not(self, matcher: Matcher) -> (r: Result<Assertion, FormattedOutput>)
        ensures
            match eval(matcher, self.actual(), false) {
                Outcome::Success(out) => r matches Result::Ok(a) && a.actual() == out && a.context()
                    == self.context(),
                o => r matches Result::Err(f) && f@ == assertion_output(self.context(), outcome_error(o)),
            },
    {
        self.check(matcher, false)
    }

    /// Map the value under test with `func`.
    pub fn map<F: FnOnce(Value) -> Value>(self, func: F) -> (r: Assertion)
        requires
            call_requires(func, (self.held(),)),
        ensures
            call_ensures(func, (self.held(),), r.held()),
            r.context() == self.context(),
    {
        let Assertion { value, format, ctx } = self;
        let out = func(value);
        Assertion { value: out, format, ctx }
    }

    /// Map the value under test with `func`, which must succeed.
    pub fn try_map<F: FnOnce(Value) -> Result<Value, String>>(self, func: F) -> (r: Assertion)
        requires
            call_requires(func, (self.held(),)),
            forall|o: Result<Value, String>| call_ensures(func, (self.held(),), o) ==> o is Ok,
        ensures
            call_ensures(func, (self.held(),), Result::<Value, String>::Ok(r.held())),
            r.context() == self.context(),
    {
        let Assertion { value, format, ctx } = self;
        match func(value) {
            Ok(out) => Assertion { value: out, format, ctx },
            Err(_) => {
                assert(false);
                Assertion { value: Value::Unit, format, ctx }
            },
        }
    }

    /// The value under test, as the matchers so far handed it on.
    pub fn into_inner(self) -> (r: Value)
        ensures
            r@ == self.actual(),
    {
        self.value
    }

    /// What the assertion knows of where it was made.
    pub fn ctx(&self) -> (r: &AssertionContext)
        ensures
            *r == self.context(),
    {
        &self.ctx
    }

    /// What the assertion knows of where it was made, to change it.
    pub fn ctx_mut(&mut self) -> (r: &mut AssertionContext)
        ensures
            *r == old(self).context(),
            final(self).context() == *final(r),
            final(self).actual() == old(self).actual(),
    {
        &mut self.ctx
    }

    /// The formatter of the assertion's failures, to change it.
    pub fn fmt_mut(&mut self) -> (r: &mut DefaultAssertionFormat)
        ensures
            *r == old(self).formatter(),
            final(self).formatter() == *final(r),
            final(self).context() == old(self).context(),
            final(self).actual() == old(self).actual(),
    {
        &mut self.format
    }

    /// The same assertion, knowing `ctx` of where it was made.
    pub fn with_ctx(self, ctx: AssertionContext) -> (r: Assertion)
        ensures
            r.actual() == self.actual(),
            r.context() == ctx,
    {
        Assertion { value: self.value, format: self.format, ctx }
    }

    /// The formatter of the assertion's failures.
    pub fn fmt(&self) -> (r: &DefaultAssertionFormat)
        ensures
            *r == self.formatter(),
    {
        &self.format
    }

    /// The same assertion, with the formatter `format`.
    pub fn with_fmt(self, format: DefaultAssertionFormat) -> (r: Assertion)
        ensures
            r.formatter() == format,
            r.actual() == self.actual(),
            r.context() == self.context(),
    {
        Assertion { value: self.value, format, ctx: self.ctx }
    }
}

/// Make an assertion on `actual`, knowing nothing of where it was made.
pub fn expect(actual: Value) -> (r: Assertion)
    ensures
        r.actual() == actual@,
        r.context().location is None,
        r.context().expr is None,
{
    Assertion { value: actual, format: DefaultAssertionFormat, ctx: AssertionContext::default() }
}

} // verus!
