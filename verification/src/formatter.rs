//! Styled output: the `Formatter` that formatters write to, and the
//! `FormattedOutput` it produces, both as lists of styled segments.

use vstd::prelude::*;
use crate::style::{plain, OutputStyle};
use crate::text::{from_chars, lines, push_chars, split_lines, to_chars, views};

verus! {

/// A styled piece of text, as the specifications see it.
pub type Seg = (Seq<char>, OutputStyle);

/// A styled segment of a string.
#[derive(Debug)]
pub struct OutputSegment {
    /// The text of the segment.
    pub buf: String,
    /// The style of the whole segment.
    pub style: OutputStyle,
}

impl Clone for OutputSegment {
    fn clone(&self) -> (r: OutputSegment)
        ensures
            r == *self,
    {
        OutputSegment { buf: self.buf.clone(), style: self.style }
    }
}

/// The text and style of a segment.
pub open spec fn seg_view(s: OutputSegment) -> Seg {
    (s.buf@, s.style)
}

/// The texts and styles of a list of segments.
pub open spec fn segs_view(v: Seq<OutputSegment>) -> Seq<Seg> {
    v.map_values(|s: OutputSegment| seg_view(s))
}

/// The plain text of a list of styled segments: their texts one after another.
pub open spec fn text_of(segs: Seq<Seg>) -> Seq<char>
    decreases segs.len(),
{
    if segs.len() == 0 {
        seq![]
    } else {
        text_of(segs.drop_last()) + segs.last().0
    }
}

/// The plain text grows by the text of a segment pushed at the end.
pub proof fn lemma_text_push(segs: Seq<Seg>, s: Seg)
    ensures
        text_of(segs.push(s)) == text_of(segs) + s.0,
{
    assert(segs.push(s).drop_last() == segs);
}

/// The plain text of two lists of segments one after the other.
pub proof fn lemma_text_concat(a: Seq<Seg>, b: Seq<Seg>)
    ensures
        text_of(a + b) == text_of(a) + text_of(b),
    decreases b.len(),
{
    if b.len() == 0 {
        assert(a + b == a);
    } else {
        assert((a + b).drop_last() == a + b.drop_last());
        lemma_text_concat(a, b.drop_last());
    }
}

/// Writing adds the text at the end.
pub proof fn lemma_text_write(m: Seq<Seg>, s: Seq<char>)
    requires
        m.len() > 0,
    ensures
        text_of(fm_write(m, s)) == text_of(m) + s,
{
    assert(fm_write(m, s).drop_last() =~= m.drop_last());
    assert(m.drop_last().push(m.last()) =~= m);
    lemma_text_push(m.drop_last(), m.last());
}

/// Changing the style adds no text.
pub proof fn lemma_text_style(m: Seq<Seg>, style: OutputStyle)
    ensures
        text_of(fm_style(m, style)) == text_of(m),
{
    lemma_text_push(m, (seq![], style));
    assert(text_of(m) + Seq::<char>::empty() =~= text_of(m));
}

/// Passing output through adds its text at the end.
pub proof fn lemma_text_output(m: Seq<Seg>, out: Seq<Seg>)
    ensures
        text_of(fm_output(m, out)) == text_of(m) + text_of(out),
{
    let tail = seq![(Seq::<char>::empty(), m.last().1)];
    lemma_text_concat(m + out, tail);
    lemma_text_concat(m, out);
    assert(tail.drop_last() =~= Seq::<Seg>::empty());
    assert(text_of(tail.drop_last()) =~= Seq::<char>::empty());
    assert(tail.last().0 =~= Seq::<char>::empty());
    assert(text_of(tail) =~= Seq::<char>::empty());
    assert(text_of(m) + text_of(out) + Seq::<char>::empty() =~= text_of(m) + text_of(out));
}

/// Writing `s` to a formatter in state `m`: the text goes to the last segment.
pub open spec fn fm_write(m: Seq<Seg>, s: Seq<char>) -> Seq<Seg> {
    m.update(m.len() - 1, (m.last().0 + s, m.last().1))
}

/// Changing the style of a formatter in state `m`: later text goes to a new segment.
pub open spec fn fm_style(m: Seq<Seg>, style: OutputStyle) -> Seq<Seg> {
    m.push((seq![], style))
}

/// Passing pre-formatted segments through a formatter in state `m`; the style
/// in effect before stays in effect after.
pub open spec fn fm_output(m: Seq<Seg>, out: Seq<Seg>) -> Seq<Seg> {
    m + out + seq![(Seq::<char>::empty(), m.last().1)]
}

/// Writing `text` to a formatter in state `m`, indented by `prefix`, in the
/// style in effect.
pub open spec fn fm_text_indented(m: Seq<Seg>, prefix: Seq<char>, text: Seq<char>) -> Seq<Seg> {
    fm_output(m, spec_indent_segments(seq![(text, m.last().1)], prefix, false))
}

/// The segments of `segs[0..k]` whose text is not empty.
pub open spec fn nonempty_segs(segs: Seq<Seg>, k: nat) -> Seq<Seg>
    decreases k,
{
    if k == 0 {
        seq![]
    } else {
        let prev = nonempty_segs(segs, (k - 1) as nat);
        if segs[k - 1].0.len() > 0 {
            prev.push(segs[k - 1])
        } else {
            prev
        }
    }
}

/// The segments written for the lines `ls[0..k]` of one segment of style
/// `style`, when indenting by `prefix`.
pub open spec fn indent_seg_lines(
    ls: Seq<Seq<char>>,
    style: OutputStyle,
    prefix: Seq<char>,
    is_last_seg: bool,
    ends_nl: bool,
    k: nat,
) -> Seq<Seg>
    decreases k,
{
    if k == 0 {
        seq![]
    } else {
        let i = k - 1;
        let last_line = i == ls.len() - 1;
        let needs_newline = !last_line || ends_nl;
        let line = if needs_newline { ls[i].push('\n') } else { ls[i] };
        let after: Seq<Seg> = if (!is_last_seg || !last_line) && needs_newline {
            seq![(prefix, plain())]
        } else {
            seq![]
        };
        indent_seg_lines(ls, style, prefix, is_last_seg, ends_nl, (k - 1) as nat) + seq![(line, style)] + after
    }
}

/// The segments written for the first `k` of the non-empty segments `ne`.
pub open spec fn indent_segs_upto(ne: Seq<Seg>, prefix: Seq<char>, k: nat) -> Seq<Seg>
    decreases k,
{
    if k == 0 {
        seq![]
    } else {
        let j = k - 1;
        let s = ne[j];
        let ls = lines(s.0);
        indent_segs_upto(ne, prefix, (k - 1) as nat) + indent_seg_lines(
            ls,
            s.1,
            prefix,
            j == ne.len() - 1,
            s.0.len() > 0 && s.0.last() == '\n',
            ls.len(),
        )
    }
}

/// Styled segments indented by `prefix`: each line of each non-empty segment
/// keeps its style, and the prefix goes in unstyled segments of its own at
/// the start of each line (except the first one when `hanging`).
pub open spec fn spec_indent_segments(segs: Seq<Seg>, prefix: Seq<char>, hanging: bool) -> Seq<Seg> {
    let ne = nonempty_segs(segs, segs.len());
    let head: Seq<Seg> = if hanging { seq![] } else { seq![(prefix, plain())] };
    head + indent_segs_upto(ne, prefix, ne.len())
}

fn plain_segment(buf: String) -> (r: OutputSegment)
    ensures
        seg_view(r) == (buf@, plain()),
{
    OutputSegment { buf, style: OutputStyle::plain() }
}

/// Indent each line of the string represented by the given list of styled
/// segments. The whitespace used for indentation is unstyled.
pub fn indent_segments(segments: Vec<OutputSegment>, prefix: &str, hanging: bool) -> (r: Vec<OutputSegment>)
    ensures
        segs_view(r@) == spec_indent_segments(segs_view(segments@), prefix@, hanging),
{
    let ghost sv = segs_view(segments@);
    let mut new_segments: Vec<OutputSegment> = Vec::new();
    if !hanging {
        new_segments.push(plain_segment(from_chars(to_chars(prefix).as_slice())));
        assert(segs_view(new_segments@) =~= seq![(prefix@, plain())]);
    }
    let ghost head = segs_view(new_segments@);
    // Keep only the non-empty segments.
    let mut ne: Vec<OutputSegment> = Vec::new();
    let mut i: usize = 0;
    while i < segments.len()
        invariant
            i <= segments.len(),
            sv == segs_view(segments@),
            segs_view(ne@) == nonempty_segs(sv, i as nat),
        decreases segments.len() - i,
    {
        let s = &segments[i];
        let chars = to_chars(s.buf.as_str());
        if chars.len() > 0 {
            let ghost n0 = ne@;
            ne.push(s.clone());
            assert(segs_view(ne@) =~= segs_view(n0).push(sv[i as int]));
        }
        i = i + 1;
    }
    let ghost nev = segs_view(ne@);
    assert(sv.len() == segments@.len());
    let mut j: usize = 0;
    while j < ne.len()
        invariant
            j <= ne.len(),
            nev == segs_view(ne@),
            segs_view(new_segments@) == head + indent_segs_upto(nev, prefix@, j as nat),
        decreases ne.len() - j,
    {
        let seg = &ne[j];
        let chars = to_chars(seg.buf.as_str());
        let ends_nl = chars.len() > 0 && chars[chars.len() - 1] == '\n';
        let is_last_seg = j == ne.len() - 1;
        let ls = split_lines(chars.as_slice());
        let ghost base = segs_view(new_segments@);
        let mut k: usize = 0;
        while k < ls.len()
            invariant
                k <= ls.len(),
                j < ne.len(),
                seg == &ne[j as int],
                nev == segs_view(ne@),
                chars@ == seg.buf@,
                is_last_seg == (j == ne.len() - 1),
                ends_nl == (chars@.len() > 0 && chars@.last() == '\n'),
                views(ls@) == lines(chars@),
                segs_view(new_segments@) == base + indent_seg_lines(
                    views(ls@), seg.style, prefix@, is_last_seg, ends_nl, k as nat),
            decreases ls.len() - k,
        {
            let last_line = k == ls.len() - 1;
            let needs_newline = !last_line || ends_nl;
            let mut line = from_chars(ls[k].as_slice());
            if needs_newline {
                line.push('\n');
            }
            let ghost v0 = segs_view(new_segments@);
            proof {
                assert(views(ls@).len() == ls@.len());
                assert(views(ls@)[k as int] == ls@[k as int]@);
            }
            let ghost line_v = line@;
            new_segments.push(OutputSegment { buf: line, style: seg.style });
            if (!is_last_seg || !last_line) && needs_newline {
                new_segments.push(plain_segment(from_chars(to_chars(prefix).as_slice())));
            }
            proof {
                let vl = views(ls@);
                let exp_line = if needs_newline { vl[k as int].push('\n') } else { vl[k as int] };
                assert(line_v == exp_line);
                let after: Seq<Seg> = if (!is_last_seg || !last_line) && needs_newline {
                    seq![(prefix@, plain())]
                } else {
                    seq![]
                };
                assert(last_line == (k == vl.len() - 1));
                assert(indent_seg_lines(vl, seg.style, prefix@, is_last_seg, ends_nl, (k + 1) as nat)
                    == indent_seg_lines(vl, seg.style, prefix@, is_last_seg, ends_nl, k as nat)
                        + seq![(exp_line, seg.style)] + after);
                assert(segs_view(new_segments@) =~= v0 + seq![(exp_line, seg.style)] + after);
            }
            assert(segs_view(new_segments@) =~= base + indent_seg_lines(
                views(ls@), seg.style, prefix@, is_last_seg, ends_nl, (k + 1) as nat));
            k = k + 1;
        }
        assert(segs_view(new_segments@) =~= head + indent_segs_upto(nev, prefix@, (j + 1) as nat));
        j = j + 1;
    }
    new_segments
}

/// Configuration for formatting: the value passed to the `fmt` methods of the
/// formatters. Text written to it is kept with the style in effect at the time.
#[derive(Debug)]
pub struct Formatter {
    prev: Vec<OutputSegment>,
    current: OutputSegment,
}

impl View for Formatter {
    type V = Seq<Seg>;

    closed spec fn view(&self) -> Seq<Seg> {
        segs_view(self.prev@).push(seg_view(self.current))
    }
}

/// A formatter that has not been written to.
pub open spec fn fresh(style: OutputStyle) -> Seq<Seg> {
    seq![(Seq::<char>::empty(), style)]
}

impl Formatter {
    /// A formatter that has not been written to, with the default style.
    pub fn new() -> (r: Formatter)
        ensures
            r@ == fresh(plain()),
    {
        let r = Formatter { prev: Vec::new(), current: plain_segment(String::new()) };
        assert(r@ =~= fresh(plain()));
        r
    }

    /// A formatter that has not been written to, starting with the style
    /// currently in effect here.
    pub fn child(&self) -> (r: Formatter)
        ensures
            r@ == fresh(self@.last().1),
    {
        let r = Formatter {
            prev: Vec::new(),
            current: OutputSegment { buf: String::new(), style: self.current.style },
        };
        assert(r@ =~= fresh(self@.last().1));
        r
    }

    /// Write a string to the output.
    pub fn write_str(&mut self, s: &str)
        ensures
            final(self)@ == fm_write(old(self)@, s@),
    {
        self.current.buf.append(s);
        assert(self@ =~= fm_write(old(self)@, s@));
    }

    /// Write a sequence of characters to the output.
    pub fn write_chars(&mut self, s: &[char])
        ensures
            final(self)@ == fm_write(old(self)@, s@),
    {
        push_chars(&mut self.current.buf, s);
        assert(self@ =~= fm_write(old(self)@, s@));
    }

    /// Write a `char` to the output.
    pub fn write_char(&mut self, c: char)
        ensures
            final(self)@ == fm_write(old(self)@, seq![c]),
    {
        self.current.buf.push(c);
        assert(old(self)@.last().0.push(c) =~= old(self)@.last().0 + seq![c]);
        assert(self@ =~= fm_write(old(self)@, seq![c]));
    }

    fn push_segments(&mut self, segments: Vec<OutputSegment>)
        ensures
            final(self)@ == fm_output(old(self)@, segs_view(segments@)),
    {
        let ghost sv = segs_view(segments@);
        let style = self.current.style;
        let mut old_current = OutputSegment { buf: String::new(), style };
        std::mem::swap(&mut old_current, &mut self.current);
        self.prev.push(old_current);
        let mut segments = segments;
        self.prev.append(&mut segments);
        assert(self@ =~= fm_output(old(self)@, sv));
    }

    /// Pass some pre-formatted output through to the output.
    pub fn write_fmt(&mut self, output: FormattedOutput)
        ensures
            final(self)@ == fm_output(old(self)@, output@),
    {
        self.push_segments(output.segments);
    }

    /// Write pre-formatted output, indented by `prefix`.
    pub fn indented(&mut self, prefix: &str, output: FormattedOutput)
        ensures
            final(self)@ == fm_output(old(self)@, spec_indent_segments(output@, prefix@, false)),
    {
        self.push_segments(indent_segments(output.segments, prefix, false));
    }

    /// Write pre-formatted output, indented by `prefix` except for its first line.
    pub fn indented_hanging(&mut self, prefix: &str, output: FormattedOutput)
        ensures
            final(self)@ == fm_output(old(self)@, spec_indent_segments(output@, prefix@, true)),
    {
        self.push_segments(indent_segments(output.segments, prefix, true));
    }

    /// Write `text` in the current style, indented by `prefix`.
    pub fn write_indented(&mut self, prefix: &str, text: &[char])
        ensures
            final(self)@ == fm_text_indented(old(self)@, prefix@, text@),
    {
        let mut inner = self.child();
        inner.write_chars(text);
        let out = inner.into_output();
        assert(out@ =~= seq![(text@, old(self)@.last().1)]);
        self.indented(prefix, out);
    }

    /// Get the current style.
    pub fn style(&self) -> (r: &OutputStyle)
        ensures
            *r == self@.last().1,
    {
        &self.current.style
    }

    /// Set the current style. Text written from now on has this style.
    pub fn set_style(&mut self, style: OutputStyle)
        ensures
            final(self)@ == fm_style(old(self)@, style),
    {
        let mut old_current = OutputSegment { buf: String::new(), style };
        std::mem::swap(&mut old_current, &mut self.current);
        self.prev.push(old_current);
        assert(self@ =~= fm_style(old(self)@, style));
    }

    /// Change the current style with `block`, which is handed the style in
    /// effect and returns the new one.
    pub fn with_style<F: FnOnce(OutputStyle) -> OutputStyle>(&mut self, block: F)
        requires
            call_requires(block, (old(self)@.last().1,)),
        ensures
            exists|s: OutputStyle|
                call_ensures(block, (old(self)@.last().1,), s) && final(self)@ == fm_style(old(self)@, s),
    {
        let style = block(self.current.style);
        self.set_style(style);
    }

    /// Reset the current colors and text styles to their defaults.
    pub fn reset_style(&mut self)
        ensures
            final(self)@ == fm_style(old(self)@, plain()),
    {
        self.set_style(OutputStyle::plain());
    }

    /// The segments written so far.
    pub fn into_output(self) -> (r: FormattedOutput)
        ensures
            r@ == self@,
    {
        let mut segments = self.prev;
        segments.push(self.current);
        let r = FormattedOutput { segments };
        assert(r@ =~= self@);
        r
    }
}

/// A value that has been formatted: a list of styled segments.
#[derive(Debug)]
pub struct FormattedOutput {
    segments: Vec<OutputSegment>,
}

impl View for FormattedOutput {
    type V = Seq<Seg>;

    closed spec fn view(&self) -> Seq<Seg> {
        segs_view(self.segments@)
    }
}

impl FormattedOutput {
    /// Output made of the given segments.
    pub fn from_segments(segments: Vec<OutputSegment>) -> (r: FormattedOutput)
        ensures
            r@ == segs_view(segments@),
    {
        FormattedOutput { segments }
    }

    /// The styled segments of this output.
    pub fn segments(&self) -> (r: &Vec<OutputSegment>)
        ensures
            segs_view(r@) == self@,
    {
        &self.segments
    }

    /// Return a new output which has been indented by `prefix`. An empty
    /// prefix leaves the output as it is.
    pub fn indented(self, prefix: &str) -> (r: FormattedOutput)
        ensures
            r@ == (if prefix@.len() == 0 { self@ } else { spec_indent_segments(self@, prefix@, false) }),
    {
        if prefix.is_empty() {
            return self;
        }
        FormattedOutput { segments: indent_segments(self.segments, prefix, false) }
    }

    /// Same as `indented`, but the first line is not indented.
    pub fn indented_hanging(self, prefix: &str) -> (r: FormattedOutput)
        ensures
            r@ == (if prefix@.len() == 0 { self@ } else { spec_indent_segments(self@, prefix@, true) }),
    {
        if prefix.is_empty() {
            return self;
        }
        FormattedOutput { segments: indent_segments(self.segments, prefix, true) }
    }

    /// The text of this output without colors and text styles.
    pub fn text(&self) -> (r: String)
        ensures
            r@ == text_of(self@),
    {
        let mut r = String::new();
        let mut i: usize = 0;
        while i < self.segments.len()
            invariant
                i <= self.segments.len(),
                r@ == text_of(self@.take(i as int)),
            decreases self.segments.len() - i,
        {
            r.append(self.segments[i].buf.as_str());
            proof {
                assert(self@.take(i + 1) == self@.take(i as int).push(self@[i as int]));
                lemma_text_push(self@.take(i as int), self@[i as int]);
            }
            i = i + 1;
        }
        assert(self@.take(self@.len() as int) == self@);
        r
    }
}


/// A stream that formatted output can be printed to.
#[derive(Debug, Copy, Clone, PartialEq, Eq, Structural, Hash)]
pub enum OutputStream {
    /// Standard output.
    Stdout,
    /// Standard error.
    Stderr,
}

impl OutputStream {
    /// This is [`OutputStream::Stdout`].
    pub fn is_stdout(&self) -> (r: bool)
        ensures
            r == (*self is Stdout),
    {
        match self {
            OutputStream::Stdout => true,
            OutputStream::Stderr => false,
        }
    }

    /// This is [`OutputStream::Stderr`].
    pub fn is_stderr(&self) -> (r: bool)
        ensures
            r == (*self is Stderr),
    {
        match self {
            OutputStream::Stdout => false,
            OutputStream::Stderr => true,
        }
    }
}

} // verus!
