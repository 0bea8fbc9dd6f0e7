//! What holds of indented text: styled output indented segment by segment
//! reads as the plain text indented line by line, and a header stands over
//! the indented text of the formatter it wraps.

use vstd::prelude::*;
use crate::format::{formatted, important_style, inner_view, FailFormat, FailView, HeaderFormat};
use crate::result::MatchFailure;
use crate::formatter::{
    fm_output, fm_style, fm_write, fresh, indent_seg_lines, indent_segs_upto, lemma_text_concat, nonempty_segs,
    spec_indent_segments, text_of, Seg,
};
use crate::strings::{indent_lines, spec_indent};
use crate::style::plain;
use crate::text::{lines, lines_state, spaces, strip_cr};

verus! {

/// The text `s` with each line ending (`\n`, or `\r\n`, which becomes
/// `\n`) followed by `prefix`.
pub open spec fn break_all(s: Seq<char>, prefix: Seq<char>) -> Seq<char>
    decreases s.len(),
{
    if s.len() == 0 {
        seq![]
    } else if s.last() == '\n' {
        let before = s.drop_last();
        if before.len() > 0 && before.last() == '\r' {
            break_all(before.drop_last(), prefix) + seq!['\n'] + prefix
        } else {
            break_all(before, prefix) + seq!['\n'] + prefix
        }
    } else {
        break_all(s.drop_last(), prefix) + seq![s.last()]
    }
}

/// [`break_all`], except that a line ending at the very end of `s` is not
/// followed by `prefix`.
pub open spec fn break_inner(s: Seq<char>, prefix: Seq<char>) -> Seq<char> {
    if s.len() > 0 && s.last() == '\n' {
        let before = s.drop_last();
        if before.len() > 0 && before.last() == '\r' {
            break_all(before.drop_last(), prefix) + seq!['\n']
        } else {
            break_all(before, prefix) + seq!['\n']
        }
    } else {
        break_all(s, prefix)
    }
}

/// The lines `ls`, each followed by a line feed and `prefix`.
pub open spec fn lines_broken(ls: Seq<Seq<char>>, prefix: Seq<char>) -> Seq<char>
    decreases ls.len(),
{
    if ls.len() == 0 {
        seq![]
    } else {
        lines_broken(ls.drop_last(), prefix) + ls.last() + seq!['\n'] + prefix
    }
}

pub proof fn lemma_lines_state_broken(s: Seq<char>, prefix: Seq<char>, n: nat)
    requires
        n <= s.len(),
    ensures
        lines_broken(lines_state(s, n).0, prefix) + lines_state(s, n).1 == break_all(s.take(n as int), prefix),
        (lines_state(s, n).1.len() > 0 && lines_state(s, n).1.last() == '\r') <==> (n > 0 && s[n - 1] == '\r'),
        (n > 0 && s[n - 1] != '\n') ==> lines_state(s, n).1.len() > 0,
        (n > 0 && s[n - 1] == '\n') ==> lines_state(s, n).1.len() == 0,
    decreases n,
{
    if n > 0 {
        lemma_lines_state_broken(s, prefix, (n - 1) as nat);
        let prev = lines_state(s, (n - 1) as nat);
        let t = s.take(n as int);
        assert(t.drop_last() =~= s.take(n - 1));
        if s[n - 1] == '\n' {
            let line = strip_cr(prev.1);
            assert(lines_state(s, n).0 == prev.0.push(line));
            assert(prev.0.push(line).drop_last() =~= prev.0);
            if prev.1.len() > 0 && prev.1.last() == '\r' {
                let t2 = s.take(n - 2);
                assert(t.drop_last().drop_last() =~= t2);
                assert(s.take(n - 1).drop_last() =~= t2);
                assert(prev.1 =~= line + seq!['\r']);
                assert(lines_broken(prev.0, prefix) + line =~= break_all(t2, prefix)) by {
                    assert(break_all(s.take(n - 1), prefix) == break_all(t2, prefix) + seq!['\r']);
                    assert(lines_broken(prev.0, prefix) + line + seq!['\r'] =~= lines_broken(prev.0, prefix) + prev.1);
                    let a = lines_broken(prev.0, prefix) + line;
                    let b = break_all(t2, prefix);
                    assert(a + seq!['\r'] == b + seq!['\r']);
                    assert(a =~= (a + seq!['\r']).drop_last());
                    assert(b =~= (b + seq!['\r']).drop_last());
                }
                assert(lines_broken(lines_state(s, n).0, prefix) + lines_state(s, n).1 =~= break_all(t, prefix));
            } else {
                assert(line == prev.1);
                assert(lines_broken(lines_state(s, n).0, prefix) + lines_state(s, n).1 =~= break_all(t, prefix));
            }
        } else {
            assert(lines_state(s, n).1 == prev.1.push(s[n - 1]));
            assert(lines_broken(lines_state(s, n).0, prefix) + lines_state(s, n).1 =~= break_all(t, prefix));
        }
    }
}

/// What indenting writes before the first line.
pub open spec fn indent_head(hanging: bool, prefix: Seq<char>) -> Seq<char> {
    if hanging { seq![] } else { prefix }
}

/// What follows a line ending at the very end of `s`, in [`break_all`].
pub open spec fn trailing_prefix(s: Seq<char>, prefix: Seq<char>) -> Seq<char> {
    if s.len() > 0 && s.last() == '\n' { prefix } else { seq![] }
}

proof fn lemma_break_split(s: Seq<char>, prefix: Seq<char>)
    ensures
        break_all(s, prefix) == break_inner(s, prefix) + trailing_prefix(s, prefix),
{
    if !(s.len() > 0 && s.last() == '\n') {
        assert(break_inner(s, prefix) + Seq::<char>::empty() =~= break_inner(s, prefix));
    }
}

proof fn lemma_indent_lines_broken(ls: Seq<Seq<char>>, prefix: Seq<char>, hanging: bool, k: nat)
    requires
        k <= ls.len(),
    ensures
        indent_lines(ls, prefix, hanging, k) + (if hanging && k == 0 { Seq::<char>::empty() } else { prefix })
            == indent_head(hanging, prefix) + lines_broken(ls.take(k as int), prefix),
    decreases k,
{
    if k == 0 {
        assert(ls.take(0) =~= Seq::<Seq<char>>::empty());
        assert(Seq::<char>::empty() + indent_head(hanging, prefix) =~= indent_head(hanging, prefix) + Seq::<char>::empty());
    } else {
        lemma_indent_lines_broken(ls, prefix, hanging, (k - 1) as nat);
        assert(ls.take(k as int).drop_last() =~= ls.take(k - 1));
        let lead = if hanging && k == 1 { Seq::<char>::empty() } else { prefix };
        let a = indent_lines(ls, prefix, hanging, (k - 1) as nat);
        assert(indent_lines(ls, prefix, hanging, k) == a + lead + ls[k - 1] + seq!['\n']);
        assert(a + lead + ls[k - 1] + seq!['\n'] + prefix =~= (a + lead) + (ls[k - 1] + seq!['\n'] + prefix));
        assert(indent_head(hanging, prefix) + lines_broken(ls.take(k - 1), prefix) + ls[k - 1] + seq!['\n'] + prefix
            =~= indent_head(hanging, prefix) + (lines_broken(ls.take(k - 1), prefix) + ls[k - 1] + seq!['\n'] + prefix));
    }
}

proof fn lemma_spec_indent_broken(s: Seq<char>, prefix: Seq<char>, hanging: bool)
    requires
        s.len() > 0,
        prefix.len() > 0,
    ensures
        spec_indent(s, prefix, hanging) == indent_head(hanging, prefix) + break_inner(s, prefix),
{
    lemma_lines_state_broken(s, prefix, s.len());
    lemma_break_split(s, prefix);
    assert(s.take(s.len() as int) =~= s);
    let st = lines_state(s, s.len());
    let ls = lines(s);
    let head = indent_head(hanging, prefix);
    if s.last() == '\n' {
        assert(ls == st.0);
        crate::text::lemma_lines_nonempty(s);
        lemma_indent_lines_broken(ls, prefix, hanging, ls.len());
        assert(ls.take(ls.len() as int) =~= ls);
        let body = indent_lines(ls, prefix, hanging, ls.len());
        assert(st.0.len() > 0);
        assert(lines_broken(st.0, prefix) + st.1 =~= lines_broken(st.0, prefix));
        let x = head + break_inner(s, prefix);
        assert(body + prefix == x + prefix) by {
            assert(head + (break_inner(s, prefix) + prefix) =~= x + prefix);
        }
        assert(body =~= (body + prefix).subrange(0, body.len() as int));
        assert(x =~= (x + prefix).subrange(0, x.len() as int));
    } else {
        let k = st.0.len();
        assert(ls == st.0.push(st.1));
        assert(ls.take(k as int) =~= st.0);
        lemma_indent_lines_broken(ls, prefix, hanging, k);
        let lead = if hanging && k == 0 { Seq::<char>::empty() } else { prefix };
        let body = indent_lines(ls, prefix, hanging, k + 1);
        assert(body == indent_lines(ls, prefix, hanging, k) + lead + st.1 + seq!['\n']);
        assert(body =~= head + lines_broken(st.0, prefix) + st.1 + seq!['\n']);
        assert(body.drop_last() =~= head + (lines_broken(st.0, prefix) + st.1));
        assert(break_inner(s, prefix) + Seq::<char>::empty() =~= break_inner(s, prefix));
    }
}

proof fn lemma_seg_lines_text(
    ls: Seq<Seq<char>>,
    style: crate::style::OutputStyle,
    prefix: Seq<char>,
    is_last_seg: bool,
    ends_nl: bool,
    k: nat,
)
    requires
        k < ls.len(),
    ensures
        text_of(indent_seg_lines(ls, style, prefix, is_last_seg, ends_nl, k)) == lines_broken(ls.take(k as int), prefix),
    decreases k,
{
    if k == 0 {
        assert(ls.take(0) =~= Seq::<Seq<char>>::empty());
    } else {
        lemma_seg_lines_text(ls, style, prefix, is_last_seg, ends_nl, (k - 1) as nat);
        let prev = indent_seg_lines(ls, style, prefix, is_last_seg, ends_nl, (k - 1) as nat);
        let line = ls[k - 1].push('\n');
        let after = seq![(prefix, plain())];
        assert(indent_seg_lines(ls, style, prefix, is_last_seg, ends_nl, k) == prev + seq![(line, style)] + after);
        lemma_text_concat(prev + seq![(line, style)], after);
        lemma_text_concat(prev, seq![(line, style)]);
        crate::formatter::lemma_text_push(Seq::<Seg>::empty(), (line, style));
        crate::formatter::lemma_text_push(Seq::<Seg>::empty(), (prefix, plain()));
        assert(Seq::<Seg>::empty().push((line, style)) =~= seq![(line, style)]);
        assert(Seq::<Seg>::empty().push((prefix, plain())) =~= after);
        assert(ls.take(k as int).drop_last() =~= ls.take(k - 1));
        assert(text_of(indent_seg_lines(ls, style, prefix, is_last_seg, ends_nl, k))
            =~= lines_broken(ls.take(k as int), prefix));
    }
}

/// What indenting writes for one non-empty segment of text `t`.
pub open spec fn seg_broken(t: Seq<char>, prefix: Seq<char>, is_last_seg: bool) -> Seq<char> {
    if is_last_seg { break_inner(t, prefix) } else { break_all(t, prefix) }
}

proof fn lemma_seg_text(t: Seq<char>, style: crate::style::OutputStyle, prefix: Seq<char>, is_last_seg: bool)
    requires
        t.len() > 0,
    ensures
        text_of(indent_seg_lines(lines(t), style, prefix, is_last_seg, t.len() > 0 && t.last() == '\n', lines(t).len()))
            == seg_broken(t, prefix, is_last_seg),
{
    let ls = lines(t);
    let ends_nl = t.len() > 0 && t.last() == '\n';
    crate::text::lemma_lines_nonempty(t);
    lemma_lines_state_broken(t, prefix, t.len());
    lemma_break_split(t, prefix);
    assert(t.take(t.len() as int) =~= t);
    let st = lines_state(t, t.len());
    let k = ls.len();
    lemma_seg_lines_text(ls, style, prefix, is_last_seg, ends_nl, (k - 1) as nat);
    let prev = indent_seg_lines(ls, style, prefix, is_last_seg, ends_nl, (k - 1) as nat);
    let line = if ends_nl { ls[k - 1].push('\n') } else { ls[k - 1] };
    let after: Seq<Seg> = if !is_last_seg && ends_nl { seq![(prefix, plain())] } else { seq![] };
    assert(indent_seg_lines(ls, style, prefix, is_last_seg, ends_nl, k) == prev + seq![(line, style)] + after);
    lemma_text_concat(prev + seq![(line, style)], after);
    lemma_text_concat(prev, seq![(line, style)]);
    crate::formatter::lemma_text_push(Seq::<Seg>::empty(), (line, style));
    crate::formatter::lemma_text_push(Seq::<Seg>::empty(), (prefix, plain()));
    assert(Seq::<Seg>::empty().push((line, style)) =~= seq![(line, style)]);
    assert(Seq::<Seg>::empty().push((prefix, plain())) =~= seq![(prefix, plain())]);
    let ta = text_of(after);
    assert(ta == (if !is_last_seg && ends_nl { prefix } else { Seq::<char>::empty() }));
    let text = text_of(indent_seg_lines(ls, style, prefix, is_last_seg, ends_nl, k));
    assert(text == lines_broken(ls.take(k - 1), prefix) + line + ta);
    if ends_nl {
        assert(ls == st.0);
        assert(ls.take(k as int) =~= ls);
        assert(ls.take(k as int).drop_last() =~= ls.take(k - 1));
        assert(lines_broken(st.0, prefix) + st.1 =~= lines_broken(st.0, prefix));
        assert(lines_broken(ls, prefix) =~= lines_broken(ls.take(k - 1), prefix) + line + prefix);
        if is_last_seg {
            let x = lines_broken(ls.take(k - 1), prefix) + line;
            assert(text =~= x);
            assert(x + prefix == break_inner(t, prefix) + prefix);
            assert(x =~= (x + prefix).subrange(0, x.len() as int));
            assert(break_inner(t, prefix) =~= (break_inner(t, prefix) + prefix).subrange(0, x.len() as int));
        } else {
            assert(text =~= lines_broken(ls, prefix));
        }
    } else {
        assert(ls == st.0.push(st.1));
        assert(ls.take(k - 1) =~= st.0);
        assert(text =~= lines_broken(st.0, prefix) + st.1);
        assert(break_inner(t, prefix) + Seq::<char>::empty() =~= break_inner(t, prefix));
    }
}

proof fn lemma_nonempty_segs_text(segs: Seq<Seg>, k: nat)
    requires
        k <= segs.len(),
    ensures
        text_of(nonempty_segs(segs, k)) == text_of(segs.take(k as int)),
        forall|j: int| 0 <= j < nonempty_segs(segs, k).len() ==> (#[trigger] nonempty_segs(segs, k)[j]).0.len() > 0,
    decreases k,
{
    if k == 0 {
        assert(segs.take(0) =~= Seq::<Seg>::empty());
    } else {
        lemma_nonempty_segs_text(segs, (k - 1) as nat);
        let prev = nonempty_segs(segs, (k - 1) as nat);
        assert(segs.take(k as int).drop_last() =~= segs.take(k - 1));
        if segs[k - 1].0.len() > 0 {
            crate::formatter::lemma_text_push(prev, segs[k - 1]);
            assert forall|j: int| 0 <= j < nonempty_segs(segs, k).len() implies (#[trigger] nonempty_segs(segs, k)[j]).0.len() > 0 by {
                if j < prev.len() {
                    assert(nonempty_segs(segs, k)[j] == prev[j]);
                }
            }
        } else {
            assert(text_of(segs.take(k as int)) =~= text_of(segs.take(k - 1)));
        }
    }
}

proof fn lemma_break_concat(a: Seq<char>, b: Seq<char>, prefix: Seq<char>)
    requires
        !(a.len() > 0 && a.last() == '\r' && b.len() > 0 && b[0] == '\n'),
    ensures
        break_all(a + b, prefix) == break_all(a, prefix) + break_all(b, prefix),
    decreases b.len(),
{
    if b.len() == 0 {
        assert(a + b =~= a);
        assert(break_all(a, prefix) + Seq::<char>::empty() =~= break_all(a, prefix));
    } else {
        let b1 = b.drop_last();
        let c = b.last();
        assert((a + b).drop_last() =~= a + b1);
        assert((a + b).last() == c);
        if b1.len() > 0 {
            assert(b1[0] == b[0]);
        }
        lemma_break_concat(a, b1, prefix);
        if c == '\n' {
            if b1.len() > 0 && b1.last() == '\r' {
                let b2 = b1.drop_last();
                assert((a + b1).drop_last() =~= a + b2);
                assert((a + b1).last() == '\r');
                if b2.len() > 0 {
                    assert(b2[0] == b[0]);
                }
                lemma_break_concat(a, b2, prefix);
                assert(break_all(a + b, prefix) =~= break_all(a, prefix) + break_all(b, prefix));
            } else if b1.len() == 0 {
                assert(a + b1 =~= a);
                assert(break_all(a + b, prefix) =~= break_all(a, prefix) + break_all(b, prefix));
            } else {
                assert((a + b1).last() == b1.last());
                assert(break_all(a + b, prefix) =~= break_all(a, prefix) + break_all(b, prefix));
            }
        } else {
            assert(break_all(a + b, prefix) =~= break_all(a, prefix) + break_all(b, prefix));
        }
    }
}

proof fn lemma_break_inner_concat(a: Seq<char>, b: Seq<char>, prefix: Seq<char>)
    requires
        b.len() > 0,
        !(a.len() > 0 && a.last() == '\r' && b[0] == '\n'),
    ensures
        break_inner(a + b, prefix) == break_all(a, prefix) + break_inner(b, prefix),
{
    lemma_break_concat(a, b, prefix);
    lemma_break_split(a + b, prefix);
    lemma_break_split(b, prefix);
    assert((a + b).last() == b.last());
    assert(trailing_prefix(a + b, prefix) == trailing_prefix(b, prefix));
    let x = break_inner(a + b, prefix);
    let y = break_all(a, prefix) + break_inner(b, prefix);
    let tp = trailing_prefix(b, prefix);
    assert(x + tp == y + tp) by {
        assert(break_all(a, prefix) + (break_inner(b, prefix) + tp) =~= y + tp);
    }
    assert(x =~= (x + tp).subrange(0, x.len() as int));
    assert(y =~= (y + tp).subrange(0, y.len() as int));
}

/// No non-empty segment ends with `\r` right before a segment that starts
/// with `\n`.
pub open spec fn no_split_crlf(ne: Seq<Seg>) -> bool {
    forall|j: int| 1 <= j < ne.len() ==> !(ne[j - 1].0.last() == '\r' && (#[trigger] ne[j]).0[0] == '\n')
}

proof fn lemma_segs_upto_text(ne: Seq<Seg>, prefix: Seq<char>, k: nat)
    requires
        k <= ne.len(),
        forall|j: int| 0 <= j < ne.len() ==> (#[trigger] ne[j]).0.len() > 0,
        no_split_crlf(ne),
    ensures
        k < ne.len() ==> text_of(indent_segs_upto(ne, prefix, k)) == break_all(text_of(ne.take(k as int)), prefix),
        k == ne.len() ==> text_of(indent_segs_upto(ne, prefix, k)) == break_inner(text_of(ne.take(k as int)), prefix),
        k > 0 ==> text_of(ne.take(k as int)).len() > 0 && text_of(ne.take(k as int)).last() == ne[k - 1].0.last(),
    decreases k,
{
    if k == 0 {
        assert(ne.take(0) =~= Seq::<Seg>::empty());
    } else {
        lemma_segs_upto_text(ne, prefix, (k - 1) as nat);
        let j = k - 1;
        let sg = ne[j];
        let t = sg.0;
        let is_last = j == ne.len() - 1;
        let a = text_of(ne.take(k - 1));
        assert(ne.take(k as int).drop_last() =~= ne.take(k - 1));
        assert(ne.take(k as int).last() == sg);
        assert(text_of(ne.take(k as int)) == a + t);
        lemma_seg_text(t, sg.1, prefix, is_last);
        let prev = indent_segs_upto(ne, prefix, (k - 1) as nat);
        lemma_text_concat(
            prev,
            indent_seg_lines(lines(t), sg.1, prefix, is_last, t.len() > 0 && t.last() == '\n', lines(t).len()),
        );
        assert(text_of(indent_segs_upto(ne, prefix, k)) == break_all(a, prefix) + seg_broken(t, prefix, is_last));
        if k > 1 {
            assert(!(ne[j - 1].0.last() == '\r' && ne[j].0[0] == '\n'));
        }
        if is_last {
            lemma_break_inner_concat(a, t, prefix);
        } else {
            lemma_break_concat(a, t, prefix);
        }
        assert((a + t).last() == t.last());
    }
}

/// Whether `s` holds a `\r` right before a `\n`.
pub open spec fn has_crlf(s: Seq<char>) -> bool {
    exists|i: int| 0 <= i < s.len() - 1 && #[trigger] s[i] == '\r' && s[i + 1] == '\n'
}

pub proof fn lemma_break_empty_prefix(s: Seq<char>)
    requires
        !has_crlf(s),
    ensures
        break_all(s, seq![]) == s,
        break_inner(s, seq![]) == s,
    decreases s.len(),
{
    if s.len() > 0 {
        let b = s.drop_last();
        assert(!has_crlf(b)) by {
            if has_crlf(b) {
                let i = choose|i: int| 0 <= i < b.len() - 1 && #[trigger] b[i] == '\r' && b[i + 1] == '\n';
                assert(s[i] == '\r' && s[i + 1] == '\n');
            }
        }
        lemma_break_empty_prefix(b);
        if s.last() == '\n' && b.len() > 0 {
            assert(!(b.last() == '\r')) by {
                if b.last() == '\r' {
                    assert(s[b.len() - 1] == '\r' && s[b.len() as int] == '\n');
                }
            }
        }
        assert(break_all(s, seq![]) =~= s);
        lemma_break_split(s, seq![]);
        assert(break_inner(s, seq![]) =~= s);
    }
}

/// Indenting styled segments changes their text as indenting the plain text
/// does: the text of `indent_segments(segs, prefix, hanging)` is
/// `indent(text, prefix, hanging)` for the text of `segs`, so output with
/// styles and output without them read the same. It holds unless the text is
/// empty and does not hang from a non-empty prefix (the prefix is still
/// written), the prefix is empty and the text holds `\r\n` (plain indenting
/// then leaves the text as it is), or a `\r` ends a non-empty segment and a
/// `\n` starts the next one (each segment's lines are split on their own).
pub proof fn law_indent_segments_text(segs: Seq<Seg>, prefix: Seq<char>, hanging: bool)
    requires
        text_of(segs).len() > 0 || hanging || prefix.len() == 0,
        prefix.len() > 0 || !has_crlf(text_of(segs)),
        no_split_crlf(nonempty_segs(segs, segs.len())),
    ensures
        text_of(spec_indent_segments(segs, prefix, hanging)) == spec_indent(text_of(segs), prefix, hanging),
{
    let ne = nonempty_segs(segs, segs.len());
    lemma_nonempty_segs_text(segs, segs.len());
    assert(segs.take(segs.len() as int) =~= segs);
    assert(ne.take(ne.len() as int) =~= ne);
    lemma_segs_upto_text(ne, prefix, ne.len());
    let head: Seq<Seg> = if hanging { seq![] } else { seq![(prefix, plain())] };
    let body = indent_segs_upto(ne, prefix, ne.len());
    lemma_text_concat(head, body);
    crate::formatter::lemma_text_push(Seq::<Seg>::empty(), (prefix, plain()));
    assert(Seq::<Seg>::empty().push((prefix, plain())) =~= seq![(prefix, plain())]);
    assert(text_of(head) == indent_head(hanging, prefix));
    let t = text_of(segs);
    assert(text_of(spec_indent_segments(segs, prefix, hanging)) == indent_head(hanging, prefix) + break_inner(t, prefix));
    if t.len() == 0 {
        assert(indent_head(hanging, prefix) =~= Seq::<char>::empty());
        assert(break_inner(t, prefix) =~= Seq::<char>::empty());
        assert(Seq::<char>::empty() + Seq::<char>::empty() =~= t);
    } else if prefix.len() == 0 {
        lemma_break_empty_prefix(t);
        assert(prefix =~= Seq::<char>::empty());
        assert(indent_head(hanging, prefix) + break_inner(t, prefix) =~= t);
    } else {
        lemma_spec_indent_broken(t, prefix, hanging);
    }
}

/// The body a [`HeaderFormat`] writes under its header for the failure `v`,
/// before it is indented.
pub open spec fn header_body(h: HeaderFormat, v: MatchFailure<FailView>) -> Seq<Seg> {
    h.inner().output(fresh(plain()), inner_view(v))
}

/// A [`HeaderFormat`] writes its header (the one for the side that failed) in
/// the important style, a line feed, then the text its inner formatter writes
/// with each line indented by four spaces. It holds unless that text is
/// empty (the indentation is still written) or a `\r` ends one of its
/// segments and a `\n` starts the next (see [`law_indent_segments_text`]).
pub proof fn law_header_format(h: HeaderFormat, v: MatchFailure<FailView>)
    requires
        text_of(header_body(h, v)).len() > 0,
        no_split_crlf(nonempty_segs(header_body(h, v), header_body(h, v).len())),
    ensures
        text_of(formatted(FailFormat::Header(h), v)) == (if v is Pos { h.pos_header() } else { h.neg_header() })
            + "\n"@ + spec_indent(text_of(header_body(h, v)), spaces(4), false),
        formatted(FailFormat::Header(h), v)[1] == (if v is Pos { h.pos_header() } else { h.neg_header() }, important_style()),
{
    let header = if v is Pos { h.pos_header() } else { h.neg_header() };
    let body = header_body(h, v);
    let out = spec_indent_segments(body, spaces(4), false);
    let m = fresh(plain());
    let m1 = fm_write(fm_style(fm_write(fm_style(m, important_style()), header), plain()), "\n"@);
    assert(m1 =~= seq![(Seq::<char>::empty(), plain()), (header, important_style()), ("\n"@, plain())]);
    assert(formatted(FailFormat::Header(h), v) == fm_output(m1, out));
    crate::formatter::lemma_text_output(m1, out);
    let s0 = seq![(Seq::<char>::empty(), plain())];
    let s1 = s0.push((header, important_style()));
    assert(s1.push(("\n"@, plain())) =~= m1);
    crate::formatter::lemma_text_push(Seq::<Seg>::empty(), (Seq::<char>::empty(), plain()));
    assert(Seq::<Seg>::empty().push((Seq::<char>::empty(), plain())) =~= s0);
    crate::formatter::lemma_text_push(s0, (header, important_style()));
    crate::formatter::lemma_text_push(s1, ("\n"@, plain()));
    assert(text_of(m1) =~= header + "\n"@);
    assert(spaces(4).len() == 4);
    law_indent_segments_text(body, spaces(4), false);
}

} // verus!
