//! What holds of dedenting: the least indentation of the non-blank lines
//! goes, line by line, and dedenting again changes nothing.

use vstd::prelude::*;
use crate::indent::{
    boundary_index, cut_line, dedent_cuts_whole_chars, dedent_lines, dedent_width, dedent_width_of, is_boundary,
    is_nonblank, is_ws, leading_ws, leading_ws_bytes, lemma_boundary_unique, lemma_utf8_take_strict, spec_dedent,
};
use crate::text::{lines, lines_state, strip_cr};
use crate::text_laws::{has_crlf, lemma_break_empty_prefix, lemma_lines_state_broken, lines_broken};
use crate::value::utf8_len;

verus! {

/// Neither a line feed nor a carriage return occurs in `l`.
pub open spec fn no_line_break(l: Seq<char>) -> bool {
    forall|j: int| 0 <= j < l.len() ==> (#[trigger] l[j]) != '\n' && l[j] != '\r'
}

/// No carriage return occurs in `s`.
pub open spec fn no_cr(s: Seq<char>) -> bool {
    forall|j: int| 0 <= j < s.len() ==> (#[trigger] s[j]) != '\r'
}

/// The lines `ls`, each followed by a line feed.
pub open spec fn joined(ls: Seq<Seq<char>>) -> Seq<char> {
    lines_broken(ls, seq![])
}

proof fn lemma_lines_state_agree(s: Seq<char>, t: Seq<char>, n: nat)
    requires
        n <= s.len(),
        n <= t.len(),
        forall|i: int| 0 <= i < n ==> s[i] == t[i],
    ensures
        lines_state(s, n) == lines_state(t, n),
    decreases n,
{
    if n > 0 {
        lemma_lines_state_agree(s, t, (n - 1) as nat);
    }
}

proof fn lemma_lines_state_line(x: Seq<char>, l: Seq<char>, d: Seq<Seq<char>>, j: nat)
    requires
        lines_state(x, x.len()) == (d, Seq::<char>::empty()),
        no_line_break(l),
        j <= l.len(),
    ensures
        lines_state(x + l + seq!['\n'], x.len() + j) == (d, l.take(j as int)),
    decreases j,
{
    let s = x + l + seq!['\n'];
    if j == 0 {
        lemma_lines_state_agree(s, x, x.len());
        assert(l.take(0) =~= Seq::<char>::empty());
    } else {
        lemma_lines_state_line(x, l, d, (j - 1) as nat);
        assert(s[x.len() + j - 1] == l[j - 1]);
        assert(l.take(j - 1).push(l[j - 1]) =~= l.take(j as int));
    }
}

proof fn lemma_lines_state_joined(ls: Seq<Seq<char>>)
    requires
        forall|i: int| 0 <= i < ls.len() ==> no_line_break(#[trigger] ls[i]),
    ensures
        lines_state(joined(ls), joined(ls).len()) == (ls, Seq::<char>::empty()),
    decreases ls.len(),
{
    if ls.len() > 0 {
        let init = ls.drop_last();
        let l = ls.last();
        assert forall|i: int| 0 <= i < init.len() implies no_line_break(#[trigger] init[i]) by {
            assert(init[i] == ls[i]);
        }
        lemma_lines_state_joined(init);
        let x = joined(init);
        assert(no_line_break(ls[ls.len() - 1]));
        assert(joined(ls) =~= x + l + seq!['\n']);
        lemma_lines_state_line(x, l, init, l.len());
        assert(l.take(l.len() as int) =~= l);
        let s = x + l + seq!['\n'];
        assert(s[(x.len() + l.len()) as int] == '\n');
        if l.len() > 0 {
            assert(l.last() != '\r');
        }
        assert(strip_cr(l) == l);
        assert(init.push(l) =~= ls);
    }
}

/// The lines of lines joined by line feeds are those lines; without the
/// last line feed, an empty last line is lost.
proof fn lemma_lines_of_joined(ls: Seq<Seq<char>>)
    requires
        forall|i: int| 0 <= i < ls.len() ==> no_line_break(#[trigger] ls[i]),
    ensures
        lines(joined(ls)) == ls,
        ls.len() > 0 ==> lines(joined(ls).drop_last()) == (if ls.last().len() == 0 { ls.drop_last() } else { ls }),
        ls.len() > 0 ==> joined(ls).len() > 0 && joined(ls).last() == '\n',
{
    lemma_lines_state_joined(ls);
    if ls.len() > 0 {
        let init = ls.drop_last();
        let l = ls.last();
        assert forall|i: int| 0 <= i < init.len() implies no_line_break(#[trigger] init[i]) by {
            assert(init[i] == ls[i]);
        }
        lemma_lines_state_joined(init);
        let x = joined(init);
        assert(no_line_break(ls[ls.len() - 1]));
        assert(joined(ls) =~= x + l + seq!['\n']);
        lemma_lines_state_line(x, l, init, l.len());
        assert(l.take(l.len() as int) =~= l);
        let s = joined(ls);
        let t = s.drop_last();
        lemma_lines_state_agree(t, s, t.len());
        assert(init.push(l) =~= ls);
    }
}

proof fn lemma_lines_state_chars(s: Seq<char>, n: nat)
    requires
        n <= s.len(),
        no_cr(s),
    ensures
        forall|i: int| 0 <= i < lines_state(s, n).0.len() ==> no_line_break(#[trigger] lines_state(s, n).0[i])
            && utf8_len(lines_state(s, n).0[i]) <= utf8_len(s.take(n as int)),
        no_line_break(lines_state(s, n).1),
        utf8_len(lines_state(s, n).1) <= utf8_len(s.take(n as int)),
    decreases n,
{
    if n == 0 {
        assert(lines_state(s, 0).1 =~= Seq::<char>::empty());
    } else {
        lemma_lines_state_chars(s, (n - 1) as nat);
        let prev = lines_state(s, (n - 1) as nat);
        assert(s.take(n as int).drop_last() =~= s.take(n - 1));
        let c = s[n - 1];
        assert(c != '\r');
        if c == '\n' {
            if prev.1.len() > 0 {
                assert(prev.1[prev.1.len() - 1] != '\r');
            }
            assert(strip_cr(prev.1) == prev.1);
            let st = lines_state(s, n);
            assert(st.0 == prev.0.push(prev.1));
            assert forall|i: int| 0 <= i < st.0.len() implies no_line_break(#[trigger] st.0[i])
                && utf8_len(st.0[i]) <= utf8_len(s.take(n as int)) by {
                if i < prev.0.len() {
                    assert(st.0[i] == prev.0[i]);
                }
            }
        } else {
            let st = lines_state(s, n);
            assert(st.1 == prev.1.push(c));
            assert(st.1.drop_last() =~= prev.1);
            assert forall|j: int| 0 <= j < st.1.len() implies (#[trigger] st.1[j]) != '\n' && st.1[j] != '\r' by {
                if j < prev.1.len() {
                    assert(st.1[j] == prev.1[j]);
                }
            }
        }
    }
}

/// Each line of a text without carriage returns holds no line break and no
/// more bytes than the text.
proof fn lemma_lines_chars(s: Seq<char>)
    requires
        no_cr(s),
    ensures
        forall|i: int| 0 <= i < lines(s).len() ==> no_line_break(#[trigger] lines(s)[i])
            && utf8_len(lines(s)[i]) <= utf8_len(s),
{
    lemma_lines_state_chars(s, s.len());
    assert(s.take(s.len() as int) =~= s);
    let st = lines_state(s, s.len());
    assert forall|i: int| 0 <= i < lines(s).len() implies no_line_break(#[trigger] lines(s)[i])
        && utf8_len(lines(s)[i]) <= utf8_len(s) by {
        if i < st.0.len() {
            assert(lines(s)[i] == st.0[i]);
        }
    }
}

/// The white space at the start of a line: all its characters are white
/// space, and the character after it is not.
proof fn lemma_leading_ws(l: Seq<char>)
    ensures
        leading_ws(l) <= l.len(),
        forall|j: int| 0 <= j < leading_ws(l) ==> is_ws(#[trigger] l[j]),
        leading_ws(l) < l.len() ==> !is_ws(l[leading_ws(l) as int]),
    decreases l.len(),
{
    if l.len() > 0 && is_ws(l[0]) {
        lemma_leading_ws(l.drop_first());
        assert forall|j: int| 0 <= j < leading_ws(l) implies is_ws(#[trigger] l[j]) by {
            if j > 0 {
                assert(l[j] == l.drop_first()[j - 1]);
            }
        }
        if leading_ws(l) < l.len() {
            assert(l[leading_ws(l) as int] == l.drop_first()[leading_ws(l.drop_first()) as int]);
        }
    }
}

/// A prefix of a line has no more bytes than the line.
proof fn lemma_utf8_take_le(l: Seq<char>, k: int)
    requires
        0 <= k <= l.len(),
    ensures
        utf8_len(l.take(k)) <= utf8_len(l),
{
    assert(l.take(l.len() as int) =~= l);
    if k < l.len() {
        lemma_utf8_take_strict(l, k, l.len() as int);
    }
}

/// The common indentation is at most the start value and at most the
/// indentation of each non-blank line, and it is the start value or the
/// indentation of one of them.
proof fn lemma_dedent_width_min(ls: Seq<Seq<char>>, k: nat, init: nat)
    requires
        k <= ls.len(),
    ensures
        dedent_width(ls, k, init) <= init,
        forall|i: int| 0 <= i < k && is_nonblank(#[trigger] ls[i]) ==> dedent_width(ls, k, init) <= leading_ws_bytes(ls[i]),
        dedent_width(ls, k, init) == init || exists|i: int| 0 <= i < k && is_nonblank(#[trigger] ls[i])
            && leading_ws_bytes(ls[i]) == dedent_width(ls, k, init),
    decreases k,
{
    if k > 0 {
        lemma_dedent_width_min(ls, (k - 1) as nat, init);
        let w = dedent_width(ls, (k - 1) as nat, init);
        if dedent_width(ls, k, init) != w {
            assert(is_nonblank(ls[k - 1]) && leading_ws_bytes(ls[k - 1]) == dedent_width(ls, k, init));
        }
    }
}

/// Each line cut by `w`.
pub open spec fn cut_all(ls: Seq<Seq<char>>, w: nat) -> Seq<Seq<char>> {
    Seq::new(ls.len(), |i: int| cut_line(ls[i], w))
}

proof fn lemma_dedent_lines_joined(ls: Seq<Seq<char>>, w: nat, k: nat)
    requires
        k <= ls.len(),
    ensures
        dedent_lines(ls, w, k) == joined(cut_all(ls, w).take(k as int)),
    decreases k,
{
    if k == 0 {
        assert(cut_all(ls, w).take(0) =~= Seq::<Seq<char>>::empty());
    } else {
        lemma_dedent_lines_joined(ls, w, (k - 1) as nat);
        let c = cut_all(ls, w).take(k as int);
        assert(c.drop_last() =~= cut_all(ls, w).take(k - 1));
        assert(dedent_lines(ls, w, k) =~= joined(c));
    }
}

proof fn lemma_joined_no_cr(ls: Seq<Seq<char>>)
    requires
        forall|i: int| 0 <= i < ls.len() ==> no_line_break(#[trigger] ls[i]),
    ensures
        no_cr(joined(ls)),
    decreases ls.len(),
{
    if ls.len() > 0 {
        let init = ls.drop_last();
        assert forall|i: int| 0 <= i < init.len() implies no_line_break(#[trigger] init[i]) by {
            assert(init[i] == ls[i]);
        }
        lemma_joined_no_cr(init);
        let x = joined(init);
        let l = ls.last();
        assert(no_line_break(ls[ls.len() - 1]));
        assert(joined(ls) =~= x + l + seq!['\n']);
        assert forall|j: int| 0 <= j < joined(ls).len() implies (#[trigger] joined(ls)[j]) != '\r' by {
            if j < x.len() {
                assert(joined(ls)[j] == x[j]);
            } else if j < x.len() + l.len() {
                assert(joined(ls)[j] == l[j - x.len()]);
            }
        }
    }
}

/// `w` is the least number of bytes of indentation of a non-blank line of `ls`.
pub open spec fn least_indent(ls: Seq<Seq<char>>, w: nat) -> bool {
    &&& forall|i: int| 0 <= i < ls.len() && is_nonblank(#[trigger] ls[i]) ==> w <= leading_ws_bytes(ls[i])
    &&& exists|i: int| 0 <= i < ls.len() && is_nonblank(#[trigger] ls[i]) && leading_ws_bytes(ls[i]) == w
}

/// Each line of `ls` that has at least `w` bytes loses exactly its first `w` bytes.
pub open spec fn cuts_exact(ls: Seq<Seq<char>>, w: nat) -> bool {
    forall|i: int| 0 <= i < ls.len() && utf8_len(#[trigger] ls[i]) >= w ==> {
        let k = boundary_index(ls[i], w);
        &&& 0 <= k <= ls[i].len()
        &&& utf8_len(ls[i].take(k)) == w
        &&& cut_line(ls[i], w) == ls[i].skip(k)
    }
}

/// The lines of the dedented text: each line of `s` cut, except that an
/// empty last line with no line feed after it is not a line.
pub open spec fn dedented_lines(s: Seq<char>) -> Seq<Seq<char>> {
    let cuts = cut_all(lines(s), dedent_width_of(s));
    if s.last() != '\n' && cuts.last().len() == 0 {
        cuts.drop_last()
    } else {
        cuts
    }
}

/// Some non-blank line of `s` starts with a character that is not white space.
pub open spec fn has_unindented_line(s: Seq<char>) -> bool {
    exists|j: int| 0 <= j < lines(s).len() && is_nonblank(#[trigger] lines(s)[j]) && leading_ws(lines(s)[j]) == 0
}

#[verifier::spinoff_prover]
proof fn lemma_dedent_cuts(s: Seq<char>)
    requires
        no_cr(s),
        dedent_cuts_whole_chars(s),
        exists|i: int| 0 <= i < lines(s).len() && is_nonblank(#[trigger] lines(s)[i]),
    ensures
        dedent_width_of(s) != utf8_len(s),
        least_indent(lines(s), dedent_width_of(s)),
        cuts_exact(lines(s), dedent_width_of(s)),
        forall|i: int| 0 <= i < lines(s).len() ==> no_line_break(#[trigger] cut_all(lines(s), dedent_width_of(s))[i]),
{
    let ls = lines(s);
    let n = ls.len();
    let init = utf8_len(s);
    let w = dedent_width_of(s);
    lemma_lines_chars(s);
    lemma_dedent_width_min(ls, n, init);
    let i0 = choose|i: int| 0 <= i < ls.len() && is_nonblank(#[trigger] ls[i]);
    let l0 = ls[i0];
    lemma_leading_ws(l0);
    lemma_utf8_take_strict(l0, leading_ws(l0) as int, l0.len() as int);
    assert(l0.take(l0.len() as int) =~= l0);
    assert(w != init);
    assert forall|i: int| 0 <= i < ls.len() && utf8_len(#[trigger] ls[i]) >= w implies {
        let k = boundary_index(ls[i], w);
        &&& 0 <= k <= ls[i].len()
        &&& utf8_len(ls[i].take(k)) == w
        &&& cut_line(ls[i], w) == ls[i].skip(k)
    } by {
        assert(is_boundary(ls[i], w));
        let k = choose|k: int| 0 <= k <= ls[i].len() && utf8_len(#[trigger] ls[i].take(k)) == w;
        lemma_boundary_unique(ls[i], k, w);
    }
    let cuts = cut_all(ls, w);
    assert forall|i: int| 0 <= i < ls.len() implies no_line_break(#[trigger] cuts[i]) by {
        let l = ls[i];
        assert(no_line_break(l));
        if utf8_len(l) >= w {
            let k = boundary_index(l, w);
            assert(cuts[i] == l.skip(k));
            assert forall|j: int| 0 <= j < cuts[i].len() implies (#[trigger] cuts[i][j]) != '\n' && cuts[i][j] != '\r' by {
                assert(cuts[i][j] == l[k + j]);
            }
        }
    }
}

#[verifier::spinoff_prover]
proof fn lemma_dedent_result(s: Seq<char>)
    requires
        no_cr(s),
        dedent_cuts_whole_chars(s),
        exists|i: int| 0 <= i < lines(s).len() && is_nonblank(#[trigger] lines(s)[i]),
    ensures
        spec_dedent(s) == (if s.last() == '\n' {
            joined(cut_all(lines(s), dedent_width_of(s)))
        } else {
            joined(cut_all(lines(s), dedent_width_of(s))).drop_last()
        }),
        lines(spec_dedent(s)) == dedented_lines(s),
        no_cr(spec_dedent(s)),
        has_unindented_line(spec_dedent(s)),
{
    lemma_dedent_cuts(s);
    let ls = lines(s);
    let n = ls.len();
    let w = dedent_width_of(s);
    let cuts = cut_all(ls, w);
    lemma_dedent_lines_joined(ls, w, n);
    assert(cuts.take(n as int) =~= cuts);
    lemma_lines_of_joined(cuts);
    lemma_joined_no_cr(cuts);
    let r = spec_dedent(s);
    assert(s.len() > 0);
    assert(r == (if s.last() == '\n' { joined(cuts) } else { joined(cuts).drop_last() }));
    assert(lines(r) == dedented_lines(s));
    let istar = choose|i: int| 0 <= i < n && is_nonblank(#[trigger] ls[i]) && leading_ws_bytes(ls[i]) == w;
    let l = ls[istar];
    let lw = leading_ws(l);
    lemma_leading_ws(l);
    lemma_boundary_unique(l, lw as int, w);
    lemma_utf8_take_le(l, lw as int);
    let c = cuts[istar];
    assert(c == l.skip(lw as int));
    assert(c.len() > 0 && c[0] == l[lw as int]);
    assert(leading_ws(c) == 0);
    let lr = lines(r);
    assert(istar < lr.len() && lr[istar] == c) by {
        if s.last() != '\n' && cuts.last().len() == 0 {
            assert(istar != n - 1);
        }
    }
    assert(has_unindented_line(r));
    assert(no_cr(r)) by {
        if s.last() != '\n' {
            assert forall|j: int| 0 <= j < r.len() implies (#[trigger] r[j]) != '\r' by {
                assert(r[j] == joined(cuts)[j]);
            }
        }
    }
}

/// A text without carriage returns that has a non-blank line starting with
/// a character that is not white space is left as it is by dedenting.
#[verifier::spinoff_prover]
proof fn lemma_dedent_unindented(r: Seq<char>)
    requires
        no_cr(r),
        has_unindented_line(r),
    ensures
        dedent_cuts_whole_chars(r),
        spec_dedent(r) == r,
{
    let lr = lines(r);
    let m = lr.len();
    let j = choose|j: int| 0 <= j < lr.len() && is_nonblank(#[trigger] lr[j]) && leading_ws(lr[j]) == 0;
    lemma_dedent_width_min(lr, m, utf8_len(r));
    assert(leading_ws_bytes(lr[j]) == 0) by {
        assert(lr[j].take(0) =~= Seq::<char>::empty());
    }
    assert(dedent_width_of(r) == 0);
    assert(r.len() > 0);
    lemma_utf8_take_strict(r, 0, r.len() as int);
    assert(r.take(0) =~= Seq::<char>::empty());
    assert(r.take(r.len() as int) =~= r);
    assert forall|i: int| 0 <= i < lr.len() implies is_boundary(#[trigger] lr[i], 0) && cut_line(lr[i], 0) == lr[i] by {
        assert(lr[i].take(0) =~= Seq::<char>::empty());
        lemma_boundary_unique(lr[i], 0, 0);
        assert(lr[i].skip(0) =~= lr[i]);
    }
    assert(dedent_cuts_whole_chars(r));
    lemma_dedent_lines_joined(lr, 0, m);
    assert(cut_all(lr, 0) =~= lr);
    assert(cut_all(lr, 0).take(m as int) =~= lr);
    assert(!has_crlf(r));
    lemma_break_empty_prefix(r);
    lemma_lines_state_broken(r, seq![], r.len());
    assert(r.take(r.len() as int) =~= r);
    let st = lines_state(r, r.len());
    if r.last() == '\n' {
        assert(lr == st.0);
        assert(lines_broken(st.0, seq![]) + st.1 =~= lines_broken(st.0, seq![]));
    } else {
        assert(lr == st.0.push(st.1));
        assert(lr.drop_last() =~= st.0);
        assert(lr.last() == st.1);
        assert(joined(lr) == lines_broken(st.0, seq![]) + st.1 + seq!['\n'] + Seq::<char>::empty());
        assert(joined(lr) =~= lines_broken(st.0, seq![]) + st.1 + seq!['\n']);
        assert(joined(lr).drop_last() =~= lines_broken(st.0, seq![]) + st.1);
    }
}

/// Dedenting a text that has a non-blank line: `w`, the width removed, is
/// the least indentation in bytes of its non-blank lines; each line with at
/// least `w` bytes loses exactly its first `w` bytes and the others stay; the
/// result is these lines joined by line feeds, with one at the end when the
/// text ends with one; some non-blank line of the result starts with a
/// character that is not white space; and dedenting the result again
/// changes nothing. A text with no non-blank line stays as it is. (The text
/// holds no carriage return, and needs no cut inside a character, where the
/// slicing of `str` panics.)
pub proof fn law_dedent(s: Seq<char>)
    requires
        no_cr(s),
        dedent_cuts_whole_chars(s),
    ensures
        (forall|i: int| 0 <= i < lines(s).len() ==> !is_nonblank(#[trigger] lines(s)[i])) ==> spec_dedent(s) == s,
        (exists|i: int| 0 <= i < lines(s).len() && is_nonblank(#[trigger] lines(s)[i])) ==> {
            let w = dedent_width_of(s);
            let r = spec_dedent(s);
            let cuts = cut_all(lines(s), w);
            &&& least_indent(lines(s), w)
            &&& cuts_exact(lines(s), w)
            &&& r == (if s.last() == '\n' { joined(cuts) } else { joined(cuts).drop_last() })
            &&& lines(r) == dedented_lines(s)
            &&& has_unindented_line(r)
            &&& dedent_cuts_whole_chars(r)
            &&& spec_dedent(r) == r
        },
{
    let ls = lines(s);
    lemma_dedent_width_min(ls, ls.len(), utf8_len(s));
    if exists|i: int| 0 <= i < lines(s).len() && is_nonblank(#[trigger] lines(s)[i]) {
        lemma_dedent_cuts(s);
        lemma_dedent_result(s);
        lemma_dedent_unindented(spec_dedent(s));
    }
}

} // verus!
