//! Indenting and dedenting plain text by a number of spaces.

use vstd::prelude::*;
use crate::strings::{indent_lines, spec_indent};
use crate::value::{utf8_len, utf8_width};
use crate::text::{
    extend_chars, from_chars, lemma_lines_nonempty, lines, space_chars, spaces, split_lines,
    to_chars, views,
};

verus! {

/// Indents each line of `s` by `spaces_len` spaces.
///
/// Zero spaces give back `s`; so does an empty `s`.
pub fn indent(s: &str, spaces_len: u32) -> (r: String)
    ensures
        r@ == spec_indent(s@, spaces(spaces_len as nat), false),
{
    let prefix = from_chars(space_chars(spaces_len as usize).as_slice());
    crate::strings::indent(s, prefix.as_str(), false)
}

/// Whether `c` is a white space character, as `char::is_whitespace` defines it
/// (the Unicode `White_Space` property).
pub open spec fn is_ws(c: char) -> bool {
    ||| ('\t' <= c && c <= '\r')
    ||| c == ' '
    ||| c == '\u{85}'
    ||| c == '\u{a0}'
    ||| c == '\u{1680}'
    ||| ('\u{2000}' <= c && c <= '\u{200a}')
    ||| c == '\u{2028}'
    ||| c == '\u{2029}'
    ||| c == '\u{202f}'
    ||| c == '\u{205f}'
    ||| c == '\u{3000}'
}

/// Whether `c` is a white space character.
pub fn is_whitespace(c: char) -> (r: bool)
    ensures
        r == is_ws(c),
{
    ('\t' <= c && c <= '\r') || c == ' ' || c == '\u{85}' || c == '\u{a0}' || c == '\u{1680}'
        || ('\u{2000}' <= c && c <= '\u{200a}') || c == '\u{2028}' || c == '\u{2029}'
        || c == '\u{202f}' || c == '\u{205f}' || c == '\u{3000}'
}

/// The number of white space characters at the start of `l`.
pub open spec fn leading_ws(l: Seq<char>) -> nat
    decreases l.len(),
{
    if l.len() == 0 {
        0
    } else if is_ws(l[0]) {
        1 + leading_ws(l.drop_first())
    } else {
        0
    }
}

/// The number of bytes of the white space at the start of `l`.
pub open spec fn leading_ws_bytes(l: Seq<char>) -> nat {
    utf8_len(l.take(leading_ws(l) as int))
}

/// Whether `l` holds a character that is not white space.
pub open spec fn is_nonblank(l: Seq<char>) -> bool {
    leading_ws(l) < l.len()
}

/// The common indentation, in bytes, of the lines `ls[0..k]` that are not
/// blank, starting from `init`.
pub open spec fn dedent_width(ls: Seq<Seq<char>>, k: nat, init: nat) -> nat
    decreases k,
{
    if k == 0 {
        init
    } else {
        let p = dedent_width(ls, (k - 1) as nat, init);
        let l = ls[k - 1];
        let w = leading_ws_bytes(l);
        if is_nonblank(l) && w < p {
            w
        } else {
            p
        }
    }
}

/// Whether the first `w` bytes of `l` end between two of its characters.
pub open spec fn is_boundary(l: Seq<char>, w: nat) -> bool {
    exists|k: int| 0 <= k <= l.len() && utf8_len(#[trigger] l.take(k)) == w
}

/// The number of characters of `l` that make up its first `w` bytes.
pub open spec fn boundary_index(l: Seq<char>, w: nat) -> int {
    choose|k: int| 0 <= k <= l.len() && utf8_len(#[trigger] l.take(k)) == w
}

/// A line without its first `w` bytes, when it has that many.
pub open spec fn cut_line(l: Seq<char>, w: nat) -> Seq<char> {
    if utf8_len(l) >= w {
        l.skip(boundary_index(l, w))
    } else {
        l
    }
}

/// The lines `ls[0..k]` cut by `w`, each followed by a line feed.
pub open spec fn dedent_lines(ls: Seq<Seq<char>>, w: nat, k: nat) -> Seq<char>
    decreases k,
{
    if k == 0 {
        seq![]
    } else {
        dedent_lines(ls, w, (k - 1) as nat) + cut_line(ls[k - 1], w) + seq!['\n']
    }
}

/// The width, in bytes, of the white space that all the non-blank lines of
/// `s` share at their start; the byte length of `s` when it has no non-blank line.
pub open spec fn dedent_width_of(s: Seq<char>) -> nat {
    dedent_width(lines(s), lines(s).len(), utf8_len(s))
}

/// Whether dedenting `s` cuts each line that is long enough between two of
/// its characters, as slicing a `str` requires.
pub open spec fn dedent_cuts_whole_chars(s: Seq<char>) -> bool {
    let ls = lines(s);
    let w = dedent_width_of(s);
    w == utf8_len(s) || forall|i: int| 0 <= i < ls.len() && utf8_len(#[trigger] ls[i]) >= w ==> is_boundary(ls[i], w)
}

/// The text `s` with the white space that all its non-blank lines share at
/// their start removed; the width is counted in bytes. Without a non-blank
/// line, `s` is unchanged.
pub open spec fn spec_dedent(s: Seq<char>) -> Seq<char> {
    let ls = lines(s);
    let w = dedent_width_of(s);
    if w == utf8_len(s) {
        s
    } else {
        let body = dedent_lines(ls, w, ls.len());
        if s.len() > 0 && s.last() == '\n' {
            body
        } else {
            body.drop_last()
        }
    }
}

/// A string has no more bytes than four per character.
pub proof fn lemma_utf8_len_bound(s: Seq<char>)
    ensures
        utf8_len(s) <= 4 * s.len(),
    decreases s.len(),
{
    if s.len() > 0 {
        lemma_utf8_len_bound(s.drop_last());
    }
}

/// Each character adds at least one byte: the byte length of a prefix grows
/// strictly with the prefix.
pub proof fn lemma_utf8_take_strict(l: Seq<char>, i: int, j: int)
    requires
        0 <= i < j <= l.len(),
    ensures
        utf8_len(l.take(i)) < utf8_len(l.take(j)),
    decreases j,
{
    assert(l.take(j).drop_last() =~= l.take(j - 1));
    if i < j - 1 {
        lemma_utf8_take_strict(l, i, j - 1);
    }
}

/// The prefix of `l` at a boundary is unique.
pub proof fn lemma_boundary_unique(l: Seq<char>, k: int, w: nat)
    requires
        0 <= k <= l.len(),
        utf8_len(l.take(k)) == w,
    ensures
        is_boundary(l, w),
        boundary_index(l, w) == k,
{
    assert(is_boundary(l, w));
    let b = boundary_index(l, w);
    if b < k {
        lemma_utf8_take_strict(l, b, k);
    } else if k < b {
        lemma_utf8_take_strict(l, k, b);
    }
}

/// The number of bytes in the UTF-8 encoding of `c`.
fn char_width(c: char) -> (r: u128)
    ensures
        r == utf8_width(c),
{
    let n = c as u32;
    if n < 0x80 {
        1
    } else if n < 0x800 {
        2
    } else if n < 0x10000 {
        3
    } else {
        4
    }
}

/// The number of white space characters at the start of `l`, and their
/// number of bytes.
fn leading_ws_count(l: &[char]) -> (r: (usize, u128))
    ensures
        r.0 == leading_ws(l@),
        r.1 == leading_ws_bytes(l@),
{
    let mut i: usize = 0;
    let mut b: u128 = 0;
    assert(l@.skip(0) == l@);
    assert(l@.take(0) =~= Seq::<char>::empty());
    while i < l.len() && is_whitespace(l[i])
        invariant
            i <= l.len(),
            leading_ws(l@) == i + leading_ws(l@.skip(i as int)),
            b == utf8_len(l@.take(i as int)),
            b <= 4 * i,
        decreases l.len() - i,
    {
        assert(l@.skip(i as int).drop_first() == l@.skip(i + 1));
        assert(l@.take(i + 1).drop_last() =~= l@.take(i as int));
        b = b + char_width(l[i]);
        i = i + 1;
    }
    if i < l.len() {
        assert(l@.skip(i as int)[0] == l@[i as int]);
    }
    (i, b)
}

/// The number of bytes of `l`.
fn byte_len(l: &[char]) -> (r: u128)
    ensures
        r == utf8_len(l@),
{
    let mut i: usize = 0;
    let mut b: u128 = 0;
    assert(l@.take(0) =~= Seq::<char>::empty());
    while i < l.len()
        invariant
            i <= l.len(),
            b == utf8_len(l@.take(i as int)),
            b <= 4 * i,
        decreases l.len() - i,
    {
        assert(l@.take(i + 1).drop_last() =~= l@.take(i as int));
        b = b + char_width(l[i]);
        i = i + 1;
    }
    assert(l@.take(l.len() as int) =~= l@);
    b
}

/// The number of characters of `l` that make up its first `w` bytes, if
/// they end between two characters.
fn boundary_chars(l: &[char], w: u128) -> (r: Option<usize>)
    ensures
        match r {
            Option::Some(k) => k <= l.len() && utf8_len(l@.take(k as int)) == w,
            Option::None => !is_boundary(l@, w as nat),
        },
{
    let mut i: usize = 0;
    let mut b: u128 = 0;
    assert(l@.take(0) =~= Seq::<char>::empty());
    while i < l.len() && b < w
        invariant
            i <= l.len(),
            b == utf8_len(l@.take(i as int)),
            b <= 4 * i,
            forall|k: int| 0 <= k < i ==> utf8_len(#[trigger] l@.take(k)) < w,
        decreases l.len() - i,
    {
        assert(l@.take(i + 1).drop_last() =~= l@.take(i as int));
        b = b + char_width(l[i]);
        i = i + 1;
    }
    if b == w {
        Option::Some(i)
    } else {
        assert(!is_boundary(l@, w as nat)) by {
            if is_boundary(l@, w as nat) {
                let k = choose|k: int| 0 <= k <= l@.len() && utf8_len(#[trigger] l@.take(k)) == w;
                if k > i {
                    lemma_utf8_take_strict(l@, i as int, k);
                    assert(i == l.len());
                } else if k < i {
                    lemma_utf8_take_strict(l@, k, i as int);
                }
            }
        }
        Option::None
    }
}

/// The dedent width only shrinks from its start value.
proof fn lemma_dedent_width_le(ls: Seq<Seq<char>>, k: nat, init: nat)
    ensures
        dedent_width(ls, k, init) <= init,
    decreases k,
{
    if k > 0 {
        lemma_dedent_width_le(ls, (k - 1) as nat, init);
    }
}

/// Removes the white space that all the non-blank lines of `s` share at their
/// start. The width is counted in bytes; `s` must not need a cut inside a
/// character (there `str` slicing panics).
pub fn dedent(s: &str) -> (r: String)
    requires
        dedent_cuts_whole_chars(s@),
    ensures
        r@ == spec_dedent(s@),
{
    let sc = to_chars(s);
    let ls = split_lines(sc.as_slice());
    let total = byte_len(sc.as_slice());
    proof {
        lemma_utf8_len_bound(sc@);
    }
    let mut w: u128 = total;
    let mut k: usize = 0;
    while k < ls.len()
        invariant
            k <= ls.len(),
            w == dedent_width(views(ls@), k as nat, utf8_len(sc@)),
            total == utf8_len(sc@),
        decreases ls.len() - k,
    {
        proof {
            lemma_dedent_width_le(views(ls@), k as nat, utf8_len(sc@));
        }
        let (lw, lb) = leading_ws_count(ls[k].as_slice());
        if lw < ls[k].len() && lb < w {
            w = lb;
        }
        k = k + 1;
    }
    if w == total {
        return from_chars(sc.as_slice());
    }
    let ghost lv = views(ls@);
    let mut body: Vec<char> = Vec::new();
    let mut j: usize = 0;
    while j < ls.len()
        invariant
            j <= ls.len(),
            lv == views(ls@),
            w == dedent_width_of(s@),
            w != utf8_len(s@),
            dedent_cuts_whole_chars(s@),
            lv == lines(s@),
            body@ == dedent_lines(lv, w as nat, j as nat),
        decreases ls.len() - j,
    {
        let line = &ls[j];
        let lbytes = byte_len(line.as_slice());
        assert(lv[j as int] == line@);
        if lbytes >= w {
            let start = match boundary_chars(line.as_slice(), w) {
                Option::Some(k) => k,
                Option::None => {
                    assert(false);
                    0
                },
            };
            proof {
                lemma_boundary_unique(line@, start as int, w as nat);
            }
            let mut t: usize = start;
            let ghost b0 = body@;
            while t < line.len()
                invariant
                    start <= t <= line.len(),
                    body@ == b0 + line@.subrange(start as int, t as int),
                decreases line.len() - t,
            {
                body.push(line[t]);
                assert(line@.subrange(start as int, t + 1) == line@.subrange(start as int, t as int).push(line@[t as int]));
                t = t + 1;
            }
            assert(line@.subrange(start as int, line@.len() as int) == line@.skip(start as int));
        } else {
            extend_chars(&mut body, line.as_slice());
        }
        body.push('\n');
        j = j + 1;
    }
    assert(ls@.len() > 0);
    assert(body@.len() > 0);
    if sc.len() == 0 || sc[sc.len() - 1] != '\n' {
        if body.len() > 0 {
            body.pop();
        }
    }
    from_chars(body.as_slice())
}

} // verus!
