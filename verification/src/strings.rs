//! String utilities used by the formatters: indentation, runs of whitespace
//! and the width of printed integers.

use vstd::prelude::*;
use crate::text::{
    extend_chars, from_chars, lemma_lines_nonempty, lines, space_chars, spaces, split_lines,
    to_chars, views,
};

verus! {

/// The lines `ls[0..k]`, each preceded by `prefix` (except the first one when
/// `hanging`) and followed by a line feed.
pub open spec fn indent_lines(ls: Seq<Seq<char>>, prefix: Seq<char>, hanging: bool, k: nat) -> Seq<char>
    decreases k,
{
    if k == 0 {
        seq![]
    } else {
        let lead = if hanging && k == 1 { Seq::<char>::empty() } else { prefix };
        indent_lines(ls, prefix, hanging, (k - 1) as nat) + lead + ls[k - 1] + seq!['\n']
    }
}

/// The text `s` with `prefix` put in front of each of its lines (except the
/// first one when `hanging`). Line endings become `\n`; a missing final line
/// ending stays missing. An empty text or an empty prefix leaves `s` as it is.
pub open spec fn spec_indent(s: Seq<char>, prefix: Seq<char>, hanging: bool) -> Seq<char> {
    if s.len() == 0 || prefix.len() == 0 {
        s
    } else {
        let ls = lines(s);
        let body = indent_lines(ls, prefix, hanging, ls.len());
        if s.last() == '\n' {
            body
        } else {
            body.drop_last()
        }
    }
}

/// The body of an indented text always ends with the line feed of its last line.
pub proof fn lemma_indent_lines_ends(ls: Seq<Seq<char>>, prefix: Seq<char>, hanging: bool, k: nat)
    requires
        k > 0,
    ensures
        indent_lines(ls, prefix, hanging, k).len() > 0,
        indent_lines(ls, prefix, hanging, k).last() == '\n',
{
}

/// Indents the lines of `ls` one by one.
pub fn indent_line_vec(ls: &Vec<Vec<char>>, prefix: &[char], hanging: bool) -> (r: Vec<char>)
    ensures
        r@ == indent_lines(views(ls@), prefix@, hanging, ls@.len()),
{
    let mut out: Vec<char> = Vec::new();
    let mut k: usize = 0;
    while k < ls.len()
        invariant
            k <= ls.len(),
            out@ == indent_lines(views(ls@), prefix@, hanging, k as nat),
        decreases ls.len() - k,
    {
        if !(hanging && k == 0) {
            extend_chars(&mut out, prefix);
        }
        extend_chars(&mut out, ls[k].as_slice());
        out.push('\n');
        k = k + 1;
    }
    out
}

/// Indents each line of `s` by `prefix`; with `hanging`, the first line is
/// left as it is.
///
/// An empty `s` or an empty `prefix` gives back `s`. Otherwise each line of
/// `s` (as `str::lines` splits it) is written with the prefix before it and a
/// `\n` after it, and the final `\n` is dropped again when `s` does not end
/// with one.
pub fn indent(s: &str, prefix: &str, hanging: bool) -> (r: String)
    ensures
        r@ == spec_indent(s@, prefix@, hanging),
{
    let sc = to_chars(s);
    let pc = to_chars(prefix);
    if sc.len() == 0 || pc.len() == 0 {
        return from_chars(sc.as_slice());
    }
    let ls = split_lines(sc.as_slice());
    proof {
        lemma_lines_nonempty(sc@);
    }
    let mut body = indent_line_vec(&ls, pc.as_slice(), hanging);
    proof {
        lemma_indent_lines_ends(views(ls@), pc@, hanging, ls@.len());
    }
    if sc[sc.len() - 1] != '\n' {
        body.pop();
    }
    from_chars(body.as_slice())
}

/// A string of `spaces` space characters.
pub fn whitespace(spaces_len: usize) -> (r: String)
    ensures
        r@ == spaces(spaces_len as nat),
{
    let v = space_chars(spaces_len);
    from_chars(v.as_slice())
}

/// The number of digits of `n` written in base `base`.
pub open spec fn digits(n: nat, base: nat) -> nat
    decreases n,
{
    if base < 2 || n < base {
        1
    } else {
        proof {
            vstd::arithmetic::div_mod::lemma_div_decreases(n as int, base as int);
        }
        1 + digits(n / base, base)
    }
}

/// The number of digits of `n` written in base `base`: one for every number
/// below `base`, one more for each further power of `base` that `n` reaches.
pub fn int_len(n: usize, base: u32) -> (r: u32)
    requires
        base >= 2,
    ensures
        r == digits(n as nat, base as nat),
{
    let b = base as usize;
    proof {
        vstd::arithmetic::power2::lemma2_to64();
        lemma_digits_bound(n as nat, base as nat, 64);
    }
    let mut m = n;
    let mut count: u32 = 1;
    while m >= b
        invariant
            b == base,
            b >= 2,
            1 <= count,
            count - 1 + digits(m as nat, b as nat) == digits(n as nat, b as nat),
            digits(n as nat, b as nat) <= 64,
        decreases m,
    {
        proof {
            lemma_digits_pos(m as nat / b as nat, b as nat);
            vstd::arithmetic::div_mod::lemma_div_decreases(m as int, b as int);
        }
        m = m / b;
        count = count + 1;
    }
    count
}

/// A larger number has at least as many digits.
pub proof fn lemma_digits_mono(a: nat, b: nat, base: nat)
    requires
        a <= b,
    ensures
        digits(a, base) <= digits(b, base),
    decreases b,
{
    if base >= 2 && b >= base {
        vstd::arithmetic::div_mod::lemma_div_decreases(b as int, base as int);
        lemma_digits_pos(b / base, base);
        if a >= base {
            vstd::arithmetic::div_mod::lemma_div_is_ordered(a as int, b as int, base as int);
            lemma_digits_mono(a / base, b / base, base);
        }
    }
}

/// Every number has at least one digit.
pub proof fn lemma_digits_pos(n: nat, base: nat)
    ensures
        digits(n, base) >= 1,
    decreases n,
{
    if base >= 2 && n >= base {
        vstd::arithmetic::div_mod::lemma_div_decreases(n as int, base as int);
        lemma_digits_pos(n / base, base);
    }
}

/// A number below `2^k` (with `k >= 1`) has at most `k` digits in any base.
pub proof fn lemma_digits_bound(n: nat, base: nat, k: nat)
    requires
        base >= 2,
        k >= 1,
        n < vstd::arithmetic::power2::pow2(k),
    ensures
        digits(n, base) <= k,
    decreases k,
{
    if n >= base {
        vstd::arithmetic::power2::lemma_pow2_unfold(k);
        if k == 1 {
            vstd::arithmetic::power2::lemma2_to64();
            assert(false);
        }
        vstd::arithmetic::div_mod::lemma_div_is_ordered_by_denominator(n as int, 2, base as int);
        vstd::arithmetic::div_mod::lemma_div_decreases(n as int, base as int);
        let p = vstd::arithmetic::power2::pow2((k - 1) as nat);
        assert(n / 2 < p) by (nonlinear_arith)
            requires
                n < 2 * p,
        ;
        lemma_digits_bound(n / base, base, (k - 1) as nat);
    }
}

} // verus!

verus! {

/// Padding that aligns the printed `n` to the width of the printed `longest`.
pub fn pad_int(n: usize, longest: usize, base: u32) -> (r: String)
    requires
        base >= 2,
        digits(n as nat, base as nat) <= digits(longest as nat, base as nat),
    ensures
        r@ == spaces((digits(longest as nat, base as nat) - digits(n as nat, base as nat)) as nat),
{
    let w = int_len(longest, base) - int_len(n, base);
    whitespace(w as usize)
}

} // verus!
