//! Helpers that write lists to a formatter: numbered lists, labeled lists and
//! labeled mismatches.

use vstd::prelude::*;
use crate::format::Mismatch;
use crate::formatter::{fm_write, Formatter, Seg};
use crate::indent::{is_whitespace, is_ws};
use crate::strings::{digits, int_len, spec_indent};
use crate::text::{decimal, decimal_chars, extend_chars, from_chars, spaces, to_chars};
use crate::value::{repr, repr_into};

verus! {

/// `i` in decimal, padded with zeros to `width` digits.
pub open spec fn zero_padded(i: nat, width: nat) -> Seq<char> {
    Seq::new((width - digits(i, 10)) as nat, |k: int| '0') + decimal(i)
}

/// The items `items[0..k]` of a numbered list whose indices have `width` digits.
pub open spec fn indexed_upto(m: Seq<Seg>, items: Seq<Seq<char>>, width: nat, k: nat) -> Seq<Seg>
    decreases k,
{
    if k == 0 {
        m
    } else {
        let i = (k - 1) as nat;
        let m1 = fm_write(indexed_upto(m, items, width, i), "["@ + zero_padded(i, width) + "]  "@);
        let m2 = fm_write(m1, spec_indent(items[i as int], spaces(width + 4), true));
        fm_write(m2, "\n\n"@)
    }
}

/// Writes a numbered list: each item after its index in brackets (padded
/// with zeros to the width of the number of items), its further lines
/// indented to line up with its first, then a blank line.
pub fn indexed_list(f: &mut Formatter, items: &Vec<String>)
    ensures
        final(f)@ == indexed_upto(
            old(f)@,
            items@.map_values(|s: String| s@),
            digits(items@.len() as nat, 10),
            items@.len() as nat,
        ),
{
    let ghost iv = items@.map_values(|s: String| s@);
    let ghost m0 = f@;
    let n = items.len();
    proof {
        vstd::arithmetic::power2::lemma2_to64();
        crate::strings::lemma_digits_bound(n as nat, 10, 64);
    }
    let width = int_len(n, 10);
    let prefix = crate::strings::whitespace((width + 4) as usize);
    let mut i: usize = 0;
    while i < n
        invariant
            i <= n,
            n == items@.len(),
            iv == items@.map_values(|s: String| s@),
            width == digits(n as nat, 10),
            width <= 64,
            prefix@ == spaces((width + 4) as nat),
            f@ == indexed_upto(m0, iv, width as nat, i as nat),
        decreases n - i,
    {
        proof {
            crate::strings::lemma_digits_mono(i as nat, n as nat, 10);
        }
        let mut label: Vec<char> = Vec::new();
        label.push('[');
        let pad = width - int_len(i, 10);
        let mut z: u32 = 0;
        while z < pad
            invariant
                z <= pad,
                label@ == seq!['['] + Seq::new(z as nat, |k: int| '0'),
            decreases pad - z,
        {
            label.push('0');
            assert(Seq::new((z + 1) as nat, |k: int| '0') =~= Seq::new(z as nat, |k: int| '0').push('0'));
            z = z + 1;
        }
        let d = decimal_chars(i as u128);
        extend_chars(&mut label, d.as_slice());
        let close = to_chars("]  ");
        extend_chars(&mut label, close.as_slice());
        let open = to_chars("[");
        assert(open@ =~= seq!['[']) by {
            reveal_strlit("[");
        }
        assert(label@ =~= "["@ + zero_padded(i as nat, width as nat) + "]  "@);
        f.write_chars(label.as_slice());
        let body = crate::strings::indent(items[i].as_str(), prefix.as_str(), true);
        f.write_str(body.as_str());
        f.write_str("\n\n");
        i = i + 1;
    }
}

/// An element of a labeled list.
#[derive(Debug)]
pub struct Labeled {
    /// The label, on a line of its own.
    pub label: String,
    /// The element, indented under the label.
    pub element: String,
}

/// The items `items[0..k]` of a labeled list.
pub open spec fn labeled_upto(m: Seq<Seg>, items: Seq<(Seq<char>, Seq<char>)>, k: nat) -> Seq<Seg>
    decreases k,
{
    if k == 0 {
        m
    } else {
        let (label, element) = items[k - 1];
        let m1 = fm_write(fm_write(labeled_upto(m, items, (k - 1) as nat), label), "\n"@);
        fm_write(fm_write(m1, spec_indent(element, spaces(2), false)), "\n"@)
    }
}

/// Writes a labeled list: each label on a line of its own, then its element
/// indented by two spaces.
pub fn labeled_list(f: &mut Formatter, items: &Vec<Labeled>)
    ensures
        final(f)@ == labeled_upto(
            old(f)@,
            items@.map_values(|x: Labeled| (x.label@, x.element@)),
            items@.len() as nat,
        ),
{
    let ghost iv = items@.map_values(|x: Labeled| (x.label@, x.element@));
    let ghost m0 = f@;
    let prefix = crate::strings::whitespace(2);
    let mut i: usize = 0;
    while i < items.len()
        invariant
            i <= items@.len(),
            iv == items@.map_values(|x: Labeled| (x.label@, x.element@)),
            prefix@ == spaces(2),
            f@ == labeled_upto(m0, iv, i as nat),
        decreases items@.len() - i,
    {
        f.write_str(items[i].label.as_str());
        f.write_str("\n");
        let body = crate::strings::indent(items[i].element.as_str(), prefix.as_str(), false);
        f.write_str(body.as_str());
        f.write_str("\n");
        i = i + 1;
    }
}

/// `s` without white space at its start and end, as `str::trim` cuts it.
pub open spec fn trimmed(s: Seq<char>) -> Seq<char>
    decreases s.len(),
{
    if s.len() == 0 {
        s
    } else if is_ws(s[0]) {
        trimmed(s.drop_first())
    } else if is_ws(s.last()) {
        trimmed(s.drop_last())
    } else {
        s
    }
}

/// `s` without white space at its start and end.
pub fn trim_chars(s: &Vec<char>) -> (r: Vec<char>)
    ensures
        r@ == trimmed(s@),
{
    let mut lo: usize = 0;
    let mut hi: usize = s.len();
    assert(s@.subrange(0, s@.len() as int) =~= s@);
    while lo < hi && (is_whitespace(s[lo]) || is_whitespace(s[hi - 1]))
        invariant
            lo <= hi <= s@.len(),
            trimmed(s@) == trimmed(s@.subrange(lo as int, hi as int)),
        decreases hi - lo,
    {
        let ghost t = s@.subrange(lo as int, hi as int);
        if is_whitespace(s[lo]) {
            assert(t.drop_first() =~= s@.subrange(lo + 1, hi as int));
            lo = lo + 1;
        } else {
            assert(t.drop_last() =~= s@.subrange(lo as int, hi - 1));
            hi = hi - 1;
        }
    }
    let mut r: Vec<char> = Vec::new();
    let mut k: usize = lo;
    while k < hi
        invariant
            lo <= k <= hi <= s@.len(),
            r@ == s@.subrange(lo as int, k as int),
        decreases hi - k,
    {
        r.push(s[k]);
        assert(s@.subrange(lo as int, k + 1) =~= s@.subrange(lo as int, k as int).push(s@[k as int]));
        k = k + 1;
    }
    r
}

/// A mismatch with a label for each of its two values.
#[derive(Debug)]
pub struct LabeledMismatch {
    /// The label of the actual value.
    pub actual_label: String,
    /// The label of the expected value.
    pub expected_label: String,
    /// The two values.
    pub mismatch: Mismatch,
}

/// Writes the expected value, then the actual value, each under its label,
/// as the trimmed debug representation.
pub fn labeled_mismatch(f: &mut Formatter, mismatch: &LabeledMismatch)
    ensures
        final(f)@ == labeled_upto(
            old(f)@,
            seq![
                (mismatch.expected_label@, trimmed(repr(mismatch.mismatch.expected@))),
                (mismatch.actual_label@, trimmed(repr(mismatch.mismatch.actual@))),
            ],
            2,
        ),
{
    let mut e: Vec<char> = Vec::new();
    repr_into(&mismatch.mismatch.expected, &mut e);
    let mut a: Vec<char> = Vec::new();
    repr_into(&mismatch.mismatch.actual, &mut a);
    let mut items: Vec<Labeled> = Vec::new();
    items.push(Labeled {
        label: mismatch.expected_label.clone(),
        element: from_chars(trim_chars(&e).as_slice()),
    });
    items.push(Labeled {
        label: mismatch.actual_label.clone(),
        element: from_chars(trim_chars(&a).as_slice()),
    });
    labeled_list(f, &items);
    assert(items@.map_values(|x: Labeled| (x.label@, x.element@)) =~= seq![
        (mismatch.expected_label@, trimmed(repr(mismatch.mismatch.expected@))),
        (mismatch.actual_label@, trimmed(repr(mismatch.mismatch.actual@))),
    ]);
}

} // verus!
