//! Conversions between strings and the character vectors that the verified code works on.

use vstd::prelude::*;

verus! {

/// The characters of `s`, in order.
pub(crate) fn chars_of(s: &str) -> (v: Vec<char>)
    ensures
        v@ == s@,
{
    let mut v: Vec<char> = Vec::new();
    let ghost all = vstd::std_specs::iter::IteratorSpec::remaining(&vstd::string::spec_iter(s));
    proof {
        vstd::string::axiom_spec_iter(s);
    }
    for c in it: s.chars()
        invariant
            it.seq() == all,
            all == s@,
            v@ == all.take(it.index()),
    {
        assert(all.take(it.index() + 1) =~= all.take(it.index()).push(c));
        v.push(c);
    }
    assert(all.take(all.len() as int) =~= all);
    v
}

/// Builds a string from characters (`Iterator::collect` into a `String`): the result holds
/// exactly the given characters in order.
#[verifier::external_body]
pub(crate) fn string_of(cs: &[char]) -> (s: String)
    ensures
        s@ == cs@,
{
    cs.iter().collect()
}

/// A copy of the string, holding the same characters.
pub(crate) fn copy_str(s: &str) -> (r: String)
    ensures
        r@ == s@,
{
    String::from_str(s)
}

/// Whether two character sequences are equal, compared element by element.
pub fn chars_eq(a: &[char], b: &[char]) -> (r: bool)
    ensures
        r == (a@ == b@),
{
    if a.len() != b.len() {
        return false;
    }
    let mut i: usize = 0;
    while i < a.len()
        invariant
            a.len() == b.len(),
            i <= a.len(),
            forall|j: int| 0 <= j < i ==> a@[j] == b@[j],
        decreases a.len() - i,
    {
        if a[i] != b[i] {
            return false;
        }
        i = i + 1;
    }
    assert(a@ =~= b@);
    true
}

/// Whether two strings hold the same characters.
pub fn str_eq(a: &str, b: &str) -> (r: bool)
    ensures
        r == (a@ == b@),
{
    let ca = chars_of(a);
    let cb = chars_of(b);
    chars_eq(ca.as_slice(), cb.as_slice())
}

/// The decimal digits of `v`, most significant first, without leading zeros.
pub open spec fn decimal(v: nat) -> Seq<char>
    decreases v,
{
    if v < 10 {
        seq![digit_char(v)]
    } else {
        decimal(v / 10).push(digit_char(v % 10))
    }
}

/// The character of a decimal digit.
pub open spec fn digit_char(d: nat) -> char {
    if d == 0 { '0' } else if d == 1 { '1' } else if d == 2 { '2' } else if d == 3 { '3' } else if d == 4 {
        '4'
    } else if d == 5 { '5' } else if d == 6 { '6' } else if d == 7 { '7' } else if d == 8 { '8' } else { '9' }
}

/// Appends the decimal digits of `v` to `out`.
pub fn push_decimal(out: &mut Vec<char>, v: u64)
    ensures
        final(out)@ == old(out)@ + decimal(v as nat),
    decreases v,
{
    if v >= 10 {
        push_decimal(out, v / 10);
    }
    let d = v % 10;
    let c = if d == 0 { '0' } else if d == 1 { '1' } else if d == 2 { '2' } else if d == 3 { '3' } else if d == 4 {
        '4'
    } else if d == 5 { '5' } else if d == 6 { '6' } else if d == 7 { '7' } else if d == 8 { '8' } else { '9' };
    out.push(c);
    proof {
        if v >= 10 {
            assert(old(out)@ + decimal(v as nat) =~= old(out)@ + decimal((v / 10) as nat) + seq![c]);
        } else {
            assert(old(out)@ + decimal(v as nat) =~= old(out)@ + seq![c]);
        }
    }
}

/// Renders `v` in decimal.
pub fn decimal_string(v: u64) -> (s: String)
    ensures
        s@ == decimal(v as nat),
{
    let mut cs: Vec<char> = Vec::new();
    push_decimal(&mut cs, v);
    assert(cs@ =~= decimal(v as nat));
    string_of(cs.as_slice())
}

} // verus!
