//! Character-level text helpers: decimal rendering and conversions between
//! `str`, `String` and character vectors.
use vstd::prelude::*;

verus! {

/// The ASCII digit for a value below ten.
pub open spec fn digit_char(d: int) -> char {
    (d + 48) as char
}

/// Decimal digits of a natural number, most significant first, no leading zeros.
pub open spec fn dec_nat(n: nat) -> Seq<char>
    decreases n,
{
    if n < 10 {
        seq![digit_char(n as int)]
    } else {
        dec_nat(n / 10).push(digit_char((n % 10) as int))
    }
}

/// Decimal rendering of an integer, with a leading `-` when negative.
pub open spec fn dec_int(i: int) -> Seq<char> {
    if i < 0 {
        seq!['-'] + dec_nat((-i) as nat)
    } else {
        dec_nat(i as nat)
    }
}

fn push_dec_u64(out: &mut Vec<char>, n: u64)
    ensures
        final(out)@ == old(out)@ + dec_nat(n as nat),
    decreases n,
{
    if n >= 10 {
        push_dec_u64(out, n / 10);
    }
    let d: u8 = (n % 10) as u8;
    let c: char = (d + 48) as char;
    proof {
        assert(c == digit_char((n % 10) as int));
    }
    out.push(c);
}

/// Appends the decimal rendering of a line or token number.
pub fn push_usize(out: &mut Vec<char>, n: usize)
    ensures
        final(out)@ == old(out)@ + dec_int(n as int),
{
    push_dec_u64(out, n as u64);
}

/// Appends the decimal rendering of a signed 32-bit value.
pub fn push_i32(out: &mut Vec<char>, n: i32)
    ensures
        final(out)@ == old(out)@ + dec_int(n as int),
{
    if n < 0 {
        out.push('-');
        let m: i64 = -(n as i64);
        push_dec_u64(out, m as u64);
        proof {
            assert(final(out)@ =~= old(out)@ + dec_int(n as int));
        }
    } else {
        push_dec_u64(out, n as u64);
    }
}

/// Relies on `str::chars`: it yields the characters of the string in order.
#[verifier::external_body]
pub fn chars_of(s: &str) -> (r: Vec<char>)
    ensures
        r@ == s@,
{
    s.chars().collect()
}

/// Relies on `String`'s `FromIterator<char>`: it concatenates the characters in order.
#[verifier::external_body]
pub fn string_of(v: &Vec<char>) -> (r: String)
    ensures
        r@ == v@,
{
    v.iter().collect()
}

/// Appends the characters of `s`.
pub fn push_str(out: &mut Vec<char>, s: &str)
    ensures
        final(out)@ == old(out)@ + s@,
{
    let mut v = chars_of(s);
    out.append(&mut v);
}

/// Appends `src[start..end]`.
pub fn push_range(out: &mut Vec<char>, src: &Vec<char>, start: usize, end: usize)
    requires
        start <= end <= src@.len(),
    ensures
        final(out)@ == old(out)@ + src@.subrange(start as int, end as int),
{
    let mut i = start;
    while i < end
        invariant
            start <= i <= end <= src@.len(),
            out@ == old(out)@ + src@.subrange(start as int, i as int),
        decreases end - i,
    {
        out.push(src[i]);
        proof {
            assert(src@.subrange(start as int, i + 1) =~= src@.subrange(start as int, i as int).push(src@[i as int]));
        }
        i = i + 1;
    }
}

/// Whether `src[start..end]` spells `lit`.
pub fn range_is(src: &Vec<char>, start: usize, end: usize, lit: &str) -> (r: bool)
    requires
        start <= end <= src@.len(),
    ensures
        r == (src@.subrange(start as int, end as int) == lit@),
{
    let l = chars_of(lit);
    if end - start != l.len() {
        return false;
    }
    let mut i: usize = 0;
    while i < l.len()
        invariant
            end - start == l@.len(),
            start <= end <= src@.len(),
            l@ == lit@,
            0 <= i <= l@.len(),
            forall|j: int| 0 <= j < i ==> src@[start + j] == l@[j],
        decreases l.len() - i,
    {
        if src[start + i] != l[i] {
            proof {
                assert(src@.subrange(start as int, end as int)[i as int] != lit@[i as int]);
            }
            return false;
        }
        i = i + 1;
    }
    proof {
        assert(src@.subrange(start as int, end as int) =~= lit@);
    }
    true
}

/// Whether `a[a0..a1]` and `b[b0..b1]` hold the same characters.
pub fn ranges_equal(a: &Vec<char>, a0: usize, a1: usize, b: &Vec<char>) -> (r: bool)
    requires
        a0 <= a1 <= a@.len(),
    ensures
        r == (a@.subrange(a0 as int, a1 as int) == b@),
{
    if a1 - a0 != b.len() {
        return false;
    }
    let mut i: usize = 0;
    while i < b.len()
        invariant
            a1 - a0 == b@.len(),
            a0 <= a1 <= a@.len(),
            0 <= i <= b@.len(),
            forall|j: int| 0 <= j < i ==> a@[a0 + j] == b@[j],
        decreases b.len() - i,
    {
        if a[a0 + i] != b[i] {
            proof {
                assert(a@.subrange(a0 as int, a1 as int)[i as int] != b@[i as int]);
            }
            return false;
        }
        i = i + 1;
    }
    proof {
        assert(a@.subrange(a0 as int, a1 as int) =~= b@);
    }
    true
}

} // verus!
