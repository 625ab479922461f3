use crate::hashing::{hex_digit, hex_encode, hex_of};
use vstd::prelude::*;

verus! {

/// Four lowercase hex digits of a 16-bit value.
pub open spec fn hex4(v: u16) -> Seq<char> {
    hex_of(seq![(v / 256) as u8, (v % 256) as u8])
}

/// The hex forms of the values, joined by commas.
pub open spec fn join_hex(s: Seq<u16>) -> Seq<char>
    decreases s.len(),
{
    if s.len() == 0 {
        Seq::empty()
    } else if s.len() == 1 {
        hex4(s[0])
    } else {
        join_hex(s.drop_last()) + seq![','] + hex4(s.last())
    }
}

/// A count as two decimal digits, capped at 99.
pub open spec fn count2(n: int) -> Seq<char> {
    let m = if n > 99 {
        99
    } else {
        n
    };
    seq![hex_digit(m / 10), hex_digit(m % 10)]
}

/// Relies on String::push: the character is added at the end.
#[verifier::external_body]
pub(crate) fn push_char(s: &mut String, c: char)
    ensures
        final(s)@ == old(s)@.push(c),
{
    s.push(c)
}

/// The digit of a value below 16.
pub(crate) fn digit(n: usize) -> (c: char)
    requires
        n < 16,
    ensures
        c == hex_digit(n as int),
{
    let digits = "0123456789abcdef";
    proof {
        reveal_strlit("0123456789abcdef");
    }
    digits.get_char(n)
}

/// A count as two decimal digits, capped at 99.
pub fn count_digits(n: usize) -> (r: String)
    ensures
        r@ == count2(n as int),
{
    let m: usize = if n > 99 {
        99
    } else {
        n
    };
    let mut r = String::new();
    push_char(&mut r, digit(m / 10));
    push_char(&mut r, digit(m % 10));
    assert(r@ =~= count2(n as int));
    r
}

/// Four lowercase hex digits of a 16-bit value.
pub fn hex_token(v: u16) -> (r: String)
    ensures
        r@ == hex4(v),
{
    let b: Vec<u8> = vec![(v / 256) as u8, (v % 256) as u8];
    assert(b@ =~= seq![(v / 256) as u8, (v % 256) as u8]);
    hex_encode(b.as_slice())
}

/// The hex forms of the values, joined by commas.
pub fn join_hex_list(v: &Vec<u16>) -> (r: String)
    ensures
        r@ == join_hex(v@),
{
    let mut r = String::new();
    let mut i: usize = 0;
    assert(v@.take(0) =~= Seq::<u16>::empty());
    while i < v.len()
        invariant
            i <= v@.len(),
            r@ == join_hex(v@.take(i as int)),
        decreases v.len() - i,
    {
        let t = hex_token(v[i]);
        proof {
            assert(v@.take(i as int + 1).drop_last() =~= v@.take(i as int));
        }
        if i > 0 {
            r.append(",");
            proof {
                reveal_strlit(",");
            }
        } else {
            assert(v@.take(1) =~= seq![v@[0]]);
        }
        r.append(t.as_str());
        i = i + 1;
    }
    assert(v@.take(v@.len() as int) =~= v@);
    r
}

} // verus!
