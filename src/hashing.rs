use sha2::Digest;
use vstd::prelude::*;

verus! {

/// The SHA-256 digest of the UTF-8 encoding of a string.
pub uninterp spec fn sha256_of(s: Seq<char>) -> Seq<u8>;

/// The lowercase hexadecimal digits, in order of value.
pub open spec fn hex_alphabet() -> Seq<char> {
    seq!['0', '1', '2', '3', '4', '5', '6', '7', '8', '9', 'a', 'b', 'c', 'd', 'e', 'f']
}

/// The lowercase hexadecimal digit of a value below 16.
pub open spec fn hex_digit(n: int) -> char {
    hex_alphabet()[n]
}

/// Whether a character is a lowercase hexadecimal digit.
pub open spec fn is_hex_char(c: char) -> bool {
    hex_alphabet().contains(c)
}

/// Two lowercase hexadecimal digits per byte, most significant first.
pub open spec fn hex_of(b: Seq<u8>) -> Seq<char>
    decreases b.len(),
{
    if b.len() == 0 {
        Seq::empty()
    } else {
        hex_of(b.drop_last()) + seq![hex_digit(b.last() as int / 16), hex_digit(b.last() as int % 16)]
    }
}

/// Twelve zero digits: the fingerprint segment of an empty input.
pub open spec fn zero12() -> Seq<char> {
    Seq::new(12, |i: int| '0')
}

/// The first twelve hexadecimal digits of a digest.
pub open spec fn hex12_of(d: Seq<u8>) -> Seq<char> {
    hex_of(d).take(12)
}

/// The truncated hash of a joined token string.
pub open spec fn hash12_spec(s: Seq<char>) -> Seq<char> {
    if s.len() == 0 {
        zero12()
    } else {
        hex12_of(sha256_of(s))
    }
}

pub proof fn lemma_hex_len(b: Seq<u8>)
    ensures
        hex_of(b).len() == 2 * b.len(),
        forall|i: int| 0 <= i < hex_of(b).len() ==> is_hex_char(#[trigger] hex_of(b)[i]),
    decreases b.len(),
{
    if b.len() > 0 {
        lemma_hex_len(b.drop_last());
        let hi = b.last() as int / 16;
        let lo = b.last() as int % 16;
        assert(hex_alphabet()[hi] == hex_digit(hi));
        assert(hex_alphabet()[lo] == hex_digit(lo));
        assert(is_hex_char(hex_digit(hi)));
        assert(is_hex_char(hex_digit(lo)));
        let p = hex_of(b.drop_last());
        assert forall|i: int| 0 <= i < hex_of(b).len() implies is_hex_char(
            #[trigger] hex_of(b)[i],
        ) by {
            if i < p.len() {
                assert(hex_of(b)[i] == p[i]);
            }
        }
    }
}

/// Relies on sha2::Sha256::digest over the string's UTF-8 bytes: a 32-byte digest.
#[verifier::external_body]
fn sha256(s: &str) -> (r: Vec<u8>)
    ensures
        r@ == sha256_of(s@),
        r@.len() == 32,
{
    sha2::Sha256::digest(s.as_bytes()).to_vec()
}

/// Relies on hex::encode: two lowercase digits for each byte, in order.
#[verifier::external_body]
pub(crate) fn hex_encode(b: &[u8]) -> (r: String)
    ensures
        r@ == hex_of(b@),
{
    hex::encode(b)
}

/// The first twelve hexadecimal digits of a digest of at least six bytes.
pub fn hash12_of_digest(digest: &[u8]) -> (r: String)
    requires
        digest@.len() >= 6,
    ensures
        r@ == hex12_of(digest@),
{
    let h = hex_encode(digest);
    proof {
        lemma_hex_len(digest@);
    }
    let head = h.as_str().substring_char(0, 12);
    String::from_str(head)
}

/// The first twelve hexadecimal digits of the SHA-256 of `s`, or twelve zeros
/// when `s` is empty. Always twelve lowercase hexadecimal digits.
pub fn hash12(s: &str) -> (r: String)
    ensures
        r@ == hash12_spec(s@),
        r@.len() == 12,
        forall|i: int| 0 <= i < 12 ==> is_hex_char(#[trigger] r@[i]),
{
    if s.unicode_len() == 0 {
        let z = String::from_str("000000000000");
        proof {
            reveal_strlit("000000000000");
            assert(z@ =~= zero12());
            assert(hex_alphabet()[0] == '0');
            assert(is_hex_char('0'));
        }
        z
    } else {
        let d = sha256(s);
        proof {
            lemma_hex_len(d@);
        }
        hash12_of_digest(d.as_slice())
    }
}

} // verus!
