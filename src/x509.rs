use crate::hashing::{hash12, hash12_spec};
use crate::http::{join, join_commas};
use crate::text::push_char;
use vstd::prelude::*;

verus! {

/// The OIDs of one certificate, in DER order, as dotted-decimal strings.
#[derive(Debug, Clone)]
pub struct Certificate {
    pub issuer_rdns: Vec<String>,
    pub subject_rdns: Vec<String>,
    pub extensions: Vec<String>,
}

pub open spec fn views(v: Seq<String>) -> Seq<Seq<char>> {
    v.map_values(|s: String| s@)
}

/// JA4X: three truncated hashes over issuer, subject and extension OIDs, never sorted.
pub open spec fn ja4x_spec(c: Certificate) -> Seq<char> {
    hash12_spec(join(views(c.issuer_rdns@), ',')) + seq!['_'] + hash12_spec(
        join(views(c.subject_rdns@), ','),
    ) + seq!['_'] + hash12_spec(join(views(c.extensions@), ','))
}

/// The JA4X fingerprint of a certificate.
pub fn ja4x(c: &Certificate) -> (r: String)
    ensures
        r@ == ja4x_spec(*c),
{
    let i = join_commas(&c.issuer_rdns);
    let s = join_commas(&c.subject_rdns);
    let e = join_commas(&c.extensions);
    let mut r = hash12(i.as_str());
    push_char(&mut r, '_');
    let hs = hash12(s.as_str());
    r.append(hs.as_str());
    push_char(&mut r, '_');
    let he = hash12(e.as_str());
    r.append(he.as_str());
    r
}

/// JA4X with the hashed texts in place of their hashes.
pub open spec fn ja4x_raw_spec(c: Certificate) -> Seq<char> {
    join(views(c.issuer_rdns@), ',') + seq!['_'] + join(views(c.subject_rdns@), ',') + seq!['_']
        + join(views(c.extensions@), ',')
}

/// JA4X unhashed: the three comma-joined OID lists.
pub fn ja4x_raw(c: &Certificate) -> (r: String)
    ensures
        r@ == ja4x_raw_spec(*c),
{
    let mut r = join_commas(&c.issuer_rdns);
    let s = join_commas(&c.subject_rdns);
    let e = join_commas(&c.extensions);
    push_char(&mut r, '_');
    r.append(s.as_str());
    push_char(&mut r, '_');
    r.append(e.as_str());
    r
}

/// The text that the third JA4X hash covers: the extension OIDs joined by commas.
pub fn ja4x_extensions_raw(c: &Certificate) -> (r: String)
    ensures
        r@ == join(views(c.extensions@), ','),
{
    join_commas(&c.extensions)
}

} // verus!
