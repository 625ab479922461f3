use crate::hashing::{hash12, hash12_spec};
use crate::text::{count2, count_digits, join_hex, join_hex_list, push_char};
use crate::tokens::{
    ascending, grease_free, is_grease, is_grease_spec, lemma_ascending_permutation,
    lemma_filter_absorb, lemma_filter_insert_rejected, lemma_grease_free_idempotent,
    lemma_grease_insert_invisible, not_grease, sort_ascending, without_grease,
};
use vstd::prelude::*;

verus! {

/// The transport a TLS handshake travelled over.
#[derive(Debug, Clone, Copy, PartialEq, Eq)]
pub enum Transport {
    Tcp,
    Quic,
    Dtls,
}

/// What a fingerprint reads from a TLS ClientHello.
#[derive(Debug, Clone)]
pub struct ClientHello {
    pub transport: Transport,
    /// The record-layer version.
    pub record_version: u16,
    /// The values of the supported_versions extension, if any.
    pub supported_versions: Vec<u16>,
    /// Whether a server_name extension is present.
    pub has_sni: bool,
    /// The first ALPN value; empty when there is none.
    pub alpn: String,
    pub ciphers: Vec<u16>,
    pub extensions: Vec<u16>,
    pub signature_algorithms: Vec<u16>,
}

/// What a fingerprint reads from a TLS ServerHello.
#[derive(Debug, Clone)]
pub struct ServerHello {
    pub transport: Transport,
    /// The negotiated version: supported_versions if sent, else the record version.
    pub version: u16,
    /// The ALPN value the server chose; empty when there is none.
    pub alpn: String,
    pub cipher: u16,
    pub extensions: Vec<u16>,
}

pub open spec fn transport_char(t: Transport) -> char {
    match t {
        Transport::Tcp => 't',
        Transport::Quic => 'q',
        Transport::Dtls => 'd',
    }
}

/// The two-character code of a TLS version.
pub open spec fn version_code(v: u16) -> Seq<char> {
    if v == 0x0304 {
        seq!['1', '3']
    } else if v == 0x0303 {
        seq!['1', '2']
    } else if v == 0x0302 {
        seq!['1', '1']
    } else if v == 0x0301 {
        seq!['1', '0']
    } else if v == 0x0300 {
        seq!['s', '3']
    } else if v == 0x0002 {
        seq!['s', '2']
    } else {
        seq!['0', '0']
    }
}

/// The largest value of a list, 0 for an empty one.
pub open spec fn max_of(s: Seq<u16>) -> u16
    decreases s.len(),
{
    if s.len() == 0 {
        0
    } else {
        let m = max_of(s.drop_last());
        if s.last() > m {
            s.last()
        } else {
            m
        }
    }
}

/// The version a ClientHello offers: the largest non-GREASE supported version,
/// else the record version.
pub open spec fn client_version(h: ClientHello) -> u16 {
    let sv = grease_free(h.supported_versions@);
    if sv.len() > 0 {
        max_of(sv)
    } else {
        h.record_version
    }
}

/// The first and last character of the ALPN value, `00` when there is none.
pub open spec fn alpn_code(a: Seq<char>) -> Seq<char> {
    if a.len() == 0 {
        seq!['0', '0']
    } else {
        seq![a[0], a.last()]
    }
}

/// Extensions that the second hash leaves out: server_name and ALPN.
pub open spec fn hashed_extension() -> spec_fn(u16) -> bool {
    |v: u16| !is_grease_spec(v) && v != 0x0000 && v != 0x0010
}

/// The ciphers as hashed: GREASE out, sorted unless the original order is kept.
pub open spec fn cipher_list(h: ClientHello, original_order: bool) -> Seq<u16> {
    if original_order {
        grease_free(h.ciphers@)
    } else {
        grease_free(ascending(h.ciphers@))
    }
}

/// All non-GREASE extensions, in the order the mode gives.
pub open spec fn extension_list(h: ClientHello, original_order: bool) -> Seq<u16> {
    if original_order {
        grease_free(h.extensions@)
    } else {
        grease_free(ascending(h.extensions@))
    }
}

/// The extensions as hashed: without GREASE, server_name and ALPN.
pub open spec fn hashed_extensions(h: ClientHello, original_order: bool) -> Seq<u16> {
    if original_order {
        h.extensions@.filter(hashed_extension())
    } else {
        ascending(h.extensions@).filter(hashed_extension())
    }
}

/// The first part of JA4: transport, version, SNI, counts and ALPN.
pub open spec fn ja4_a(h: ClientHello, original_order: bool) -> Seq<char> {
    seq![transport_char(h.transport)] + version_code(client_version(h)) + seq![
        if h.has_sni {
            'd'
        } else {
            'i'
        },
    ] + count2(cipher_list(h, original_order).len() as int) + count2(
        extension_list(h, original_order).len() as int,
    ) + alpn_code(h.alpn@)
}

/// What the second hash of JA4 covers: extensions, then signature algorithms
/// after `_` when there are any.
pub open spec fn ja4_c_raw(h: ClientHello, original_order: bool) -> Seq<char> {
    let sig = grease_free(h.signature_algorithms@);
    if sig.len() == 0 {
        join_hex(hashed_extensions(h, original_order))
    } else {
        join_hex(hashed_extensions(h, original_order)) + seq!['_'] + join_hex(sig)
    }
}

/// The JA4 fingerprint of a ClientHello.
pub open spec fn ja4_spec(h: ClientHello, original_order: bool) -> Seq<char> {
    ja4_a(h, original_order) + seq!['_'] + hash12_spec(join_hex(cipher_list(h, original_order)))
        + seq!['_'] + hash12_spec(ja4_c_raw(h, original_order))
}

/// The JA4S fingerprint of a ServerHello; server lists keep their order. A
/// reserved pair `00` stands between the extension count and the ALPN code.
pub open spec fn ja4s_spec(h: ServerHello) -> Seq<char> {
    let ext = grease_free(h.extensions@);
    seq![transport_char(h.transport)] + version_code(h.version) + count2(ext.len() as int)
        + seq!['0', '0'] + alpn_code(h.alpn@) + seq!['_'] + hash12_spec(
        join_hex(ext) + seq!['_'] + join_hex(seq![h.cipher]),
    )
}

/// Two ClientHellos that differ only in the fields the sort reorders.
pub open spec fn same_but_lists(h1: ClientHello, h2: ClientHello) -> bool {
    &&& h1.transport == h2.transport
    &&& h1.record_version == h2.record_version
    &&& h1.supported_versions@ == h2.supported_versions@
    &&& h1.has_sni == h2.has_sni
    &&& h1.alpn@ == h2.alpn@
    &&& h1.signature_algorithms@ == h2.signature_algorithms@
}

/// With sorting on, any reordering of the ciphers and of the extensions gives
/// the same JA4.
pub proof fn lemma_ja4_sorted_ignores_order(h1: ClientHello, h2: ClientHello)
    requires
        same_but_lists(h1, h2),
        h1.ciphers@.to_multiset() == h2.ciphers@.to_multiset(),
        h1.extensions@.to_multiset() == h2.extensions@.to_multiset(),
    ensures
        ja4_spec(h1, false) == ja4_spec(h2, false),
{
    lemma_ascending_permutation(h1.ciphers@, h2.ciphers@);
    lemma_ascending_permutation(h1.extensions@, h2.extensions@);
    assert(client_version(h1) == client_version(h2));
    assert(ja4_a(h1, false) == ja4_a(h2, false));
    assert(ja4_c_raw(h1, false) == ja4_c_raw(h2, false));
}

/// With the original order kept, a GREASE value inserted anywhere among the
/// ciphers, the extensions, or both, leaves JA4 unchanged.
pub proof fn lemma_ja4_original_order_ignores_grease(
    h1: ClientHello,
    h2: ClientHello,
    g: u16,
    i: int,
    j: int,
)
    requires
        same_but_lists(h1, h2),
        is_grease_spec(g),
        0 <= i <= h1.ciphers@.len(),
        0 <= j <= h1.extensions@.len(),
        h2.ciphers@ == h1.ciphers@.insert(i, g) || h2.ciphers@ == h1.ciphers@,
        h2.extensions@ == h1.extensions@.insert(j, g) || h2.extensions@ == h1.extensions@,
    ensures
        ja4_spec(h2, true) == ja4_spec(h1, true),
        ja4_raw_spec(h2, true) == ja4_raw_spec(h1, true),
{
    lemma_grease_insert_invisible(h1.ciphers@, i, g);
    lemma_grease_insert_invisible(h1.extensions@, j, g);
    lemma_filter_insert_rejected(h1.extensions@, j, g, hashed_extension());
    assert(client_version(h1) == client_version(h2));
    assert(ja4_a(h1, true) == ja4_a(h2, true));
    assert(ja4_c_raw(h1, true) == ja4_c_raw(h2, true));
}

/// With the original order kept, taking GREASE out of the ciphers and the
/// extensions beforehand leaves JA4 and its raw form unchanged.
pub proof fn lemma_ja4_grease_prefiltered(h1: ClientHello, h2: ClientHello)
    requires
        same_but_lists(h1, h2),
        h2.ciphers@ == grease_free(h1.ciphers@),
        h2.extensions@ == grease_free(h1.extensions@),
    ensures
        ja4_spec(h2, true) == ja4_spec(h1, true),
        ja4_raw_spec(h2, true) == ja4_raw_spec(h1, true),
{
    lemma_grease_free_idempotent(h1.ciphers@);
    lemma_grease_free_idempotent(h1.extensions@);
    lemma_filter_absorb(h1.extensions@, not_grease(), hashed_extension());
    assert(client_version(h1) == client_version(h2));
    assert(ja4_a(h1, true) == ja4_a(h2, true));
    assert(ja4_c_raw(h1, true) == ja4_c_raw(h2, true));
}

/// JA4S with the hashed text in place of its hash.
pub open spec fn ja4s_raw_spec(h: ServerHello) -> Seq<char> {
    let ext = grease_free(h.extensions@);
    seq![transport_char(h.transport)] + version_code(h.version) + count2(ext.len() as int)
        + seq!['0', '0'] + alpn_code(h.alpn@) + seq!['_'] + join_hex(ext) + seq!['_'] + join_hex(
        seq![h.cipher],
    )
}

fn transport_letter(t: Transport) -> (c: char)
    ensures
        c == transport_char(t),
{
    match t {
        Transport::Tcp => 't',
        Transport::Quic => 'q',
        Transport::Dtls => 'd',
    }
}

fn push_version_code(s: &mut String, v: u16)
    ensures
        final(s)@ == old(s)@ + version_code(v),
{
    let (a, b) = if v == 0x0304 {
        ('1', '3')
    } else if v == 0x0303 {
        ('1', '2')
    } else if v == 0x0302 {
        ('1', '1')
    } else if v == 0x0301 {
        ('1', '0')
    } else if v == 0x0300 {
        ('s', '3')
    } else if v == 0x0002 {
        ('s', '2')
    } else {
        ('0', '0')
    };
    push_char(s, a);
    push_char(s, b);
    assert(s@ =~= old(s)@ + version_code(v));
}

fn push_alpn_code(s: &mut String, alpn: &str)
    ensures
        final(s)@ == old(s)@ + alpn_code(alpn@),
{
    let n = alpn.unicode_len();
    if n == 0 {
        push_char(s, '0');
        push_char(s, '0');
    } else {
        push_char(s, alpn.get_char(0));
        push_char(s, alpn.get_char(n - 1));
    }
    assert(s@ =~= old(s)@ + alpn_code(alpn@));
}

/// The largest value of a list, 0 for an empty one.
pub fn max_value(v: &Vec<u16>) -> (r: u16)
    ensures
        r == max_of(v@),
{
    let mut m: u16 = 0;
    let mut i: usize = 0;
    while i < v.len()
        invariant
            i <= v@.len(),
            m == max_of(v@.take(i as int)),
        decreases v.len() - i,
    {
        assert(v@.take(i as int + 1).drop_last() =~= v@.take(i as int));
        if v[i] > m {
            m = v[i];
        }
        i = i + 1;
    }
    assert(v@.take(v@.len() as int) =~= v@);
    m
}

/// The extensions that the second hash of JA4 covers, in order.
pub fn extensions_for_hash(v: &Vec<u16>) -> (r: Vec<u16>)
    ensures
        r@ == v@.filter(hashed_extension()),
{
    let mut r: Vec<u16> = Vec::new();
    let mut i: usize = 0;
    while i < v.len()
        invariant
            i <= v@.len(),
            r@ == v@.take(i as int).filter(hashed_extension()),
        decreases v.len() - i,
    {
        proof {
            assert(v@.take(i as int + 1) =~= v@.take(i as int).push(v@[i as int]));
            v@.take(i as int).lemma_filter_push(v@[i as int], hashed_extension());
        }
        let x = v[i];
        if !is_grease(x) && x != 0x0000 && x != 0x0010 {
            r.push(x);
        }
        i = i + 1;
    }
    assert(v@.take(v@.len() as int) =~= v@);
    r
}

/// The version a ClientHello offers.
pub fn offered_version(h: &ClientHello) -> (r: u16)
    ensures
        r == client_version(*h),
{
    let sv = without_grease(&h.supported_versions);
    if sv.len() > 0 {
        max_value(&sv)
    } else {
        h.record_version
    }
}

/// The first part of JA4: transport, version, SNI, counts and ALPN code.
pub fn ja4_prefix(h: &ClientHello, original_order: bool) -> (r: String)
    ensures
        r@ == ja4_a(*h, original_order),
{
    let ciphers = if original_order {
        without_grease(&h.ciphers)
    } else {
        without_grease(&sort_ascending(&h.ciphers))
    };
    let exts = if original_order {
        without_grease(&h.extensions)
    } else {
        without_grease(&sort_ascending(&h.extensions))
    };
    let mut r = String::new();
    push_char(&mut r, transport_letter(h.transport));
    push_version_code(&mut r, offered_version(h));
    push_char(&mut r, if h.has_sni { 'd' } else { 'i' });
    let nc = count_digits(ciphers.len());
    r.append(nc.as_str());
    let ne = count_digits(exts.len());
    r.append(ne.as_str());
    push_alpn_code(&mut r, h.alpn.as_str());
    assert(r@ =~= ja4_a(*h, original_order));
    r
}

/// The text that JA4's first hash covers: the ciphers, comma-joined.
pub fn ja4_cipher_raw(h: &ClientHello, original_order: bool) -> (r: String)
    ensures
        r@ == join_hex(cipher_list(*h, original_order)),
{
    let ciphers = if original_order {
        without_grease(&h.ciphers)
    } else {
        without_grease(&sort_ascending(&h.ciphers))
    };
    join_hex_list(&ciphers)
}

/// The text that JA4's second hash covers: extensions, then signature algorithms.
pub fn ja4_extension_raw(h: &ClientHello, original_order: bool) -> (r: String)
    ensures
        r@ == ja4_c_raw(*h, original_order),
{
    let exts = if original_order {
        extensions_for_hash(&h.extensions)
    } else {
        extensions_for_hash(&sort_ascending(&h.extensions))
    };
    let sig = without_grease(&h.signature_algorithms);
    let mut c_raw = join_hex_list(&exts);
    if sig.len() > 0 {
        push_char(&mut c_raw, '_');
        let s = join_hex_list(&sig);
        c_raw.append(s.as_str());
    }
    assert(c_raw@ =~= ja4_c_raw(*h, original_order));
    c_raw
}

/// JA4 with the hashed texts in place of their hashes.
pub open spec fn ja4_raw_spec(h: ClientHello, original_order: bool) -> Seq<char> {
    ja4_a(h, original_order) + seq!['_'] + join_hex(cipher_list(h, original_order)) + seq!['_']
        + ja4_c_raw(h, original_order)
}

/// The JA4 fingerprint of a ClientHello. Ciphers and extensions are sorted
/// unless `original_order` is set; signature algorithms never are.
pub fn ja4(h: &ClientHello, original_order: bool) -> (r: String)
    ensures
        r@ == ja4_spec(*h, original_order),
{
    let mut r = ja4_prefix(h, original_order);
    let b_raw = ja4_cipher_raw(h, original_order);
    let c_raw = ja4_extension_raw(h, original_order);
    push_char(&mut r, '_');
    let hb = hash12(b_raw.as_str());
    r.append(hb.as_str());
    push_char(&mut r, '_');
    let hc = hash12(c_raw.as_str());
    r.append(hc.as_str());
    assert(r@ =~= ja4_spec(*h, original_order));
    r
}

/// JA4 unhashed: the prefix, then the texts that the two hashes cover.
pub fn ja4_raw(h: &ClientHello, original_order: bool) -> (r: String)
    ensures
        r@ == ja4_raw_spec(*h, original_order),
{
    let mut r = ja4_prefix(h, original_order);
    let b_raw = ja4_cipher_raw(h, original_order);
    let c_raw = ja4_extension_raw(h, original_order);
    push_char(&mut r, '_');
    r.append(b_raw.as_str());
    push_char(&mut r, '_');
    r.append(c_raw.as_str());
    assert(r@ =~= ja4_raw_spec(*h, original_order));
    r
}

/// The JA4S fingerprint of a ServerHello.
pub fn ja4s(h: &ServerHello) -> (r: String)
    ensures
        r@ == ja4s_spec(*h),
{
    let ext = without_grease(&h.extensions);
    let mut r = String::new();
    push_char(&mut r, transport_letter(h.transport));
    push_version_code(&mut r, h.version);
    let ne = count_digits(ext.len());
    r.append(ne.as_str());
    push_char(&mut r, '0');
    push_char(&mut r, '0');
    push_alpn_code(&mut r, h.alpn.as_str());
    let mut raw = join_hex_list(&ext);
    push_char(&mut raw, '_');
    let cipher: Vec<u16> = vec![h.cipher];
    let c = join_hex_list(&cipher);
    raw.append(c.as_str());
    assert(cipher@ =~= seq![h.cipher]);
    assert(raw@ =~= join_hex(grease_free(h.extensions@)) + seq!['_'] + join_hex(seq![h.cipher]));
    assert(r@ =~= seq![transport_char(h.transport)] + version_code(h.version) + count2(
        ext@.len() as int,
    ) + seq!['0', '0'] + alpn_code(h.alpn@));
    push_char(&mut r, '_');
    let hr = hash12(raw.as_str());
    r.append(hr.as_str());
    assert(r@ =~= ja4s_spec(*h));
    r
}

/// JA4S unhashed: the prefix, then the extensions and the cipher it hashes.
pub fn ja4s_raw(h: &ServerHello) -> (r: String)
    ensures
        r@ == ja4s_raw_spec(*h),
{
    let ext = without_grease(&h.extensions);
    let mut r = String::new();
    push_char(&mut r, transport_letter(h.transport));
    push_version_code(&mut r, h.version);
    let ne = count_digits(ext.len());
    r.append(ne.as_str());
    push_char(&mut r, '0');
    push_char(&mut r, '0');
    push_alpn_code(&mut r, h.alpn.as_str());
    let mut raw = join_hex_list(&ext);
    push_char(&mut raw, '_');
    let cipher: Vec<u16> = vec![h.cipher];
    let c = join_hex_list(&cipher);
    raw.append(c.as_str());
    assert(cipher@ =~= seq![h.cipher]);
    assert(raw@ =~= join_hex(grease_free(h.extensions@)) + seq!['_'] + join_hex(seq![h.cipher]));
    assert(r@ =~= seq![transport_char(h.transport)] + version_code(h.version) + count2(
        ext@.len() as int,
    ) + seq!['0', '0'] + alpn_code(h.alpn@));
    push_char(&mut r, '_');
    r.append(raw.as_str());
    assert(r@ =~= ja4s_raw_spec(*h));
    r
}

} // verus!
