use crate::fields::{
    dec32, field_values, first_u16, first_u16_of, first_of, first_value, flag, flag_of,
    u16_field_values, u16_values, parse_dec, same_text, values_of,
};
use crate::flow::{Endpoint, Proto};
use crate::http::HttpRequest;
use crate::text::push_char;
use crate::tls::{max_of, max_value, ClientHello, ServerHello, Transport};
use crate::tokens::{grease_free, without_grease};
use crate::x509::{views, Certificate};
use vstd::prelude::*;

verus! {

/// One dissected packet: its ends, transport, time, TTL, and its fields as
/// (name, value) pairs in the order the dissector gave them.
#[derive(Debug, Clone)]
pub struct PacketFields {
    /// 1-based position in the capture.
    pub number: u64,
    pub src: Endpoint,
    pub dst: Endpoint,
    pub proto: Proto,
    /// Microseconds since the capture began.
    pub ts_us: u64,
    /// IP TTL or hop limit.
    pub ttl: u8,
    pub fields: Vec<(String, String)>,
}

pub open spec fn transport_of(p: Proto) -> Transport {
    match p {
        Proto::Tcp => Transport::Tcp,
        Proto::Udp => Transport::Quic,
    }
}

/// `h` is the ClientHello that the fields describe.
pub open spec fn client_hello_from(h: ClientHello, p: PacketFields) -> bool {
    let f = p.fields@;
    &&& h.transport == transport_of(p.proto)
    &&& h.record_version == first_u16_of(f, "tls.record.version"@)
    &&& h.supported_versions@ == u16_values(
        values_of(f, "tls.handshake.extensions.supported_version"@),
    )
    &&& h.has_sni == (values_of(f, "tls.handshake.extensions_server_name"@).len() > 0)
    &&& h.alpn@ == first_of(f, "tls.handshake.extensions_alpn_str"@)
    &&& h.ciphers@ == u16_values(values_of(f, "tls.handshake.ciphersuite"@))
    &&& h.extensions@ == u16_values(values_of(f, "tls.handshake.extension.type"@))
    &&& h.signature_algorithms@ == u16_values(values_of(f, "tls.handshake.sig_hash_alg"@))
}

/// `h` is the ServerHello that the fields describe. Its version is the
/// largest non-GREASE supported version, else the handshake version.
pub open spec fn server_hello_from(h: ServerHello, p: PacketFields) -> bool {
    let f = p.fields@;
    let sv = grease_free(u16_values(values_of(f, "tls.handshake.extensions.supported_version"@)));
    &&& h.transport == transport_of(p.proto)
    &&& h.version == (if sv.len() > 0 {
        max_of(sv)
    } else {
        first_u16_of(f, "tls.handshake.version"@)
    })
    &&& h.alpn@ == first_of(f, "tls.handshake.extensions_alpn_str"@)
    &&& h.cipher == first_u16_of(f, "tls.handshake.ciphersuite"@)
    &&& h.extensions@ == u16_values(values_of(f, "tls.handshake.extension.type"@))
}

/// The decimal digits of a text, in order.
pub open spec fn digits_in_text(s: Seq<char>) -> Seq<u8>
    decreases s.len(),
{
    if s.len() == 0 {
        Seq::empty()
    } else if '0' <= s.last() && s.last() <= '9' {
        digits_in_text(s.drop_last()).push((s.last() as u32 - '0' as u32) as u8)
    } else {
        digits_in_text(s.drop_last())
    }
}

/// The position of the first `c` at or after `i`, the length when there is none.
pub open spec fn position_of(s: Seq<char>, c: char, i: int) -> int
    decreases s.len() - i,
{
    if i < 0 || i >= s.len() {
        s.len() as int
    } else if s[i] == c {
        i
    } else {
        position_of(s, c, i + 1)
    }
}

/// A header name: what comes before the first `:` of a request line.
pub open spec fn header_name(line: Seq<char>) -> Seq<char> {
    line.take(position_of(line, ':', 0))
}

/// A cookie split at its first `=`; no `=` gives an empty value.
pub open spec fn split_cookie(c: Seq<char>) -> (Seq<char>, Seq<char>) {
    let k = position_of(c, '=', 0);
    if k < c.len() {
        (c.take(k), c.skip(k + 1))
    } else {
        (c, Seq::empty())
    }
}

/// `r` is the HTTP request that the fields describe.
pub open spec fn http_request_from(r: HttpRequest, p: PacketFields) -> bool {
    let f = p.fields@;
    let d = digits_in_text(first_of(f, "http.request.version"@));
    &&& r.method@ == first_of(f, "http.request.method"@)
    &&& r.version_major == (if d.len() > 0 {
        d[0]
    } else {
        0
    })
    &&& r.version_minor == (if d.len() > 1 {
        d[1]
    } else {
        0
    })
    &&& views(r.headers@) == values_of(f, "http.request.line"@).map_values(
        |l: Seq<char>| header_name(l),
    )
    &&& r.accept_language@ == first_of(f, "http.accept_language"@)
    &&& r.cookies@.map_values(|c: (String, String)| (c.0@, c.1@)) == values_of(
        f,
        "http.cookie_pair"@,
    ).map_values(|c: Seq<char>| split_cookie(c))
}

fn position(s: &str, c: char) -> (r: usize)
    ensures
        r as int == position_of(s@, c, 0),
        r <= s@.len(),
{
    let n = s.unicode_len();
    let mut i: usize = 0;
    while i < n && s.get_char(i) != c
        invariant
            n == s@.len(),
            i <= n,
            position_of(s@, c, 0) == position_of(s@, c, i as int),
        decreases n - i,
    {
        i = i + 1;
    }
    i
}

/// The ClientHello that a packet's fields describe.
pub fn client_hello_of(p: &PacketFields) -> (h: ClientHello)
    ensures
        client_hello_from(h, *p),
{
    let f = &p.fields;
    ClientHello {
        transport: match p.proto {
            Proto::Tcp => Transport::Tcp,
            Proto::Udp => Transport::Quic,
        },
        record_version: first_u16(f, "tls.record.version"),
        supported_versions: u16_field_values(f, "tls.handshake.extensions.supported_version"),
        has_sni: field_values(f, "tls.handshake.extensions_server_name").len() > 0,
        alpn: first_value(f, "tls.handshake.extensions_alpn_str"),
        ciphers: u16_field_values(f, "tls.handshake.ciphersuite"),
        extensions: u16_field_values(f, "tls.handshake.extension.type"),
        signature_algorithms: u16_field_values(f, "tls.handshake.sig_hash_alg"),
    }
}

/// The ServerHello that a packet's fields describe.
pub fn server_hello_of(p: &PacketFields) -> (h: ServerHello)
    ensures
        server_hello_from(h, *p),
{
    let f = &p.fields;
    let sv = without_grease(&u16_field_values(f, "tls.handshake.extensions.supported_version"));
    let version = if sv.len() > 0 {
        max_value(&sv)
    } else {
        first_u16(f, "tls.handshake.version")
    };
    ServerHello {
        transport: match p.proto {
            Proto::Tcp => Transport::Tcp,
            Proto::Udp => Transport::Quic,
        },
        version,
        alpn: first_value(f, "tls.handshake.extensions_alpn_str"),
        cipher: first_u16(f, "tls.handshake.ciphersuite"),
        extensions: u16_field_values(f, "tls.handshake.extension.type"),
    }
}

fn text_digits(s: &str) -> (r: Vec<u8>)
    ensures
        r@ == digits_in_text(s@),
{
    let n = s.unicode_len();
    let mut r: Vec<u8> = Vec::new();
    let mut i: usize = 0;
    while i < n
        invariant
            n == s@.len(),
            i <= n,
            r@ == digits_in_text(s@.take(i as int)),
        decreases n - i,
    {
        assert(s@.take(i as int + 1).drop_last() =~= s@.take(i as int));
        let c = s.get_char(i);
        if '0' <= c && c <= '9' {
            r.push((c as u32 - '0' as u32) as u8);
        }
        i = i + 1;
    }
    assert(s@.take(n as int) =~= s@);
    r
}

fn substring(s: &str, from: usize, to: usize) -> (r: String)
    requires
        from <= to <= s@.len(),
    ensures
        r@ == s@.subrange(from as int, to as int),
{
    String::from_str(s.substring_char(from, to))
}

/// The HTTP request that a packet's fields describe.
pub fn http_request_of(p: &PacketFields) -> (r: HttpRequest)
    ensures
        http_request_from(r, *p),
{
    let f = &p.fields;
    let version = first_value(f, "http.request.version");
    let d = text_digits(version.as_str());
    let lines = field_values(f, "http.request.line");
    let ghost lv = lines@.map_values(|s: String| s@);
    let mut headers: Vec<String> = Vec::new();
    let mut i: usize = 0;
    while i < lines.len()
        invariant
            lv == lines@.map_values(|s: String| s@),
            i <= lines@.len(),
            views(headers@) == lv.take(i as int).map_values(|l: Seq<char>| header_name(l)),
        decreases lines.len() - i,
    {
        let k = position(lines[i].as_str(), ':');
        let name = substring(lines[i].as_str(), 0, k);
        let ghost before = headers@;
        headers.push(name);
        assert(views(headers@) =~= views(before).push(header_name(lv[i as int])));
        assert(lv.take(i as int + 1).map_values(|l: Seq<char>| header_name(l)) =~= lv.take(
            i as int,
        ).map_values(|l: Seq<char>| header_name(l)).push(header_name(lv[i as int])));
        i = i + 1;
    }
    assert(lv.take(lv.len() as int) =~= lv);
    let pairs = field_values(f, "http.cookie_pair");
    let ghost pv = pairs@.map_values(|s: String| s@);
    let mut cookies: Vec<(String, String)> = Vec::new();
    let mut j: usize = 0;
    while j < pairs.len()
        invariant
            pv == pairs@.map_values(|s: String| s@),
            j <= pairs@.len(),
            cookies@.map_values(|c: (String, String)| (c.0@, c.1@)) == pv.take(j as int).map_values(
                |c: Seq<char>| split_cookie(c),
            ),
        decreases pairs.len() - j,
    {
        let c = pairs[j].as_str();
        let n = c.unicode_len();
        let k = position(c, '=');
        let pair = if k < n {
            (substring(c, 0, k), substring(c, k + 1, n))
        } else {
            (String::from_str(c), String::new())
        };
        assert((pair.0@, pair.1@) == split_cookie(pv[j as int]));
        let ghost before = cookies@;
        cookies.push(pair);
        assert(cookies@.map_values(|c: (String, String)| (c.0@, c.1@)) =~= before.map_values(
            |c: (String, String)| (c.0@, c.1@),
        ).push(split_cookie(pv[j as int])));
        assert(pv.take(j as int + 1).map_values(|c: Seq<char>| split_cookie(c)) =~= pv.take(
            j as int,
        ).map_values(|c: Seq<char>| split_cookie(c)).push(split_cookie(pv[j as int])));
        j = j + 1;
    }
    assert(pv.take(pv.len() as int) =~= pv);
    HttpRequest {
        method: first_value(f, "http.request.method"),
        version_major: if d.len() > 0 { d[0] } else { 0 },
        version_minor: if d.len() > 1 { d[1] } else { 0 },
        headers,
        accept_language: first_value(f, "http.accept_language"),
        cookies,
    }
}

/// The OIDs of one certificate: issuer RDNs, subject RDNs, extensions.
pub type CertOids = (Seq<Seq<char>>, Seq<Seq<char>>, Seq<Seq<char>>);

pub open spec fn cert_oids(c: Certificate) -> CertOids {
    (views(c.issuer_rdns@), views(c.subject_rdns@), views(c.extensions@))
}

/// The certificates that a field list holds, and whether the last one has
/// reached its subject. Each `tls.handshake.certificate` field begins a
/// certificate; in it, `x509if.id` values are issuer RDN OIDs until an
/// `x509af.subject` field, subject RDN OIDs after it, and `x509af.extension.id`
/// values are extension OIDs. Fields before the first certificate are ignored.
pub open spec fn cert_scan(f: Seq<(String, String)>) -> (Seq<CertOids>, bool)
    decreases f.len(),
{
    if f.len() == 0 {
        (Seq::empty(), false)
    } else {
        let (cs, sub) = cert_scan(f.drop_last());
        let n = f.last().0@;
        let v = f.last().1@;
        if n == "tls.handshake.certificate"@ {
            (cs.push((Seq::empty(), Seq::empty(), Seq::empty())), false)
        } else if cs.len() == 0 {
            (cs, sub)
        } else if n == "x509af.subject"@ {
            (cs, true)
        } else if n == "x509if.id"@ {
            let c = cs.last();
            if sub {
                (cs.update(cs.len() - 1, (c.0, c.1.push(v), c.2)), sub)
            } else {
                (cs.update(cs.len() - 1, (c.0.push(v), c.1, c.2)), sub)
            }
        } else if n == "x509af.extension.id"@ {
            let c = cs.last();
            (cs.update(cs.len() - 1, (c.0, c.1, c.2.push(v))), sub)
        } else {
            (cs, sub)
        }
    }
}

/// The certificates that a packet's fields hold, in order.
pub fn certificates_of(p: &PacketFields) -> (r: Vec<Certificate>)
    ensures
        r@.map_values(|c: Certificate| cert_oids(c)) == cert_scan(p.fields@).0,
{
    let f = &p.fields;
    let mut done: Vec<Certificate> = Vec::new();
    let mut cur = Certificate { issuer_rdns: Vec::new(), subject_rdns: Vec::new(), extensions: Vec::new() };
    let mut open = false;
    let mut sub = false;
    let mut i: usize = 0;
    while i < f.len()
        invariant
            i <= f@.len(),
            sub == cert_scan(f@.take(i as int)).1,
            open == (cert_scan(f@.take(i as int)).0.len() > 0),
            open ==> cert_scan(f@.take(i as int)).0 == done@.map_values(
                |c: Certificate| cert_oids(c),
            ).push(cert_oids(cur)),
            !open ==> done@.len() == 0,
        decreases f.len() - i,
    {
        proof {
            assert(f@.take(i as int + 1).drop_last() =~= f@.take(i as int));
            assert(f@.take(i as int + 1).last() == f@[i as int]);
        }
        let ghost cs = cert_scan(f@.take(i as int)).0;
        let ghost dv = done@.map_values(|c: Certificate| cert_oids(c));
        let name = f[i].0.as_str();
        if same_text(name, "tls.handshake.certificate") {
            if open {
                let finished = cur;
                done.push(finished);
                assert(done@.map_values(|c: Certificate| cert_oids(c)) =~= dv.push(cert_oids(finished)));
            }
            cur = Certificate { issuer_rdns: Vec::new(), subject_rdns: Vec::new(), extensions: Vec::new() };
            assert(cert_oids(cur) =~= (Seq::<Seq<char>>::empty(), Seq::<Seq<char>>::empty(), Seq::<Seq<char>>::empty()));
            if !open {
                assert(done@.map_values(|c: Certificate| cert_oids(c)) =~= Seq::<CertOids>::empty());
            }
            open = true;
            sub = false;
        } else if !open {
        } else if same_text(name, "x509af.subject") {
            sub = true;
        } else if same_text(name, "x509if.id") {
            let ghost c0 = cert_oids(cur);
            if sub {
                cur.subject_rdns.push(f[i].1.clone());
                assert(views(cur.subject_rdns@) =~= c0.1.push(f@[i as int].1@));
                assert(cs.update(cs.len() - 1, (cs.last().0, cs.last().1.push(f@[i as int].1@), cs.last().2)) =~= dv.push(cert_oids(cur)));
            } else {
                cur.issuer_rdns.push(f[i].1.clone());
                assert(views(cur.issuer_rdns@) =~= c0.0.push(f@[i as int].1@));
                assert(cs.update(cs.len() - 1, (cs.last().0.push(f@[i as int].1@), cs.last().1, cs.last().2)) =~= dv.push(cert_oids(cur)));
            }
        } else if same_text(name, "x509af.extension.id") {
            let ghost c0 = cert_oids(cur);
            cur.extensions.push(f[i].1.clone());
            assert(views(cur.extensions@) =~= c0.2.push(f@[i as int].1@));
            assert(cs.update(cs.len() - 1, (cs.last().0, cs.last().1, cs.last().2.push(f@[i as int].1@))) =~= dv.push(cert_oids(cur)));
        }
        i = i + 1;
    }
    assert(f@.take(f@.len() as int) =~= f@);
    if open {
        let ghost dv = done@.map_values(|c: Certificate| cert_oids(c));
        let last = cur;
        done.push(last);
        assert(done@.map_values(|c: Certificate| cert_oids(c)) =~= dv.push(cert_oids(last)));
    } else {
        assert(done@.map_values(|c: Certificate| cert_oids(c)) =~= Seq::<CertOids>::empty());
    }
    done
}

} // verus!
