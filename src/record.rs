use crate::fields::{dec32, field_values, first_value, flag, flag_of, first_of, parse_dec, values_of};
use crate::flow::{same_flow, Proto, Sender, Streams};
use crate::http::{cookie_order, ja4h, ja4h_raw, ja4h_raw_text, ja4h_text, HttpRequest};
use crate::packet::{
    cert_oids, cert_scan, certificates_of, client_hello_from, client_hello_of, http_request_from,
    http_request_of, server_hello_from, server_hello_of, CertOids, PacketFields,
};
use crate::ssh::SshPacket;
use crate::timing::{track_spec, HandshakeTracker};
use crate::tls::{ja4, ja4_raw, ja4_raw_spec, ja4_spec, ja4s, ja4s_raw, ja4s_raw_spec, ja4s_spec, ClientHello, ServerHello};
use crate::x509::{ja4x, ja4x_raw, ja4x_raw_spec, ja4x_spec, Certificate};
use crate::hashing::hash12_spec;
use crate::http::join;
use vstd::prelude::*;

verus! {

/// The fingerprints that one flow has gathered so far, each with its
/// unhashed form.
#[derive(Debug)]
pub struct FlowFingerprints {
    pub timing: HandshakeTracker,
    /// JA4 of the first ClientHello, its raw form, and its packet number.
    pub ja4: Option<String>,
    pub ja4_raw: Option<String>,
    pub ja4_pkt: Option<u64>,
    /// JA4S of the first ServerHello, its raw form, and its packet number.
    pub ja4s: Option<String>,
    pub ja4s_raw: Option<String>,
    pub ja4s_pkt: Option<u64>,
    /// JA4H of every request, in order, and their raw forms.
    pub ja4h: Vec<String>,
    pub ja4h_raw: Vec<String>,
    /// JA4X of every certificate, in order, and their raw forms.
    pub ja4x: Vec<String>,
    pub ja4x_raw: Vec<String>,
    /// The SSH packets, in order.
    pub ssh: Vec<SshPacket>,
}

/// A record that has seen nothing.
pub open spec fn is_fresh(r: FlowFingerprints) -> bool {
    &&& r.timing == HandshakeTracker::new_spec()
    &&& r.ja4 is None && r.ja4_raw is None && r.ja4_pkt is None
    &&& r.ja4s is None && r.ja4s_raw is None && r.ja4s_pkt is None
    &&& r.ja4h@.len() == 0 && r.ja4h_raw@.len() == 0
    &&& r.ja4x@.len() == 0 && r.ja4x_raw@.len() == 0
    &&& r.ssh@.len() == 0
}

pub open spec fn is_client_hello(p: PacketFields) -> bool {
    values_of(p.fields@, "tls.handshake.type"@).contains("1"@)
}

pub open spec fn is_server_hello(p: PacketFields) -> bool {
    values_of(p.fields@, "tls.handshake.type"@).contains("2"@)
}

pub open spec fn is_http_request(p: PacketFields) -> bool {
    values_of(p.fields@, "http.request.method"@).len() > 0
}

/// The SSH payload length that a packet carries, if it is an SSH packet.
pub open spec fn ssh_length(p: PacketFields) -> Option<u32> {
    parse_dec(first_of(p.fields@, "ssh.packet_length"@))
}

/// JA4X and its raw form from a certificate's OIDs.
pub open spec fn ja4x_of(o: CertOids) -> Seq<char> {
    hash12_spec(join(o.0, ',')) + seq!['_'] + hash12_spec(join(o.1, ',')) + seq!['_']
        + hash12_spec(join(o.2, ','))
}

pub open spec fn ja4x_raw_of(o: CertOids) -> Seq<char> {
    join(o.0, ',') + seq!['_'] + join(o.1, ',') + seq!['_'] + join(o.2, ',')
}

/// How one packet changes a flow's record: the first ClientHello gives JA4,
/// the first ServerHello JA4S, each request a JA4H, each certificate a JA4X,
/// each TCP segment a step of the handshake timing, each SSH packet an entry,
/// and a TCP reset without SSH payload marks the latest SSH packet.
pub open spec fn took(o: FlowFingerprints, n: FlowFingerprints, p: PacketFields, from_client: bool, original_order: bool) -> bool {
    let f = p.fields@;
    let certs = cert_scan(f).0;
    let reset = flag_of(f, "tcp.flags.reset"@);
    &&& if is_client_hello(p) && o.ja4 is None {
        &&& n.ja4 is Some && n.ja4_raw is Some && n.ja4_pkt == Some(p.number)
        &&& exists|h: ClientHello|
            client_hello_from(h, p) && n.ja4.unwrap()@ == ja4_spec(h, original_order)
                && n.ja4_raw.unwrap()@ == ja4_raw_spec(h, original_order)
    } else {
        n.ja4 == o.ja4 && n.ja4_raw == o.ja4_raw && n.ja4_pkt == o.ja4_pkt
    }
    &&& if is_server_hello(p) && o.ja4s is None {
        &&& n.ja4s is Some && n.ja4s_raw is Some && n.ja4s_pkt == Some(p.number)
        &&& exists|h: ServerHello|
            server_hello_from(h, p) && n.ja4s.unwrap()@ == ja4s_spec(h)
                && n.ja4s_raw.unwrap()@ == ja4s_raw_spec(h)
    } else {
        n.ja4s == o.ja4s && n.ja4s_raw == o.ja4s_raw && n.ja4s_pkt == o.ja4s_pkt
    }
    &&& if is_http_request(p) {
        &&& n.ja4h@.len() == o.ja4h@.len() + 1 && n.ja4h@.drop_last() == o.ja4h@
        &&& n.ja4h_raw@.len() == o.ja4h_raw@.len() + 1 && n.ja4h_raw@.drop_last() == o.ja4h_raw@
        &&& exists|r: HttpRequest|
            http_request_from(r, p) && (exists|c: Seq<(String, String)>|
                cookie_order(r, original_order, c) && n.ja4h@.last()@ == ja4h_text(r, c)) && (
            exists|c: Seq<(String, String)>|
                cookie_order(r, original_order, c) && n.ja4h_raw@.last()@ == ja4h_raw_text(r, c))
    } else {
        n.ja4h == o.ja4h && n.ja4h_raw == o.ja4h_raw
    }
    &&& n.ja4x@.len() == o.ja4x@.len() + certs.len()
    &&& n.ja4x_raw@.len() == o.ja4x_raw@.len() + certs.len()
    &&& n.ja4x@.take(o.ja4x@.len() as int) == o.ja4x@
    &&& n.ja4x_raw@.take(o.ja4x_raw@.len() as int) == o.ja4x_raw@
    &&& forall|k: int| 0 <= k < certs.len() ==> #[trigger] n.ja4x@[o.ja4x@.len() + k]@ == ja4x_of(certs[k])
    &&& forall|k: int| 0 <= k < certs.len() ==> #[trigger] n.ja4x_raw@[o.ja4x_raw@.len() + k]@ == ja4x_raw_of(certs[k])
    &&& n.timing == if p.proto == Proto::Tcp {
        track_spec(o.timing, from_client, flag_of(f, "tcp.flags.syn"@), flag_of(f, "tcp.flags.ack"@), p.ts_us, p.ttl)
    } else {
        o.timing
    }
    &&& n.ssh@ == match ssh_length(p) {
        Some(l) => o.ssh@.push(SshPacket { from_client, length: l, reset }),
        None => if reset && o.ssh@.len() > 0 {
            o.ssh@.update(o.ssh@.len() - 1, SshPacket { reset: true, ..o.ssh@.last() })
        } else {
            o.ssh@
        },
    }
}

fn contains_text(v: &Vec<String>, t: &str) -> (r: bool)
    ensures
        r == v@.map_values(|s: String| s@).contains(t@),
{
    let ghost m = v@.map_values(|s: String| s@);
    let mut i: usize = 0;
    while i < v.len()
        invariant
            m == v@.map_values(|s: String| s@),
            i <= v@.len(),
            forall|k: int| 0 <= k < i ==> m[k] != t@,
        decreases v.len() - i,
    {
        if crate::fields::same_text(v[i].as_str(), t) {
            assert(m[i as int] == t@);
            return true;
        }
        i = i + 1;
    }
    false
}

impl FlowFingerprints {
    pub fn new() -> (r: FlowFingerprints)
        ensures
            is_fresh(r),
    {
        FlowFingerprints {
            timing: HandshakeTracker::new(),
            ja4: None,
            ja4_raw: None,
            ja4_pkt: None,
            ja4s: None,
            ja4s_raw: None,
            ja4s_pkt: None,
            ja4h: Vec::new(),
            ja4h_raw: Vec::new(),
            ja4x: Vec::new(),
            ja4x_raw: Vec::new(),
            ssh: Vec::new(),
        }
    }

    /// Takes one packet of the flow, sent by the client or not.
    #[verifier::rlimit(60)]
    pub fn take_packet(&mut self, p: &PacketFields, from_client: bool, original_order: bool)
        ensures
            took(*old(self), *final(self), *p, from_client, original_order),
    {
        let f = &p.fields;
        let types = field_values(f, "tls.handshake.type");
        assert(types@.map_values(|s: String| s@) =~= values_of(f@, "tls.handshake.type"@));
        let is_ch = contains_text(&types, "1");
        assert(is_ch == is_client_hello(*p));
        if self.ja4.is_none() && is_ch {
            let h = client_hello_of(p);
            self.ja4 = Some(ja4(&h, original_order));
            self.ja4_raw = Some(ja4_raw(&h, original_order));
            self.ja4_pkt = Some(p.number);
            assert(client_hello_from(h, *p) && self.ja4.unwrap()@ == ja4_spec(h, original_order)
                && self.ja4_raw.unwrap()@ == ja4_raw_spec(h, original_order));
        }
        let is_sh = contains_text(&types, "2");
        assert(is_sh == is_server_hello(*p));
        if self.ja4s.is_none() && is_sh {
            let h = server_hello_of(p);
            self.ja4s = Some(ja4s(&h));
            self.ja4s_raw = Some(ja4s_raw(&h));
            self.ja4s_pkt = Some(p.number);
            assert(server_hello_from(h, *p) && self.ja4s.unwrap()@ == ja4s_spec(h)
                && self.ja4s_raw.unwrap()@ == ja4s_raw_spec(h));
        }
        if field_values(f, "http.request.method").len() > 0 {
            let r = http_request_of(p);
            let ghost o = self.ja4h@;
            let ghost o_raw = self.ja4h_raw@;
            self.ja4h.push(ja4h(&r, original_order));
            self.ja4h_raw.push(ja4h_raw(&r, original_order));
            assert(self.ja4h@.drop_last() =~= o);
            assert(self.ja4h_raw@.drop_last() =~= o_raw);
            assert(http_request_from(r, *p));
        }
        proof {
            reveal_strlit("1");
            reveal_strlit("2");
        }
        let certs = certificates_of(p);
        let ghost scan = cert_scan(f@).0;
        let ghost ox = self.ja4x@;
        let ghost oxr = self.ja4x_raw@;
        let ghost b = *self;
        let mut k: usize = 0;
        while k < certs.len()
            invariant
                certs@.map_values(|c: Certificate| cert_oids(c)) == scan,
                k <= certs@.len(),
                self.ja4 == b.ja4 && self.ja4_raw == b.ja4_raw && self.ja4_pkt == b.ja4_pkt,
                self.ja4s == b.ja4s && self.ja4s_raw == b.ja4s_raw && self.ja4s_pkt == b.ja4s_pkt,
                self.ja4h == b.ja4h && self.ja4h_raw == b.ja4h_raw,
                self.timing == b.timing && self.ssh == b.ssh,
                self.ja4x@.len() == ox.len() + k,
                self.ja4x_raw@.len() == oxr.len() + k,
                self.ja4x@.take(ox.len() as int) == ox,
                self.ja4x_raw@.take(oxr.len() as int) == oxr,
                forall|j: int| 0 <= j < k ==> #[trigger] self.ja4x@[ox.len() + j]@ == ja4x_of(scan[j]),
                forall|j: int| 0 <= j < k ==> #[trigger] self.ja4x_raw@[oxr.len() + j]@ == ja4x_raw_of(scan[j]),
            decreases certs.len() - k,
        {
            assert(scan[k as int] == cert_oids(certs@[k as int]));
            let x = ja4x(&certs[k]);
            let xr = ja4x_raw(&certs[k]);
            assert(x@ == ja4x_of(scan[k as int]));
            assert(xr@ == ja4x_raw_of(scan[k as int]));
            let ghost bx = self.ja4x@;
            let ghost bxr = self.ja4x_raw@;
            self.ja4x.push(x);
            self.ja4x_raw.push(xr);
            assert forall|j: int| 0 <= j < k + 1 implies #[trigger] self.ja4x@[ox.len() + j]@ == ja4x_of(scan[j]) by {
                if j < k {
                    assert(self.ja4x@[ox.len() + j] == bx[ox.len() + j]);
                }
            }
            assert forall|j: int| 0 <= j < k + 1 implies #[trigger] self.ja4x_raw@[oxr.len() + j]@ == ja4x_raw_of(scan[j]) by {
                if j < k {
                    assert(self.ja4x_raw@[oxr.len() + j] == bxr[oxr.len() + j]);
                }
            }
            assert(self.ja4x@.take(ox.len() as int) =~= ox);
            assert(self.ja4x_raw@.take(oxr.len() as int) =~= oxr);
            assert(self.ja4x@[ox.len() + k]@ == ja4x_of(scan[k as int]));
            k = k + 1;
        }
        if p.proto == Proto::Tcp {
            self.timing.observe(from_client, flag(f, "tcp.flags.syn"), flag(f, "tcp.flags.ack"), p.ts_us, p.ttl);
        }
        let reset = flag(f, "tcp.flags.reset");
        let len_text = first_value(f, "ssh.packet_length");
        let ghost os = self.ssh@;
        match dec32(len_text.as_str()) {
            Some(l) => {
                self.ssh.push(SshPacket { from_client, length: l, reset });
                assert(ssh_length(*p) == Some(l));
                assert(self.ssh@ == os.push(SshPacket { from_client, length: l, reset }));
            },
            None => {
                let n = self.ssh.len();
                if reset && n > 0 {
                    let last = self.ssh[n - 1];
                    self.ssh.set(n - 1, SshPacket { reset: true, ..last });
                    assert(self.ssh@ == os.update(os.len() - 1, SshPacket { reset: true, ..os.last() }));
                }
                assert(ssh_length(*p) is None);
            },
        }
    }
}

/// Takes one packet: finds or opens its flow, lets that flow's record take the
/// packet, and returns the flow's position. `outs` holds one record per flow.
pub fn observe(
    streams: &mut Streams,
    outs: &mut Vec<FlowFingerprints>,
    p: &PacketFields,
    original_order: bool,
) -> (idx: usize)
    requires
        old(streams).wf(),
        old(outs)@.len() == old(streams).flows@.len(),
    ensures
        final(streams).wf(),
        final(outs)@.len() == final(streams).flows@.len(),
        old(streams).flows@.len() <= final(streams).flows@.len() <= old(streams).flows@.len() + 1,
        forall|i: int|
            0 <= i < old(streams).flows@.len() ==> final(streams).flows@[i] == old(streams).flows@[i],
        idx < final(streams).flows@.len(),
        same_flow(final(streams).flows@[idx as int], p.src, p.dst, p.proto),
        forall|k: int|
            0 <= k < final(outs)@.len() && k != idx ==> final(outs)@[k] == old(outs)@[k],
        idx < old(outs)@.len() ==> took(
            old(outs)@[idx as int],
            final(outs)@[idx as int],
            *p,
            final(streams).flows@[idx as int].client == p.src,
            original_order,
        ),
        idx >= old(outs)@.len() ==> exists|o: FlowFingerprints|
            is_fresh(o) && took(
                o,
                final(outs)@[idx as int],
                *p,
                final(streams).flows@[idx as int].client == p.src,
                original_order,
            ),
{
    let f = &p.fields;
    let syn_ack = p.proto == Proto::Tcp && flag(f, "tcp.flags.syn") && flag(f, "tcp.flags.ack");
    let _ = streams.update(p.src, p.dst, p.proto, syn_ack);
    let found = streams.find(p.src, p.dst, p.proto);
    let idx = match found {
        Some(i) => i,
        None => {
            assert(false);
            0
        },
    };
    proof {
        if streams.flows@.len() > old(streams).flows@.len() && idx < old(streams).flows@.len() {
            assert(streams.flows@[idx as int] == old(streams).flows@[idx as int]);
        }
    }
    if idx == outs.len() {
        let fresh = FlowFingerprints::new();
        outs.push(fresh);
    }
    let ghost before = outs@;
    let from_client = streams.flows[idx].client == p.src;
    let mut rec = outs.remove(idx);
    let ghost o = rec;
    rec.take_packet(p, from_client, original_order);
    outs.insert(idx, rec);
    assert(outs@ =~= before.update(idx as int, rec));
    idx
}

} // verus!
