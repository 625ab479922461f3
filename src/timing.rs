use crate::text::push_char;
use vstd::prelude::*;

verus! {

/// Timestamps (microseconds) and IP TTLs of a TCP handshake.
#[derive(Debug, Clone, Copy, PartialEq, Eq)]
pub struct Handshake {
    /// When the client's SYN was seen.
    pub syn_us: u64,
    /// When the server's SYN-ACK was seen.
    pub syn_ack_us: u64,
    /// When the client's ACK completing the handshake was seen.
    pub ack_us: u64,
    pub client_ttl: u8,
    pub server_ttl: u8,
}

/// Half the time between two events, none when they are out of order.
pub open spec fn half_gap(from: u64, to: u64) -> Option<int> {
    if from <= to {
        Some((to - from) / 2)
    } else {
        None
    }
}

/// Decimal digits of a natural number, most significant first.
pub open spec fn decimal(n: nat) -> Seq<char>
    decreases n,
{
    if n < 10 {
        seq![crate::hashing::hex_digit(n as int)]
    } else {
        decimal(n / 10) + seq![crate::hashing::hex_digit((n % 10) as int)]
    }
}

/// `<rtt>_<ttl>`.
pub open spec fn latency_text(rtt: nat, ttl: u8) -> Seq<char> {
    decimal(rtt) + seq!['_'] + decimal(ttl as nat)
}

/// JA4L-C: half the SYN-ACK to ACK time, then the client TTL.
pub open spec fn ja4l_c_spec(h: Handshake) -> Option<Seq<char>> {
    match half_gap(h.syn_ack_us, h.ack_us) {
        Some(r) => Some(latency_text(r as nat, h.client_ttl)),
        None => None,
    }
}

/// JA4L-S: half the SYN to SYN-ACK time, then the server TTL.
pub open spec fn ja4l_s_spec(h: Handshake) -> Option<Seq<char>> {
    match half_gap(h.syn_us, h.syn_ack_us) {
        Some(r) => Some(latency_text(r as nat, h.server_ttl)),
        None => None,
    }
}

/// Half the time between two events; none when they are out of order.
pub fn half_rtt(from: u64, to: u64) -> (r: Option<u64>)
    ensures
        match half_gap(from, to) {
            Some(g) => r == Some(g as u64),
            None => r is None,
        },
{
    if from <= to {
        Some((to - from) / 2)
    } else {
        None
    }
}

/// The decimal digits of `n`.
pub fn decimal_text(n: u64) -> (r: String)
    ensures
        r@ == decimal(n as nat),
{
    let mut digits: Vec<char> = Vec::new();
    let mut m: u64 = n;
    while m >= 10
        invariant
            decimal(n as nat) == decimal(m as nat) + digits@.reverse(),
        decreases m,
    {
        let d = crate::text::digit((m % 10) as usize);
        assert(decimal(m as nat) == decimal((m / 10) as nat) + seq![crate::hashing::hex_digit((m % 10) as int)]);
        assert(digits@.push(d).reverse() =~= seq![d] + digits@.reverse());
        digits.push(d);
        m = m / 10;
    }
    let mut r = String::new();
    push_char(&mut r, crate::text::digit(m as usize));
    let mut k: usize = digits.len();
    while k > 0
        invariant
            k <= digits@.len(),
            decimal(n as nat) == decimal(m as nat) + digits@.reverse(),
            r@ + digits@.take(k as int).reverse() == decimal(n as nat),
        decreases k,
    {
        assert(digits@.take(k as int).reverse() =~= seq![digits@[k - 1]] + digits@.take(
            k - 1,
        ).reverse());
        push_char(&mut r, digits[k - 1]);
        k = k - 1;
    }
    assert(digits@.take(0).reverse() =~= Seq::<char>::empty());
    assert(r@ =~= r@ + digits@.take(0).reverse());
    r
}

fn latency(rtt: u64, ttl: u8) -> (r: String)
    ensures
        r@ == latency_text(rtt as nat, ttl),
{
    let mut r = decimal_text(rtt);
    push_char(&mut r, '_');
    let t = decimal_text(ttl as u64);
    r.append(t.as_str());
    r
}

/// JA4L-C of a handshake; none when its times are out of order.
pub fn ja4l_c(h: &Handshake) -> (r: Option<String>)
    ensures
        match ja4l_c_spec(*h) {
            Some(s) => r is Some && r.unwrap()@ == s,
            None => r is None,
        },
{
    match half_rtt(h.syn_ack_us, h.ack_us) {
        Some(rtt) => Some(latency(rtt, h.client_ttl)),
        None => None,
    }
}

/// JA4L-S of a handshake; none when its times are out of order.
pub fn ja4l_s(h: &Handshake) -> (r: Option<String>)
    ensures
        match ja4l_s_spec(*h) {
            Some(s) => r is Some && r.unwrap()@ == s,
            None => r is None,
        },
{
    match half_rtt(h.syn_us, h.syn_ack_us) {
        Some(rtt) => Some(latency(rtt, h.server_ttl)),
        None => None,
    }
}

/// What a flow has seen of its TCP handshake: the client's first SYN, then the
/// server's SYN-ACK, then the client's ACK, each with its time and TTL.
#[derive(Debug, Clone, Copy, PartialEq, Eq)]
pub struct HandshakeTracker {
    pub syn: Option<(u64, u8)>,
    pub syn_ack: Option<(u64, u8)>,
    pub ack: Option<u64>,
}

/// The tracker after one TCP segment; each step is taken once, in order, and
/// later SYNs are ignored.
pub open spec fn track_spec(
    t: HandshakeTracker,
    from_client: bool,
    syn: bool,
    ack: bool,
    ts: u64,
    ttl: u8,
) -> HandshakeTracker {
    if t.syn is None && from_client && syn && !ack {
        HandshakeTracker { syn: Some((ts, ttl)), ..t }
    } else if t.syn is Some && t.syn_ack is None && !from_client && syn && ack {
        HandshakeTracker { syn_ack: Some((ts, ttl)), ..t }
    } else if t.syn_ack is Some && t.ack is None && from_client && ack && !syn {
        HandshakeTracker { ack: Some(ts), ..t }
    } else {
        t
    }
}

impl HandshakeTracker {
    /// A tracker that has seen nothing.
    pub open spec fn new_spec() -> HandshakeTracker {
        HandshakeTracker { syn: None, syn_ack: None, ack: None }
    }

    pub fn new() -> (r: HandshakeTracker)
        ensures
            r == Self::new_spec(),
    {
        HandshakeTracker { syn: None, syn_ack: None, ack: None }
    }

    /// Takes one TCP segment of the flow.
    pub fn observe(&mut self, from_client: bool, syn: bool, ack: bool, ts: u64, ttl: u8)
        ensures
            *final(self) == track_spec(*old(self), from_client, syn, ack, ts, ttl),
    {
        if self.syn.is_none() && from_client && syn && !ack {
            self.syn = Some((ts, ttl));
        } else if self.syn.is_some() && self.syn_ack.is_none() && !from_client && syn && ack {
            self.syn_ack = Some((ts, ttl));
        } else if self.syn_ack.is_some() && self.ack.is_none() && from_client && ack && !syn {
            self.ack = Some(ts);
        }
    }

    /// The completed handshake; none until all three steps were seen.
    pub fn handshake(&self) -> (r: Option<Handshake>)
        ensures
            (self.syn is Some && self.syn_ack is Some && self.ack is Some) <==> r is Some,
            r is Some ==> r.unwrap() == (Handshake {
                syn_us: self.syn.unwrap().0,
                syn_ack_us: self.syn_ack.unwrap().0,
                ack_us: self.ack.unwrap(),
                client_ttl: self.syn.unwrap().1,
                server_ttl: self.syn_ack.unwrap().1,
            }),
    {
        match (self.syn, self.syn_ack, self.ack) {
            (Some((s, cttl)), Some((sa, sttl)), Some(a)) => Some(
                Handshake { syn_us: s, syn_ack_us: sa, ack_us: a, client_ttl: cttl, server_ttl: sttl },
            ),
            _ => None,
        }
    }
}

/// Half the distance between two instants, whichever comes first.
pub open spec fn half_distance(a: u64, b: u64) -> int {
    if a <= b {
        (b - a) / 2
    } else {
        (a - b) / 2
    }
}

/// A half round trip is never negative, and is half the distance between the
/// two events; that distance is the same with the two ends swapped.
pub proof fn lemma_half_gap_symmetric(a: u64, b: u64)
    ensures
        half_gap(a, b) is Some ==> half_gap(a, b).unwrap() >= 0 && half_gap(a, b).unwrap()
            == half_distance(a, b),
        half_distance(a, b) == half_distance(b, a),
        half_distance(a, b) >= 0,
{
}

} // verus!
