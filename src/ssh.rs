use crate::text::push_char;
use crate::timing::{decimal, decimal_text};
use vstd::prelude::*;

verus! {

/// Packets per JA4SSH window.
pub const WINDOW: usize = 200;

/// One SSH packet of a flow.
#[derive(Debug, Clone, Copy, PartialEq, Eq)]
pub struct SshPacket {
    /// Whether the client sent it.
    pub from_client: bool,
    /// The SSH payload length, without the MAC.
    pub length: u32,
    /// Whether the TCP segment carried a reset.
    pub reset: bool,
}

pub open spec fn same_side_len(client: bool, l: u32) -> spec_fn(SshPacket) -> bool {
    |p: SshPacket| p.from_client == client && p.length == l
}

pub open spec fn side(client: bool) -> spec_fn(SshPacket) -> bool {
    |p: SshPacket| p.from_client == client
}

pub open spec fn resets() -> spec_fn(SshPacket) -> bool {
    |p: SshPacket| p.reset
}

/// How often one side sent a payload of length `l`.
pub open spec fn count_len(w: Seq<SshPacket>, client: bool, l: u32) -> nat {
    w.filter(same_side_len(client, l)).len()
}

/// `m` is the most frequent payload length of one side, the smallest on a tie;
/// 0 when that side sent nothing.
pub open spec fn is_mode(w: Seq<SshPacket>, client: bool, m: u32) -> bool {
    &&& forall|k: int|
        0 <= k < w.len() && w[k].from_client == client ==> {
            ||| count_len(w, client, w[k].length) < count_len(w, client, m)
            ||| (count_len(w, client, w[k].length) == count_len(w, client, m) && m <= w[k].length)
        }
    &&& (exists|k: int| 0 <= k < w.len() && w[k].from_client == client && w[k].length == m) || (
    m == 0 && forall|k: int| 0 <= k < w.len() ==> w[k].from_client != client)
}

/// The packets of window `k`.
pub open spec fn window(s: Seq<SshPacket>, k: int) -> Seq<SshPacket> {
    let end = if (k + 1) * WINDOW < s.len() {
        (k + 1) * WINDOW
    } else {
        s.len() as int
    };
    s.subrange(k * WINDOW, end)
}

/// The number of windows: one per started 200 packets.
pub open spec fn window_count(n: nat) -> nat {
    ((n + WINDOW - 1) / WINDOW as int) as nat
}

/// `c<Lc>s<Ls>_<Sc>_<Sr>_<Rc>` of one window, given the two modes.
pub open spec fn segment_text(w: Seq<SshPacket>, lc: u32, ls: u32) -> Seq<char> {
    seq!['c'] + decimal(lc as nat) + seq!['s'] + decimal(ls as nat) + seq!['_'] + decimal(
        w.filter(side(true)).len(),
    ) + seq!['_'] + decimal(w.filter(side(false)).len()) + seq!['_'] + decimal(
        w.filter(resets()).len(),
    )
}

/// `r` is the JA4SSH segment of window `w`.
pub open spec fn is_segment(w: Seq<SshPacket>, r: Seq<char>) -> bool {
    exists|lc: u32, ls: u32|
        is_mode(w, true, lc) && is_mode(w, false, ls) && r == segment_text(w, lc, ls)
}

/// How many packets of `w` the predicate admits.
fn count_where(w: &[SshPacket], kind: u8, client: bool, l: u32) -> (c: usize)
    requires
        kind < 3,
    ensures
        kind == 0 ==> c == count_len(w@, client, l),
        kind == 1 ==> c == w@.filter(side(client)).len(),
        kind == 2 ==> c == w@.filter(resets()).len(),
{
    let ghost p = if kind == 0 {
        same_side_len(client, l)
    } else if kind == 1 {
        side(client)
    } else {
        resets()
    };
    let mut c: usize = 0;
    let mut i: usize = 0;
    assert(w@.take(0) =~= Seq::<SshPacket>::empty());
    proof {
        reveal(Seq::filter);
    }
    while i < w.len()
        invariant
            i <= w@.len(),
            c <= i,
            c == w@.take(i as int).filter(p).len(),
            p == (if kind == 0 {
                same_side_len(client, l)
            } else if kind == 1 {
                side(client)
            } else {
                resets()
            }),
        decreases w.len() - i,
    {
        proof {
            assert(w@.take(i as int + 1) =~= w@.take(i as int).push(w@[i as int]));
            w@.take(i as int).lemma_filter_push(w@[i as int], p);
        }
        let q = w[i];
        let hit = if kind == 0 {
            q.from_client == client && q.length == l
        } else if kind == 1 {
            q.from_client == client
        } else {
            q.reset
        };
        if hit {
            c = c + 1;
        }
        i = i + 1;
    }
    assert(w@.take(w@.len() as int) =~= w@);
    c
}

/// The most frequent payload length of one side, the smallest on a tie; 0 when
/// that side sent nothing.
pub fn modal_length(w: &[SshPacket], client: bool) -> (m: u32)
    ensures
        is_mode(w@, client, m),
{
    let mut best: u32 = 0;
    let mut best_c: usize = 0;
    let mut i: usize = 0;
    while i < w.len()
        invariant
            i <= w@.len(),
            best_c == count_len(w@, client, best) || (best_c == 0 && best == 0),
            best_c == 0 ==> best == 0 && forall|k: int| 0 <= k < i ==> w@[k].from_client != client,
            best_c > 0 ==> exists|k: int|
                0 <= k < i && w@[k].from_client == client && w@[k].length == best,
            forall|k: int|
                0 <= k < i && w@[k].from_client == client ==> {
                    ||| count_len(w@, client, w@[k].length) < best_c
                    ||| (count_len(w@, client, w@[k].length) == best_c && best <= w@[k].length)
                },
        decreases w.len() - i,
    {
        let q = w[i];
        if q.from_client == client {
            let c = count_where(w, 0, client, q.length);
            proof {
                w@.filter(same_side_len(client, q.length)).lemma_filter_len(
                    same_side_len(client, q.length),
                );
                assert(w@.filter(same_side_len(client, q.length)).contains(q)) by {
                    w@.lemma_filter_contains(same_side_len(client, q.length), i as int);
                }
            }
            if c > best_c || (c == best_c && q.length < best) {
                best = q.length;
                best_c = c;
            }
        }
        i = i + 1;
    }
    proof {
        if best_c == 0 && best == 0 {
            assert forall|k: int| 0 <= k < w@.len() implies w@[k].from_client != client by {
            }
        }
    }
    best
}

/// One JA4SSH segment for a window of packets.
pub fn ssh_segment(w: &[SshPacket]) -> (r: String)
    ensures
        is_segment(w@, r@),
{
    let lc = modal_length(w, true);
    let ls = modal_length(w, false);
    let sc = count_where(w, 1, true, 0);
    let sr = count_where(w, 1, false, 0);
    let rc = count_where(w, 2, false, 0);
    let mut r = String::new();
    push_char(&mut r, 'c');
    let t = decimal_text(lc as u64);
    r.append(t.as_str());
    push_char(&mut r, 's');
    let t = decimal_text(ls as u64);
    r.append(t.as_str());
    push_char(&mut r, '_');
    let t = decimal_text(sc as u64);
    r.append(t.as_str());
    push_char(&mut r, '_');
    let t = decimal_text(sr as u64);
    r.append(t.as_str());
    push_char(&mut r, '_');
    let t = decimal_text(rc as u64);
    r.append(t.as_str());
    assert(r@ =~= segment_text(w@, lc, ls));
    r
}

/// The JA4SSH segments of a flow's SSH packets, one per window of 200.
pub fn ja4ssh(packets: &Vec<SshPacket>) -> (r: Vec<String>)
    ensures
        r@.len() == window_count(packets@.len()),
        forall|k: int| 0 <= k < r@.len() ==> is_segment(window(packets@, k), #[trigger] r@[k]@),
{
    let n = packets.len();
    let mut r: Vec<String> = Vec::new();
    let mut start: usize = 0;
    while start < n
        invariant
            n == packets@.len(),
            start < n ==> start == r@.len() * WINDOW,
            start < n + WINDOW,
            r@.len() * WINDOW < n + WINDOW,
            start >= n ==> r@.len() == window_count(n as nat),
            forall|k: int| 0 <= k < r@.len() ==> is_segment(window(packets@, k), #[trigger] r@[k]@),
        decreases n - start,
    {
        let end = if n - start > WINDOW {
            start + WINDOW
        } else {
            n
        };
        let seg = ssh_segment(&packets.as_slice()[start..end]);
        assert(packets@.subrange(start as int, end as int) == window(packets@, r@.len() as int));
        r.push(seg);
        start = end;
        proof {
            if start >= n {
                assert(r@.len() == window_count(n as nat)) by (nonlinear_arith)
                    requires
                        start == (r@.len() - 1) * WINDOW + (n - (r@.len() - 1) * WINDOW),
                        (r@.len() - 1) * WINDOW < n,
                        n <= r@.len() * WINDOW,
                        WINDOW == 200,
                {
                }
            } else {
                assert(start == r@.len() * WINDOW) by (nonlinear_arith)
                    requires start == (r@.len() - 1) * WINDOW + WINDOW;
            }
        }
    }
    if n == 0 {
        assert(window_count(0) == 0);
    }
    r
}

} // verus!
