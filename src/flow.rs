use vstd::prelude::*;

verus! {

/// One end of a transport conversation. IPv4 addresses are held as IPv4-mapped
/// IPv6 values.
#[derive(Debug, Clone, Copy, PartialEq, Eq, Structural)]
pub struct Endpoint {
    pub addr: u128,
    pub port: u16,
}

/// The transport protocol of a flow.
#[derive(Debug, Clone, Copy, PartialEq, Eq, Structural)]
pub enum Proto {
    Tcp,
    Udp,
}

/// Which side of the connection sent the packet.
#[derive(Debug, Clone, Copy, PartialEq, Eq, Structural)]
pub enum Sender {
    Client,
    Server,
}

/// One flow: its two ends, its transport, and which end is the client.
#[derive(Debug, Clone, Copy, PartialEq, Eq, Structural)]
pub struct Flow {
    pub client: Endpoint,
    pub server: Endpoint,
    pub proto: Proto,
}

/// Whether a packet between `src` and `dst` belongs to flow `f`, in either direction.
pub open spec fn same_flow(f: Flow, src: Endpoint, dst: Endpoint, proto: Proto) -> bool {
    f.proto == proto && ((f.client == src && f.server == dst) || (f.client == dst
        && f.server == src))
}

/// The flows seen so far, in the order they were first seen.
pub struct Streams {
    pub flows: Vec<Flow>,
}

impl Streams {
    /// No flow is listed twice.
    pub open spec fn wf(&self) -> bool {
        forall|i: int, j: int|
            0 <= i < j < self.flows@.len() ==> !same_flow(
                self.flows@[i],
                self.flows@[j].client,
                self.flows@[j].server,
                self.flows@[j].proto,
            )
    }

    pub fn new() -> (r: Streams)
        ensures
            r.wf(),
            r.flows@.len() == 0,
    {
        Streams { flows: Vec::new() }
    }

    /// The position of the flow of a packet, if it is known.
    pub fn find(&self, src: Endpoint, dst: Endpoint, proto: Proto) -> (r: Option<usize>)
        ensures
            match r {
                Some(i) => i < self.flows@.len() && same_flow(self.flows@[i as int], src, dst, proto),
                None => forall|i: int|
                    0 <= i < self.flows@.len() ==> !same_flow(self.flows@[i], src, dst, proto),
            },
    {
        let mut i: usize = 0;
        while i < self.flows.len()
            invariant
                i <= self.flows@.len(),
                forall|k: int| 0 <= k < i ==> !same_flow(self.flows@[k], src, dst, proto),
            decreases self.flows.len() - i,
        {
            let f = self.flows[i];
            if f.proto == proto && ((f.client == src && f.server == dst) || (f.client == dst
                && f.server == src)) {
                return Some(i);
            }
            i = i + 1;
        }
        None
    }

    /// Takes one packet. A new flow's client is the packet's sender, or its
    /// receiver when the packet is a SYN-ACK; a known flow keeps its ends. Says
    /// which side sent the packet.
    pub fn update(&mut self, src: Endpoint, dst: Endpoint, proto: Proto, syn_ack: bool) -> (r: Sender)
        requires
            old(self).wf(),
        ensures
            final(self).wf(),
            old(self).flows@.len() <= final(self).flows@.len() <= old(self).flows@.len() + 1,
            forall|i: int|
                0 <= i < old(self).flows@.len() ==> final(self).flows@[i] == old(self).flows@[i],
            exists|i: int|
                0 <= i < final(self).flows@.len() && same_flow(final(self).flows@[i], src, dst, proto)
                    && (r == Sender::Client <==> final(self).flows@[i].client == src),
            final(self).flows@.len() == old(self).flows@.len() + 1 ==> {
                &&& forall|i: int|
                    0 <= i < old(self).flows@.len() ==> !same_flow(old(self).flows@[i], src, dst, proto)
                &&& final(self).flows@.last() == (if syn_ack {
                    Flow { client: dst, server: src, proto }
                } else {
                    Flow { client: src, server: dst, proto }
                })
            },
    {
        let idx = match self.find(src, dst, proto) {
            Some(i) => i,
            None => {
                let f = if syn_ack {
                    Flow { client: dst, server: src, proto }
                } else {
                    Flow { client: src, server: dst, proto }
                };
                self.flows.push(f);
                proof {
                    let n = self.flows@.len() - 1;
                    assert(same_flow(self.flows@[n], src, dst, proto));
                    assert forall|i: int, j: int| 0 <= i < j < self.flows@.len() implies !same_flow(
                        self.flows@[i],
                        self.flows@[j].client,
                        self.flows@[j].server,
                        self.flows@[j].proto,
                    ) by {
                        if j == n {
                            assert(!same_flow(self.flows@[i], src, dst, proto));
                        } else {
                            assert(self.flows@[j] == old(self).flows@[j]);
                        }
                    }
                }
                self.flows.len() - 1
            },
        };
        let r = if self.flows[idx].client == src {
            Sender::Client
        } else {
            Sender::Server
        };
        assert(same_flow(self.flows@[idx as int], src, dst, proto));
        r
    }
}

} // verus!
