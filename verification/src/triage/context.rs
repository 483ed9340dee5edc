//! Triage context: cross-session aggregates the signal engine needs.

use vstd::prelude::*;

use crate::addr::{IpAddr, IpPair};
use crate::flow::{Session, SessionState};
use crate::keyed::{KeyEq, KeySet, KeyedMap};
use crate::protocol::{FlowKey, L7App};
use crate::seqs;

verus! {

/// Five minutes of history for aggregate signals.
pub const WINDOW_MS: u64 = 300_000;

/// A source counts as new for its first minute.
pub const NEW_SOURCE_MS: u64 = 60_000;

pub struct TriageContext {
    /// Source addresses seen within the window, with the wall-clock ms of the
    /// sighting.
    pub first_seen_src: KeyedMap<IpAddr, u64>,
    /// Distinct destination ports by source and destination.
    pub dst_ports: KeyedMap<IpPair, KeySet<u16>>,
    /// Distinct destination addresses by source.
    pub dst_ips: KeyedMap<IpAddr, KeySet<IpAddr>>,
    /// Number of live sessions by source.
    pub src_flow_count: KeyedMap<IpAddr, usize>,
}

/// When a source was seen, on the wall clock.
#[derive(Debug, Clone, Copy, PartialEq, Eq, Structural)]
pub struct Sighting {
    pub first_ms: u64,
    pub last_ms: u64,
}

/// Whether a source was last seen within the window.
pub open spec fn remembered(memory: Map<IpAddr, Sighting>, a: IpAddr, now_ms: u64) -> bool {
    memory.contains_key(a) && elapsed(now_ms, memory[a].last_ms) <= WINDOW_MS
}

/// The first sighting of a source that is seen now: an earlier one while the
/// source is remembered, otherwise this one.
pub open spec fn first_sighting(memory: Map<IpAddr, Sighting>, a: IpAddr, now_ms: u64) -> u64 {
    if remembered(memory, a, now_ms) {
        memory[a].first_ms
    } else {
        now_ms
    }
}

/// The memory once the sources in `seen` were seen at `now_ms`; the others stay
/// while they are remembered.
pub open spec fn after_sightings(
    memory: Map<IpAddr, Sighting>,
    seen: Set<IpAddr>,
    now_ms: u64,
) -> Map<IpAddr, Sighting> {
    Map::new(
        |a: IpAddr| seen.contains(a) || remembered(memory, a, now_ms),
        |a: IpAddr|
            if seen.contains(a) {
                Sighting { first_ms: first_sighting(memory, a, now_ms), last_ms: now_ms }
            } else {
                memory[a]
            },
    )
}

/// Private and loopback IPv4 ranges; IPv6 loopback and unique-local addresses.
pub open spec fn private_ip(ip: IpAddr) -> bool {
    match ip {
        IpAddr::V4(o) => {
            ||| o[0] == 10
            ||| o[0] == 172 && 16 <= o[1] <= 31
            ||| o[0] == 192 && o[1] == 168
            ||| o[0] == 127
        },
        IpAddr::V6(s) => {
            ||| s@ == seq![0u16, 0u16, 0u16, 0u16, 0u16, 0u16, 0u16, 1u16]
            ||| 0xfc00 <= s[0] <= 0xfdff
        },
    }
}

/// Service ports worth flagging for lateral movement.
pub open spec fn sensitive_service(port: u16) -> bool {
    ||| port == 22
    ||| port == 23
    ||| port == 139
    ||| port == 445
    ||| port == 2375
    ||| port == 3306
    ||| port == 3389
    ||| port == 5432
    ||| port == 5985
    ||| port == 6379
    ||| port == 27017
}

pub fn is_private(ip: IpAddr) -> (r: bool)
    ensures
        r == private_ip(ip),
{
    match ip {
        IpAddr::V4(o) => o[0] == 10 || (o[0] == 172 && 16 <= o[1] && o[1] <= 31) || (o[0] == 192
            && o[1] == 168) || o[0] == 127,
        IpAddr::V6(s) => {
            let loopback: bool = s[0] == 0 && s[1] == 0 && s[2] == 0 && s[3] == 0 && s[4] == 0
                && s[5] == 0 && s[6] == 0 && s[7] == 1;
            proof {
                let one = seq![0u16, 0u16, 0u16, 0u16, 0u16, 0u16, 0u16, 1u16];
                if loopback {
                    assert(s@ =~= one);
                } else if s@ == one {
                    assert(s[0] == one[0] && s[1] == one[1] && s[2] == one[2] && s[3] == one[3]
                        && s[4] == one[4] && s[5] == one[5] && s[6] == one[6] && s[7] == one[7]);
                }
            }
            loopback || (0xfc00 <= s[0] && s[0] <= 0xfdff)
        },
    }
}

pub fn is_sensitive_service(port: u16) -> (r: bool)
    ensures
        r == sensitive_service(port),
{
    matches!(
        port,
        22 | 23 | 445 | 139 | 3389 | 5985 | 3306 | 5432 | 27017 | 6379 | 2375
    )
}

pub fn is_ephemeral(port: u16) -> (r: bool)
    ensures
        r == (port >= 32768),
{
    port >= 32768
}

/// `a - b`, or zero where `b` is larger.
pub open spec fn elapsed(a: u64, b: u64) -> nat {
    if a > b {
        (a - b) as nat
    } else {
        0
    }
}

/// Whether `k` is a live session of source `src` among the visited keys.
pub open spec fn live_from(
    m: Map<FlowKey, Session>,
    visited: Set<FlowKey>,
    k: FlowKey,
    src: IpAddr,
) -> bool {
    visited.contains(k) && m[k].state != SessionState::Expired && m[k].key.spec_src() == src
}

/// Whether any visited session is a live session of `src`.
pub open spec fn source_seen(
    m: Map<FlowKey, Session>,
    visited: Set<FlowKey>,
    src: IpAddr,
) -> bool {
    exists|k: FlowKey| live_from(m, visited, k, src)
}

/// Destinations of the live visited sessions of `src`.
pub open spec fn destinations(
    m: Map<FlowKey, Session>,
    visited: Set<FlowKey>,
    src: IpAddr,
) -> Set<IpAddr> {
    Set::new(
        |d: IpAddr|
            exists|k: FlowKey| #[trigger]
                live_from(m, visited, k, src) && m[k].key.spec_dst() == d,
    )
}

/// Destination ports of the live visited sessions from `p.src` to `p.dst`.
pub open spec fn ports(m: Map<FlowKey, Session>, visited: Set<FlowKey>, p: IpPair) -> Set<u16> {
    Set::new(
        |port: u16|
            exists|k: FlowKey| #[trigger]
                live_from(m, visited, k, p.src) && m[k].key.spec_dst() == p.dst && m[k].key.dport
                    == port,
    )
}

/// Whether any visited session is a live session from `p.src` to `p.dst`.
pub open spec fn pair_seen(m: Map<FlowKey, Session>, visited: Set<FlowKey>, p: IpPair) -> bool {
    exists|k: FlowKey| #[trigger]
        live_from(m, visited, k, p.src) && m[k].key.spec_dst() == p.dst
}

/// Number of live visited sessions of `src`.
pub open spec fn session_count(
    m: Map<FlowKey, Session>,
    visited: Set<FlowKey>,
    src: IpAddr,
) -> nat {
    visited.filter(|k: FlowKey| live_from(m, visited, k, src)).len()
}

/// `after` is `before` with one more live session, of the flow `key`.
pub open spec fn absorbed(
    before: TriageContext,
    after: TriageContext,
    key: FlowKey,
    now_ms: u64,
) -> bool {
    let src = key.spec_src();
    let dst = key.spec_dst();
    &&& after.first_seen_src@ == if before.first_seen_src@.contains_key(src) {
        before.first_seen_src@
    } else {
        before.first_seen_src@.insert(src, now_ms)
    }
    &&& forall|q: IpPair| #[trigger]
        after.spec_ports(q) == if q == (IpPair { src, dst }) {
            before.spec_ports(q).insert(key.dport)
        } else {
            before.spec_ports(q)
        }
    &&& forall|a: IpAddr| #[trigger]
        after.spec_destinations(a) == if a == src {
            before.spec_destinations(a).insert(dst)
        } else {
            before.spec_destinations(a)
        }
    &&& forall|a: IpAddr| #[trigger]
        after.spec_flow_count(a) == if a == src {
            before.spec_flow_count(a) + 1
        } else {
            before.spec_flow_count(a)
        }
    &&& forall|q: IpPair| #[trigger]
        after.dst_ports@.contains_key(q) <==> before.dst_ports@.contains_key(q) || q == (IpPair {
            src,
            dst,
        })
    &&& forall|a: IpAddr| #[trigger]
        after.dst_ips@.contains_key(a) <==> before.dst_ips@.contains_key(a) || a == src
    &&& forall|a: IpAddr| #[trigger]
        after.src_flow_count@.contains_key(a) <==> before.src_flow_count@.contains_key(a) || a
            == src
}

impl Default for TriageContext {
    fn default() -> (r: Self)
        ensures
            r.first_seen_src@ == Map::<IpAddr, u64>::empty(),
            r.dst_ports@ == Map::<IpPair, KeySet<u16>>::empty(),
            r.dst_ips@ == Map::<IpAddr, KeySet<IpAddr>>::empty(),
            r.src_flow_count@ == Map::<IpAddr, usize>::empty(),
    {
        TriageContext {
            first_seen_src: KeyedMap::new(),
            dst_ports: KeyedMap::new(),
            dst_ips: KeyedMap::new(),
            src_flow_count: KeyedMap::new(),
        }
    }
}

impl TriageContext {
    /// The ports, destinations and session counts are exactly those of the
    /// visited sessions of `m`; no entry stands for a source or a pair without a
    /// live session.
    pub open spec fn tallies(&self, m: Map<FlowKey, Session>, visited: Set<FlowKey>) -> bool {
        &&& forall|p: IpPair| self.spec_ports(p) == ports(m, visited, p)
        &&& forall|a: IpAddr| self.spec_destinations(a) == destinations(m, visited, a)
        &&& forall|a: IpAddr| self.spec_flow_count(a) == session_count(m, visited, a)
        &&& forall|p: IpPair| #[trigger]
            self.dst_ports@.contains_key(p) <==> pair_seen(m, visited, p)
        &&& forall|a: IpAddr| #[trigger]
            self.dst_ips@.contains_key(a) <==> source_seen(m, visited, a)
        &&& forall|a: IpAddr| #[trigger]
            self.src_flow_count@.contains_key(a) <==> source_seen(m, visited, a)
    }

    /// The context aggregates exactly the visited sessions of `m`, with every
    /// source seen at `now_ms`.
    pub open spec fn summarises(
        &self,
        m: Map<FlowKey, Session>,
        visited: Set<FlowKey>,
        now_ms: u64,
    ) -> bool {
        &&& forall|a: IpAddr| #[trigger]
            self.first_seen_src@.contains_key(a) <==> source_seen(m, visited, a)
        &&& forall|a: IpAddr| #[trigger]
            self.first_seen_src@.contains_key(a) ==> self.first_seen_src@[a] == now_ms
        &&& self.tallies(m, visited)
    }

    /// Distinct destination ports recorded for a pair of addresses.
    pub open spec fn spec_ports(&self, p: IpPair) -> Set<u16> {
        if self.dst_ports@.contains_key(p) {
            self.dst_ports@[p]@
        } else {
            Set::empty()
        }
    }

    /// Distinct destination ports recorded for a source, over all its
    /// destinations.
    pub open spec fn spec_source_ports(&self, src: IpAddr) -> Set<u16> {
        Set::new(
            |port: u16|
                exists|p: IpPair| #[trigger] self.spec_ports(p).contains(port) && p.src == src,
        )
    }

    /// Distinct destinations recorded for a source.
    pub open spec fn spec_destinations(&self, src: IpAddr) -> Set<IpAddr> {
        if self.dst_ips@.contains_key(src) {
            self.dst_ips@[src]@
        } else {
            Set::empty()
        }
    }

    /// Number of live sessions recorded for a source.
    pub open spec fn spec_flow_count(&self, src: IpAddr) -> nat {
        if self.src_flow_count@.contains_key(src) {
            self.src_flow_count@[src] as nat
        } else {
            0
        }
    }

    /// Whether a source is unknown or was first seen within the last minute.
    pub open spec fn spec_is_new(&self, src: IpAddr, now_ms: u64) -> bool {
        !self.first_seen_src@.contains_key(src) || elapsed(now_ms, self.first_seen_src@[src])
            < NEW_SOURCE_MS
    }

    fn add_port(&mut self, p: IpPair, port: u16)
        ensures
            forall|q: IpPair|
                final(self).spec_ports(q) == if q == p {
                    old(self).spec_ports(q).insert(port)
                } else {
                    old(self).spec_ports(q)
                },
            forall|q: IpPair| #[trigger]
                final(self).dst_ports@.contains_key(q) <==> old(self).dst_ports@.contains_key(q)
                    || q == p,
            final(self).first_seen_src == old(self).first_seen_src,
            final(self).dst_ips == old(self).dst_ips,
            final(self).src_flow_count == old(self).src_flow_count,
    {
        let mut set: KeySet<u16> = match self.dst_ports.remove(&p) {
            Some(set) => set,
            None => KeySet::new(),
        };
        set.insert(port);
        self.dst_ports.insert(p, set);
    }

    fn add_destination(&mut self, src: IpAddr, dst: IpAddr)
        ensures
            forall|a: IpAddr|
                final(self).spec_destinations(a) == if a == src {
                    old(self).spec_destinations(a).insert(dst)
                } else {
                    old(self).spec_destinations(a)
                },
            forall|a: IpAddr| #[trigger]
                final(self).dst_ips@.contains_key(a) <==> old(self).dst_ips@.contains_key(a) || a
                    == src,
            final(self).first_seen_src == old(self).first_seen_src,
            final(self).dst_ports == old(self).dst_ports,
            final(self).src_flow_count == old(self).src_flow_count,
    {
        let mut set: KeySet<IpAddr> = match self.dst_ips.remove(&src) {
            Some(set) => set,
            None => KeySet::new(),
        };
        set.insert(dst);
        self.dst_ips.insert(src, set);
    }

    fn add_session(&mut self, src: IpAddr)
        requires
            old(self).spec_flow_count(src) < usize::MAX,
        ensures
            forall|a: IpAddr|
                final(self).spec_flow_count(a) == if a == src {
                    old(self).spec_flow_count(a) + 1
                } else {
                    old(self).spec_flow_count(a)
                },
            forall|a: IpAddr| #[trigger]
                final(self).src_flow_count@.contains_key(a) <==> old(
                    self,
                ).src_flow_count@.contains_key(a) || a == src,
            final(self).first_seen_src == old(self).first_seen_src,
            final(self).dst_ports == old(self).dst_ports,
            final(self).dst_ips == old(self).dst_ips,
    {
        let count: usize = match self.src_flow_count.get(&src) {
            Some(n) => *n,
            None => 0,
        };
        self.src_flow_count.insert(src, count + 1);
    }

    /// Adds one live session to the aggregates.
    fn absorb(&mut self, key: &FlowKey, now_ms: u64)
        requires
            old(self).spec_flow_count(key.spec_src()) < usize::MAX,
        ensures
            absorbed(*old(self), *final(self), *key, now_ms),
    {
        let src: IpAddr = key.src_ip();
        let dst: IpAddr = key.dst_ip();
        let ghost c0 = *self;
        if !self.first_seen_src.contains_key(&src) {
            self.first_seen_src.insert(src, now_ms);
        }
        let ghost c1 = *self;
        self.add_port(IpPair { src, dst }, key.dport);
        let ghost c2 = *self;
        self.add_destination(src, dst);
        let ghost c3 = *self;
        assert(c3.spec_flow_count(src) == c0.spec_flow_count(src));
        self.add_session(src);
        proof {
            let c4 = *self;
            assert forall|q: IpPair| #[trigger]
                c4.spec_ports(q) == if q == (IpPair { src, dst }) {
                    c0.spec_ports(q).insert(key.dport)
                } else {
                    c0.spec_ports(q)
                } by {
                assert(c1.spec_ports(q) == c0.spec_ports(q));
                assert(c2.spec_ports(q) == c4.spec_ports(q));
            }
            assert forall|a: IpAddr| #[trigger]
                c4.spec_destinations(a) == if a == src {
                    c0.spec_destinations(a).insert(dst)
                } else {
                    c0.spec_destinations(a)
                } by {
                assert(c2.spec_destinations(a) == c0.spec_destinations(a));
                assert(c3.spec_destinations(a) == c4.spec_destinations(a));
            }
            assert forall|a: IpAddr| #[trigger]
                c4.spec_flow_count(a) == if a == src {
                    c0.spec_flow_count(a) + 1
                } else {
                    c0.spec_flow_count(a)
                } by {
                assert(c3.spec_flow_count(a) == c0.spec_flow_count(a));
            }
        }
    }

    /// Aggregates the sessions that have not expired.
    pub fn rebuild(sessions: &KeyedMap<FlowKey, Session>, now_ms: u64) -> (r: Self)
        ensures
            r.summarises(sessions@, sessions@.dom(), now_ms),
    {
        let mut ctx: TriageContext = TriageContext::default();
        let n: usize = sessions.len();
        let ghost m = sessions@;
        let ghost order = sessions.order();
        let mut i: usize = 0;
        let ghost mut visited: Set<FlowKey> = Set::empty();
        proof {
            assert forall|a: IpAddr| session_count(m, visited, a) == 0 by {
                assert(visited.filter(|k: FlowKey| live_from(m, visited, k, a)) =~= Set::empty());
            }
            assert forall|p: IpPair| ctx.spec_ports(p) == ports(m, visited, p) by {
                assert(ctx.spec_ports(p) =~= ports(m, visited, p));
            }
            assert forall|a: IpAddr| ctx.spec_destinations(a) == destinations(m, visited, a) by {
                assert(ctx.spec_destinations(a) =~= destinations(m, visited, a));
            }
        }
        while i < n
            invariant
                m == sessions@,
                order == sessions.order(),
                n == order.len(),
                sessions.valid(),
                i <= n,
                visited.finite(),
                visited.len() == i,
                forall|k: FlowKey| #[trigger]
                    visited.contains(k) <==> order.take(i as int).contains(k),
                ctx.summarises(m, visited, now_ms),
            decreases n - i,
        {
            let s: &Session = sessions.value_at(i);
            let ghost k = order[i as int];
            let ghost next = visited.insert(k);
            let ghost before = ctx;
            proof {
                assert(!visited.contains(k)) by {
                    if order.take(i as int).contains(k) {
                        let j = choose|j: int| 0 <= j < i && order.take(i as int)[j] == k;
                        assert(order[j] == order[i as int]);
                    }
                }
                assert forall|q: FlowKey| #[trigger] next.contains(q) <==> order.take(
                    i + 1,
                ).contains(q) by {
                    let t = order.take(i + 1);
                    assert(t =~= order.take(i as int).push(k));
                    if order.take(i as int).contains(q) {
                        let j = choose|j: int| 0 <= j < i && order.take(i as int)[j] == q;
                        assert(t[j] == q);
                    }
                    if q == k {
                        assert(t[i as int] == k);
                    }
                }
            }
            if s.state == SessionState::Expired {
                proof {
                    ctx.lemma_skip(m, visited, k, now_ms);
                    visited = next;
                }
                i += 1;
                continue ;
            }
            proof {
                lemma_count_bound(m, visited, s.key.spec_src());
                assert(ctx.spec_flow_count(s.key.spec_src()) == session_count(
                    m,
                    visited,
                    s.key.spec_src(),
                ));
            }
            ctx.absorb(&s.key, now_ms);
            proof {
                lemma_step(before, ctx, m, visited, k, now_ms);
                visited = next;
            }
            i += 1;
        }
        proof {
            assert(order.take(n as int) =~= order);
            assert(visited =~= m.dom());
        }
        let ghost full = ctx;
        ctx.prune(now_ms);
        proof {
            lemma_same_tallies(full, ctx, m, visited);
        }
        ctx
    }

    proof fn lemma_skip(
        &self,
        m: Map<FlowKey, Session>,
        visited: Set<FlowKey>,
        k: FlowKey,
        now_ms: u64,
    )
        requires
            self.summarises(m, visited, now_ms),
            m[k].state == SessionState::Expired,
        ensures
            self.summarises(m, visited.insert(k), now_ms),
    {
        let next = visited.insert(k);
        assert forall|q: FlowKey, a: IpAddr|
            live_from(m, next, q, a) == #[trigger] live_from(m, visited, q, a) by {}
        assert forall|a: IpAddr| source_seen(m, next, a) == #[trigger] source_seen(
            m,
            visited,
            a,
        ) by {
            if source_seen(m, next, a) {
                let q = choose|q: FlowKey| live_from(m, next, q, a);
                assert(live_from(m, visited, q, a));
            }
            if source_seen(m, visited, a) {
                let q = choose|q: FlowKey| live_from(m, visited, q, a);
                assert(live_from(m, next, q, a));
            }
        }
        assert forall|p: IpPair| pair_seen(m, next, p) == #[trigger] pair_seen(
            m,
            visited,
            p,
        ) by {
            if pair_seen(m, next, p) {
                let q = choose|q: FlowKey| #[trigger]
                    live_from(m, next, q, p.src) && m[q].key.spec_dst() == p.dst;
                assert(live_from(m, visited, q, p.src));
            }
            if pair_seen(m, visited, p) {
                let q = choose|q: FlowKey| #[trigger]
                    live_from(m, visited, q, p.src) && m[q].key.spec_dst() == p.dst;
                assert(live_from(m, next, q, p.src));
            }
        }
        assert forall|p: IpPair| self.spec_ports(p) == ports(m, next, p) by {
            assert forall|x: u16| ports(m, next, p).contains(x) == ports(m, visited, p).contains(
                x,
            ) by {
                if ports(m, next, p).contains(x) {
                    let q = choose|q: FlowKey| #[trigger]
                        live_from(m, next, q, p.src) && m[q].key.spec_dst() == p.dst
                            && m[q].key.dport == x;
                    assert(live_from(m, visited, q, p.src));
                }
                if ports(m, visited, p).contains(x) {
                    let q = choose|q: FlowKey| #[trigger]
                        live_from(m, visited, q, p.src) && m[q].key.spec_dst() == p.dst
                            && m[q].key.dport == x;
                    assert(live_from(m, next, q, p.src));
                }
            }
            assert(ports(m, next, p) =~= ports(m, visited, p));
        }
        assert forall|a: IpAddr| self.spec_destinations(a) == destinations(m, next, a) by {
            assert forall|x: IpAddr|
                destinations(m, next, a).contains(x) == destinations(m, visited, a).contains(x) by {
                if destinations(m, next, a).contains(x) {
                    let q = choose|q: FlowKey| #[trigger]
                        live_from(m, next, q, a) && m[q].key.spec_dst() == x;
                    assert(live_from(m, visited, q, a));
                }
                if destinations(m, visited, a).contains(x) {
                    let q = choose|q: FlowKey| #[trigger]
                        live_from(m, visited, q, a) && m[q].key.spec_dst() == x;
                    assert(live_from(m, next, q, a));
                }
            }
            assert(destinations(m, next, a) =~= destinations(m, visited, a));
        }
        assert forall|a: IpAddr| self.spec_flow_count(a) == session_count(m, next, a) by {
            assert(next.filter(|q: FlowKey| live_from(m, next, q, a)) =~= visited.filter(
                |q: FlowKey| live_from(m, visited, q, a),
            ));
        }
    }

    /// Drops the sightings that are older than the window.
    fn prune(&mut self, now_ms: u64)
        ensures
            forall|a: IpAddr| #[trigger]
                final(self).first_seen_src@.contains_key(a) <==> (old(
                    self,
                ).first_seen_src@.contains_key(a) && elapsed(now_ms, old(self).first_seen_src@[a])
                    <= WINDOW_MS),
            forall|a: IpAddr| #[trigger]
                final(self).first_seen_src@.contains_key(a) ==> final(self).first_seen_src@[a]
                    == old(self).first_seen_src@[a],
            final(self).dst_ports == old(self).dst_ports,
            final(self).dst_ips == old(self).dst_ips,
            final(self).src_flow_count == old(self).src_flow_count,
    {
        let mut kept: KeyedMap<IpAddr, u64> = KeyedMap::new();
        let n: usize = self.first_seen_src.len();
        let ghost seen = self.first_seen_src;
        let mut i: usize = 0;
        while i < n
            invariant
                *self == *old(self),
                seen == self.first_seen_src,
                seen.valid(),
                n == seen.order().len(),
                i <= n,
                forall|a: IpAddr| #[trigger]
                    kept@.contains_key(a) <==> (seen.order().take(i as int).contains(a) && elapsed(
                        now_ms,
                        seen@[a],
                    ) <= WINDOW_MS),
                forall|a: IpAddr| #[trigger] kept@.contains_key(a) ==> kept@[a] == seen@[a],
            decreases n - i,
        {
            let a: IpAddr = self.first_seen_src.key_at(i);
            let t: u64 = *self.first_seen_src.value_at(i);
            proof {
                let now = seen.order().take(i + 1);
                assert(now =~= seen.order().take(i as int).push(a));
                assert forall|x: IpAddr| now.contains(x) <==> (seen.order().take(
                    i as int,
                ).contains(x) || x == a) by {
                    if seen.order().take(i as int).contains(x) {
                        let j = choose|j: int| 0 <= j < i && seen.order().take(i as int)[j] == x;
                        assert(now[j] == x);
                    }
                    if x == a {
                        assert(now[i as int] == a);
                    }
                }
            }
            if now_ms.saturating_sub(t) <= WINDOW_MS {
                kept.insert(a, t);
            }
            i += 1;
        }
        proof {
            assert(seen.order().take(n as int) =~= seen.order());
        }
        self.first_seen_src = kept;
    }

    /// Takes the first sightings of the sources from `memory`, and records there
    /// that they were seen now.
    pub fn recall(&mut self, memory: &mut KeyedMap<IpAddr, Sighting>, now_ms: u64)
        ensures
            final(self).first_seen_src@ == Map::new(
                |a: IpAddr| old(self).first_seen_src@.contains_key(a),
                |a: IpAddr| first_sighting(old(memory)@, a, now_ms),
            ),
            final(self).dst_ports == old(self).dst_ports,
            final(self).dst_ips == old(self).dst_ips,
            final(self).src_flow_count == old(self).src_flow_count,
            final(memory)@ == after_sightings(
                old(memory)@,
                old(self).first_seen_src@.dom(),
                now_ms,
            ),
    {
        let ghost mem = memory@;
        let ghost seen = self.first_seen_src@.dom();
        let mut kept: KeyedMap<IpAddr, Sighting> = KeyedMap::new();
        let n: usize = memory.len();
        let ghost old_order = memory.order();
        let mut i: usize = 0;
        while i < n
            invariant
                n == old_order.len(),
                old_order == memory.order(),
                mem == memory@,
                memory.valid(),
                i <= n,
                forall|a: IpAddr| #[trigger]
                    kept@.contains_key(a) <==> old_order.take(i as int).contains(a) && remembered(
                        mem,
                        a,
                        now_ms,
                    ),
                forall|a: IpAddr| #[trigger] kept@.contains_key(a) ==> kept@[a] == mem[a],
            decreases n - i,
        {
            let a: IpAddr = memory.key_at(i);
            let t: Sighting = *memory.value_at(i);
            proof {
                seqs::lemma_take_contains(old_order, i as int);
            }
            if now_ms.saturating_sub(t.last_ms) <= WINDOW_MS {
                kept.insert(a, t);
            }
            i += 1;
        }
        assert(old_order.take(n as int) =~= old_order);
        let ghost held = kept@;
        let mut first: KeyedMap<IpAddr, u64> = KeyedMap::new();
        let m: usize = self.first_seen_src.len();
        let ghost order = self.first_seen_src.order();
        let mut j: usize = 0;
        while j < m
            invariant
                m == order.len(),
                order == self.first_seen_src.order(),
                self.first_seen_src.valid(),
                *self == *old(self),
                j <= m,
                forall|a: IpAddr| #[trigger]
                    held.contains_key(a) <==> remembered(mem, a, now_ms),
                forall|a: IpAddr| #[trigger] held.contains_key(a) ==> held[a] == mem[a],
                forall|a: IpAddr| #[trigger]
                    first@.contains_key(a) <==> order.take(j as int).contains(a),
                forall|a: IpAddr| #[trigger]
                    first@.contains_key(a) ==> first@[a] == first_sighting(mem, a, now_ms),
                forall|a: IpAddr| #[trigger]
                    kept@.contains_key(a) <==> held.contains_key(a) || order.take(
                        j as int,
                    ).contains(a),
                forall|a: IpAddr| #[trigger]
                    kept@.contains_key(a) ==> kept@[a] == if order.take(j as int).contains(a) {
                        (Sighting { first_ms: first_sighting(mem, a, now_ms), last_ms: now_ms })
                    } else {
                        held[a]
                    },
            decreases m - j,
        {
            let a: IpAddr = self.first_seen_src.key_at(j);
            proof {
                seqs::lemma_take_contains(order, j as int);
                if order.take(j as int).contains(a) {
                    let k = choose|k: int| 0 <= k < j && order.take(j as int)[k] == a;
                    assert(order[k] == order[j as int]);
                }
                assert(kept@.contains_key(a) <==> held.contains_key(a));
            }
            let first_ms: u64 = match kept.get(&a) {
                Some(t) => t.first_ms,
                None => now_ms,
            };
            first.insert(a, first_ms);
            kept.insert(a, Sighting { first_ms, last_ms: now_ms });
            j += 1;
        }
        proof {
            assert(order.take(m as int) =~= order);
            assert(first@ =~= Map::new(
                |a: IpAddr| old(self).first_seen_src@.contains_key(a),
                |a: IpAddr| first_sighting(mem, a, now_ms),
            ));
            assert(kept@ =~= after_sightings(mem, seen, now_ms));
        }
        self.first_seen_src = first;
        *memory = kept;
    }

    pub fn src_is_new(&self, src: &IpAddr, now_ms: u64) -> (r: bool)
        ensures
            r == self.spec_is_new(*src, now_ms),
    {
        match self.first_seen_src.get(src) {
            Some(t) => now_ms.saturating_sub(*t) < NEW_SOURCE_MS,
            None => true,
        }
    }

    pub fn distinct_ports_to(&self, src: &IpAddr, dst: &IpAddr) -> (r: usize)
        ensures
            r == self.spec_ports(IpPair { src: *src, dst: *dst }).len(),
    {
        match self.dst_ports.get(&IpPair { src: *src, dst: *dst }) {
            Some(set) => set.len(),
            None => 0,
        }
    }

    /// Number of distinct destination ports of `src`, over all its destinations.
    pub fn distinct_ports_from(&self, src: &IpAddr) -> (r: usize)
        ensures
            r == self.spec_source_ports(*src).len(),
    {
        let mut union: KeySet<u16> = KeySet::new();
        let n: usize = self.dst_ports.len();
        let ghost order = self.dst_ports.order();
        let ghost m = self.dst_ports@;
        let mut i: usize = 0;
        while i < n
            invariant
                n == order.len(),
                order == self.dst_ports.order(),
                m == self.dst_ports@,
                self.dst_ports.valid(),
                i <= n,
                forall|x: u16| #[trigger]
                    union@.contains(x) <==> exists|j: int|
                        0 <= j < i && (#[trigger] order[j]).src == *src && m[order[j]]@.contains(x),
            decreases n - i,
        {
            let pair: IpPair = self.dst_ports.key_at(i);
            let ghost before = union@;
            if pair.src.same(src) {
                union.extend(self.dst_ports.value_at(i));
            }
            proof {
                assert forall|x: u16| #[trigger] union@.contains(x) implies exists|j: int|
                    0 <= j < i + 1 && (#[trigger] order[j]).src == *src && m[order[j]]@.contains(
                        x,
                    ) by {
                    if before.contains(x) {
                        let j = choose|j: int|
                            0 <= j < i && (#[trigger] order[j]).src == *src && m[order[j]]@.contains(
                                x,
                            );
                        assert(order[j].src == *src);
                    } else {
                        assert(order[i as int].src == *src);
                    }
                }
                assert forall|x: u16|
                    (exists|j: int|
                        0 <= j < i + 1 && (#[trigger] order[j]).src == *src && m[order[j]]@.contains(
                            x,
                        )) implies #[trigger] union@.contains(x) by {
                    let j = choose|j: int|
                        0 <= j < i + 1 && (#[trigger] order[j]).src == *src && m[order[j]]@.contains(
                            x,
                        );
                    if j < i {
                        assert(before.contains(x));
                    }
                }
            }
            i += 1;
        }
        proof {
            assert forall|x: u16| union@.contains(x) == #[trigger] self.spec_source_ports(
                *src,
            ).contains(x) by {
                if union@.contains(x) {
                    let j = choose|j: int|
                        0 <= j < n && (#[trigger] order[j]).src == *src && m[order[j]]@.contains(x);
                    assert(order.contains(order[j]));
                    assert(self.spec_ports(order[j]).contains(x));
                }
                if self.spec_source_ports(*src).contains(x) {
                    let p = choose|p: IpPair| #[trigger]
                        self.spec_ports(p).contains(x) && p.src == *src;
                    assert(m.contains_key(p));
                    assert(order.contains(p));
                    let j = choose|j: int| 0 <= j < order.len() && order[j] == p;
                    assert(order[j].src == *src && m[order[j]]@.contains(x));
                }
            }
            assert(union@ =~= self.spec_source_ports(*src));
        }
        union.len()
    }

    /// Whether `src` was seen to send to `port` of `dst`.
    pub fn reaches(&self, src: &IpAddr, dst: &IpAddr, port: u16) -> (r: bool)
        ensures
            r == self.spec_ports(IpPair { src: *src, dst: *dst }).contains(port),
    {
        match self.dst_ports.get(&IpPair { src: *src, dst: *dst }) {
            Some(set) => set.contains(&port),
            None => false,
        }
    }

    pub fn distinct_dst_ips(&self, src: &IpAddr) -> (r: usize)
        ensures
            r == self.spec_destinations(*src).len(),
    {
        match self.dst_ips.get(src) {
            Some(set) => set.len(),
            None => 0,
        }
    }

    /// Number of live sessions of `src`.
    pub fn flow_count(&self, src: &IpAddr) -> (r: usize)
        ensures
            r == self.spec_flow_count(*src),
    {
        match self.src_flow_count.get(src) {
            Some(n) => *n,
            None => 0,
        }
    }

    pub fn app_is(s: &Session, app: L7App) -> (r: bool)
        ensures
            r == (s.l7_app == app.spec_code()),
    {
        s.l7_app == app.code()
    }
}

/// The tallies do not depend on the sightings.
pub proof fn lemma_same_tallies(
    before: TriageContext,
    after: TriageContext,
    m: Map<FlowKey, Session>,
    visited: Set<FlowKey>,
)
    requires
        before.tallies(m, visited),
        after.dst_ports == before.dst_ports,
        after.dst_ips == before.dst_ips,
        after.src_flow_count == before.src_flow_count,
    ensures
        after.tallies(m, visited),
{
    assert forall|p: IpPair| after.spec_ports(p) == ports(m, visited, p) by {
        assert(before.spec_ports(p) == ports(m, visited, p));
    }
    assert forall|a: IpAddr| after.spec_destinations(a) == destinations(m, visited, a) by {
        assert(before.spec_destinations(a) == destinations(m, visited, a));
    }
    assert forall|a: IpAddr| after.spec_flow_count(a) == session_count(m, visited, a) by {
        assert(before.spec_flow_count(a) == session_count(m, visited, a));
    }
}

proof fn lemma_count_bound(m: Map<FlowKey, Session>, visited: Set<FlowKey>, a: IpAddr)
    requires
        visited.finite(),
    ensures
        session_count(m, visited, a) <= visited.len(),
{
    visited.lemma_len_filter(|k: FlowKey| live_from(m, visited, k, a));
}

proof fn lemma_step(
    before: TriageContext,
    after: TriageContext,
    m: Map<FlowKey, Session>,
    visited: Set<FlowKey>,
    k: FlowKey,
    now_ms: u64,
)
    requires
        before.summarises(m, visited, now_ms),
        visited.finite(),
        !visited.contains(k),
        m[k].state != SessionState::Expired,
        absorbed(before, after, m[k].key, now_ms),
    ensures
        after.summarises(m, visited.insert(k), now_ms),
{
    let next = visited.insert(k);
    let src = m[k].key.spec_src();
    let dst = m[k].key.spec_dst();
    assert(live_from(m, next, k, src));
    assert forall|a: IpAddr| source_seen(m, next, a) == (#[trigger] source_seen(m, visited, a) || a
        == src) by {
        if source_seen(m, visited, a) {
            let q = choose|q: FlowKey| live_from(m, visited, q, a);
            assert(live_from(m, next, q, a));
        }
        if source_seen(m, next, a) && a != src {
            let q = choose|q: FlowKey| live_from(m, next, q, a);
            assert(live_from(m, visited, q, a));
        }
    }
    assert forall|p: IpPair| pair_seen(m, next, p) == (#[trigger] pair_seen(m, visited, p) || p == (
    IpPair { src, dst })) by {
        if pair_seen(m, visited, p) {
            let q = choose|q: FlowKey| #[trigger]
                live_from(m, visited, q, p.src) && m[q].key.spec_dst() == p.dst;
            assert(live_from(m, next, q, p.src));
        }
        if pair_seen(m, next, p) && p != (IpPair { src, dst }) {
            let q = choose|q: FlowKey| #[trigger]
                live_from(m, next, q, p.src) && m[q].key.spec_dst() == p.dst;
            assert(live_from(m, visited, q, p.src));
        }
    }
    assert forall|p: IpPair| after.spec_ports(p) == ports(m, next, p) by {
        assert forall|x: u16|
            after.spec_ports(p).contains(x) == ports(m, next, p).contains(x) by {
            if ports(m, visited, p).contains(x) {
                let q = choose|q: FlowKey| #[trigger]
                    live_from(m, visited, q, p.src) && m[q].key.spec_dst() == p.dst
                        && m[q].key.dport == x;
                assert(live_from(m, next, q, p.src));
            }
            if ports(m, next, p).contains(x) {
                let q = choose|q: FlowKey| #[trigger]
                    live_from(m, next, q, p.src) && m[q].key.spec_dst() == p.dst
                        && m[q].key.dport == x;
                if q != k {
                    assert(live_from(m, visited, q, p.src));
                }
            }
        }
        assert(after.spec_ports(p) =~= ports(m, next, p));
    }
    assert forall|a: IpAddr| after.spec_destinations(a) == destinations(m, next, a) by {
        assert forall|x: IpAddr|
            after.spec_destinations(a).contains(x) == destinations(m, next, a).contains(x) by {
            if destinations(m, visited, a).contains(x) {
                let q = choose|q: FlowKey| #[trigger]
                    live_from(m, visited, q, a) && m[q].key.spec_dst() == x;
                assert(live_from(m, next, q, a));
            }
            if destinations(m, next, a).contains(x) {
                let q = choose|q: FlowKey| #[trigger]
                    live_from(m, next, q, a) && m[q].key.spec_dst() == x;
                if q != k {
                    assert(live_from(m, visited, q, a));
                }
            }
        }
        assert(after.spec_destinations(a) =~= destinations(m, next, a));
    }
    assert forall|a: IpAddr| after.spec_flow_count(a) == session_count(m, next, a) by {
        let was = visited.filter(|q: FlowKey| live_from(m, visited, q, a));
        let is = next.filter(|q: FlowKey| live_from(m, next, q, a));
        visited.lemma_len_filter(|q: FlowKey| live_from(m, visited, q, a));
        if a == src {
            assert(is =~= was.insert(k));
            assert(!was.contains(k));
        } else {
            assert(is =~= was);
        }
    }
}

/// A source is a first contact once: seen again within the window of its last
/// sighting it keeps its first one, so it stops being new after its first
/// minute.
pub proof fn law_source_stops_being_new(
    memory: Map<IpAddr, Sighting>,
    seen: Set<IpAddr>,
    a: IpAddr,
    then_ms: u64,
    now_ms: u64,
    ctx: TriageContext,
)
    requires
        seen.contains(a),
        elapsed(now_ms, then_ms) <= WINDOW_MS,
        ctx.first_seen_src@.contains_key(a),
        ctx.first_seen_src@[a] == first_sighting(
            after_sightings(memory, seen, then_ms),
            a,
            now_ms,
        ),
    ensures
        ctx.first_seen_src@[a] == first_sighting(memory, a, then_ms),
        ctx.spec_is_new(a, now_ms) <==> elapsed(now_ms, first_sighting(memory, a, then_ms))
            < NEW_SOURCE_MS,
{
}

/// A source that was not seen for longer than the window is new again.
pub proof fn law_forgotten_source_is_new_again(
    memory: Map<IpAddr, Sighting>,
    a: IpAddr,
    now_ms: u64,
)
    requires
        memory.contains_key(a) ==> elapsed(now_ms, memory[a].last_ms) > WINDOW_MS,
    ensures
        first_sighting(memory, a, now_ms) == now_ms,
{
}

/// What the context of a session table records is what its live sessions show,
/// and nothing else: a destination, a port or an answering pair is recorded
/// exactly where some session that has not expired has it.
pub proof fn law_context_records_live_sessions(
    ctx: &TriageContext,
    m: Map<FlowKey, Session>,
    src: IpAddr,
    dst: IpAddr,
    port: u16,
)
    requires
        ctx.tallies(m, m.dom()),
    ensures
        ctx.spec_destinations(src).contains(dst) <==> exists|k: FlowKey| #[trigger]
            m.contains_key(k) && m[k].state != SessionState::Expired && m[k].key.spec_src() == src
                && m[k].key.spec_dst() == dst,
        ctx.spec_ports(IpPair { src, dst }).contains(port) <==> exists|k: FlowKey| #[trigger]
            m.contains_key(k) && m[k].state != SessionState::Expired && m[k].key.spec_src() == src
                && m[k].key.spec_dst() == dst && m[k].key.dport == port,
        ctx.spec_source_ports(src).contains(port) <==> exists|k: FlowKey| #[trigger]
            m.contains_key(k) && m[k].state != SessionState::Expired && m[k].key.spec_src() == src
                && m[k].key.dport == port,
{
    let pair = IpPair { src, dst };
    assert(ctx.spec_ports(pair) == ports(m, m.dom(), pair));
    assert(ctx.spec_destinations(src) == destinations(m, m.dom(), src));
    if exists|k: FlowKey| #[trigger]
        m.contains_key(k) && m[k].state != SessionState::Expired && m[k].key.spec_src() == src
            && m[k].key.spec_dst() == dst {
        let k = choose|k: FlowKey| #[trigger]
            m.contains_key(k) && m[k].state != SessionState::Expired && m[k].key.spec_src() == src
                && m[k].key.spec_dst() == dst;
        assert(live_from(m, m.dom(), k, src));
    }
    if exists|k: FlowKey| #[trigger]
        m.contains_key(k) && m[k].state != SessionState::Expired && m[k].key.spec_src() == src
            && m[k].key.spec_dst() == dst && m[k].key.dport == port {
        let k = choose|k: FlowKey| #[trigger]
            m.contains_key(k) && m[k].state != SessionState::Expired && m[k].key.spec_src() == src
                && m[k].key.spec_dst() == dst && m[k].key.dport == port;
        assert(live_from(m, m.dom(), k, src));
    }
    if exists|k: FlowKey| #[trigger]
        m.contains_key(k) && m[k].state != SessionState::Expired && m[k].key.spec_src() == src
            && m[k].key.dport == port {
        let k = choose|k: FlowKey| #[trigger]
            m.contains_key(k) && m[k].state != SessionState::Expired && m[k].key.spec_src() == src
                && m[k].key.dport == port;
        let q = IpPair { src, dst: m[k].key.spec_dst() };
        assert(live_from(m, m.dom(), k, src));
        assert(ports(m, m.dom(), q).contains(port));
        assert(ctx.spec_ports(q).contains(port));
    }
    if ctx.spec_source_ports(src).contains(port) {
        let q = choose|q: IpPair| #[trigger] ctx.spec_ports(q).contains(port) && q.src == src;
        assert(ports(m, m.dom(), q).contains(port));
    }
}

/// The session count of a source is the number of its sessions that have not
/// expired: the length of any list that holds each of them once.
pub proof fn law_context_counts_live_sessions(
    ctx: &TriageContext,
    m: Map<FlowKey, Session>,
    src: IpAddr,
    ks: Seq<FlowKey>,
)
    requires
        ctx.tallies(m, m.dom()),
        ks.no_duplicates(),
        forall|k: FlowKey| #[trigger]
            ks.contains(k) <==> m.contains_key(k) && m[k].state != SessionState::Expired
                && m[k].key.spec_src() == src,
    ensures
        ctx.spec_flow_count(src) == ks.len(),
{
    assert(ctx.spec_flow_count(src) == session_count(m, m.dom(), src));
    let live = m.dom().filter(|k: FlowKey| live_from(m, m.dom(), k, src));
    assert forall|k: FlowKey| live.contains(k) <==> ks.to_set().contains(k) by {
        assert(ks.to_set().contains(k) <==> ks.contains(k));
        assert(m.dom().contains(k) <==> m.contains_key(k));
    }
    assert(live =~= ks.to_set());
    ks.unique_seq_to_set();
}

/// The private ranges, as ranges of the 32-bit number that an IPv4 address is:
/// 10.0.0.0/8, 127.0.0.0/8, 172.16.0.0/12 and 192.168.0.0/16.
pub proof fn law_private_ranges(o: [u8; 4], n: nat)
    requires
        n == o[0] * 16_777_216 + o[1] * 65_536 + o[2] * 256 + o[3],
    ensures
        private_ip(IpAddr::V4(o)) <==> (0x0a00_0000 <= n <= 0x0aff_ffff || 0x7f00_0000 <= n
            <= 0x7fff_ffff || 0xac10_0000 <= n <= 0xac1f_ffff || 0xc0a8_0000 <= n <= 0xc0a8_ffff),
{
}

/// The private IPv6 addresses are the loopback address `::1` and those whose
/// first seven bits are 1111110.
pub proof fn law_private_v6(s: [u16; 8])
    ensures
        private_ip(IpAddr::V6(s)) <==> (s[0] / 512 == 126 || (s[7] == 1 && forall|i: int|
            0 <= i < 7 ==> s@[i] == 0)),
{
    let one = seq![0u16, 0u16, 0u16, 0u16, 0u16, 0u16, 0u16, 1u16];
    if s[7] == 1 && forall|i: int| 0 <= i < 7 ==> s@[i] == 0 {
        assert(s@ =~= one);
    }
    if s@ == one {
        assert forall|i: int| 0 <= i < 7 implies s@[i] == 0 by {
            assert(one[i] == 0);
        }
        assert(one[7] == 1);
    }
}

/// The services that lateral movement is looked for at: SSH, Telnet, NetBIOS,
/// SMB, Docker, MySQL, RDP, PostgreSQL, WinRM, Redis and MongoDB.
pub proof fn law_sensitive_services(port: u16)
    ensures
        sensitive_service(port) <==> set![
            22u16,
            23u16,
            139u16,
            445u16,
            2375u16,
            3306u16,
            3389u16,
            5432u16,
            5985u16,
            6379u16,
            27017u16,
        ].contains(port),
{
}

/// A source that is remembered keeps its first sighting, and every sighting
/// renews the memory for five more minutes; one that was not seen for more than
/// five minutes is forgotten, unless it is seen now.
pub proof fn law_sightings(
    memory: Map<IpAddr, Sighting>,
    seen: Set<IpAddr>,
    a: IpAddr,
    now_ms: u64,
)
    ensures
        seen.contains(a) ==> after_sightings(memory, seen, now_ms).contains_key(a)
            && after_sightings(memory, seen, now_ms)[a].last_ms == now_ms,
        seen.contains(a) && memory.contains_key(a) && now_ms <= memory[a].last_ms + 300_000
            ==> after_sightings(memory, seen, now_ms)[a].first_ms == memory[a].first_ms,
        seen.contains(a) && (!memory.contains_key(a) || now_ms > memory[a].last_ms + 300_000)
            ==> after_sightings(memory, seen, now_ms)[a].first_ms == now_ms,
        !seen.contains(a) && memory.contains_key(a) && now_ms <= memory[a].last_ms + 300_000
            ==> after_sightings(memory, seen, now_ms).contains_key(a) && after_sightings(
            memory,
            seen,
            now_ms,
        )[a] == memory[a],
        !seen.contains(a) && (!memory.contains_key(a) || now_ms > memory[a].last_ms + 300_000)
            ==> !after_sightings(memory, seen, now_ms).contains_key(a),
{
}

/// A source is new for exactly one minute after its first sighting, and as long
/// as it has none.
pub proof fn law_new_for_a_minute(ctx: &TriageContext, src: IpAddr, now_ms: u64)
    ensures
        !ctx.first_seen_src@.contains_key(src) ==> ctx.spec_is_new(src, now_ms),
        ctx.first_seen_src@.contains_key(src) ==> (ctx.spec_is_new(src, now_ms) <==> now_ms
            < ctx.first_seen_src@[src] + 60_000),
{
}

/// The first sighting of a source is the remembered one while the source is
/// remembered, which it is for five minutes after it was last seen, and now
/// otherwise.
pub proof fn law_first_sighting(memory: Map<IpAddr, Sighting>, a: IpAddr, now_ms: u64)
    ensures
        memory.contains_key(a) && now_ms <= memory[a].last_ms + 300_000 ==> first_sighting(
            memory,
            a,
            now_ms,
        ) == memory[a].first_ms,
        !memory.contains_key(a) || now_ms > memory[a].last_ms + 300_000 ==> first_sighting(
            memory,
            a,
            now_ms,
        ) == now_ms,
{
}

} // verus!
