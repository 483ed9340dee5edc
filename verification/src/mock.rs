//! In-process data plane for demos and tests.
//!
//! Does for each packet what the kernel probes would do: check the blocklists,
//! update the counters, maintain the flow metrics.

use vstd::prelude::*;

use crate::keyed::{KeySet, KeyedMap};
use crate::protocol::{
    BlockEntry, CounterVec, FlowKey, FlowMetrics, IpKey, PROTO_TCP, TCP_ACK, TCP_FIN, TCP_RST,
    TCP_SYN,
};

verus! {

pub struct MockDataPlane {
    pub flows: KeyedMap<FlowKey, FlowMetrics>,
    pub blocklist: KeySet<FlowKey>,
    pub blocklist_ip: KeySet<IpKey>,
    pub counters: CounterVec,
    pub enforce: bool,
}

/// The state of the plane.
#[verifier::ext_equal]
pub struct PlaneModel {
    pub flows: Map<FlowKey, FlowMetrics>,
    /// Flows in the order of their first packet.
    pub order: Seq<FlowKey>,
    pub blocklist: Set<FlowKey>,
    pub blocklist_ip: Set<IpKey>,
    pub counters: CounterVec,
    pub enforce: bool,
}

impl View for MockDataPlane {
    type V = PlaneModel;

    open spec fn view(&self) -> PlaneModel {
        PlaneModel {
            flows: self.flows@,
            order: self.flows.order(),
            blocklist: self.blocklist@,
            blocklist_ip: self.blocklist_ip@,
            counters: self.counters,
            enforce: self.enforce,
        }
    }
}

/// Metrics of a flow before its first packet.
pub open spec fn no_packets(key: FlowKey, ts_ns: u64) -> FlowMetrics {
    FlowMetrics {
        packets: 0,
        bytes: 0,
        sum_pkt_len: 0,
        first_seen_ns: ts_ns,
        last_seen_ns: ts_ns,
        max_pkt_len: 0,
        min_pkt_len: 0,
        syn_count: 0,
        fin_count: 0,
        rst_count: 0,
        tcp_flags_or: 0,
        l7_app: 0,
        l7_info: 0,
        proto: key.proto,
        emitted: 0,
    }
}

/// Whether the flags open a connection: SYN without ACK.
pub open spec fn opens(flags: u8) -> bool {
    flags & TCP_SYN != 0 && flags & TCP_ACK == 0
}

/// Metrics of a flow after one more packet.
pub open spec fn counted(m: FlowMetrics, key: FlowKey, len: u32, ts_ns: u64, flags: u8) -> FlowMetrics {
    let tcp = key.proto == PROTO_TCP;
    FlowMetrics {
        packets: (m.packets + 1) as u64,
        bytes: (m.bytes + len) as u64,
        sum_pkt_len: (m.sum_pkt_len + len) as u64,
        last_seen_ns: ts_ns,
        max_pkt_len: if len > m.max_pkt_len {
            len
        } else {
            m.max_pkt_len
        },
        min_pkt_len: if m.min_pkt_len == 0 || len < m.min_pkt_len {
            len
        } else {
            m.min_pkt_len
        },
        tcp_flags_or: if tcp {
            m.tcp_flags_or | flags as u16
        } else {
            m.tcp_flags_or
        },
        syn_count: if tcp && opens(flags) {
            (m.syn_count + 1) as u32
        } else {
            m.syn_count
        },
        fin_count: if tcp && flags & TCP_FIN != 0 {
            (m.fin_count + 1) as u32
        } else {
            m.fin_count
        },
        rst_count: if tcp && flags & TCP_RST != 0 {
            (m.rst_count + 1) as u32
        } else {
            m.rst_count
        },
        ..m
    }
}

/// Whether one more packet keeps a flow's totals within range.
pub open spec fn fits(m: FlowMetrics, key: FlowKey, len: u32, flags: u8) -> bool {
    let tcp = key.proto == PROTO_TCP;
    &&& m.packets < u64::MAX
    &&& m.bytes + len <= u64::MAX
    &&& m.sum_pkt_len + len <= u64::MAX
    &&& tcp && opens(flags) ==> m.syn_count < u32::MAX
    &&& tcp && flags & TCP_FIN != 0 ==> m.fin_count < u32::MAX
    &&& tcp && flags & TCP_RST != 0 ==> m.rst_count < u32::MAX
}

impl PlaneModel {
    /// Nothing seen, nothing blocked, monitoring.
    pub open spec fn empty() -> PlaneModel {
        PlaneModel {
            flows: Map::empty(),
            order: Seq::empty(),
            blocklist: Set::empty(),
            blocklist_ip: Set::empty(),
            counters: CounterVec {
                pass: 0,
                drop: 0,
                block_hits: 0,
                new_flows: 0,
                malformed: 0,
                events_lost: 0,
            },
            enforce: false,
        }
    }

    /// A flow is blocked by its own key or by its source.
    pub open spec fn blocked(self, key: FlowKey) -> bool {
        self.blocklist.contains(key) || self.blocklist_ip.contains(IpKey::of(key.spec_src()))
    }

    /// Metrics of a flow so far.
    pub open spec fn metrics(self, key: FlowKey, ts_ns: u64) -> FlowMetrics {
        if self.flows.contains_key(key) {
            self.flows[key]
        } else {
            no_packets(key, ts_ns)
        }
    }

    /// Whether the counters have room for one more packet of the flow.
    pub open spec fn has_room(self, key: FlowKey, len: u32, flags: u8) -> bool {
        if self.blocked(key) {
            self.counters.drop < u64::MAX && self.counters.block_hits < u64::MAX
        } else {
            self.counters.pass < u64::MAX && (self.flows.contains_key(key) ==> fits(
                self.flows[key],
                key,
                len,
                flags,
            ))
        }
    }

    /// The plane after one packet: a blocked packet only counts as a hit, any
    /// other packet passes and is added to its flow.
    pub open spec fn after_packet(
        self,
        key: FlowKey,
        len: u32,
        ts_ns: u64,
        flags: u8,
    ) -> PlaneModel {
        if self.blocked(key) {
            PlaneModel {
                counters: CounterVec {
                    drop: (self.counters.drop + 1) as u64,
                    block_hits: (self.counters.block_hits + 1) as u64,
                    ..self.counters
                },
                ..self
            }
        } else {
            PlaneModel {
                counters: CounterVec { pass: (self.counters.pass + 1) as u64, ..self.counters },
                flows: self.flows.insert(
                    key,
                    counted(self.metrics(key, ts_ns), key, len, ts_ns, flags),
                ),
                order: if self.flows.contains_key(key) {
                    self.order
                } else {
                    self.order.push(key)
                },
                ..self
            }
        }
    }

    /// Whether a packet of the flow is dropped: it is blocked, and the plane
    /// enforces.
    pub open spec fn drops(self, key: FlowKey) -> bool {
        self.blocked(key) && self.enforce
    }
}

impl MockDataPlane {
    pub fn new() -> (r: Self)
        ensures
            r@ == PlaneModel::empty(),
    {
        MockDataPlane {
            flows: KeyedMap::new(),
            blocklist: KeySet::new(),
            blocklist_ip: KeySet::new(),
            counters: CounterVec::default(),
            enforce: false,
        }
    }

    /// Feeds one packet into the plane; returns whether it is dropped.
    pub fn process_packet(&mut self, key: &FlowKey, len: u32, ts_ns: u64, flags: u8) -> (r: bool)
        requires
            old(self)@.has_room(*key, len, flags),
        ensures
            final(self)@ == old(self)@.after_packet(*key, len, ts_ns, flags),
            r == old(self)@.drops(*key),
    {
        let is_blocked: bool = self.blocklist.contains(key) || self.blocklist_ip.contains(
            &IpKey::from_ip(key.src_ip()),
        );
        if is_blocked {
            self.counters.drop = self.counters.drop + 1;
            self.counters.block_hits = self.counters.block_hits + 1;
            return self.enforce;
        }
        self.counters.pass = self.counters.pass + 1;
        let mut m: FlowMetrics = match self.flows.get(key) {
            Some(m) => *m,
            None => FlowMetrics {
                packets: 0,
                bytes: 0,
                sum_pkt_len: 0,
                first_seen_ns: ts_ns,
                last_seen_ns: ts_ns,
                max_pkt_len: 0,
                min_pkt_len: 0,
                syn_count: 0,
                fin_count: 0,
                rst_count: 0,
                tcp_flags_or: 0,
                l7_app: 0,
                l7_info: 0,
                proto: key.proto,
                emitted: 0,
            },
        };
        m.packets = m.packets + 1;
        m.bytes = m.bytes + len as u64;
        m.sum_pkt_len = m.sum_pkt_len + len as u64;
        m.last_seen_ns = ts_ns;
        if len > m.max_pkt_len {
            m.max_pkt_len = len;
        }
        if m.min_pkt_len == 0 || len < m.min_pkt_len {
            m.min_pkt_len = len;
        }
        if key.proto == PROTO_TCP {
            m.tcp_flags_or = m.tcp_flags_or | flags as u16;
            if flags & TCP_SYN != 0 && flags & TCP_ACK == 0 {
                m.syn_count = m.syn_count + 1;
            }
            if flags & TCP_FIN != 0 {
                m.fin_count = m.fin_count + 1;
            }
            if flags & TCP_RST != 0 {
                m.rst_count = m.rst_count + 1;
            }
        }
        self.flows.insert(*key, m);
        false
    }

    pub fn block_flow(&mut self, key: &FlowKey, _entry: BlockEntry)
        ensures
            final(self)@ == (PlaneModel {
                blocklist: old(self)@.blocklist.insert(*key),
                ..old(self)@
            }),
    {
        self.blocklist.insert(*key);
    }

    pub fn unblock_flow(&mut self, key: &FlowKey)
        ensures
            final(self)@ == (PlaneModel {
                blocklist: old(self)@.blocklist.remove(*key),
                ..old(self)@
            }),
    {
        self.blocklist.remove(key);
    }

    pub fn block_ip(&mut self, ip: &IpKey, _entry: BlockEntry)
        ensures
            final(self)@ == (PlaneModel {
                blocklist_ip: old(self)@.blocklist_ip.insert(*ip),
                ..old(self)@
            }),
    {
        self.blocklist_ip.insert(*ip);
    }

    pub fn unblock_ip(&mut self, ip: &IpKey)
        ensures
            final(self)@ == (PlaneModel {
                blocklist_ip: old(self)@.blocklist_ip.remove(*ip),
                ..old(self)@
            }),
    {
        self.blocklist_ip.remove(ip);
    }

    /// Switches between monitoring and enforcing.
    pub fn apply_control(&mut self, enforce: bool)
        ensures
            final(self)@ == (PlaneModel { enforce, ..old(self)@ }),
    {
        self.enforce = enforce;
    }

    /// All flows with their metrics, in the order of their first packet.
    pub fn snapshot_flows(&self) -> (r: Vec<(FlowKey, FlowMetrics)>)
        ensures
            r@ == self@.order.map_values(|k: FlowKey| (k, self@.flows[k])),
    {
        let mut out: Vec<(FlowKey, FlowMetrics)> = Vec::new();
        let n: usize = self.flows.len();
        let mut i: usize = 0;
        let ghost pairs = self@.order.map_values(|k: FlowKey| (k, self@.flows[k]));
        while i < n
            invariant
                i <= n,
                n == self.flows.order().len(),
                pairs == self@.order.map_values(|k: FlowKey| (k, self@.flows[k])),
                out@ == pairs.take(i as int),
            decreases n - i,
        {
            out.push((self.flows.key_at(i), *self.flows.value_at(i)));
            assert(pairs.take(i + 1) =~= pairs.take(i as int).push(pairs[i as int]));
            i += 1;
        }
        assert(pairs.take(n as int) =~= pairs);
        out
    }

    pub fn snapshot_counters(&self) -> (r: CounterVec)
        ensures
            r == self@.counters,
    {
        self.counters
    }

    /// A packet entering the data plane; returns whether it is dropped.
    pub fn ingest_packet(&mut self, key: &FlowKey, len: u32, ts_ns: u64, flags: u8) -> (r: bool)
        requires
            old(self)@.has_room(*key, len, flags),
        ensures
            final(self)@ == old(self)@.after_packet(*key, len, ts_ns, flags),
            r == old(self)@.drops(*key),
    {
        self.process_packet(key, len, ts_ns, flags)
    }
}

impl Default for MockDataPlane {
    fn default() -> (r: Self)
        ensures
            r@ == PlaneModel::empty(),
    {
        MockDataPlane::new()
    }
}

/// Every packet is counted exactly once, as passed or as dropped, and the drop
/// counter moves one to one with the block hits.
pub proof fn law_packets_counted_once(
    p: PlaneModel,
    key: FlowKey,
    len: u32,
    ts_ns: u64,
    flags: u8,
)
    requires
        p.has_room(key, len, flags),
    ensures
        ({
            let q = p.after_packet(key, len, ts_ns, flags);
            &&& q.counters.pass + q.counters.drop == p.counters.pass + p.counters.drop + 1
            &&& q.counters.drop - p.counters.drop == q.counters.block_hits - p.counters.block_hits
            &&& (q.counters.drop > p.counters.drop <==> p.blocked(key))
        }),
{
}

/// Sum of the packets of the flows in `order`.
pub open spec fn total_packets(order: Seq<FlowKey>, flows: Map<FlowKey, FlowMetrics>) -> nat
    decreases order.len(),
{
    if order.len() == 0 {
        0
    } else {
        total_packets(order.drop_last(), flows) + flows[order.last()].packets as nat
    }
}

/// What holds of the metrics of every flow: there was a packet, the two byte
/// totals agree, no flag was counted more often than there were packets, and
/// flags are counted for TCP only.
pub open spec fn sound(key: FlowKey, m: FlowMetrics) -> bool {
    &&& m.packets >= 1
    &&& m.bytes == m.sum_pkt_len
    &&& m.proto == key.proto
    &&& m.syn_count <= m.packets
    &&& m.fin_count <= m.packets
    &&& m.rst_count <= m.packets
    &&& key.proto != PROTO_TCP ==> m.syn_count == 0 && m.fin_count == 0 && m.rst_count == 0
        && m.tcp_flags_or == 0
}

/// Something that happens to a plane.
pub enum PlaneStep {
    Packet { key: FlowKey, len: u32, ts_ns: u64, flags: u8 },
    BlockFlow(FlowKey),
    UnblockFlow(FlowKey),
    BlockIp(IpKey),
    UnblockIp(IpKey),
    Control(bool),
}

impl PlaneModel {
    /// The counters agree with each other and with the flows.
    pub open spec fn consistent(self) -> bool {
        &&& self.order.no_duplicates()
        &&& forall|k: FlowKey| #[trigger] self.flows.contains_key(k) <==> self.order.contains(k)
        &&& self.counters.drop == self.counters.block_hits
        &&& total_packets(self.order, self.flows) == self.counters.pass
        &&& forall|k: FlowKey| #[trigger] self.flows.contains_key(k) ==> sound(k, self.flows[k])
    }

    /// Whether a step keeps the counters within range.
    pub open spec fn admits(self, step: PlaneStep) -> bool {
        match step {
            PlaneStep::Packet { key, len, ts_ns: _, flags } => self.has_room(key, len, flags),
            _ => true,
        }
    }

    /// The plane after a step.
    pub open spec fn after_step(self, step: PlaneStep) -> PlaneModel {
        match step {
            PlaneStep::Packet { key, len, ts_ns, flags } => self.after_packet(
                key,
                len,
                ts_ns,
                flags,
            ),
            PlaneStep::BlockFlow(k) => PlaneModel { blocklist: self.blocklist.insert(k), ..self },
            PlaneStep::UnblockFlow(k) => PlaneModel { blocklist: self.blocklist.remove(k), ..self },
            PlaneStep::BlockIp(i) => PlaneModel {
                blocklist_ip: self.blocklist_ip.insert(i),
                ..self
            },
            PlaneStep::UnblockIp(i) => PlaneModel {
                blocklist_ip: self.blocklist_ip.remove(i),
                ..self
            },
            PlaneStep::Control(enforce) => PlaneModel { enforce, ..self },
        }
    }
}

/// A new plane after a sequence of steps.
pub open spec fn after_steps(steps: Seq<PlaneStep>) -> PlaneModel
    decreases steps.len(),
{
    if steps.len() == 0 {
        PlaneModel::empty()
    } else {
        after_steps(steps.drop_last()).after_step(steps.last())
    }
}

/// Whether a sequence of steps on a new plane keeps the counters within range.
pub open spec fn all_admitted(steps: Seq<PlaneStep>) -> bool
    decreases steps.len(),
{
    steps.len() == 0 || (all_admitted(steps.drop_last()) && after_steps(steps.drop_last()).admits(
        steps.last(),
    ))
}

proof fn lemma_total_of_others(
    order: Seq<FlowKey>,
    flows: Map<FlowKey, FlowMetrics>,
    key: FlowKey,
    m: FlowMetrics,
)
    requires
        !order.contains(key),
    ensures
        total_packets(order, flows.insert(key, m)) == total_packets(order, flows),
    decreases order.len(),
{
    if order.len() > 0 {
        let rest = order.drop_last();
        assert(!rest.contains(key)) by {
            if rest.contains(key) {
                let i = choose|i: int| 0 <= i < rest.len() && rest[i] == key;
                assert(order[i] == key);
            }
        }
        assert(order.contains(order.last()));
        lemma_total_of_others(rest, flows, key, m);
    }
}

proof fn lemma_total_after_update(
    order: Seq<FlowKey>,
    flows: Map<FlowKey, FlowMetrics>,
    key: FlowKey,
    m: FlowMetrics,
)
    requires
        order.no_duplicates(),
        order.contains(key),
    ensures
        total_packets(order, flows.insert(key, m)) == total_packets(order, flows) + m.packets
            - flows[key].packets,
    decreases order.len(),
{
    let rest = order.drop_last();
    if order.last() == key {
        assert(!rest.contains(key)) by {
            if rest.contains(key) {
                let i = choose|i: int| 0 <= i < rest.len() && rest[i] == key;
                assert(order[i] == order[order.len() - 1]);
            }
        }
        lemma_total_of_others(rest, flows, key, m);
    } else {
        let i = choose|i: int| 0 <= i < order.len() && order[i] == key;
        assert(rest[i] == key);
        lemma_total_after_update(rest, flows, key, m);
    }
}

/// Whatever happens to a consistent plane keeps it consistent.
pub proof fn law_step_keeps_plane_consistent(p: PlaneModel, step: PlaneStep)
    requires
        p.consistent(),
        p.admits(step),
    ensures
        p.after_step(step).consistent(),
{
    if let PlaneStep::Packet { key, len, ts_ns, flags } = step {
        if !p.blocked(key) {
            let q = p.after_step(step);
            let m = counted(p.metrics(key, ts_ns), key, len, ts_ns, flags);
            if p.flows.contains_key(key) {
                assert(sound(key, p.flows[key]));
                lemma_total_after_update(p.order, p.flows, key, m);
            } else {
                assert(!p.order.contains(key));
                lemma_total_of_others(p.order, p.flows, key, m);
                assert(q.order.drop_last() =~= p.order);
                assert forall|k: FlowKey| q.order.contains(k) <==> p.order.contains(k) || k
                    == key by {
                    if p.order.contains(k) {
                        let i = choose|i: int| 0 <= i < p.order.len() && p.order[i] == k;
                        assert(q.order[i] == k);
                    }
                    assert(q.order[p.order.len() as int] == key);
                }
            }
            assert(sound(key, m));
        }
    }
}

/// Every plane that packets, blocklist updates and mode changes can lead to is
/// consistent: drops equal block hits, the packets of all flows add up to the
/// passed packets, and the metrics of each flow are sound.
pub proof fn law_every_plane_is_consistent(steps: Seq<PlaneStep>)
    requires
        all_admitted(steps),
    ensures
        after_steps(steps).consistent(),
    decreases steps.len(),
{
    if steps.len() > 0 {
        law_every_plane_is_consistent(steps.drop_last());
        law_step_keeps_plane_consistent(after_steps(steps.drop_last()), steps.last());
    }
}

/// While monitoring nothing is ever dropped, and a packet never changes a
/// blocklist or the mode.
pub proof fn law_monitoring_never_drops(
    p: PlaneModel,
    key: FlowKey,
    len: u32,
    ts_ns: u64,
    flags: u8,
)
    ensures
        !p.enforce ==> !p.drops(key),
        ({
            let q = p.after_packet(key, len, ts_ns, flags);
            q.blocklist == p.blocklist && q.blocklist_ip == p.blocklist_ip && q.enforce
                == p.enforce
        }),
{
}

/// Once a flow or its source is on a blocklist, an enforcing plane drops its
/// packets and no longer updates its metrics.
pub proof fn law_blocked_flow_is_dropped(
    p: PlaneModel,
    key: FlowKey,
    len: u32,
    ts_ns: u64,
    flags: u8,
)
    requires
        p.enforce,
        p.blocklist.contains(key) || p.blocklist_ip.contains(IpKey::of(key.spec_src())),
    ensures
        p.drops(key),
        p.after_packet(key, len, ts_ns, flags).flows == p.flows,
{
}

/// Taking a flow off the blocklist lets it through again, unless its source is
/// blocked; other flows are not affected.
pub proof fn law_unblocked_flow_passes(p: PlaneModel, key: FlowKey, other: FlowKey)
    ensures
        ({
            let q = PlaneModel { blocklist: p.blocklist.remove(key), ..p };
            &&& q.blocked(key) <==> p.blocklist_ip.contains(IpKey::of(key.spec_src()))
            &&& other != key ==> q.blocked(other) == p.blocked(other)
        }),
{
}

/// Blocking a source blocks every flow that carries the source's address words,
/// whatever its ports and protocol, and no other flow.
pub proof fn law_blocked_source_blocks_its_flows(p: PlaneModel, key: FlowKey, ip: IpKey)
    ensures
        ({
            let q = PlaneModel { blocklist_ip: p.blocklist_ip.insert(ip), ..p };
            q.blocked(key) <==> p.blocked(key) || key.saddr == ip.addr
        }),
{
    crate::protocol::law_source_key_holds_source_words(key);
    let src = IpKey::of(key.spec_src());
    assert(src == ip <==> src.addr == ip.addr);
}

/// A packet that passes is added to its own flow, and to no other: one packet
/// and its bytes, seen now, with the packet sizes widened to hold it. TCP flags
/// are collected, and a SYN without ACK, a FIN and an RST each move their own
/// count by one; other protocols have no flags.
pub proof fn law_passing_packet_is_added_to_its_flow(
    p: PlaneModel,
    key: FlowKey,
    len: u32,
    ts_ns: u64,
    flags: u8,
    other: FlowKey,
)
    requires
        p.has_room(key, len, flags),
        !p.blocked(key),
        p.flows.contains_key(key),
    ensures
        ({
            let q = p.after_packet(key, len, ts_ns, flags);
            let (a, b) = (p.flows[key], q.flows[key]);
            &&& q.order == p.order
            &&& q.flows.dom() == p.flows.dom()
            &&& other != key ==> q.flows[other] == p.flows[other]
            &&& q.counters == (CounterVec { pass: q.counters.pass, ..p.counters })
            &&& b.packets == a.packets + 1
            &&& b.bytes == a.bytes + len
            &&& b.sum_pkt_len == a.sum_pkt_len + len
            &&& b.first_seen_ns == a.first_seen_ns
            &&& b.last_seen_ns == ts_ns
            &&& b.max_pkt_len >= len && b.max_pkt_len >= a.max_pkt_len && (b.max_pkt_len == len
                || b.max_pkt_len == a.max_pkt_len)
            &&& b.min_pkt_len <= len && (a.min_pkt_len > 0 ==> b.min_pkt_len <= a.min_pkt_len) && (
            b.min_pkt_len == len || a.min_pkt_len > 0 && b.min_pkt_len == a.min_pkt_len)
            &&& key.proto == 6 ==> {
                &&& b.syn_count == a.syn_count + if flags & 0x02 != 0 && flags & 0x10 == 0 {
                    1int
                } else {
                    0
                }
                &&& b.fin_count == a.fin_count + if flags & 0x01 != 0 {
                    1int
                } else {
                    0
                }
                &&& b.rst_count == a.rst_count + if flags & 0x04 != 0 {
                    1int
                } else {
                    0
                }
                &&& b.tcp_flags_or == a.tcp_flags_or | (flags as u16)
            }
            &&& key.proto != 6 ==> b.syn_count == a.syn_count && b.fin_count == a.fin_count
                && b.rst_count == a.rst_count && b.tcp_flags_or == a.tcp_flags_or
            &&& b.l7_app == a.l7_app && b.l7_info == a.l7_info && b.proto == a.proto && b.emitted
                == a.emitted
        }),
{
    assert(p.after_packet(key, len, ts_ns, flags).flows.dom() =~= p.flows.dom());
}

/// The first packet of a flow that passes opens the flow at the end of the
/// order, with nothing but that packet in its metrics.
pub proof fn law_first_packet_opens_a_flow(
    p: PlaneModel,
    key: FlowKey,
    len: u32,
    ts_ns: u64,
    flags: u8,
    other: FlowKey,
)
    requires
        p.has_room(key, len, flags),
        !p.blocked(key),
        !p.flows.contains_key(key),
    ensures
        ({
            let q = p.after_packet(key, len, ts_ns, flags);
            let b = q.flows[key];
            &&& q.order == p.order.push(key)
            &&& q.flows.contains_key(key)
            &&& other != key ==> (q.flows.contains_key(other) <==> p.flows.contains_key(other))
                && q.flows[other] == p.flows[other]
            &&& b.packets == 1 && b.bytes == len && b.sum_pkt_len == len
            &&& b.first_seen_ns == ts_ns && b.last_seen_ns == ts_ns
            &&& b.max_pkt_len == len && b.min_pkt_len == len
            &&& b.proto == key.proto
            &&& b.syn_count == if key.proto == 6 && flags & 0x02 != 0 && flags & 0x10 == 0 {
                1int
            } else {
                0
            }
            &&& b.fin_count == if key.proto == 6 && flags & 0x01 != 0 {
                1int
            } else {
                0
            }
            &&& b.rst_count == if key.proto == 6 && flags & 0x04 != 0 {
                1int
            } else {
                0
            }
            &&& b.l7_app == 0 && b.l7_info == 0
        }),
{
}

/// A packet of a blocked flow leaves a trace in two counters and nowhere else,
/// whether or not the plane enforces.
pub proof fn law_blocked_packet_only_counts(
    p: PlaneModel,
    key: FlowKey,
    len: u32,
    ts_ns: u64,
    flags: u8,
)
    requires
        p.has_room(key, len, flags),
        p.blocklist.contains(key) || p.blocklist_ip.contains(IpKey::of(key.spec_src())),
    ensures
        ({
            let q = p.after_packet(key, len, ts_ns, flags);
            &&& q.flows == p.flows && q.order == p.order
            &&& q.counters.drop == p.counters.drop + 1
            &&& q.counters.block_hits == p.counters.block_hits + 1
            &&& q.counters.pass == p.counters.pass && q.counters.new_flows == p.counters.new_flows
                && q.counters.malformed == p.counters.malformed && q.counters.events_lost
                == p.counters.events_lost
            &&& p.drops(key) <==> p.enforce
        }),
{
}

/// A new plane has seen nothing and stands in nobody's way: it blocks no flow,
/// drops no packet, and every counter starts at zero.
pub proof fn law_new_plane_lets_everything_pass(key: FlowKey)
    ensures
        ({
            let p = PlaneModel::empty();
            &&& !p.blocked(key) && !p.drops(key) && !p.enforce
            &&& !p.flows.contains_key(key) && p.order.len() == 0
            &&& p.counters.pass == 0 && p.counters.drop == 0 && p.counters.block_hits == 0
            &&& p.counters.new_flows == 0 && p.counters.malformed == 0 && p.counters.events_lost
                == 0
        }),
{
}

} // verus!
