//! Synthetic traffic generator for runs without kernel access.
//!
//! Produces the packets that the data plane takes in, and a new-flow event for
//! each flow it has not produced before.

use vstd::prelude::*;

use crate::addr::IpAddr;
use crate::keyed::KeySet;
use crate::protocol;
use crate::protocol::{EventKind, FlowKey, IpKey, KernelEvent, L7App};

verus! {

/// Length of a run.
pub const RUN_NS: u64 = 90_000_000_000;

/// Packets are produced in steps of a tenth of a second.
pub const STEPS_PER_SECOND: u64 = 10;

#[derive(Clone, Copy, Debug, PartialEq, Eq, Structural)]
pub enum PortMode {
    Fixed,
    /// Step the destination port across a range (port-scan patterns).
    StepDstPort { from: u16, to: u16 },
}

/// One flow of a scenario.
#[derive(Clone, Copy, Debug)]
pub struct FlowSpec {
    pub name: &'static str,
    pub src: IpAddr,
    pub dst: IpAddr,
    pub sport: u16,
    pub dport: u16,
    pub proto: u8,
    /// TCP flags applied to every packet of the flow (0 for UDP/ICMP).
    pub flags: u8,
    pub l7: L7App,
    pub l7_info: u16,
    /// Packets per second.
    pub pps: u32,
    pub start_s: u32,
    pub duration_s: u32,
    pub pkt_len: u32,
    pub port_mode: PortMode,
}

/// The contents of a [`FlowSpec`].
#[verifier::ext_equal]
pub struct FlowPlan {
    pub name: Seq<char>,
    pub src: IpAddr,
    pub dst: IpAddr,
    pub sport: u16,
    pub dport: u16,
    pub proto: u8,
    pub flags: u8,
    pub l7: L7App,
    pub l7_info: u16,
    pub pps: u32,
    pub start_s: u32,
    pub duration_s: u32,
    pub pkt_len: u32,
    pub port_mode: PortMode,
}

impl View for FlowSpec {
    type V = FlowPlan;

    open spec fn view(&self) -> FlowPlan {
        FlowPlan {
            name: self.name@,
            src: self.src,
            dst: self.dst,
            sport: self.sport,
            dport: self.dport,
            proto: self.proto,
            flags: self.flags,
            l7: self.l7,
            l7_info: self.l7_info,
            pps: self.pps,
            start_s: self.start_s,
            duration_s: self.duration_s,
            pkt_len: self.pkt_len,
            port_mode: self.port_mode,
        }
    }
}

fn ipv4(a: u8, b: u8, c: u8, d: u8) -> (r: IpAddr)
    ensures
        r == IpAddr::V4([a, b, c, d]),
{
    IpAddr::V4([a, b, c, d])
}

/// The canonical scenarios: benign traffic, a port scanner, a SYN flood, DNS
/// tunneling, volumetric exfiltration and an internal lateral move.
pub open spec fn canonical() -> Seq<FlowPlan> {
    seq![
        FlowPlan {
            name: "benign-web"@,
            src: IpAddr::V4([10, 0, 0, 11]),
            dst: IpAddr::V4([198, 51, 100, 20]),
            sport: 50000,
            dport: 443,
            proto: 6,
            flags: 0x12,
            l7: L7App::Tls,
            l7_info: 0x0303,
            pps: 8,
            start_s: 0,
            duration_s: 90,
            pkt_len: 1400,
            port_mode: PortMode::Fixed,
        },
        FlowPlan {
            name: "benign-dns"@,
            src: IpAddr::V4([10, 0, 0, 11]),
            dst: IpAddr::V4([198, 51, 100, 53]),
            sport: 5353,
            dport: 53,
            proto: 17,
            flags: 0,
            l7: L7App::Dns,
            l7_info: 14,
            pps: 2,
            start_s: 0,
            duration_s: 90,
            pkt_len: 512,
            port_mode: PortMode::Fixed,
        },
        FlowPlan {
            name: "attacker-portscan"@,
            src: IpAddr::V4([198, 51, 100, 10]),
            dst: IpAddr::V4([10, 0, 0, 5]),
            sport: 44444,
            dport: 1,
            proto: 6,
            flags: 0x02,
            l7: L7App::UnknownTcp,
            l7_info: 0,
            pps: 5,
            start_s: 2,
            duration_s: 8,
            pkt_len: 60,
            port_mode: PortMode::StepDstPort { from: 1, to: 1000 },
        },
        FlowPlan {
            name: "attacker-synflood"@,
            src: IpAddr::V4([198, 51, 100, 11]),
            dst: IpAddr::V4([10, 0, 0, 5]),
            sport: 33333,
            dport: 443,
            proto: 6,
            flags: 0x02,
            l7: L7App::UnknownTcp,
            l7_info: 0,
            pps: 120,
            start_s: 3,
            duration_s: 15,
            pkt_len: 60,
            port_mode: PortMode::Fixed,
        },
        FlowPlan {
            name: "attacker-dnstunnel"@,
            src: IpAddr::V4([203, 0, 113, 7]),
            dst: IpAddr::V4([10, 0, 0, 53]),
            sport: 40000,
            dport: 53,
            proto: 17,
            flags: 0,
            l7: L7App::Dns,
            l7_info: 58,
            pps: 40,
            start_s: 5,
            duration_s: 30,
            pkt_len: 900,
            port_mode: PortMode::Fixed,
        },
        FlowPlan {
            name: "attacker-exfil"@,
            src: IpAddr::V4([10, 0, 0, 12]),
            dst: IpAddr::V4([203, 0, 113, 99]),
            sport: 60000,
            dport: 5555,
            proto: 17,
            flags: 0,
            l7: L7App::UnknownUdp,
            l7_info: 0,
            pps: 1500,
            start_s: 8,
            duration_s: 12,
            pkt_len: 1500,
            port_mode: PortMode::Fixed,
        },
        FlowPlan {
            name: "attacker-lateral"@,
            src: IpAddr::V4([10, 0, 0, 5]),
            dst: IpAddr::V4([10, 0, 0, 20]),
            sport: 51234,
            dport: 22,
            proto: 6,
            flags: 0x02,
            l7: L7App::UnknownTcp,
            l7_info: 0,
            pps: 1,
            start_s: 12,
            duration_s: 30,
            pkt_len: 60,
            port_mode: PortMode::Fixed,
        },
    ]
}

/// The plans of a list of flow specs.
pub open spec fn plans(specs: Seq<FlowSpec>) -> Seq<FlowPlan> {
    specs.map_values(|s: FlowSpec| s@)
}

/// The canonical scenarios.
pub fn scenarios() -> (r: Vec<FlowSpec>)
    ensures
        plans(r@) == canonical(),
        forall|i: int| 0 <= i < r@.len() ==> (#[trigger] plans(r@)[i]).valid(),
{
    let r: Vec<FlowSpec> = vec![
        FlowSpec {
            name: "benign-web",
            src: ipv4(10, 0, 0, 11),
            dst: ipv4(198, 51, 100, 20),
            sport: 50000,
            dport: 443,
            proto: 6,
            flags: 0x12,
            l7: L7App::Tls,
            l7_info: 0x0303,
            pps: 8,
            start_s: 0,
            duration_s: 90,
            pkt_len: 1400,
            port_mode: PortMode::Fixed,
        },
        FlowSpec {
            name: "benign-dns",
            src: ipv4(10, 0, 0, 11),
            dst: ipv4(198, 51, 100, 53),
            sport: 5353,
            dport: 53,
            proto: 17,
            flags: 0,
            l7: L7App::Dns,
            l7_info: 14,
            pps: 2,
            start_s: 0,
            duration_s: 90,
            pkt_len: 512,
            port_mode: PortMode::Fixed,
        },
        FlowSpec {
            name: "attacker-portscan",
            src: ipv4(198, 51, 100, 10),
            dst: ipv4(10, 0, 0, 5),
            sport: 44444,
            dport: 1,
            proto: 6,
            flags: 0x02,
            l7: L7App::UnknownTcp,
            l7_info: 0,
            pps: 5,
            start_s: 2,
            duration_s: 8,
            pkt_len: 60,
            port_mode: PortMode::StepDstPort { from: 1, to: 1000 },
        },
        FlowSpec {
            name: "attacker-synflood",
            src: ipv4(198, 51, 100, 11),
            dst: ipv4(10, 0, 0, 5),
            sport: 33333,
            dport: 443,
            proto: 6,
            flags: 0x02,
            l7: L7App::UnknownTcp,
            l7_info: 0,
            pps: 120,
            start_s: 3,
            duration_s: 15,
            pkt_len: 60,
            port_mode: PortMode::Fixed,
        },
        FlowSpec {
            name: "attacker-dnstunnel",
            src: ipv4(203, 0, 113, 7),
            dst: ipv4(10, 0, 0, 53),
            sport: 40000,
            dport: 53,
            proto: 17,
            flags: 0,
            l7: L7App::Dns,
            l7_info: 58,
            pps: 40,
            start_s: 5,
            duration_s: 30,
            pkt_len: 900,
            port_mode: PortMode::Fixed,
        },
        FlowSpec {
            name: "attacker-exfil",
            src: ipv4(10, 0, 0, 12),
            dst: ipv4(203, 0, 113, 99),
            sport: 60000,
            dport: 5555,
            proto: 17,
            flags: 0,
            l7: L7App::UnknownUdp,
            l7_info: 0,
            pps: 1500,
            start_s: 8,
            duration_s: 12,
            pkt_len: 1500,
            port_mode: PortMode::Fixed,
        },
        FlowSpec {
            name: "attacker-lateral",
            src: ipv4(10, 0, 0, 5),
            dst: ipv4(10, 0, 0, 20),
            sport: 51234,
            dport: 22,
            proto: 6,
            flags: 0x02,
            l7: L7App::UnknownTcp,
            l7_info: 0,
            pps: 1,
            start_s: 12,
            duration_s: 30,
            pkt_len: 60,
            port_mode: PortMode::Fixed,
        },
    ];
    assert(plans(r@) =~= canonical());
    r
}

/// One packet of the simulation, with the event for the controller if it opens
/// a flow that was not produced before.
#[derive(Clone, Copy, Debug)]
pub struct SimPacket {
    pub key: FlowKey,
    pub len: u32,
    pub ts_ns: u64,
    pub flags: u8,
    pub event: Option<KernelEvent>,
}

impl FlowPlan {
    /// A stepped port range must not be empty.
    pub open spec fn valid(self) -> bool {
        match self.port_mode {
            PortMode::Fixed => true,
            PortMode::StepDstPort { from, to } => from < to,
        }
    }

    /// Whether the flow runs at `now_ns` after the start.
    pub open spec fn active(self, now_ns: u64) -> bool {
        self.start_s * 1_000_000_000 <= now_ns <= (self.start_s + self.duration_s) * 1_000_000_000
    }

    /// Destination port of the flow's packet number `step` (modulo 65,536).
    pub open spec fn port(self, step: u16) -> u16 {
        match self.port_mode {
            PortMode::Fixed => self.dport,
            PortMode::StepDstPort { from, to } => (from + step as int % (to - from)) as u16,
        }
    }

    /// Step count after one more packet.
    pub open spec fn next_step(self, step: u16) -> u16 {
        match self.port_mode {
            PortMode::Fixed => step,
            PortMode::StepDstPort { from: _, to: _ } => ((step + 1) % 0x10000) as u16,
        }
    }

    /// The flow key of packet number `step`; only IPv4 pairs carry addresses.
    pub open spec fn key(self, step: u16) -> FlowKey {
        let both_v4 = self.src is V4 && self.dst is V4;
        FlowKey {
            saddr: if both_v4 {
                IpKey::of(self.src).addr
            } else {
                [0, 0, 0, 0]
            },
            daddr: if both_v4 {
                IpKey::of(self.dst).addr
            } else {
                [0, 0, 0, 0]
            },
            sport: self.sport,
            dport: self.port(step),
            proto: self.proto,
            dir: 0,
        }
    }

    /// The new-flow event for a packet of the flow.
    pub open spec fn opening_event(self, key: FlowKey, ts_ns: u64) -> KernelEvent {
        KernelEvent {
            kind: EventKind::NewFlow.spec_code(),
            ts_ns: protocol::low_word(ts_ns),
            len: self.pkt_len,
            cpu: 0,
            key,
            l7_app: self.l7.spec_code() as u16,
            l7_info: self.l7_info,
        }
    }

    /// Packet number `step` of the flow.
    pub open spec fn packet(self, step: u16, ts_ns: u64, seen: Set<FlowKey>) -> SimPacket {
        let key = self.key(step);
        SimPacket {
            key,
            len: self.pkt_len,
            ts_ns,
            flags: self.flags,
            event: if seen.contains(key) {
                None
            } else {
                Some(self.opening_event(key, ts_ns))
            },
        }
    }
}

/// The flow key of a flow's next packet; a stepped flow moves on by one step.
pub fn make_key(spec: &FlowSpec, next_port: &mut u16) -> (r: FlowKey)
    requires
        spec@.valid(),
    ensures
        r == spec@.key(*old(next_port)),
        *final(next_port) == spec@.next_step(*old(next_port)),
{
    let mut key: FlowKey = FlowKey::default();
    key.proto = spec.proto;
    let both_v4: bool = match (spec.src, spec.dst) {
        (IpAddr::V4(_), IpAddr::V4(_)) => true,
        _ => false,
    };
    if both_v4 {
        key.saddr = IpKey::from_ip(spec.src).addr;
        key.daddr = IpKey::from_ip(spec.dst).addr;
    }
    key.sport = spec.sport;
    key.dport = match spec.port_mode {
        PortMode::Fixed => spec.dport,
        PortMode::StepDstPort { from, to } => {
            let d: u16 = from + (*next_port % (to - from));
            *next_port = if *next_port == u16::MAX {
                0
            } else {
                *next_port + 1
            };
            d
        },
    };
    proof {
        if !both_v4 {
            assert(key.saddr =~= spec@.key(*old(next_port)).saddr);
            assert(key.daddr =~= spec@.key(*old(next_port)).daddr);
        }
    }
    key
}

/// Progress of the flows of a run.
#[verifier::ext_equal]
pub struct SimModel {
    /// Tenths of a packet owed by each flow.
    pub credit: Seq<u64>,
    /// Step count of each flow.
    pub step: Seq<u16>,
    /// Flows produced so far.
    pub seen: Set<FlowKey>,
}

/// The first `n` packets that a flow produces at `ts_ns`.
pub open spec fn burst(p: FlowPlan, n: nat, ts_ns: u64, step: u16, seen: Set<FlowKey>) -> Seq<
    SimPacket,
>
    decreases n,
{
    if n == 0 {
        Seq::empty()
    } else {
        let before = (n - 1) as nat;
        burst(p, before, ts_ns, step, seen).push(
            p.packet(step_after(p, before, step), ts_ns, seen_after(p, before, step, seen)),
        )
    }
}

/// Step count after `n` packets.
pub open spec fn step_after(p: FlowPlan, n: nat, step: u16) -> u16
    decreases n,
{
    if n == 0 {
        step
    } else {
        p.next_step(step_after(p, (n - 1) as nat, step))
    }
}

/// Flows produced after `n` packets.
pub open spec fn seen_after(p: FlowPlan, n: nat, step: u16, seen: Set<FlowKey>) -> Set<FlowKey>
    decreases n,
{
    if n == 0 {
        seen
    } else {
        let before = (n - 1) as nat;
        seen_after(p, before, step, seen).insert(p.key(step_after(p, before, step)))
    }
}

impl SimModel {
    /// Whole packets that flow `i` owes once a step's worth is added.
    pub open spec fn due(self, ps: Seq<FlowPlan>, i: int) -> nat {
        ((self.credit[i] + ps[i].pps) / STEPS_PER_SECOND as int) as nat
    }

    /// Progress after the first `i` flows took a step at `now_ns`.
    pub open spec fn after(self, ps: Seq<FlowPlan>, i: nat, now_ns: u64) -> SimModel
        decreases i,
    {
        if i == 0 {
            self
        } else {
            let j = i - 1;
            let m = self.after(ps, j as nat, now_ns);
            if ps[j].active(now_ns) {
                SimModel {
                    credit: m.credit.update(
                        j,
                        ((m.credit[j] + ps[j].pps) % STEPS_PER_SECOND as int) as u64,
                    ),
                    step: m.step.update(j, step_after(ps[j], m.due(ps, j), m.step[j])),
                    seen: seen_after(ps[j], m.due(ps, j), m.step[j], m.seen),
                }
            } else {
                m
            }
        }
    }

    /// Packets that the first `i` flows produce in a step at `now_ns`.
    pub open spec fn output(self, ps: Seq<FlowPlan>, i: nat, now_ns: u64, ts_ns: u64) -> Seq<
        SimPacket,
    >
        decreases i,
    {
        if i == 0 {
            Seq::empty()
        } else {
            let j = i - 1;
            let m = self.after(ps, j as nat, now_ns);
            let earlier = self.output(ps, j as nat, now_ns, ts_ns);
            if ps[j].active(now_ns) {
                earlier + burst(ps[j], m.due(ps, j), ts_ns, m.step[j], m.seen)
            } else {
                earlier
            }
        }
    }
}

/// A run of the traffic generator.
pub struct Simulator {
    specs: Vec<FlowSpec>,
    credit: Vec<u64>,
    step: Vec<u16>,
    seen: KeySet<FlowKey>,
    base_ns: u64,
}

impl View for Simulator {
    type V = SimModel;

    closed spec fn view(&self) -> SimModel {
        SimModel { credit: self.credit@, step: self.step@, seen: self.seen@ }
    }
}

impl Simulator {
    /// The flows of the run.
    pub closed spec fn plans(&self) -> Seq<FlowPlan> {
        plans(self.specs@)
    }

    /// Boot time at the start of the run.
    pub closed spec fn base(&self) -> u64 {
        self.base_ns
    }

    /// Every flow is valid and has its progress recorded.
    pub open spec fn valid(&self) -> bool {
        &&& self@.credit.len() == self.plans().len()
        &&& self@.step.len() == self.plans().len()
        &&& forall|i: int| 0 <= i < self.plans().len() ==> (#[trigger] self.plans()[i]).valid()
        &&& forall|i: int| 0 <= i < self@.credit.len() ==> #[trigger] self@.credit[i] < 10
    }

    /// A run of `specs` that starts at boot time `base_ns`.
    pub fn new(specs: Vec<FlowSpec>, base_ns: u64) -> (r: Self)
        requires
            forall|i: int| 0 <= i < specs@.len() ==> (#[trigger] plans(specs@)[i]).valid(),
        ensures
            r.valid(),
            r.plans() == plans(specs@),
            r.base() == base_ns,
            r@ == (SimModel {
                credit: Seq::new(specs@.len(), |i: int| 0u64),
                step: Seq::new(specs@.len(), |i: int| 0u16),
                seen: Set::empty(),
            }),
    {
        let n: usize = specs.len();
        let mut credit: Vec<u64> = Vec::new();
        let mut step: Vec<u16> = Vec::new();
        let mut i: usize = 0;
        while i < n
            invariant
                i <= n,
                credit@ =~= Seq::new(i as nat, |j: int| 0u64),
                step@ =~= Seq::new(i as nat, |j: int| 0u16),
            decreases n - i,
        {
            credit.push(0);
            step.push(0);
            i += 1;
        }
        Simulator { specs, credit, step, seen: KeySet::new(), base_ns }
    }

    /// Whether the run is over: it was stopped, or its time is up.
    pub fn finished(now_ns: u64, stopped: bool) -> (r: bool)
        ensures
            r == (stopped || now_ns > RUN_NS),
            r == (stopped || now_ns > 90_000_000_000),
    {
        stopped || now_ns > RUN_NS
    }

    /// The packets of one step, `now_ns` after the start. Each active flow earns
    /// a tenth of its packets per second and produces the whole packets it is
    /// owed.
    pub fn step(&mut self, now_ns: u64) -> (r: Vec<SimPacket>)
        requires
            old(self).valid(),
            old(self).base() + now_ns <= u64::MAX,
        ensures
            final(self).valid(),
            final(self).plans() == old(self).plans(),
            final(self).base() == old(self).base(),
            final(self)@ == old(self)@.after(
                old(self).plans(),
                old(self).plans().len(),
                now_ns,
            ),
            r@ == old(self)@.output(
                old(self).plans(),
                old(self).plans().len(),
                now_ns,
                (old(self).base() + now_ns) as u64,
            ),
    {
        let ghost start = self@;
        let ghost ps = self.plans();
        let ts_ns: u64 = self.base_ns + now_ns;
        let mut out: Vec<SimPacket> = Vec::new();
        let n: usize = self.specs.len();
        let mut i: usize = 0;
        while i < n
            invariant
                ps == self.plans(),
                self.specs == old(self).specs,
                self.base_ns == old(self).base_ns,
                n == self.specs@.len(),
                i <= n,
                self.valid(),
                self@ == start.after(ps, i as nat, now_ns),
                out@ == start.output(ps, i as nat, now_ns, ts_ns),
            decreases n - i,
        {
            let spec: FlowSpec = self.specs[i];
            let from: u64 = spec.start_s as u64 * 1_000_000_000;
            let until: u64 = (spec.start_s as u64 + spec.duration_s as u64) * 1_000_000_000;
            let ghost at = self@;
            let ghost so_far = out@;
            proof {
                assert(ps[i as int] == spec@);
            }
            if from <= now_ns && now_ns <= until {
                let owed: u64 = self.credit[i] + spec.pps as u64;
                let due: u64 = owed / STEPS_PER_SECOND;
                self.credit[i] = owed % STEPS_PER_SECOND;
                let mut step: u16 = self.step[i];
                let mut k: u64 = 0;
                let ghost credit = self.credit@;
                proof {
                    assert(so_far + Seq::<SimPacket>::empty() =~= so_far);
                }
                while k < due
                    invariant
                        k <= due,
                        spec@.valid(),
                        ps == self.plans(),
                        self.specs == old(self).specs,
                        self.base_ns == old(self).base_ns,
                        self.credit@ == credit,
                        self.step@ == at.step,
                        self.seen@ == seen_after(spec@, k as nat, at.step[i as int], at.seen),
                        step == step_after(spec@, k as nat, at.step[i as int]),
                        out@ == so_far + burst(
                            spec@,
                            k as nat,
                            ts_ns,
                            at.step[i as int],
                            at.seen,
                        ),
                    decreases due - k,
                {
                    let ghost seen_now = self.seen@;
                    let ghost step_now = step;
                    let key: FlowKey = make_key(&spec, &mut step);
                    let fresh: bool = self.seen.insert(key);
                    let event: Option<KernelEvent> = if fresh {
                        Some(
                            KernelEvent {
                                kind: EventKind::NewFlow.code(),
                                ts_ns: protocol::low_u32(ts_ns),
                                len: spec.pkt_len,
                                cpu: 0,
                                key,
                                l7_app: spec.l7.code() as u16,
                                l7_info: spec.l7_info,
                            },
                        )
                    } else {
                        None
                    };
                    let packet = SimPacket {
                        key,
                        len: spec.pkt_len,
                        ts_ns,
                        flags: spec.flags,
                        event,
                    };
                    out.push(packet);
                    proof {
                        assert(packet == spec@.packet(step_now, ts_ns, seen_now));
                        let b = burst(spec@, k as nat, ts_ns, at.step[i as int], at.seen);
                        assert(burst(spec@, (k + 1) as nat, ts_ns, at.step[i as int], at.seen)
                            == b.push(packet));
                        assert((so_far + b).push(packet) =~= so_far + b.push(packet));
                    }
                    k += 1;
                }
                self.step[i] = step;
                proof {
                    assert(due == at.due(ps, i as int));
                    let next = start.after(ps, (i + 1) as nat, now_ns);
                    assert(self@.credit =~= next.credit);
                    assert(self@.step =~= next.step);
                    assert(self@.seen =~= next.seen);
                }
            }
            i += 1;
        }
        out
    }
}

/// Each flow is announced to the controller exactly once: a packet carries the
/// new-flow event if and only if its flow was not produced before.
pub proof fn law_flow_announced_once(p: FlowPlan, step: u16, ts_ns: u64, seen: Set<FlowKey>)
    ensures
        ({
            let packet = p.packet(step, ts_ns, seen);
            &&& (packet.event is Some <==> !seen.contains(packet.key))
            &&& packet.event matches Some(ev) ==> ev.spec_kind() == EventKind::NewFlow && ev.key
                == packet.key
            &&& seen_after(p, 1, step, seen).contains(packet.key)
        }),
{
    reveal_with_fuel(seen_after, 2);
}

/// No fraction of a packet is lost: what an active flow is owed before a step,
/// with the step's tenth added, is what it produces and what it is owed after.
pub proof fn law_no_packet_is_lost(m: SimModel, ps: Seq<FlowPlan>, i: int, now_ns: u64)
    requires
        0 <= i < ps.len(),
        m.credit.len() == ps.len(),
        ps[i].active(now_ns),
    ensures
        ({
            let before = m.after(ps, i as nat, now_ns);
            let after = m.after(ps, (i + 1) as nat, now_ns);
            STEPS_PER_SECOND * before.due(ps, i) + after.credit[i] == before.credit[i] + ps[i].pps
        }),
{
    lemma_credit_len(m, ps, i as nat, now_ns);
}

proof fn lemma_credit_len(m: SimModel, ps: Seq<FlowPlan>, i: nat, now_ns: u64)
    requires
        i <= m.credit.len(),
    ensures
        m.after(ps, i, now_ns).credit.len() == m.credit.len(),
    decreases i,
{
    if i > 0 {
        lemma_credit_len(m, ps, (i - 1) as nat, now_ns);
    }
}

/// A stepped flow stays within its port range.
pub proof fn law_stepped_port_in_range(p: FlowPlan, step: u16)
    requires
        p.valid(),
    ensures
        p.port_mode matches PortMode::StepDstPort { from, to } ==> from <= p.port(step) < to,
{
    if let PortMode::StepDstPort { from, to } = p.port_mode {
        assert(0 <= step as int % (to - from) < to - from) by (nonlinear_arith)
            requires
                from < to,
        ;
    }
}

/// A stepped flow visits the ports of its range in ascending order, each exactly
/// once, and then starts over: packet number `i` of the flow goes to port
/// `from + i`, and the one after the last port to `from` again. Nothing but the
/// port changes from packet to packet.
pub proof fn law_stepped_flow_visits_each_port_in_order(
    p: FlowPlan,
    from: u16,
    to: u16,
    i: nat,
    n: nat,
    ts_ns: u64,
    seen: Set<FlowKey>,
)
    requires
        p.port_mode == (PortMode::StepDstPort { from, to }),
        from < to,
        i <= to - from,
        i < n,
    ensures
        step_after(p, i, 0) == i,
        p.key(step_after(p, i, 0)) == (FlowKey {
            dport: if i < to - from {
                (from + i) as u16
            } else {
                from
            },
            ..p.key(0)
        }),
        burst(p, n, ts_ns, 0, seen).len() == n,
        burst(p, n, ts_ns, 0, seen)[i as int].key == p.key(step_after(p, i, 0)),
{
    lemma_steps_counted(p, i);
    lemma_burst_key(p, n, ts_ns, 0, seen, i);
    let width = to - from;
    if i < width {
        assert(i as int % width == i) by (nonlinear_arith)
            requires
                0 <= i < width,
        ;
    } else {
        assert(i as int % width == 0) by (nonlinear_arith)
            requires
                i == width,
                width > 0,
        ;
    }
}

proof fn lemma_steps_counted(p: FlowPlan, n: nat)
    requires
        p.port_mode is StepDstPort,
        n < 0x10000,
    ensures
        step_after(p, n, 0) == n,
    decreases n,
{
    if n > 0 {
        lemma_steps_counted(p, (n - 1) as nat);
    }
}

proof fn lemma_burst_key(
    p: FlowPlan,
    n: nat,
    ts_ns: u64,
    step: u16,
    seen: Set<FlowKey>,
    i: nat,
)
    requires
        i < n,
    ensures
        burst(p, n, ts_ns, step, seen).len() == n,
        burst(p, n, ts_ns, step, seen)[i as int].key == p.key(step_after(p, i, step)),
    decreases n,
{
    if n > 1 {
        lemma_burst_key(p, (n - 1) as nat, ts_ns, step, seen, if i < n - 1 {
            i
        } else {
            0
        });
    } else {
        reveal_with_fuel(burst, 2);
    }
}

/// A packet is what its flow's plan says: between the plan's addresses, from its
/// port and over its protocol, with its length and flags, and stamped with the
/// time of the step. A fixed flow always goes to the plan's port. The event that
/// announces it says the same, with the application and the low 32 bits of the
/// time.
pub proof fn law_packet_follows_its_plan(p: FlowPlan, step: u16, ts_ns: u64, seen: Set<FlowKey>)
    requires
        p.src is V4,
        p.dst is V4,
        p.proto != 58,
    ensures
        ({
            let packet = p.packet(step, ts_ns, seen);
            let k = packet.key;
            &&& k.spec_src() == p.src
            &&& k.spec_dst() == p.dst
            &&& k.sport == p.sport
            &&& k.proto == p.proto
            &&& k.dir == 0
            &&& p.port_mode is Fixed ==> k.dport == p.dport
            &&& packet.len == p.pkt_len
            &&& packet.flags == p.flags
            &&& packet.ts_ns == ts_ns
            &&& packet.event matches Some(ev) ==> {
                &&& ev.kind == 1
                &&& ev.key == k
                &&& ev.len == p.pkt_len
                &&& ev.ts_ns == ts_ns % 0x1_0000_0000
                &&& ev.l7_app == p.l7.spec_code()
                &&& ev.l7_info == p.l7_info
                &&& ev.cpu == 0
            }
        }),
{
    protocol::law_ip_round_trip(p.src);
    protocol::law_ip_round_trip(p.dst);
}

/// A flow runs from its start for its duration, both ends taken in.
pub proof fn law_flow_runs_for_its_duration(p: FlowPlan, now_ns: u64, second: nat)
    requires
        now_ns == second * 1_000_000_000,
    ensures
        second < p.start_s ==> !p.active(now_ns),
        p.start_s <= second <= p.start_s + p.duration_s ==> p.active(now_ns),
        second > p.start_s + p.duration_s ==> !p.active(now_ns),
{
}

/// What a step does to flow `i`. A flow that does not run is owed what it was
/// owed and produces nothing. A running flow is owed a tenth of its packets per
/// second more, produces all the whole packets that it is owed, and is left with
/// less than one.
pub proof fn law_step_pays_a_tenth_of_a_second(
    m: SimModel,
    ps: Seq<FlowPlan>,
    i: int,
    now_ns: u64,
    ts_ns: u64,
)
    requires
        0 <= i < ps.len(),
        m.credit.len() == ps.len(),
        m.step.len() == ps.len(),
    ensures
        ({
            let before = m.after(ps, i as nat, now_ns);
            let after = m.after(ps, (i + 1) as nat, now_ns);
            let n = m.output(ps, (i + 1) as nat, now_ns, ts_ns).len() - m.output(
                ps,
                i as nat,
                now_ns,
                ts_ns,
            ).len();
            &&& !ps[i].active(now_ns) ==> n == 0 && after == before
            &&& ps[i].active(now_ns) ==> 10 * n + after.credit[i] == before.credit[i] + ps[i].pps
                && after.credit[i] < 10
            &&& forall|j: int|
                0 <= j < ps.len() && j != i ==> #[trigger] after.credit[j] == before.credit[j]
                    && after.step[j] == before.step[j]
            &&& before.seen.subset_of(after.seen)
        }),
{
    lemma_credit_len(m, ps, i as nat, now_ns);
    lemma_step_len(m, ps, i as nat, now_ns);
    let before = m.after(ps, i as nat, now_ns);
    if ps[i].active(now_ns) {
        let due = before.due(ps, i);
        lemma_burst_len(ps[i], due, ts_ns, before.step[i], before.seen);
        lemma_seen_grows(ps[i], due, before.step[i], before.seen);
    }
}

proof fn lemma_step_len(m: SimModel, ps: Seq<FlowPlan>, i: nat, now_ns: u64)
    requires
        i <= m.step.len(),
    ensures
        m.after(ps, i, now_ns).step.len() == m.step.len(),
    decreases i,
{
    if i > 0 {
        lemma_step_len(m, ps, (i - 1) as nat, now_ns);
    }
}

proof fn lemma_burst_len(p: FlowPlan, n: nat, ts_ns: u64, step: u16, seen: Set<FlowKey>)
    ensures
        burst(p, n, ts_ns, step, seen).len() == n,
    decreases n,
{
    if n > 0 {
        lemma_burst_len(p, (n - 1) as nat, ts_ns, step, seen);
    }
}

proof fn lemma_seen_grows(p: FlowPlan, n: nat, step: u16, seen: Set<FlowKey>)
    ensures
        seen.subset_of(seen_after(p, n, step, seen)),
    decreases n,
{
    if n > 0 {
        lemma_seen_grows(p, (n - 1) as nat, step, seen);
    }
}

/// Within a burst, too, each flow is announced once: a packet carries the event
/// exactly if its flow was not produced before the burst, nor by an earlier
/// packet of it. Afterwards the flows of the burst count as produced, and no
/// others do.
pub proof fn law_burst_announces_each_flow_once(
    p: FlowPlan,
    n: nat,
    ts_ns: u64,
    step: u16,
    seen: Set<FlowKey>,
    k: FlowKey,
)
    ensures
        burst(p, n, ts_ns, step, seen).len() == n,
        forall|i: int|
            0 <= i < n ==> ((#[trigger] burst(p, n, ts_ns, step, seen)[i]).event is Some <==>
            !seen.contains(burst(p, n, ts_ns, step, seen)[i].key) && forall|j: int|
                0 <= j < i ==> (#[trigger] burst(p, n, ts_ns, step, seen)[j]).key != burst(
                    p,
                    n,
                    ts_ns,
                    step,
                    seen,
                )[i].key),
        seen_after(p, n, step, seen).contains(k) <==> seen.contains(k) || exists|i: int|
            0 <= i < n && (#[trigger] burst(p, n, ts_ns, step, seen)[i]).key == k,
    decreases n,
{
    if n > 0 {
        let m = (n - 1) as nat;
        let all = burst(p, n, ts_ns, step, seen);
        let rest = burst(p, m, ts_ns, step, seen);
        law_burst_announces_each_flow_once(p, m, ts_ns, step, seen, k);
        law_burst_announces_each_flow_once(p, m, ts_ns, step, seen, all[m as int].key);
        assert forall|i: int| 0 <= i < m implies #[trigger] all[i] == rest[i] by {}
        assert forall|i: int| 0 <= i < n implies ((#[trigger] all[i]).event is Some
            <==> !seen.contains(all[i].key) && forall|j: int|
            0 <= j < i ==> (#[trigger] all[j]).key != all[i].key) by {
            if i < m {
                assert(all[i] == rest[i]);
                if forall|j: int| 0 <= j < i ==> (#[trigger] all[j]).key != all[i].key {
                    assert forall|j: int| 0 <= j < i implies (#[trigger] rest[j]).key
                        != rest[i].key by {
                        assert(all[j] == rest[j]);
                    }
                }
            } else {
                let x = all[i].key;
                if exists|j: int| 0 <= j < m && (#[trigger] rest[j]).key == x {
                    let j = choose|j: int| 0 <= j < m && (#[trigger] rest[j]).key == x;
                    assert(all[j].key == x);
                }
                if exists|j: int| 0 <= j < i && (#[trigger] all[j]).key == x {
                    let j = choose|j: int| 0 <= j < i && (#[trigger] all[j]).key == x;
                    assert(rest[j].key == x);
                }
            }
        }
        if exists|i: int| 0 <= i < m && (#[trigger] rest[i]).key == k {
            let i = choose|i: int| 0 <= i < m && (#[trigger] rest[i]).key == k;
            assert(all[i].key == k);
        }
        if exists|i: int| 0 <= i < n && (#[trigger] all[i]).key == k {
            let i = choose|i: int| 0 <= i < n && (#[trigger] all[i]).key == k;
            if i < m {
                assert(rest[i].key == k);
            }
        }
        assert(all[m as int].key == p.key(step_after(p, m, step)));
    }
}

/// The scenarios show what they are named for: each attack has the traits that
/// the signal for it looks for, in packets enough to be told, and the benign
/// flows have none of them. Every scenario ends within the run.
pub proof fn law_scenarios_show_their_attack()
    ensures
        ({
            let c = canonical();
            let (scan, flood, tunnel, exfil, lateral) = (c[2], c[3], c[4], c[5], c[6]);
            &&& scan.name == "attacker-portscan"@ && scan.pps * scan.duration_s >= 10
            &&& scan.port_mode matches PortMode::StepDstPort { from, to } && to - from >= 10
            &&& flood.name == "attacker-synflood"@ && flood.proto == 6 && flood.flags & 0x02 != 0
                && flood.flags & 0x10 == 0 && flood.pps > 40
            &&& tunnel.name == "attacker-dnstunnel"@ && tunnel.l7 == L7App::Dns && tunnel.l7_info
                > 40 && tunnel.pps * tunnel.duration_s > 50
            &&& exfil.name == "attacker-exfil"@ && exfil.pps * exfil.pkt_len > 250_000 && 1000
                <= exfil.dport < 32768 && exfil.proto == 17 && exfil.pps > 200
            &&& lateral.name == "attacker-lateral"@ && lateral.proto == 6 && lateral.flags & 0x12
                == 0x02 && lateral.dport == 22 && lateral.pps * lateral.duration_s > 5
                && crate::triage::context::private_ip(lateral.src)
                && crate::triage::context::private_ip(lateral.dst)
            &&& c[0].name == "benign-web"@ && c[0].flags & 0x10 != 0 && c[0].dport < 1000
                && c[0].pps <= 40
            &&& c[1].name == "benign-dns"@ && c[1].l7 == L7App::Dns && c[1].l7_info <= 30
                && c[1].pps <= 10 && c[1].dport < 1000
            &&& forall|i: int|
                0 <= i < c.len() ==> (#[trigger] c[i]).valid() && c[i].start_s + c[i].duration_s
                    <= 90
        }),
{
    assert(0x02u8 & 0x02 != 0 && 0x02u8 & 0x10 == 0 && 0x02u8 & 0x12 == 0x02 && 0x12u8 & 0x10 != 0)
        by (bit_vector);
}

/// Only a flow between two IPv4 addresses carries addresses; the key of any
/// other has none, but still its ports and its protocol.
pub proof fn law_only_v4_pairs_carry_addresses(p: FlowPlan, step: u16, i: int)
    requires
        p.src is V6 || p.dst is V6,
        0 <= i < 4,
    ensures
        p.key(step).saddr[i] == 0,
        p.key(step).daddr[i] == 0,
        p.key(step).sport == p.sport,
        p.key(step).proto == p.proto,
        p.port_mode is Fixed ==> p.key(step).dport == p.dport,
{
}

} // verus!
