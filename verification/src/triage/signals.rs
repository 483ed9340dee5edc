//! Signal engine: lightweight, explainable triage.
//!
//! Each signal independently evaluates a session against the triage context and
//! returns an optional piece of evidence. The controller aggregates them into a
//! single risk score and a human-readable rationale. Contributions are fixed
//! point numbers in units of [`UNIT`]; rates are compared and rounded exactly.

use vstd::prelude::*;

use crate::addr::{IpAddr, IpPair};
use crate::flow::{Session, SessionState};
use crate::protocol::{FlowKey, L7App, PROTO_TCP, PROTO_UDP};
use crate::text;
use crate::triage::context;
use crate::triage::context::{is_ephemeral, is_private, is_sensitive_service, TriageContext};

verus! {

/// Fixed-point one: scores, contributions and thresholds count in this unit.
pub const UNIT: u64 = 1_000_000_000_000_000_000;

/// Rates are taken over at least one millisecond.
pub const MIN_SPAN_NS: u64 = 1_000_000;

/// What a signal looks at.
#[derive(Debug, Clone, Copy, PartialEq, Eq, Structural)]
pub enum SignalKind {
    PortScan,
    SynFlood,
    DnsTunnel,
    DataExfil,
    LateralMovement,
    UnidirectionalUdp,
    RstFlood,
    SlowDrip,
    FirstContact,
}

/// A signal of the registry.
#[derive(Debug, Clone, Copy)]
pub struct Signal {
    pub id: &'static str,
    /// Weight in hundredths.
    pub weight: u8,
    pub kind: SignalKind,
}

/// What a signal found: how strongly it fired, and why.
#[derive(Debug, Clone)]
pub struct Evidence {
    /// Strength, in units of [`UNIT`].
    pub contribution: u128,
    pub evidence: String,
}

/// The contents of a piece of evidence.
pub struct Finding {
    pub contribution: nat,
    pub evidence: Seq<char>,
}

impl View for Evidence {
    type V = Finding;

    open spec fn view(&self) -> Finding {
        Finding { contribution: self.contribution as nat, evidence: self.evidence@ }
    }
}

/// The contents of optional evidence.
pub open spec fn found(e: Option<Evidence>) -> Option<Finding> {
    match e {
        Some(e) => Some(e@),
        None => None,
    }
}

impl Evidence {
    /// Evidence that contributes nothing is no evidence.
    pub fn new(contribution: u128, evidence: String) -> (r: Option<Self>)
        ensures
            found(r) == if contribution == 0 {
                None::<Finding>
            } else {
                Some(Finding { contribution: contribution as nat, evidence: evidence@ })
            },
    {
        if contribution == 0 {
            None
        } else {
            Some(Evidence { contribution, evidence })
        }
    }
}

/// The time from `from_ns` to `to_ns`, at least one millisecond.
pub open spec fn span(to_ns: u64, from_ns: u64) -> nat {
    let t = context::elapsed(to_ns, from_ns);
    if t < MIN_SPAN_NS {
        MIN_SPAN_NS as nat
    } else {
        t
    }
}

/// Whether `count` events within `span_ns` nanoseconds exceed `per_second`.
pub open spec fn faster_than(count: nat, span_ns: nat, per_second: nat) -> bool {
    count * 1_000_000_000 > per_second * span_ns
}

/// `count` events within `span_ns` nanoseconds, per second and rounded.
pub open spec fn per_second(count: nat, span_ns: nat) -> nat {
    text::round_half_even(count * 1_000_000_000, span_ns)
}

/// `num / den` in units of `UNIT`, at most one.
pub open spec fn capped_ratio(num: nat, den: nat) -> nat {
    if num >= den {
        UNIT as nat
    } else {
        num * UNIT as nat / den
    }
}

pub open spec fn larger(a: nat, b: nat) -> nat {
    if a > b {
        a
    } else {
        b
    }
}

/// At least ten distinct destination ports, or at least twenty distinct
/// destinations, from one source. Fifteen of either is full strength. The
/// evidence names the ports of the session's own destination.
pub open spec fn port_scan(s: Session, ctx: TriageContext) -> Option<Finding> {
    let src = s.key.spec_src();
    let dst = s.key.spec_dst();
    let ports = ctx.spec_source_ports(src).len();
    let here = ctx.spec_ports(IpPair { src, dst }).len();
    let ips = ctx.spec_destinations(src).len();
    if ports >= 10 || ips >= 20 {
        Some(
            Finding {
                contribution: capped_ratio(larger(ports, ips), 15),
                evidence: "port scan pattern: "@ + text::dec(here) + " distinct ports to "@
                    + dst.spec_text() + " and "@ + text::dec(ips)
                    + " distinct destinations from "@ + src.spec_text(),
            },
        )
    } else {
        None
    }
}

/// Whether a session ever carried an ACK.
pub open spec fn ack_seen(s: Session) -> bool {
    s.tcp_flags_or & 0x10 != 0
}

/// TCP with at least eight SYNs and no ACK, or more than forty SYNs a second.
pub open spec fn syn_flood(s: Session) -> Option<Finding> {
    let t = span(s.last_seen_ns, s.first_seen_ns);
    if s.proto != PROTO_TCP || s.syn_count == 0 {
        None
    } else if !ack_seen(s) && s.syn_count >= 8 {
        Some(
            Finding {
                contribution: UNIT as nat,
                evidence: "SYN flood: "@ + text::dec(s.syn_count as nat)
                    + " SYN packets without any ACK in session "@ + text::dec(s.key.dport as nat),
            },
        )
    } else if faster_than(s.syn_count as nat, t, 40) {
        Some(
            Finding {
                contribution: UNIT as nat,
                evidence: "SYN flood: "@ + text::dec(per_second(s.syn_count as nat, t))
                    + " SYNs/sec"@,
            },
        )
    } else {
        None
    }
}

/// Whether the destination of a session sends back to the session's source
/// port.
pub open spec fn answered(s: Session, ctx: TriageContext) -> bool {
    ctx.spec_ports(IpPair { src: s.key.spec_dst(), dst: s.key.spec_src() }).contains(s.key.sport)
}

/// UDP without response traffic, at more than two hundred packets a second and
/// with more than 100 kB moved. Two thousand packets a second is full strength.
pub open spec fn unidirectional_udp(s: Session, ctx: TriageContext, now_ns: u64) -> Option<
    Finding,
> {
    let t = span(now_ns, s.first_seen_ns);
    if s.proto == PROTO_UDP && !answered(s, ctx) && faster_than(s.packets as nat, t, 200) && s.bytes > 100_000 {
        Some(
            Finding {
                contribution: capped_ratio(s.packets as nat * 500_000, t),
                evidence: "unidirectional UDP burst: "@ + text::dec(
                    per_second(s.packets as nat, t),
                ) + " pps / "@ + text::dec(
                    text::round_half_even(s.bytes as nat * 1_000_000, t),
                ) + " KB/s from "@ + s.key.spec_src().spec_text() + ":"@ + text::dec(
                    s.key.sport as nat,
                ),
            },
        )
    } else {
        None
    }
}

/// DNS with query names over forty bytes and more than fifty packets, or over
/// thirty bytes at more than ten packets a second.
pub open spec fn dns_tunnel(s: Session, now_ns: u64) -> Option<Finding> {
    let t = span(now_ns, s.first_seen_ns);
    let pps = per_second(s.packets as nat, t);
    if s.l7_app != L7App::Dns.spec_code() {
        None
    } else if s.l7_info > 40 && s.packets > 50 {
        Some(
            Finding {
                contribution: UNIT as nat,
                evidence: "DNS tunneling: "@ + text::dec(pps) + " pps with query names ~"@
                    + text::dec(s.l7_info as nat) + " bytes long"@,
            },
        )
    } else if s.l7_info > 30 && faster_than(s.packets as nat, t, 10) {
        Some(
            Finding {
                contribution: UNIT as nat / 10 * 6,
                evidence: "high-rate DNS ("@ + text::dec(pps) + " pps) with long labels"@,
            },
        )
    } else {
        None
    }
}

/// A public source that is new in the window.
pub open spec fn first_contact(s: Session, ctx: TriageContext, now_ms: u64) -> Option<Finding> {
    let src = s.key.spec_src();
    if ctx.spec_is_new(src, now_ms) && !context::private_ip(src) {
        Some(
            Finding {
                contribution: UNIT as nat / 10 * 8,
                evidence: "first contact from unseen source "@ + src.spec_text() + " to "@
                    + s.key.spec_dst().spec_text() + ":"@ + text::dec(s.key.dport as nat),
            },
        )
    } else {
        None
    }
}

/// A registered, non-ephemeral port other than 443.
pub open spec fn unusual_port(port: u16) -> bool {
    1000 <= port < 32768 && port != 443
}

/// More than 250 kB a second to an unusual port, raw or encrypted. Two megabytes
/// a second is full strength.
pub open spec fn data_exfil(s: Session, now_ns: u64) -> Option<Finding> {
    let t = span(now_ns, s.first_seen_ns);
    let encrypted = s.l7_app == L7App::Tls.spec_code();
    if faster_than(s.bytes as nat, t, 250_000) && unusual_port(s.key.dport) {
        Some(
            Finding {
                contribution: capped_ratio(s.bytes as nat * 500, t),
                evidence: "possible data exfiltration: "@ + text::dec(
                    text::round_half_even(s.bytes as nat * 1_000_000, t),
                ) + " KB/s "@ + (if encrypted {
                    "encrypted"@
                } else {
                    "raw"@
                }) + " to "@ + s.key.spec_dst().spec_text() + ":"@ + text::dec(
                    s.key.dport as nat,
                ),
            },
        )
    } else {
        None
    }
}

/// TCP with more than ten RSTs that make up more than 35% of the packets; the
/// strength is the excess over 35% relative to 35%, so twice that share is full
/// strength.
pub open spec fn rst_flood(s: Session) -> Option<Finding> {
    if s.proto == PROTO_TCP && s.packets > 0 && s.rst_count * 100 > s.packets * 35 && s.rst_count
        > 10 {
        Some(
            Finding {
                contribution: capped_ratio(
                    (s.rst_count * 100 - s.packets * 35) as nat,
                    (s.packets * 35) as nat,
                ),
                evidence: "abnormal RST ratio "@ + text::dec(
                    text::round_half_even(s.rst_count as nat * 100, s.packets as nat),
                ) + "% ("@ + text::dec(s.rst_count as nat)
                    + " RSTs): torn-down / scanning session"@,
            },
        )
    } else {
        None
    }
}

/// TCP between two private hosts, to a sensitive service, with more than five
/// SYNs and no ACK.
pub open spec fn lateral_movement(s: Session) -> Option<Finding> {
    if s.proto == PROTO_TCP && context::private_ip(s.key.spec_src()) && context::private_ip(
        s.key.spec_dst(),
    ) && context::sensitive_service(s.key.dport) && s.syn_count > 5 && !ack_seen(s) {
        Some(
            Finding {
                contribution: UNIT as nat,
                evidence: "zero-trust violation: unexpected internal access "@
                    + s.key.spec_src().spec_text() + " -> "@ + s.key.spec_dst().spec_text() + ":"@
                    + text::dec(s.key.dport as nat) + " ("@ + text::dec(s.syn_count as nat)
                    + " SYN retries, no ACK)"@,
            },
        )
    } else {
        None
    }
}

/// UDP with more than five hundred packets over more than five seconds.
pub open spec fn slow_drip(s: Session) -> Option<Finding> {
    let t = context::elapsed(s.last_seen_ns, s.first_seen_ns);
    if s.proto == PROTO_UDP && s.packets > 500 && t > 5_000_000_000 {
        Some(
            Finding {
                contribution: UNIT as nat / 2,
                evidence: "slow drip volumetric UDP: "@ + text::dec(s.packets as nat)
                    + " packets over "@ + text::dec(t / 1_000_000_000) + "s"@,
            },
        )
    } else {
        None
    }
}

impl SignalKind {
    /// What the signal finds in a session. `now_ns` is boot time, `now_ms` the
    /// wall clock that the time windows of the context are measured on.
    pub open spec fn finding(
        self,
        s: Session,
        ctx: TriageContext,
        now_ns: u64,
        now_ms: u64,
    ) -> Option<Finding> {
        match self {
            SignalKind::PortScan => port_scan(s, ctx),
            SignalKind::SynFlood => syn_flood(s),
            SignalKind::DnsTunnel => dns_tunnel(s, now_ns),
            SignalKind::DataExfil => data_exfil(s, now_ns),
            SignalKind::LateralMovement => lateral_movement(s),
            SignalKind::UnidirectionalUdp => unidirectional_udp(s, ctx, now_ns),
            SignalKind::RstFlood => rst_flood(s),
            SignalKind::SlowDrip => slow_drip(s),
            SignalKind::FirstContact => first_contact(s, ctx, now_ms),
        }
    }

    /// Evaluates the signal on a session.
    pub fn eval(self, s: &Session, ctx: &TriageContext, now_ns: u64, now_ms: u64) -> (r: Option<
        Evidence,
    >)
        ensures
            found(r) == self.finding(*s, *ctx, now_ns, now_ms),
    {
        match self {
            SignalKind::PortScan => signal_port_scan(s, ctx),
            SignalKind::SynFlood => signal_syn_flood(s),
            SignalKind::DnsTunnel => signal_dns_tunnel(s, now_ns),
            SignalKind::DataExfil => signal_data_exfil(s, now_ns),
            SignalKind::LateralMovement => signal_lateral_movement(s),
            SignalKind::UnidirectionalUdp => signal_unidirectional_udp(s, ctx, now_ns),
            SignalKind::RstFlood => signal_rst_flood(s),
            SignalKind::SlowDrip => signal_slow_drip(s),
            SignalKind::FirstContact => signal_first_contact(s, ctx, now_ms),
        }
    }
}

fn span_ns(to_ns: u64, from_ns: u64) -> (r: u64)
    ensures
        r == span(to_ns, from_ns),
        r > 0,
{
    let t: u64 = to_ns.saturating_sub(from_ns);
    if t < MIN_SPAN_NS {
        MIN_SPAN_NS
    } else {
        t
    }
}

/// Packets per second over a session's life, rounded for display.
fn rate(count: u64, span_ns: u64) -> (r: u128)
    requires
        span_ns > 0,
    ensures
        r == per_second(count as nat, span_ns as nat),
{
    text::rounded(count as u128 * 1_000_000_000, span_ns as u128)
}

/// Kilobytes per second over a session's life, rounded for display.
fn byte_rate(bytes: u64, span_ns: u64) -> (r: u128)
    requires
        span_ns > 0,
    ensures
        r == text::round_half_even(bytes as nat * 1_000_000, span_ns as nat),
{
    text::rounded(bytes as u128 * 1_000_000, span_ns as u128)
}

fn exceeds(count: u64, span_ns: u64, limit: u64) -> (r: bool)
    ensures
        r == faster_than(count as nat, span_ns as nat, limit as nat),
{
    proof {
        assert(limit * span_ns <= u64::MAX * u64::MAX) by (nonlinear_arith)
            requires
                0 <= limit <= u64::MAX,
                0 <= span_ns <= u64::MAX,
        ;
        assert(0 <= limit * span_ns) by (nonlinear_arith);
    }
    count as u128 * 1_000_000_000 > limit as u128 * span_ns as u128
}

fn ratio_up_to_one(num: u128, den: u64) -> (r: u128)
    requires
        den > 0,
    ensures
        r == capped_ratio(num as nat, den as nat),
        num > 0 && num * UNIT >= den ==> r > 0,
{
    if num >= den as u128 {
        UNIT as u128
    } else {
        proof {
            assert(num * UNIT <= u64::MAX * UNIT) by (nonlinear_arith)
                requires
                    num < den,
                    den <= u64::MAX,
                    UNIT >= 0,
            ;
            assert(0 <= num * UNIT) by (nonlinear_arith);
            assert(num * UNIT >= den ==> num * UNIT / den as int > 0) by (nonlinear_arith)
                requires
                    den > 0,
            ;
        }
        num * UNIT as u128 / den as u128
    }
}

pub fn signal_port_scan(s: &Session, ctx: &TriageContext) -> (r: Option<Evidence>)
    ensures
        found(r) == port_scan(*s, *ctx),
{
    let src: IpAddr = s.key.src_ip();
    let dst: IpAddr = s.key.dst_ip();
    let ports: usize = ctx.distinct_ports_from(&src);
    let here: usize = ctx.distinct_ports_to(&src, &dst);
    let ips: usize = ctx.distinct_dst_ips(&src);
    if ports >= 10 || ips >= 20 {
        let most: usize = if ports > ips {
            ports
        } else {
            ips
        };
        let contribution: u128 = ratio_up_to_one(most as u128, 15);
        let mut t: String = String::new();
        t.append("port scan pattern: ");
        text::push_dec(&mut t, here as u128);
        t.append(" distinct ports to ");
        dst.push_text(&mut t);
        t.append(" and ");
        text::push_dec(&mut t, ips as u128);
        t.append(" distinct destinations from ");
        src.push_text(&mut t);
        assert(t@ =~= port_scan(*s, *ctx)->0.evidence);
        Evidence::new(contribution, t)
    } else {
        None
    }
}

pub fn signal_syn_flood(s: &Session) -> (r: Option<Evidence>)
    ensures
        found(r) == syn_flood(*s),
{
    if s.proto != PROTO_TCP || s.syn_count == 0 {
        return None;
    }
    let ack: bool = s.tcp_flags_or & 0x10 != 0;
    let t_ns: u64 = span_ns(s.last_seen_ns, s.first_seen_ns);
    if !ack && s.syn_count >= 8 {
        let mut t: String = String::new();
        t.append("SYN flood: ");
        text::push_dec(&mut t, s.syn_count as u128);
        t.append(" SYN packets without any ACK in session ");
        text::push_dec(&mut t, s.key.dport as u128);
        assert(t@ =~= syn_flood(*s)->0.evidence);
        Evidence::new(UNIT as u128, t)
    } else if exceeds(s.syn_count as u64, t_ns, 40) {
        let mut t: String = String::new();
        t.append("SYN flood: ");
        text::push_dec(&mut t, rate(s.syn_count as u64, t_ns));
        t.append(" SYNs/sec");
        assert(t@ =~= syn_flood(*s)->0.evidence);
        Evidence::new(UNIT as u128, t)
    } else {
        None
    }
}

pub fn signal_unidirectional_udp(s: &Session, ctx: &TriageContext, now_ns: u64) -> (r: Option<
    Evidence,
>)
    ensures
        found(r) == unidirectional_udp(*s, *ctx, now_ns),
{
    if s.proto != PROTO_UDP || ctx.reaches(&s.key.dst_ip(), &s.key.src_ip(), s.key.sport) {
        return None;
    }
    let t_ns: u64 = span_ns(now_ns, s.first_seen_ns);
    if exceeds(s.packets, t_ns, 200) && s.bytes > 100_000 {
        let contribution: u128 = ratio_up_to_one(s.packets as u128 * 500_000, t_ns);
        let mut t: String = String::new();
        t.append("unidirectional UDP burst: ");
        text::push_dec(&mut t, rate(s.packets, t_ns));
        t.append(" pps / ");
        text::push_dec(&mut t, byte_rate(s.bytes, t_ns));
        t.append(" KB/s from ");
        s.key.src_ip().push_text(&mut t);
        t.append(":");
        text::push_dec(&mut t, s.key.sport as u128);
        assert(t@ =~= unidirectional_udp(*s, *ctx, now_ns)->0.evidence);
        Evidence::new(contribution, t)
    } else {
        None
    }
}

pub fn signal_dns_tunnel(s: &Session, now_ns: u64) -> (r: Option<Evidence>)
    ensures
        found(r) == dns_tunnel(*s, now_ns),
{
    if s.l7_app != L7App::Dns.code() {
        return None;
    }
    let t_ns: u64 = span_ns(now_ns, s.first_seen_ns);
    if s.l7_info > 40 && s.packets > 50 {
        let mut t: String = String::new();
        t.append("DNS tunneling: ");
        text::push_dec(&mut t, rate(s.packets, t_ns));
        t.append(" pps with query names ~");
        text::push_dec(&mut t, s.l7_info as u128);
        t.append(" bytes long");
        assert(t@ =~= dns_tunnel(*s, now_ns)->0.evidence);
        Evidence::new(UNIT as u128, t)
    } else if s.l7_info > 30 && exceeds(s.packets, t_ns, 10) {
        let mut t: String = String::new();
        t.append("high-rate DNS (");
        text::push_dec(&mut t, rate(s.packets, t_ns));
        t.append(" pps) with long labels");
        assert(t@ =~= dns_tunnel(*s, now_ns)->0.evidence);
        Evidence::new(UNIT as u128 / 10 * 6, t)
    } else {
        None
    }
}

pub fn signal_first_contact(s: &Session, ctx: &TriageContext, now_ms: u64) -> (r: Option<Evidence>)
    ensures
        found(r) == first_contact(*s, *ctx, now_ms),
{
    let src: IpAddr = s.key.src_ip();
    if ctx.src_is_new(&src, now_ms) && !is_private(src) {
        let mut t: String = String::new();
        t.append("first contact from unseen source ");
        src.push_text(&mut t);
        t.append(" to ");
        s.key.dst_ip().push_text(&mut t);
        t.append(":");
        text::push_dec(&mut t, s.key.dport as u128);
        assert(t@ =~= first_contact(*s, *ctx, now_ms)->0.evidence);
        Evidence::new(UNIT as u128 / 10 * 8, t)
    } else {
        None
    }
}

pub fn signal_data_exfil(s: &Session, now_ns: u64) -> (r: Option<Evidence>)
    ensures
        found(r) == data_exfil(*s, now_ns),
{
    let t_ns: u64 = span_ns(now_ns, s.first_seen_ns);
    let encrypted: bool = s.l7_app == L7App::Tls.code();
    let unusual: bool = s.key.dport >= 1000 && s.key.dport != 443 && !is_ephemeral(s.key.dport);
    if exceeds(s.bytes, t_ns, 250_000) && unusual {
        let contribution: u128 = ratio_up_to_one(s.bytes as u128 * 500, t_ns);
        let mut t: String = String::new();
        t.append("possible data exfiltration: ");
        text::push_dec(&mut t, byte_rate(s.bytes, t_ns));
        t.append(" KB/s ");
        if encrypted {
            t.append("encrypted");
        } else {
            t.append("raw");
        }
        t.append(" to ");
        s.key.dst_ip().push_text(&mut t);
        t.append(":");
        text::push_dec(&mut t, s.key.dport as u128);
        assert(t@ =~= data_exfil(*s, now_ns)->0.evidence);
        Evidence::new(contribution, t)
    } else {
        None
    }
}

pub fn signal_rst_flood(s: &Session) -> (r: Option<Evidence>)
    ensures
        found(r) == rst_flood(*s),
{
    if s.proto == PROTO_TCP && s.packets > 0 && s.rst_count as u128 * 100 > s.packets as u128 * 35
        && s.rst_count > 10 {
        let over: u128 = s.rst_count as u128 * 100 - s.packets as u128 * 35;
        // More than a third of the packets are RSTs, which are counted in 32 bits.
        let base: u64 = s.packets * 35;
        let contribution: u128 = ratio_up_to_one(over, base);
        let mut t: String = String::new();
        t.append("abnormal RST ratio ");
        text::push_dec(&mut t, text::rounded(s.rst_count as u128 * 100, s.packets as u128));
        t.append("% (");
        text::push_dec(&mut t, s.rst_count as u128);
        t.append(" RSTs): torn-down / scanning session");
        assert(t@ =~= rst_flood(*s)->0.evidence);
        Evidence::new(contribution, t)
    } else {
        None
    }
}

pub fn signal_lateral_movement(s: &Session) -> (r: Option<Evidence>)
    ensures
        found(r) == lateral_movement(*s),
{
    if s.proto == PROTO_TCP && is_private(s.key.src_ip()) && is_private(s.key.dst_ip())
        && is_sensitive_service(s.key.dport) && s.syn_count > 5 && s.tcp_flags_or & 0x10 == 0 {
        let mut t: String = String::new();
        t.append("zero-trust violation: unexpected internal access ");
        s.key.src_ip().push_text(&mut t);
        t.append(" -> ");
        s.key.dst_ip().push_text(&mut t);
        t.append(":");
        text::push_dec(&mut t, s.key.dport as u128);
        t.append(" (");
        text::push_dec(&mut t, s.syn_count as u128);
        t.append(" SYN retries, no ACK)");
        assert(t@ =~= lateral_movement(*s)->0.evidence);
        Evidence::new(UNIT as u128, t)
    } else {
        None
    }
}

pub fn signal_slow_drip(s: &Session) -> (r: Option<Evidence>)
    ensures
        found(r) == slow_drip(*s),
{
    let lasted: u64 = s.last_seen_ns.saturating_sub(s.first_seen_ns);
    if s.proto == PROTO_UDP && s.packets > 500 && lasted > 5_000_000_000 {
        let mut t: String = String::new();
        t.append("slow drip volumetric UDP: ");
        text::push_dec(&mut t, s.packets as u128);
        t.append(" packets over ");
        text::push_dec(&mut t, (lasted / 1_000_000_000) as u128);
        t.append("s");
        assert(t@ =~= slow_drip(*s)->0.evidence);
        Evidence::new(UNIT as u128 / 2, t)
    } else {
        None
    }
}

/// A fired signal contributes more than nothing and at most one.
pub proof fn lemma_contribution_bounds(
    kind: SignalKind,
    s: Session,
    ctx: TriageContext,
    now_ns: u64,
    now_ms: u64,
)
    ensures
        kind.finding(s, ctx, now_ns, now_ms) matches Some(f) ==> 0 < f.contribution <= UNIT,
{
    match kind {
        SignalKind::PortScan => {
            let src = s.key.spec_src();
            let ports = ctx.spec_source_ports(src).len();
            let ips = ctx.spec_destinations(src).len();
            lemma_capped_ratio(larger(ports, ips), 15);
        },
        SignalKind::DataExfil => {
            lemma_capped_ratio(s.bytes as nat * 500, span(now_ns, s.first_seen_ns));
        },
        SignalKind::UnidirectionalUdp => {
            lemma_capped_ratio(s.packets as nat * 500_000, span(now_ns, s.first_seen_ns));
        },
        SignalKind::RstFlood => {
            if rst_flood(s) is Some {
                lemma_capped_ratio(
                    (s.rst_count * 100 - s.packets * 35) as nat,
                    (s.packets * 35) as nat,
                );
            }
        },
        _ => {},
    }
}

proof fn lemma_capped_ratio(num: nat, den: nat)
    requires
        0 < den <= u64::MAX,
    ensures
        capped_ratio(num, den) <= UNIT,
        num * UNIT >= den ==> capped_ratio(num, den) > 0,
{
    if num < den {
        assert(num * UNIT as nat / den <= UNIT) by (nonlinear_arith)
            requires
                num < den,
                den > 0,
                UNIT > 0,
        ;
        assert(num * UNIT >= den ==> num * UNIT as nat / den > 0) by (nonlinear_arith)
            requires
                den > 0,
                UNIT > 0,
        ;
    }
}

/// The registry in plain terms: id, weight in hundredths and kind.
pub open spec fn registered() -> Seq<(Seq<char>, nat, SignalKind)> {
    seq![
        ("port_scan"@, 90, SignalKind::PortScan),
        ("syn_flood"@, 95, SignalKind::SynFlood),
        ("dns_tunnel"@, 85, SignalKind::DnsTunnel),
        ("data_exfil"@, 90, SignalKind::DataExfil),
        ("lateral_movement"@, 95, SignalKind::LateralMovement),
        ("unidirectional_udp"@, 60, SignalKind::UnidirectionalUdp),
        ("rst_flood"@, 80, SignalKind::RstFlood),
        ("slow_drip"@, 50, SignalKind::SlowDrip),
        ("first_contact"@, 30, SignalKind::FirstContact),
    ]
}

impl Signal {
    pub open spec fn terms(self) -> (Seq<char>, nat, SignalKind) {
        (self.id@, self.weight as nat, self.kind)
    }
}

/// The full signal registry, ordered by relevance.
pub fn registry() -> (r: Vec<Signal>)
    ensures
        r@.len() == registered().len(),
        forall|i: int| 0 <= i < r@.len() ==> (#[trigger] r@[i]).terms() == registered()[i],
{
    vec![
        Signal { id: "port_scan", weight: 90, kind: SignalKind::PortScan },
        Signal { id: "syn_flood", weight: 95, kind: SignalKind::SynFlood },
        Signal { id: "dns_tunnel", weight: 85, kind: SignalKind::DnsTunnel },
        Signal { id: "data_exfil", weight: 90, kind: SignalKind::DataExfil },
        Signal { id: "lateral_movement", weight: 95, kind: SignalKind::LateralMovement },
        Signal { id: "unidirectional_udp", weight: 60, kind: SignalKind::UnidirectionalUdp },
        Signal { id: "rst_flood", weight: 80, kind: SignalKind::RstFlood },
        Signal { id: "slow_drip", weight: 50, kind: SignalKind::SlowDrip },
        Signal { id: "first_contact", weight: 30, kind: SignalKind::FirstContact },
    ]
}

/// The destinations and ports of a source are finitely many, and as many as any
/// list that holds each of them once.
proof fn lemma_reach(
    ctx: &TriageContext,
    m: Map<FlowKey, Session>,
    src: IpAddr,
    dsts: Seq<IpAddr>,
    dports: Seq<u16>,
)
    requires
        ctx.tallies(m, m.dom()),
        m.dom().finite(),
        dsts.no_duplicates(),
        dports.no_duplicates(),
        forall|d: IpAddr| #[trigger]
            dsts.contains(d) ==> exists|k: FlowKey| #[trigger]
                m.contains_key(k) && m[k].state != SessionState::Expired && m[k].key.spec_src()
                    == src && m[k].key.spec_dst() == d,
        forall|p: u16| #[trigger]
            dports.contains(p) ==> exists|k: FlowKey| #[trigger]
                m.contains_key(k) && m[k].state != SessionState::Expired && m[k].key.spec_src()
                    == src && m[k].key.dport == p,
    ensures
        dsts.len() <= ctx.spec_destinations(src).len(),
        dports.len() <= ctx.spec_source_ports(src).len(),
        (forall|k: FlowKey| #[trigger]
            m.contains_key(k) && m[k].state != SessionState::Expired && m[k].key.spec_src() == src
                ==> dsts.contains(m[k].key.spec_dst())) ==> dsts.len() == ctx.spec_destinations(
            src,
        ).len(),
        (forall|k: FlowKey| #[trigger]
            m.contains_key(k) && m[k].state != SessionState::Expired && m[k].key.spec_src() == src
                ==> dports.contains(m[k].key.dport)) ==> dports.len() == ctx.spec_source_ports(
            src,
        ).len(),
{
    let to_dst = |k: FlowKey| m[k].key.spec_dst();
    let to_port = |k: FlowKey| m[k].key.dport;
    let (reached, open) = (ctx.spec_destinations(src), ctx.spec_source_ports(src));
    m.dom().lemma_map_finite(to_dst);
    m.dom().lemma_map_finite(to_port);
    assert forall|d: IpAddr| reached.contains(d) implies m.dom().map(to_dst).contains(d) by {
        context::law_context_records_live_sessions(ctx, m, src, d, 0);
        let k = choose|k: FlowKey| #[trigger]
            m.contains_key(k) && m[k].state != SessionState::Expired && m[k].key.spec_src() == src
                && m[k].key.spec_dst() == d;
        assert(m.dom().contains(k) && to_dst(k) == d);
    }
    assert forall|p: u16| open.contains(p) implies m.dom().map(to_port).contains(p) by {
        context::law_context_records_live_sessions(ctx, m, src, src, p);
        let k = choose|k: FlowKey| #[trigger]
            m.contains_key(k) && m[k].state != SessionState::Expired && m[k].key.spec_src() == src
                && m[k].key.dport == p;
        assert(m.dom().contains(k) && to_port(k) == p);
    }
    vstd::set_lib::lemma_set_subset_finite(m.dom().map(to_dst), reached);
    vstd::set_lib::lemma_set_subset_finite(m.dom().map(to_port), open);
    assert forall|d: IpAddr| dsts.to_set().contains(d) implies reached.contains(d) by {
        assert(dsts.contains(d));
        context::law_context_records_live_sessions(ctx, m, src, d, 0);
    }
    assert forall|p: u16| dports.to_set().contains(p) implies open.contains(p) by {
        assert(dports.contains(p));
        context::law_context_records_live_sessions(ctx, m, src, src, p);
    }
    vstd::set_lib::lemma_len_subset(dsts.to_set(), reached);
    vstd::set_lib::lemma_len_subset(dports.to_set(), open);
    dsts.unique_seq_to_set();
    dports.unique_seq_to_set();
    if forall|k: FlowKey| #[trigger]
        m.contains_key(k) && m[k].state != SessionState::Expired && m[k].key.spec_src() == src
            ==> dsts.contains(m[k].key.spec_dst()) {
        assert forall|d: IpAddr| reached.contains(d) implies dsts.to_set().contains(d) by {
            context::law_context_records_live_sessions(ctx, m, src, d, 0);
        }
        assert(reached =~= dsts.to_set());
    }
    if forall|k: FlowKey| #[trigger]
        m.contains_key(k) && m[k].state != SessionState::Expired && m[k].key.spec_src() == src
            ==> dports.contains(m[k].key.dport) {
        assert forall|p: u16| open.contains(p) implies dports.to_set().contains(p) by {
            context::law_context_records_live_sessions(ctx, m, src, src, p);
        }
        assert(open =~= dports.to_set());
    }
}

/// A source whose live sessions reach twenty different destinations is scanning,
/// however few ports it tries: the signal fires at full strength on each of its
/// sessions.
pub proof fn law_host_sweep_is_a_port_scan(
    ctx: &TriageContext,
    m: Map<FlowKey, Session>,
    s: Session,
    dsts: Seq<IpAddr>,
)
    requires
        ctx.tallies(m, m.dom()),
        m.dom().finite(),
        dsts.len() >= 20,
        dsts.no_duplicates(),
        forall|d: IpAddr| #[trigger]
            dsts.contains(d) ==> exists|k: FlowKey| #[trigger]
                m.contains_key(k) && m[k].state != SessionState::Expired && m[k].key.spec_src()
                    == s.key.spec_src() && m[k].key.spec_dst() == d,
    ensures
        port_scan(s, *ctx) is Some,
        port_scan(s, *ctx)->0.contribution == UNIT,
{
    lemma_reach(ctx, m, s.key.spec_src(), dsts, Seq::empty());
}

/// A source whose live sessions try ten different ports is scanning, however few
/// destinations it has; fifteen ports are full strength.
pub proof fn law_port_sweep_is_a_port_scan(
    ctx: &TriageContext,
    m: Map<FlowKey, Session>,
    s: Session,
    dports: Seq<u16>,
)
    requires
        ctx.tallies(m, m.dom()),
        m.dom().finite(),
        dports.len() >= 10,
        dports.no_duplicates(),
        forall|p: u16| #[trigger]
            dports.contains(p) ==> exists|k: FlowKey| #[trigger]
                m.contains_key(k) && m[k].state != SessionState::Expired && m[k].key.spec_src()
                    == s.key.spec_src() && m[k].key.dport == p,
    ensures
        port_scan(s, *ctx) is Some,
        dports.len() >= 15 ==> port_scan(s, *ctx)->0.contribution == UNIT,
{
    lemma_reach(ctx, m, s.key.spec_src(), Seq::empty(), dports);
}

/// A port scan is told by numbers alone: the signal fires exactly from ten ports
/// or twenty destinations on, with the larger of the two numbers over fifteen as
/// its strength, up to one.
pub proof fn law_port_scan_counts_ports_and_destinations(
    ctx: &TriageContext,
    m: Map<FlowKey, Session>,
    s: Session,
    dsts: Seq<IpAddr>,
    dports: Seq<u16>,
)
    requires
        ctx.tallies(m, m.dom()),
        m.dom().finite(),
        dsts.no_duplicates(),
        dports.no_duplicates(),
        forall|d: IpAddr| #[trigger]
            dsts.contains(d) ==> exists|k: FlowKey| #[trigger]
                m.contains_key(k) && m[k].state != SessionState::Expired && m[k].key.spec_src()
                    == s.key.spec_src() && m[k].key.spec_dst() == d,
        forall|p: u16| #[trigger]
            dports.contains(p) ==> exists|k: FlowKey| #[trigger]
                m.contains_key(k) && m[k].state != SessionState::Expired && m[k].key.spec_src()
                    == s.key.spec_src() && m[k].key.dport == p,
        forall|k: FlowKey| #[trigger]
            m.contains_key(k) && m[k].state != SessionState::Expired && m[k].key.spec_src()
                == s.key.spec_src() ==> dsts.contains(m[k].key.spec_dst()) && dports.contains(
                m[k].key.dport,
            ),
    ensures
        port_scan(s, *ctx) is Some <==> dports.len() >= 10 || dsts.len() >= 20,
        port_scan(s, *ctx) matches Some(f) ==> {
            let c = f.contribution;
            &&& c <= UNIT
            &&& c < UNIT ==> 15 * c <= dports.len() * UNIT || 15 * c <= dsts.len() * UNIT
            &&& c < UNIT ==> dports.len() * UNIT < 15 * (c + 1) && dsts.len() * UNIT < 15 * (c + 1)
            &&& dports.len() < 15 && dsts.len() < 15 ==> c < UNIT
        },
{
    lemma_reach(ctx, m, s.key.spec_src(), dsts, dports);
}

/// What counts as a SYN flood: SYNs over TCP, either eight of them in a session
/// that never saw an ACK, or more than forty for every second (and for every
/// millisecond begun) that the session lasted. It always has full strength.
pub proof fn law_syn_flood_fires(s: Session, lasted: int)
    requires
        lasted == s.last_seen_ns - s.first_seen_ns,
    ensures
        s.proto != 6 ==> syn_flood(s) is None,
        s.syn_count == 0 ==> syn_flood(s) is None,
        s.proto == 6 && s.syn_count >= 8 && s.tcp_flags_or & 0x10 == 0 ==> syn_flood(s) is Some,
        s.proto == 6 && s.syn_count > 0 && s.syn_count * 1_000_000_000 > 40 * lasted
            && s.syn_count * 1_000_000_000 > 40_000_000 ==> syn_flood(s) is Some,
        (s.tcp_flags_or & 0x10 != 0 || s.syn_count < 8) && s.syn_count * 1_000_000_000 <= 40
            * lasted ==> syn_flood(s) is None,
        syn_flood(s) matches Some(f) ==> f.contribution == 1_000_000_000_000_000_000,
{
}

/// A one-way UDP burst is UDP traffic that nothing answers, at more than two
/// hundred packets a second and with more than 100,000 bytes. A live session
/// from the destination to the port that the traffic comes from is an answer,
/// and silences the signal.
pub proof fn law_udp_burst_is_unanswered(
    ctx: &TriageContext,
    m: Map<FlowKey, Session>,
    s: Session,
    now_ns: u64,
    lasted: int,
)
    requires
        ctx.tallies(m, m.dom()),
        lasted == now_ns - s.first_seen_ns,
    ensures
        s.proto != 17 || s.bytes <= 100_000 ==> unidirectional_udp(s, *ctx, now_ns) is None,
        s.packets * 1_000_000_000 <= 200 * lasted || s.packets * 1_000_000_000 <= 200_000_000
            ==> unidirectional_udp(s, *ctx, now_ns) is None,
        (exists|k: FlowKey| #[trigger]
            m.contains_key(k) && m[k].state != SessionState::Expired && m[k].key.spec_src()
                == s.key.spec_dst() && m[k].key.spec_dst() == s.key.spec_src() && m[k].key.dport
                == s.key.sport) ==> unidirectional_udp(s, *ctx, now_ns) is None,
        s.proto == 17 && s.bytes > 100_000 && s.packets * 1_000_000_000 > 200 * lasted && s.packets
            * 1_000_000_000 > 200_000_000 && (forall|k: FlowKey| #[trigger]
            m.contains_key(k) && m[k].key.spec_src() == s.key.spec_dst() && m[k].key.spec_dst()
                == s.key.spec_src() && m[k].key.dport == s.key.sport ==> m[k].state
                == SessionState::Expired) ==> unidirectional_udp(s, *ctx, now_ns) is Some,
        unidirectional_udp(s, *ctx, now_ns) matches Some(f) ==> {
            let c = f.contribution;
            &&& c <= UNIT
            &&& c == UNIT <==> s.packets * 1_000_000_000 >= 2000 * lasted && s.packets >= 2
            &&& c < UNIT && lasted >= 1_000_000 ==> c * lasted <= s.packets * 500_000 * UNIT < (c
                + 1) * lasted
        },
{
    context::law_context_records_live_sessions(
        ctx,
        m,
        s.key.spec_dst(),
        s.key.spec_src(),
        s.key.sport,
    );
    let t = span(now_ns, s.first_seen_ns);
    let n = s.packets as nat * 500_000;
    lemma_quotient(n * UNIT as nat, t);
    if n < t {
        assert(n * UNIT as nat / t < UNIT) by (nonlinear_arith)
            requires
                0 <= n < t,
                UNIT > 0,
        ;
    }
}

proof fn lemma_quotient(n: nat, d: nat)
    requires
        d > 0,
    ensures
        n / d * d <= n < (n / d + 1) * d,
{
    assert(n / d * d <= n < (n / d + 1) * d) by (nonlinear_arith)
        requires
            d > 0,
    ;
}

/// DNS tunneling shows in long query names: over forty bytes in a session of more
/// than fifty packets is full strength; over thirty bytes at more than ten
/// packets a second is six tenths. Other applications never show it.
pub proof fn law_dns_tunnel_fires(s: Session, now_ns: u64, lasted: int)
    requires
        lasted == now_ns - s.first_seen_ns,
    ensures
        s.l7_app != 3 || s.l7_info <= 30 ==> dns_tunnel(s, now_ns) is None,
        s.l7_app == 3 && s.l7_info > 40 && s.packets > 50 ==> dns_tunnel(s, now_ns) is Some
            && dns_tunnel(s, now_ns)->0.contribution == 1_000_000_000_000_000_000,
        s.l7_app == 3 && s.l7_info > 30 && (s.l7_info <= 40 || s.packets <= 50) ==> {
            let fast = s.packets * 1_000_000_000 > 10 * lasted && s.packets * 1_000_000_000
                > 10_000_000;
            &&& dns_tunnel(s, now_ns) is Some <==> fast
            &&& fast ==> dns_tunnel(s, now_ns)->0.contribution == 600_000_000_000_000_000
        },
{
}

/// Data leaves where more than 250,000 bytes a second go to a port from 1000 to
/// 32767; two million bytes a second are full strength.
pub proof fn law_data_exfil_fires(s: Session, now_ns: u64, lasted: int)
    requires
        lasted == now_ns - s.first_seen_ns,
    ensures
        data_exfil(s, now_ns) is Some <==> 1000 <= s.key.dport <= 32767 && s.bytes * 1_000_000_000
            > 250_000 * lasted && s.bytes > 250,
        data_exfil(s, now_ns) matches Some(f) ==> {
            let c = f.contribution;
            &&& c <= UNIT
            &&& c == UNIT <==> s.bytes * 1_000_000_000 >= 2_000_000 * lasted && s.bytes >= 2000
            &&& c < UNIT && lasted >= 1_000_000 ==> c * lasted <= s.bytes * 500 * UNIT < (c + 1)
                * lasted
        },
{
    let t = span(now_ns, s.first_seen_ns);
    let n = s.bytes as nat * 500;
    lemma_quotient(n * UNIT as nat, t);
    if n < t {
        assert(n * UNIT as nat / t < UNIT) by (nonlinear_arith)
            requires
                0 <= n < t,
                UNIT > 0,
        ;
    }
}

/// RSTs flood a TCP session where there are more than ten of them and they are
/// more than 35 in every hundred packets. The strength grows from nothing at 35
/// to one at 70 in a hundred.
pub proof fn law_rst_flood_fires(s: Session)
    ensures
        rst_flood(s) is Some <==> s.proto == 6 && s.packets > 0 && s.rst_count > 10 && 100
            * s.rst_count > 35 * s.packets,
        rst_flood(s) matches Some(f) ==> {
            let c = f.contribution;
            &&& c <= UNIT
            &&& c == UNIT <==> 100 * s.rst_count >= 70 * s.packets
            &&& c < UNIT ==> c * (35 * s.packets) <= (100 * s.rst_count - 35 * s.packets) * UNIT
                < (c + 1) * (35 * s.packets)
        },
{
    if rst_flood(s) is Some {
        let n = (s.rst_count * 100 - s.packets * 35) as nat;
        let d = (s.packets * 35) as nat;
        lemma_quotient(n * UNIT as nat, d);
        if n < d {
            assert(n * UNIT as nat / d < UNIT) by (nonlinear_arith)
                requires
                    0 <= n < d,
                    UNIT > 0,
            ;
        }
    }
}

/// Lateral movement is a TCP session between two private hosts to a sensitive
/// service with more than five SYNs and no ACK; each of these is needed.
pub proof fn law_lateral_movement_fires(s: Session)
    ensures
        s.proto != 6 || s.syn_count <= 5 || s.tcp_flags_or & 0x10 != 0 ==> lateral_movement(
            s,
        ) is None,
        !context::private_ip(s.key.spec_src()) || !context::private_ip(s.key.spec_dst())
            || !context::sensitive_service(s.key.dport) ==> lateral_movement(s) is None,
        s.proto == 6 && s.syn_count >= 6 && s.tcp_flags_or & 0x10 == 0 && context::private_ip(
            s.key.spec_src(),
        ) && context::private_ip(s.key.spec_dst()) && context::sensitive_service(s.key.dport)
            ==> lateral_movement(s) is Some,
        lateral_movement(s) matches Some(f) ==> f.contribution == 1_000_000_000_000_000_000,
{
}

/// A slow drip is UDP of more than five hundred packets over more than five
/// seconds, at half strength.
pub proof fn law_slow_drip_fires(s: Session)
    ensures
        slow_drip(s) is Some <==> s.proto == 17 && s.packets >= 501 && s.last_seen_ns
            > s.first_seen_ns + 5_000_000_000,
        slow_drip(s) matches Some(f) ==> f.contribution == 500_000_000_000_000_000,
{
}

/// First contact is a public source without a first sighting at least a minute
/// ago, at eight tenths; private sources never count.
pub proof fn law_first_contact_fires(s: Session, ctx: &TriageContext, now_ms: u64)
    ensures
        context::private_ip(s.key.spec_src()) ==> first_contact(s, *ctx, now_ms) is None,
        ctx.first_seen_src@.contains_key(s.key.spec_src())
            && ctx.first_seen_src@[s.key.spec_src()] + 60_000 <= now_ms ==> first_contact(
            s,
            *ctx,
            now_ms,
        ) is None,
        !context::private_ip(s.key.spec_src()) && (!ctx.first_seen_src@.contains_key(
            s.key.spec_src(),
        ) || now_ms < ctx.first_seen_src@[s.key.spec_src()] + 60_000) ==> first_contact(
            s,
            *ctx,
            now_ms,
        ) is Some,
        first_contact(s, *ctx, now_ms) matches Some(f) ==> f.contribution
            == 800_000_000_000_000_000,
{
}

/// Each kind of signal evaluates its own finding.
pub proof fn law_kinds_find_their_own(s: Session, ctx: TriageContext, now_ns: u64, now_ms: u64)
    ensures
        SignalKind::PortScan.finding(s, ctx, now_ns, now_ms) == port_scan(s, ctx),
        SignalKind::SynFlood.finding(s, ctx, now_ns, now_ms) == syn_flood(s),
        SignalKind::DnsTunnel.finding(s, ctx, now_ns, now_ms) == dns_tunnel(s, now_ns),
        SignalKind::DataExfil.finding(s, ctx, now_ns, now_ms) == data_exfil(s, now_ns),
        SignalKind::LateralMovement.finding(s, ctx, now_ns, now_ms) == lateral_movement(s),
        SignalKind::UnidirectionalUdp.finding(s, ctx, now_ns, now_ms) == unidirectional_udp(
            s,
            ctx,
            now_ns,
        ),
        SignalKind::RstFlood.finding(s, ctx, now_ns, now_ms) == rst_flood(s),
        SignalKind::SlowDrip.finding(s, ctx, now_ns, now_ms) == slow_drip(s),
        SignalKind::FirstContact.finding(s, ctx, now_ns, now_ms) == first_contact(s, ctx, now_ms),
{
}

/// Every kind of signal is registered once, under a name that no other has. The
/// weights rank the signals: floods and lateral movement over scans and
/// exfiltration, then tunnels, resets, one-way bursts, drips and first contacts.
pub proof fn law_registry_ranks_each_kind_once(kind: SignalKind)
    ensures
        exists|i: int| 0 <= i < registered().len() && (#[trigger] registered()[i]).2 == kind,
        forall|i: int, j: int|
            0 <= i < j < registered().len() ==> (#[trigger] registered()[i]).2 != (
            #[trigger] registered()[j]).2 && registered()[i].0 != registered()[j].0,
        forall|i: int|
            0 <= i < registered().len() && (#[trigger] registered()[i]).2 == kind
                ==> registered()[i].1 == match kind {
                SignalKind::SynFlood | SignalKind::LateralMovement => 95nat,
                SignalKind::PortScan | SignalKind::DataExfil => 90,
                SignalKind::DnsTunnel => 85,
                SignalKind::RstFlood => 80,
                SignalKind::UnidirectionalUdp => 60,
                SignalKind::SlowDrip => 50,
                SignalKind::FirstContact => 30,
            },
        forall|i: int|
            0 <= i < registered().len() ==> ((#[trigger] registered()[i]).0 == "port_scan"@ <==>
            registered()[i].2 == SignalKind::PortScan),
        forall|i: int|
            0 <= i < registered().len() ==> ((#[trigger] registered()[i]).0 == "syn_flood"@ <==>
            registered()[i].2 == SignalKind::SynFlood),
{
    let r = registered();
    reveal_strlit("port_scan");
    reveal_strlit("syn_flood");
    reveal_strlit("dns_tunnel");
    reveal_strlit("data_exfil");
    reveal_strlit("lateral_movement");
    reveal_strlit("unidirectional_udp");
    reveal_strlit("rst_flood");
    reveal_strlit("slow_drip");
    reveal_strlit("first_contact");
    assert(r[0].0[0] == 'p' && r[1].0[1] == 'y' && r[2].0[1] == 'n' && r[3].0[3] == 'a');
    assert(r[4].0.len() == 16 && r[5].0.len() == 18 && r[6].0[0] == 'r' && r[7].0[1] == 'l');
    assert(r[8].0.len() == 13 && r[0].0.len() == 9 && r[1].0.len() == 9 && r[2].0.len() == 10);
    assert(r[3].0.len() == 10 && r[6].0.len() == 9 && r[7].0.len() == 9);
    assert(r[1].0[0] == 's' && r[7].0[0] == 's' && r[2].0[3] == '_');
    assert(r[0].2 == SignalKind::PortScan && r[1].2 == SignalKind::SynFlood && r[2].2
        == SignalKind::DnsTunnel && r[3].2 == SignalKind::DataExfil && r[4].2
        == SignalKind::LateralMovement && r[5].2 == SignalKind::UnidirectionalUdp && r[6].2
        == SignalKind::RstFlood && r[7].2 == SignalKind::SlowDrip && r[8].2
        == SignalKind::FirstContact);
}

/// Rates are taken over the time that passed, but over no less than a
/// millisecond, and are shown as the nearest whole number a second.
pub proof fn law_rates_are_per_second(to_ns: u64, from_ns: u64, count: u64)
    ensures
        to_ns >= from_ns + 1_000_000 ==> span(to_ns, from_ns) == to_ns - from_ns,
        to_ns < from_ns + 1_000_000 ==> span(to_ns, from_ns) == 1_000_000,
        ({
            let (t, q) = (
                span(to_ns, from_ns),
                per_second(count as nat, span(to_ns, from_ns)),
            );
            (2 * q - 1) * t <= 2_000_000_000 * count <= (2 * q + 1) * t
        }),
{
    text::law_rounding_is_to_the_nearest(count as nat * 1_000_000_000, span(to_ns, from_ns));
}

/// The evidence of a port scan names the number of ports tried at the session's
/// destination, that destination, the number of destinations, and the source.
pub proof fn law_port_scan_evidence(s: Session, ctx: TriageContext)
    requires
        port_scan(s, ctx) is Some,
    ensures
        text::says(
            port_scan(s, ctx)->0.evidence,
            "port scan pattern: "@,
            text::dec(
                ctx.spec_ports(IpPair { src: s.key.spec_src(), dst: s.key.spec_dst() }).len(),
            ),
            " distinct ports to "@,
        ),
        text::says(
            port_scan(s, ctx)->0.evidence,
            " distinct ports to "@,
            s.key.spec_dst().spec_text(),
            " and "@,
        ),
        text::says(
            port_scan(s, ctx)->0.evidence,
            " and "@,
            text::dec(ctx.spec_destinations(s.key.spec_src()).len()),
            " distinct destinations from "@,
        ),
        text::says(
            port_scan(s, ctx)->0.evidence,
            " distinct destinations from "@,
            s.key.spec_src().spec_text(),
            Seq::empty(),
        ),
{
    broadcast use text::lemma_run_push;

    let parts = Seq::empty()
        .push("port scan pattern: "@)
        .push(text::dec(
            ctx.spec_ports(IpPair { src: s.key.spec_src(), dst: s.key.spec_dst() }).len(),
        ))
        .push(" distinct ports to "@)
        .push(s.key.spec_dst().spec_text())
        .push(" and "@)
        .push(text::dec(ctx.spec_destinations(s.key.spec_src()).len()))
        .push(" distinct destinations from "@)
        .push(s.key.spec_src().spec_text())
        .push(Seq::<char>::empty());
    assert(text::run(parts) == port_scan(s, ctx)->0.evidence);
    text::lemma_run_says(parts, 0);
    text::lemma_run_says(parts, 2);
    text::lemma_run_says(parts, 4);
    text::lemma_run_says(parts, 6);
}

/// The evidence of a one-way burst names the packets and the kilobytes a second,
/// and the source with its port.
pub proof fn law_udp_burst_evidence(s: Session, ctx: TriageContext, now_ns: u64)
    requires
        unidirectional_udp(s, ctx, now_ns) is Some,
    ensures
        text::says(
            unidirectional_udp(s, ctx, now_ns)->0.evidence,
            "unidirectional UDP burst: "@,
            text::dec(per_second(s.packets as nat, span(now_ns, s.first_seen_ns))),
            " pps / "@,
        ),
        text::says(
            unidirectional_udp(s, ctx, now_ns)->0.evidence,
            " pps / "@,
            text::dec(
                text::round_half_even(s.bytes as nat * 1_000_000, span(now_ns, s.first_seen_ns)),
            ),
            " KB/s from "@,
        ),
        text::says(
            unidirectional_udp(s, ctx, now_ns)->0.evidence,
            " KB/s from "@,
            s.key.spec_src().spec_text(),
            ":"@,
        ),
        text::says(
            unidirectional_udp(s, ctx, now_ns)->0.evidence,
            ":"@,
            text::dec(s.key.sport as nat),
            Seq::empty(),
        ),
{
    broadcast use text::lemma_run_push;

    let parts = Seq::empty()
        .push("unidirectional UDP burst: "@)
        .push(text::dec(per_second(s.packets as nat, span(now_ns, s.first_seen_ns))))
        .push(" pps / "@)
        .push(text::dec(
            text::round_half_even(s.bytes as nat * 1_000_000, span(now_ns, s.first_seen_ns)),
        ))
        .push(" KB/s from "@)
        .push(s.key.spec_src().spec_text())
        .push(":"@)
        .push(text::dec(s.key.sport as nat))
        .push(Seq::<char>::empty());
    assert(text::run(parts) == unidirectional_udp(s, ctx, now_ns)->0.evidence);
    text::lemma_run_says(parts, 0);
    text::lemma_run_says(parts, 2);
    text::lemma_run_says(parts, 4);
    text::lemma_run_says(parts, 6);
}

/// The evidence of a lateral move names both hosts, the service and the SYNs.
pub proof fn law_lateral_movement_evidence(s: Session)
    requires
        lateral_movement(s) is Some,
    ensures
        text::says(
            lateral_movement(s)->0.evidence,
            "zero-trust violation: unexpected internal access "@,
            s.key.spec_src().spec_text(),
            " -> "@,
        ),
        text::says(lateral_movement(s)->0.evidence, " -> "@, s.key.spec_dst().spec_text(), ":"@),
        text::says(lateral_movement(s)->0.evidence, ":"@, text::dec(s.key.dport as nat), " ("@),
        text::says(
            lateral_movement(s)->0.evidence,
            " ("@,
            text::dec(s.syn_count as nat),
            " SYN retries, no ACK)"@,
        ),
{
    broadcast use text::lemma_run_push;

    let parts = Seq::empty()
        .push("zero-trust violation: unexpected internal access "@)
        .push(s.key.spec_src().spec_text())
        .push(" -> "@)
        .push(s.key.spec_dst().spec_text())
        .push(":"@)
        .push(text::dec(s.key.dport as nat))
        .push(" ("@)
        .push(text::dec(s.syn_count as nat))
        .push(" SYN retries, no ACK)"@);
    assert(text::run(parts) == lateral_movement(s)->0.evidence);
    text::lemma_run_says(parts, 0);
    text::lemma_run_says(parts, 2);
    text::lemma_run_says(parts, 4);
    text::lemma_run_says(parts, 6);
}

/// The evidence of a first contact names the source, the destination and the
/// service.
pub proof fn law_first_contact_evidence(s: Session, ctx: TriageContext, now_ms: u64)
    requires
        first_contact(s, ctx, now_ms) is Some,
    ensures
        text::says(
            first_contact(s, ctx, now_ms)->0.evidence,
            "first contact from unseen source "@,
            s.key.spec_src().spec_text(),
            " to "@,
        ),
        text::says(
            first_contact(s, ctx, now_ms)->0.evidence,
            " to "@,
            s.key.spec_dst().spec_text(),
            ":"@,
        ),
        text::says(
            first_contact(s, ctx, now_ms)->0.evidence,
            ":"@,
            text::dec(s.key.dport as nat),
            Seq::empty(),
        ),
{
    broadcast use text::lemma_run_push;

    let parts = Seq::empty()
        .push("first contact from unseen source "@)
        .push(s.key.spec_src().spec_text())
        .push(" to "@)
        .push(s.key.spec_dst().spec_text())
        .push(":"@)
        .push(text::dec(s.key.dport as nat))
        .push(Seq::<char>::empty());
    assert(text::run(parts) == first_contact(s, ctx, now_ms)->0.evidence);
    text::lemma_run_says(parts, 0);
    text::lemma_run_says(parts, 2);
    text::lemma_run_says(parts, 4);
}

/// The evidence of a slow drip names the packets and the whole seconds.
pub proof fn law_slow_drip_evidence(s: Session)
    requires
        slow_drip(s) is Some,
    ensures
        text::says(
            slow_drip(s)->0.evidence,
            "slow drip volumetric UDP: "@,
            text::dec(s.packets as nat),
            " packets over "@,
        ),
        text::says(
            slow_drip(s)->0.evidence,
            " packets over "@,
            text::dec(((s.last_seen_ns - s.first_seen_ns) / 1_000_000_000) as nat),
            "s"@,
        ),
{
    broadcast use text::lemma_run_push;

    let parts = Seq::empty()
        .push("slow drip volumetric UDP: "@)
        .push(text::dec(s.packets as nat))
        .push(" packets over "@)
        .push(text::dec(((s.last_seen_ns - s.first_seen_ns) / 1_000_000_000) as nat))
        .push("s"@);
    assert(text::run(parts) == slow_drip(s)->0.evidence);
    text::lemma_run_says(parts, 0);
    text::lemma_run_says(parts, 2);
}

/// The evidence of an RST flood names the share of RSTs in percent and their
/// number.
pub proof fn law_rst_flood_evidence(s: Session)
    requires
        rst_flood(s) is Some,
    ensures
        text::says(
            rst_flood(s)->0.evidence,
            "abnormal RST ratio "@,
            text::dec(text::round_half_even(s.rst_count as nat * 100, s.packets as nat)),
            "% ("@,
        ),
        text::says(
            rst_flood(s)->0.evidence,
            "% ("@,
            text::dec(s.rst_count as nat),
            " RSTs): torn-down / scanning session"@,
        ),
{
    broadcast use text::lemma_run_push;

    let parts = Seq::empty()
        .push("abnormal RST ratio "@)
        .push(text::dec(text::round_half_even(s.rst_count as nat * 100, s.packets as nat)))
        .push("% ("@)
        .push(text::dec(s.rst_count as nat))
        .push(" RSTs): torn-down / scanning session"@);
    assert(text::run(parts) == rst_flood(s)->0.evidence);
    text::lemma_run_says(parts, 0);
    text::lemma_run_says(parts, 2);
}

/// The evidence of an exfiltration names the kilobytes a second, whether they go
/// over TLS, and where they go.
pub proof fn law_data_exfil_evidence(s: Session, now_ns: u64)
    requires
        data_exfil(s, now_ns) is Some,
    ensures
        text::says(
            data_exfil(s, now_ns)->0.evidence,
            "possible data exfiltration: "@,
            text::dec(
                text::round_half_even(s.bytes as nat * 1_000_000, span(now_ns, s.first_seen_ns)),
            ),
            " KB/s "@,
        ),
        text::says(
            data_exfil(s, now_ns)->0.evidence,
            " KB/s "@,
            (if s.l7_app == 2 {
                "encrypted"@
            } else {
                "raw"@
            }),
            " to "@,
        ),
        text::says(data_exfil(s, now_ns)->0.evidence, " to "@, s.key.spec_dst().spec_text(), ":"@),
        text::says(
            data_exfil(s, now_ns)->0.evidence,
            ":"@,
            text::dec(s.key.dport as nat),
            Seq::empty(),
        ),
{
    broadcast use text::lemma_run_push;

    let parts = Seq::empty()
        .push("possible data exfiltration: "@)
        .push(text::dec(
            text::round_half_even(s.bytes as nat * 1_000_000, span(now_ns, s.first_seen_ns)),
        ))
        .push(" KB/s "@)
        .push((if s.l7_app == 2 {
            "encrypted"@
        } else {
            "raw"@
        }))
        .push(" to "@)
        .push(s.key.spec_dst().spec_text())
        .push(":"@)
        .push(text::dec(s.key.dport as nat))
        .push(Seq::<char>::empty());
    assert(text::run(parts) == data_exfil(s, now_ns)->0.evidence);
    text::lemma_run_says(parts, 0);
    text::lemma_run_says(parts, 2);
    text::lemma_run_says(parts, 4);
    text::lemma_run_says(parts, 6);
}

/// The evidence of a DNS tunnel names the packets a second and the length of the
/// query names.
pub proof fn law_dns_tunnel_evidence(s: Session, now_ns: u64)
    requires
        dns_tunnel(s, now_ns) is Some,
        s.l7_info > 40 && s.packets > 50,
    ensures
        text::says(
            dns_tunnel(s, now_ns)->0.evidence,
            "DNS tunneling: "@,
            text::dec(per_second(s.packets as nat, span(now_ns, s.first_seen_ns))),
            " pps with query names ~"@,
        ),
        text::says(
            dns_tunnel(s, now_ns)->0.evidence,
            " pps with query names ~"@,
            text::dec(s.l7_info as nat),
            " bytes long"@,
        ),
{
    broadcast use text::lemma_run_push;

    let parts = Seq::empty()
        .push("DNS tunneling: "@)
        .push(text::dec(per_second(s.packets as nat, span(now_ns, s.first_seen_ns))))
        .push(" pps with query names ~"@)
        .push(text::dec(s.l7_info as nat))
        .push(" bytes long"@);
    assert(text::run(parts) == dns_tunnel(s, now_ns)->0.evidence);
    text::lemma_run_says(parts, 0);
    text::lemma_run_says(parts, 2);
}

/// The evidence of high-rate DNS names the packets a second.
pub proof fn law_fast_dns_evidence(s: Session, now_ns: u64)
    requires
        dns_tunnel(s, now_ns) is Some,
        s.l7_info <= 40 || s.packets <= 50,
    ensures
        text::says(
            dns_tunnel(s, now_ns)->0.evidence,
            "high-rate DNS ("@,
            text::dec(per_second(s.packets as nat, span(now_ns, s.first_seen_ns))),
            " pps) with long labels"@,
        ),
{
    broadcast use text::lemma_run_push;

    let parts = Seq::empty()
        .push("high-rate DNS ("@)
        .push(text::dec(per_second(s.packets as nat, span(now_ns, s.first_seen_ns))))
        .push(" pps) with long labels"@);
    assert(text::run(parts) == dns_tunnel(s, now_ns)->0.evidence);
    text::lemma_run_says(parts, 0);
}

/// The evidence of a flood without any ACK names the SYNs and the service.
pub proof fn law_syn_flood_evidence(s: Session)
    requires
        syn_flood(s) is Some,
        s.syn_count >= 8 && s.tcp_flags_or & 0x10 == 0,
    ensures
        text::says(
            syn_flood(s)->0.evidence,
            "SYN flood: "@,
            text::dec(s.syn_count as nat),
            " SYN packets without any ACK in session "@,
        ),
        text::says(
            syn_flood(s)->0.evidence,
            " SYN packets without any ACK in session "@,
            text::dec(s.key.dport as nat),
            Seq::empty(),
        ),
{
    broadcast use text::lemma_run_push;

    let parts = Seq::empty()
        .push("SYN flood: "@)
        .push(text::dec(s.syn_count as nat))
        .push(" SYN packets without any ACK in session "@)
        .push(text::dec(s.key.dport as nat))
        .push(Seq::<char>::empty());
    assert(text::run(parts) == syn_flood(s)->0.evidence);
    text::lemma_run_says(parts, 0);
    text::lemma_run_says(parts, 2);
}

/// The evidence of a flood by rate names the SYNs a second.
pub proof fn law_fast_syn_evidence(s: Session)
    requires
        syn_flood(s) is Some,
        s.syn_count < 8 || s.tcp_flags_or & 0x10 != 0,
    ensures
        text::says(
            syn_flood(s)->0.evidence,
            "SYN flood: "@,
            text::dec(per_second(s.syn_count as nat, span(s.last_seen_ns, s.first_seen_ns))),
            " SYNs/sec"@,
        ),
{
    broadcast use text::lemma_run_push;

    let parts = Seq::empty()
        .push("SYN flood: "@)
        .push(text::dec(per_second(s.syn_count as nat, span(s.last_seen_ns, s.first_seen_ns))))
        .push(" SYNs/sec"@);
    assert(text::run(parts) == syn_flood(s)->0.evidence);
    text::lemma_run_says(parts, 0);
}

} // verus!
