//! Structured audit records.
//!
//! Every isolation decision is recorded with the decision, the risk, the
//! rationale (which signals fired, with weights and evidence), and the
//! enforcement action taken against the data plane.

use vstd::prelude::*;

use std::time::{Duration, SystemTime, SystemTimeError};

use crate::addr::IpAddr;
use crate::protocol::{FlowKey, L7App, PROTO_ICMP, PROTO_ICMPV6, PROTO_TCP, PROTO_UDP};
use crate::text;

verus! {

#[verifier::external_type_specification]
#[verifier::external_body]
pub struct ExSystemTime(SystemTime);

#[verifier::external_type_specification]
#[verifier::external_body]
pub struct ExSystemTimeError(SystemTimeError);

/// `SystemTime::now` reads the wall clock; nothing is claimed of the reading.
pub assume_specification[ SystemTime::now ]() -> SystemTime;

/// `SystemTime::duration_since` gives the time between two readings, or an
/// error when the second is the later one; nothing is claimed of either.
pub assume_specification[ SystemTime::duration_since ](
    this: &SystemTime,
    earlier: SystemTime,
) -> Result<Duration, SystemTimeError>;

/// `Duration::as_millis` gives a duration in whole milliseconds; nothing is
/// claimed of the number.
pub assume_specification[ Duration::as_millis ](this: &Duration) -> u128;

/// `SystemTime::UNIX_EPOCH`, the start of Unix time.
#[verifier::external_body]
fn unix_epoch() -> SystemTime {
    SystemTime::UNIX_EPOCH
}

/// Wall-clock milliseconds from the time elapsed since the epoch: the low 64
/// bits, or zero when the clock stands before the epoch.
pub fn wall_ms(since_epoch_ms: Option<u128>) -> (r: u64)
    ensures
        r == match since_epoch_ms {
            Some(ms) => ms % 0x1_0000_0000_0000_0000,
            None => 0,
        },
{
    match since_epoch_ms {
        Some(ms) => (ms % 0x1_0000_0000_0000_0000) as u64,
        None => 0,
    }
}

/// Reads the wall clock in ms. What comes back is [`wall_ms`] of the clock's
/// reading.
pub fn now_ms() -> (r: u64) {
    let reading: Option<u128> = match SystemTime::now().duration_since(unix_epoch()) {
        Ok(d) => Some(d.as_millis()),
        Err(_) => None,
    };
    wall_ms(reading)
}

#[derive(Debug, Clone, Copy, PartialEq, Eq, Structural)]
pub enum Decision {
    Quarantine,
    QuarantineIp,
    Monitor,
    Allow,
    Unquarantine,
    Expire,
}

/// One fired signal of a decision's rationale.
#[derive(Debug, Clone)]
pub struct RationaleSignal {
    pub signal: &'static str,
    /// Weight in hundredths.
    pub weight: u8,
    /// Strength, in units of [`crate::triage::UNIT`].
    pub contribution: u128,
    pub evidence: String,
}

/// The contents of a [`RationaleSignal`].
#[verifier::ext_equal]
pub struct RationaleRecord {
    pub signal: Seq<char>,
    pub weight: nat,
    pub contribution: nat,
    pub evidence: Seq<char>,
}

impl View for RationaleSignal {
    type V = RationaleRecord;

    open spec fn view(&self) -> RationaleRecord {
        RationaleRecord {
            signal: self.signal@,
            weight: self.weight as nat,
            contribution: self.contribution as nat,
            evidence: self.evidence@,
        }
    }
}

/// The contents of a list of fired signals.
pub open spec fn rationale_records(r: Seq<RationaleSignal>) -> Seq<RationaleRecord> {
    r.map_values(|x: RationaleSignal| x@)
}

/// The flow that an audit event is about.
#[derive(Debug, Clone)]
pub struct FlowRef {
    pub src: String,
    pub dst: String,
    pub proto: &'static str,
    pub app: &'static str,
    pub packets: u64,
    pub bytes: u64,
}

/// The contents of a [`FlowRef`].
#[verifier::ext_equal]
pub struct FlowRecord {
    pub src: Seq<char>,
    pub dst: Seq<char>,
    pub proto: Seq<char>,
    pub app: Seq<char>,
    pub packets: u64,
    pub bytes: u64,
}

impl View for FlowRef {
    type V = FlowRecord;

    open spec fn view(&self) -> FlowRecord {
        FlowRecord {
            src: self.src@,
            dst: self.dst@,
            proto: self.proto@,
            app: self.app@,
            packets: self.packets,
            bytes: self.bytes,
        }
    }
}

/// The map update that an audit event reports.
#[derive(Debug, Clone)]
pub struct ActionRef {
    pub kind: &'static str,
    pub map: &'static str,
    pub key: String,
    pub reason: &'static str,
    pub seq: u64,
    pub ttl_ns: u64,
}

/// The contents of an [`ActionRef`].
#[verifier::ext_equal]
pub struct ActionRecord {
    pub kind: Seq<char>,
    pub map: Seq<char>,
    pub key: Seq<char>,
    pub reason: Seq<char>,
    pub seq: u64,
    pub ttl_ns: u64,
}

impl View for ActionRef {
    type V = ActionRecord;

    open spec fn view(&self) -> ActionRecord {
        ActionRecord {
            kind: self.kind@,
            map: self.map@,
            key: self.key@,
            reason: self.reason@,
            seq: self.seq,
            ttl_ns: self.ttl_ns,
        }
    }
}

/// One line of the audit log. Scores count in units of [`crate::triage::UNIT`].
#[derive(Debug, Clone)]
pub struct AuditEvent {
    pub ts: u64,
    pub level: &'static str,
    pub event: &'static str,
    pub flow: Option<FlowRef>,
    pub src_ip: Option<IpAddr>,
    pub risk: Option<u64>,
    pub threshold: Option<u64>,
    pub confidence: Option<u64>,
    pub decision: Option<Decision>,
    pub rationale: Vec<RationaleSignal>,
    pub action: Option<ActionRef>,
    /// Time that the map update took.
    pub latency_ns: Option<u64>,
    pub detail: Option<String>,
}

/// The contents of an [`AuditEvent`].
#[verifier::ext_equal]
pub struct AuditRecord {
    pub ts: u64,
    pub level: Seq<char>,
    pub event: Seq<char>,
    pub flow: Option<FlowRecord>,
    pub src_ip: Option<IpAddr>,
    pub risk: Option<u64>,
    pub threshold: Option<u64>,
    pub confidence: Option<u64>,
    pub decision: Option<Decision>,
    pub rationale: Seq<RationaleRecord>,
    pub action: Option<ActionRecord>,
    pub latency_ns: Option<u64>,
    pub detail: Option<Seq<char>>,
}

impl View for AuditEvent {
    type V = AuditRecord;

    open spec fn view(&self) -> AuditRecord {
        AuditRecord {
            ts: self.ts,
            level: self.level@,
            event: self.event@,
            flow: match self.flow {
                Some(f) => Some(f@),
                None => None,
            },
            src_ip: self.src_ip,
            risk: self.risk,
            threshold: self.threshold,
            confidence: self.confidence,
            decision: self.decision,
            rationale: rationale_records(self.rationale@),
            action: match self.action {
                Some(a) => Some(a@),
                None => None,
            },
            latency_ns: self.latency_ns,
            detail: match self.detail {
                Some(d) => Some(d@),
                None => None,
            },
        }
    }
}

/// Contents of a list of audit events.
pub open spec fn audit_records(evs: Seq<AuditEvent>) -> Seq<AuditRecord> {
    evs.map_values(|e: AuditEvent| e@)
}

/// Display name of an IP protocol.
pub open spec fn proto_name(proto: u8) -> Seq<char> {
    if proto == PROTO_TCP {
        "tcp"@
    } else if proto == PROTO_UDP {
        "udp"@
    } else if proto == PROTO_ICMP {
        "icmp"@
    } else if proto == PROTO_ICMPV6 {
        "icmpv6"@
    } else {
        "other"@
    }
}

/// An address and a port, separated by a colon.
pub open spec fn endpoint(ip: IpAddr, port: u16) -> Seq<char> {
    ip.spec_text() + ":"@ + text::dec(port as nat)
}

/// Appends an address and a port.
pub fn push_endpoint(out: &mut String, ip: &IpAddr, port: u16)
    ensures
        final(out)@ == old(out)@ + endpoint(*ip, port),
{
    ip.push_text(out);
    out.append(":");
    text::push_dec(out, port as u128);
    assert(out@ =~= old(out)@ + endpoint(*ip, port));
}

/// An address and a port as a string of their own.
pub fn endpoint_text(ip: &IpAddr, port: u16) -> (r: String)
    ensures
        r@ == endpoint(*ip, port),
{
    let mut out: String = String::new();
    push_endpoint(&mut out, ip, port);
    assert(out@ =~= endpoint(*ip, port));
    out
}

impl FlowRecord {
    /// The reference to a flow with the given totals; the application is not
    /// known from the key.
    pub open spec fn of(key: FlowKey, packets: u64, bytes: u64) -> FlowRecord {
        FlowRecord {
            src: endpoint(key.spec_src(), key.sport),
            dst: endpoint(key.spec_dst(), key.dport),
            proto: proto_name(key.proto),
            app: "unknown"@,
            packets,
            bytes,
        }
    }
}

impl FlowRef {
    pub fn from_key(key: &FlowKey, packets: u64, bytes: u64) -> (r: Self)
        ensures
            r@ == FlowRecord::of(*key, packets, bytes),
    {
        let proto: &'static str = match key.proto {
            6 => "tcp",
            17 => "udp",
            1 => "icmp",
            58 => "icmpv6",
            _ => "other",
        };
        FlowRef {
            src: endpoint_text(&key.src_ip(), key.sport),
            dst: endpoint_text(&key.dst_ip(), key.dport),
            proto,
            app: L7App::from_u8(0).name(),
            packets,
            bytes,
        }
    }
}

/// Where audit lines go.
#[derive(Debug, Clone)]
pub enum AuditSink {
    Stdout,
    /// Appended to the file at this path.
    File(String),
}

/// Numbers the isolations and completes audit events before they are written.
pub struct AuditLogger {
    pub sink: AuditSink,
    pub seq: u64,
}

impl AuditLogger {
    /// A logger for `path`; `-` means standard output.
    pub fn new(path: &str) -> (r: Self)
        ensures
            r.seq == 0,
            match r.sink {
                AuditSink::Stdout => path@ == "-"@,
                AuditSink::File(f) => path@ != "-"@ && f@ == path@,
            },
    {
        let sink: AuditSink = if text::same_text(path, "-") {
            AuditSink::Stdout
        } else {
            AuditSink::File(path.to_owned())
        };
        AuditLogger { sink, seq: 0 }
    }

    /// Hands out the next sequence number; the count wraps around.
    pub fn next_seq(&mut self) -> (r: u64)
        ensures
            r == old(self).seq,
            final(self).seq == (old(self).seq + 1) % 0x1_0000_0000_0000_0000,
            final(self).sink == old(self).sink,
    {
        let seq: u64 = self.seq;
        self.seq = if seq == u64::MAX {
            0
        } else {
            seq + 1
        };
        seq
    }

    /// The event as it is written: an event without a time gets the current one.
    pub fn log(&self, ev: AuditEvent, now_ms: u64) -> (r: AuditEvent)
        ensures
            r@ == ev@.stamped(now_ms),
    {
        let mut ev: AuditEvent = ev;
        if ev.ts == 0 {
            ev.ts = now_ms;
        }
        ev
    }

    /// The event as an informational decision record.
    pub fn decision(&self, ev: AuditEvent, now_ms: u64) -> (r: AuditEvent)
        ensures
            r@ == (AuditRecord { level: "info"@, event: "decision"@, ..ev@ }).stamped(now_ms),
    {
        let mut ev: AuditEvent = ev;
        ev.level = "info";
        ev.event = "decision";
        self.log(ev, now_ms)
    }

    /// The event as an enforcement alert.
    pub fn enforce(&self, ev: AuditEvent, now_ms: u64) -> (r: AuditEvent)
        ensures
            r@ == (AuditRecord { level: "alert"@, event: "isolation_enforced"@, ..ev@ }).stamped(
                now_ms,
            ),
    {
        let mut ev: AuditEvent = ev;
        ev.level = "alert";
        ev.event = "isolation_enforced";
        self.log(ev, now_ms)
    }
}

impl AuditRecord {
    /// The record with its time filled in if it had none.
    pub open spec fn stamped(self, now_ms: u64) -> AuditRecord {
        AuditRecord {
            ts: if self.ts == 0 {
                now_ms
            } else {
                self.ts
            },
            ..self
        }
    }
}

/// Stamping fills in a missing time and changes nothing else; an event that has
/// a time keeps it.
pub proof fn law_stamping_fills_in_the_time(r: AuditRecord, now_ms: u64)
    ensures
        r.ts != 0 ==> r.stamped(now_ms) == r,
        r.ts == 0 ==> r.stamped(now_ms).ts == now_ms,
        ({
            let t = r.stamped(now_ms);
            &&& t.level == r.level && t.event == r.event && t.flow == r.flow && t.src_ip
                == r.src_ip
            &&& t.risk == r.risk && t.threshold == r.threshold && t.confidence == r.confidence
            &&& t.decision == r.decision && t.rationale == r.rationale && t.action == r.action
            &&& t.latency_ns == r.latency_ns && t.detail == r.detail
        }),
{
}

/// A flow is referred to by its two ends, each an address and its own port, and
/// by the name of its protocol, with the totals that were given.
pub proof fn law_flow_reference_names_both_ends(key: FlowKey, packets: u64, bytes: u64)
    ensures
        ({
            let f = FlowRecord::of(key, packets, bytes);
            &&& text::says(f.src, key.spec_src().spec_text(), ":"@, text::dec(key.sport as nat))
            &&& text::says(f.dst, key.spec_dst().spec_text(), ":"@, text::dec(key.dport as nat))
            &&& f.packets == packets
            &&& f.bytes == bytes
            &&& key.proto == 6 ==> f.proto == "tcp"@
            &&& key.proto == 17 ==> f.proto == "udp"@
            &&& key.proto == 1 ==> f.proto == "icmp"@
            &&& key.proto == 58 ==> f.proto == "icmpv6"@
            &&& !set![1u8, 6, 17, 58].contains(key.proto) ==> f.proto == "other"@
            &&& f.app == "unknown"@
        }),
{
    broadcast use text::lemma_run_push;

    let (a, b) = (key.spec_src().spec_text(), text::dec(key.sport as nat));
    let (c, d) = (key.spec_dst().spec_text(), text::dec(key.dport as nat));
    let src = Seq::empty().push(a).push(":"@).push(b);
    let dst = Seq::empty().push(c).push(":"@).push(d);
    assert(text::run(src) == endpoint(key.spec_src(), key.sport));
    assert(text::run(dst) == endpoint(key.spec_dst(), key.dport));
    text::lemma_run_says(src, 0);
    text::lemma_run_says(dst, 0);
}

} // verus!
