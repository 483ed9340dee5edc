//! Values shared with the kernel probes: flow keys, per-flow metrics, block
//! entries, control words and ring-buffer events.

use vstd::arithmetic::power2::{lemma2_to64, pow2};
use vstd::prelude::*;

use crate::addr::IpAddr;
use crate::keyed::KeyEq;

verus! {

/// Slots of the `counters` map.
pub const COUNTER_PASS: u32 = 0;

pub const COUNTER_DROP: u32 = 1;

pub const COUNTER_BLOCK_HITS: u32 = 2;

pub const COUNTER_NEW_FLOWS: u32 = 3;

pub const COUNTER_MALFORMED: u32 = 4;

/// Slot of the `ctl` map.
pub const CTL_INDEX: u32 = 0;

/// Control modes and flags understood by the probes.
pub const MODE_MONITOR: u32 = 0;

pub const MODE_ENFORCE: u32 = 1;

pub const FLAG_BLOCK_IP: u32 = 1;

pub const FLAG_HIT_EVENTS: u32 = 2;

/// IP protocol numbers.
pub const PROTO_ICMP: u8 = 1;

pub const PROTO_TCP: u8 = 6;

pub const PROTO_UDP: u8 = 17;

pub const PROTO_ICMPV6: u8 = 58;

/// TCP flag bits.
pub const TCP_FIN: u8 = 0x01;

pub const TCP_SYN: u8 = 0x02;

pub const TCP_RST: u8 = 0x04;

pub const TCP_ACK: u8 = 0x10;

/// Event kinds emitted into the `events` ring buffer.
#[derive(Debug, Clone, Copy, PartialEq, Eq, Structural)]
pub enum EventKind {
    NewFlow,
    BlockHit,
    FlowExpired,
    Drop,
}

impl EventKind {
    /// The number that stands for the kind on the wire.
    pub open spec fn spec_code(self) -> u32 {
        match self {
            EventKind::NewFlow => 1,
            EventKind::BlockHit => 2,
            EventKind::FlowExpired => 3,
            EventKind::Drop => 4,
        }
    }

    /// The kind that a wire number stands for, if any.
    pub open spec fn decode(v: u32) -> Option<EventKind> {
        if v == 1 {
            Some(EventKind::NewFlow)
        } else if v == 2 {
            Some(EventKind::BlockHit)
        } else if v == 3 {
            Some(EventKind::FlowExpired)
        } else if v == 4 {
            Some(EventKind::Drop)
        } else {
            None
        }
    }

    pub fn from_u32(v: u32) -> (r: Option<Self>)
        ensures
            r == EventKind::decode(v),
    {
        match v {
            1 => Some(EventKind::NewFlow),
            2 => Some(EventKind::BlockHit),
            3 => Some(EventKind::FlowExpired),
            4 => Some(EventKind::Drop),
            _ => None,
        }
    }

    pub fn code(self) -> (r: u32)
        ensures
            r == self.spec_code(),
    {
        match self {
            EventKind::NewFlow => 1,
            EventKind::BlockHit => 2,
            EventKind::FlowExpired => 3,
            EventKind::Drop => 4,
        }
    }
}

/// L7 application identifiers.
#[derive(Debug, Clone, Copy, PartialEq, Eq, Structural)]
pub enum L7App {
    /// Nothing recognised.
    Unknown,
    Http,
    Tls,
    Dns,
    Ssh,
    Dhcp,
    Quic,
    UnknownTcp,
    UnknownUdp,
}

impl Default for L7App {
    fn default() -> (r: Self)
        ensures
            r == L7App::Unknown,
    {
        L7App::Unknown
    }
}

impl L7App {
    /// The number that stands for the application on the wire.
    pub open spec fn spec_code(self) -> u8 {
        match self {
            L7App::Unknown => 0,
            L7App::Http => 1,
            L7App::Tls => 2,
            L7App::Dns => 3,
            L7App::Ssh => 4,
            L7App::Dhcp => 5,
            L7App::Quic => 6,
            L7App::UnknownTcp => 10,
            L7App::UnknownUdp => 11,
        }
    }

    /// The application that a wire number stands for.
    pub open spec fn decode(v: u8) -> L7App {
        if v == 1 {
            L7App::Http
        } else if v == 2 {
            L7App::Tls
        } else if v == 3 {
            L7App::Dns
        } else if v == 4 {
            L7App::Ssh
        } else if v == 5 {
            L7App::Dhcp
        } else if v == 6 {
            L7App::Quic
        } else if v == 10 {
            L7App::UnknownTcp
        } else if v == 11 {
            L7App::UnknownUdp
        } else {
            L7App::Unknown
        }
    }

    /// Display name.
    pub open spec fn spec_name(self) -> Seq<char> {
        match self {
            L7App::Unknown => "unknown"@,
            L7App::Http => "HTTP"@,
            L7App::Tls => "TLS"@,
            L7App::Dns => "DNS"@,
            L7App::Ssh => "SSH"@,
            L7App::Dhcp => "DHCP"@,
            L7App::Quic => "QUIC"@,
            L7App::UnknownTcp => "tcp"@,
            L7App::UnknownUdp => "udp"@,
        }
    }

    /// Name in audit records.
    pub open spec fn spec_tag(self) -> Seq<char> {
        match self {
            L7App::Unknown => "unknown"@,
            L7App::Http => "http"@,
            L7App::Tls => "tls"@,
            L7App::Dns => "dns"@,
            L7App::Ssh => "ssh"@,
            L7App::Dhcp => "dhcp"@,
            L7App::Quic => "quic"@,
            L7App::UnknownTcp => "tcp"@,
            L7App::UnknownUdp => "udp"@,
        }
    }

    /// Label in session dumps; an unrecognised application is labelled `None`.
    pub open spec fn spec_label(self) -> Seq<char> {
        match self {
            L7App::Unknown => "None"@,
            L7App::Http => "Http"@,
            L7App::Tls => "Tls"@,
            L7App::Dns => "Dns"@,
            L7App::Ssh => "Ssh"@,
            L7App::Dhcp => "Dhcp"@,
            L7App::Quic => "Quic"@,
            L7App::UnknownTcp => "UnknownTcp"@,
            L7App::UnknownUdp => "UnknownUdp"@,
        }
    }

    pub fn from_u8(v: u8) -> (r: Self)
        ensures
            r == L7App::decode(v),
    {
        match v {
            1 => L7App::Http,
            2 => L7App::Tls,
            3 => L7App::Dns,
            4 => L7App::Ssh,
            5 => L7App::Dhcp,
            6 => L7App::Quic,
            10 => L7App::UnknownTcp,
            11 => L7App::UnknownUdp,
            _ => L7App::Unknown,
        }
    }

    pub fn code(self) -> (r: u8)
        ensures
            r == self.spec_code(),
    {
        match self {
            L7App::Unknown => 0,
            L7App::Http => 1,
            L7App::Tls => 2,
            L7App::Dns => 3,
            L7App::Ssh => 4,
            L7App::Dhcp => 5,
            L7App::Quic => 6,
            L7App::UnknownTcp => 10,
            L7App::UnknownUdp => 11,
        }
    }

    pub fn name(self) -> (r: &'static str)
        ensures
            r@ == self.spec_name(),
    {
        match self {
            L7App::Unknown => "unknown",
            L7App::Http => "HTTP",
            L7App::Tls => "TLS",
            L7App::Dns => "DNS",
            L7App::Ssh => "SSH",
            L7App::Dhcp => "DHCP",
            L7App::Quic => "QUIC",
            L7App::UnknownTcp => "tcp",
            L7App::UnknownUdp => "udp",
        }
    }

    /// Name in audit records.
    pub fn tag(self) -> (r: &'static str)
        ensures
            r@ == self.spec_tag(),
    {
        match self {
            L7App::Unknown => "unknown",
            L7App::Http => "http",
            L7App::Tls => "tls",
            L7App::Dns => "dns",
            L7App::Ssh => "ssh",
            L7App::Dhcp => "dhcp",
            L7App::Quic => "quic",
            L7App::UnknownTcp => "tcp",
            L7App::UnknownUdp => "udp",
        }
    }

    /// Label in session dumps.
    pub fn label(self) -> (r: &'static str)
        ensures
            r@ == self.spec_label(),
    {
        match self {
            L7App::Unknown => "None",
            L7App::Http => "Http",
            L7App::Tls => "Tls",
            L7App::Dns => "Dns",
            L7App::Ssh => "Ssh",
            L7App::Dhcp => "Dhcp",
            L7App::Quic => "Quic",
            L7App::UnknownTcp => "UnknownTcp",
            L7App::UnknownUdp => "UnknownUdp",
        }
    }
}

/// Blocklist reason codes.
#[derive(Debug, Clone, Copy, PartialEq, Eq, Structural)]
pub enum BlockReason {
    Triage,
    IpQuarantine,
    RateLimit,
    Manual,
    Exfil,
}

impl BlockReason {
    /// The number that stands for the reason on the wire.
    pub open spec fn spec_code(self) -> u32 {
        match self {
            BlockReason::Triage => 1,
            BlockReason::IpQuarantine => 2,
            BlockReason::RateLimit => 3,
            BlockReason::Manual => 4,
            BlockReason::Exfil => 5,
        }
    }

    /// The reason that a wire number stands for; unknown numbers mean triage.
    pub open spec fn decode(v: u32) -> BlockReason {
        if v == 2 {
            BlockReason::IpQuarantine
        } else if v == 3 {
            BlockReason::RateLimit
        } else if v == 4 {
            BlockReason::Manual
        } else if v == 5 {
            BlockReason::Exfil
        } else {
            BlockReason::Triage
        }
    }

    /// Display name.
    pub open spec fn spec_name(self) -> Seq<char> {
        match self {
            BlockReason::Triage => "triage"@,
            BlockReason::IpQuarantine => "ip_quarantine"@,
            BlockReason::RateLimit => "rate_limit"@,
            BlockReason::Manual => "manual"@,
            BlockReason::Exfil => "data_exfiltration"@,
        }
    }

    pub fn from_u32(v: u32) -> (r: Self)
        ensures
            r == BlockReason::decode(v),
    {
        match v {
            1 => BlockReason::Triage,
            2 => BlockReason::IpQuarantine,
            3 => BlockReason::RateLimit,
            4 => BlockReason::Manual,
            5 => BlockReason::Exfil,
            _ => BlockReason::Triage,
        }
    }

    pub fn code(self) -> (r: u32)
        ensures
            r == self.spec_code(),
    {
        match self {
            BlockReason::Triage => 1,
            BlockReason::IpQuarantine => 2,
            BlockReason::RateLimit => 3,
            BlockReason::Manual => 4,
            BlockReason::Exfil => 5,
        }
    }

    pub fn name(self) -> (r: &'static str)
        ensures
            r@ == self.spec_name(),
    {
        match self {
            BlockReason::Triage => "triage",
            BlockReason::IpQuarantine => "ip_quarantine",
            BlockReason::RateLimit => "rate_limit",
            BlockReason::Manual => "manual",
            BlockReason::Exfil => "data_exfiltration",
        }
    }
}

/// 5-tuple (+direction) key.
#[derive(Debug, Clone, Copy, PartialEq, Eq, Hash)]
pub struct FlowKey {
    /// Four words; IPv4 uses the first, the rest stay zero.
    pub saddr: [u32; 4],
    pub daddr: [u32; 4],
    pub sport: u16,
    pub dport: u16,
    pub proto: u8,
    pub dir: u8,
}

/// Source-IP quarantine key.
#[derive(Debug, Clone, Copy, PartialEq, Eq, Hash)]
pub struct IpKey {
    pub addr: [u32; 4],
}

/// Per-flow metrics.
#[derive(Debug, Clone, Copy, PartialEq, Eq, Structural)]
pub struct FlowMetrics {
    pub packets: u64,
    pub bytes: u64,
    pub sum_pkt_len: u64,
    pub first_seen_ns: u64,
    pub last_seen_ns: u64,
    pub max_pkt_len: u32,
    pub min_pkt_len: u32,
    pub syn_count: u32,
    pub fin_count: u32,
    pub rst_count: u32,
    pub tcp_flags_or: u16,
    pub l7_app: u16,
    pub l7_info: u16,
    pub proto: u8,
    pub emitted: u8,
}

/// Blocklist entry.
#[derive(Debug, Clone, Copy, PartialEq, Eq, Structural)]
pub struct BlockEntry {
    pub reason: u32,
    pub ts_ns: u32,
    pub ttl_ns: u32,
    pub seq: u32,
}

/// Control word of the probes.
#[derive(Debug, Clone, Copy, PartialEq, Eq, Structural)]
pub struct ControlCfg {
    pub mode: u32,
    pub flags: u32,
    pub block_ttl_ns: u32,
    pub reserved: u32,
}

/// Aggregate counters.
#[derive(Debug, Clone, Copy, PartialEq, Eq, Structural)]
pub struct CounterVec {
    pub pass: u64,
    pub drop: u64,
    pub block_hits: u64,
    pub new_flows: u64,
    pub malformed: u64,
    pub events_lost: u64,
}

/// Ring-buffer event.
#[derive(Debug, Clone, Copy, PartialEq, Eq)]
pub struct KernelEvent {
    pub kind: u32,
    pub ts_ns: u32,
    pub len: u32,
    pub cpu: u32,
    pub key: FlowKey,
    pub l7_app: u16,
    pub l7_info: u16,
}

impl Default for FlowKey {
    fn default() -> (r: Self)
        ensures
            r.saddr@ == seq![0u32, 0u32, 0u32, 0u32],
            r.daddr@ == seq![0u32, 0u32, 0u32, 0u32],
            r.sport == 0 && r.dport == 0 && r.proto == 0 && r.dir == 0,
    {
        FlowKey { saddr: [0, 0, 0, 0], daddr: [0, 0, 0, 0], sport: 0, dport: 0, proto: 0, dir: 0 }
    }
}

impl Default for IpKey {
    fn default() -> (r: Self)
        ensures
            r.addr@ == seq![0u32, 0u32, 0u32, 0u32],
    {
        IpKey { addr: [0, 0, 0, 0] }
    }
}

impl Default for CounterVec {
    fn default() -> (r: Self)
        ensures
            r == (CounterVec {
                pass: 0,
                drop: 0,
                block_hits: 0,
                new_flows: 0,
                malformed: 0,
                events_lost: 0,
            }),
    {
        CounterVec { pass: 0, drop: 0, block_hits: 0, new_flows: 0, malformed: 0, events_lost: 0 }
    }
}

impl KeyEq for FlowKey {
    fn same(&self, other: &Self) -> (r: bool) {
        let r = same_words(&self.saddr, &other.saddr) && same_words(&self.daddr, &other.daddr)
            && self.sport == other.sport && self.dport == other.dport && self.proto == other.proto
            && self.dir == other.dir;
        r
    }
}

impl KeyEq for IpKey {
    fn same(&self, other: &Self) -> (r: bool) {
        same_words(&self.addr, &other.addr)
    }
}

fn same_words(a: &[u32; 4], b: &[u32; 4]) -> (r: bool)
    ensures
        r == (*a == *b),
{
    let r = a[0] == b[0] && a[1] == b[1] && a[2] == b[2] && a[3] == b[3];
    proof {
        if r {
            assert(*a =~= *b);
        }
    }
    r
}

/// The IPv4 address held by a word in network order.
pub open spec fn v4_of_word(w: u32) -> IpAddr {
    IpAddr::V4(
        [
            (w / 0x1000000) as u8,
            (w / 0x10000 % 0x100) as u8,
            (w / 0x100 % 0x100) as u8,
            (w % 0x100) as u8,
        ],
    )
}

/// The IPv6 address held by four words in network order.
pub open spec fn v6_of_words(w: [u32; 4]) -> IpAddr {
    IpAddr::V6(
        [
            (w[0] / 0x10000) as u16,
            (w[0] % 0x10000) as u16,
            (w[1] / 0x10000) as u16,
            (w[1] % 0x10000) as u16,
            (w[2] / 0x10000) as u16,
            (w[2] % 0x10000) as u16,
            (w[3] / 0x10000) as u16,
            (w[3] % 0x10000) as u16,
        ],
    )
}

/// The four words that hold an address; IPv4 uses the first.
pub open spec fn words_of(ip: IpAddr) -> Seq<u32> {
    match ip {
        IpAddr::V4(o) => seq![
            (o[0] * 0x1000000 + o[1] * 0x10000 + o[2] * 0x100 + o[3]) as u32,
            0u32,
            0u32,
            0u32,
        ],
        IpAddr::V6(s) => seq![
            (s[0] * 0x10000 + s[1]) as u32,
            (s[2] * 0x10000 + s[3]) as u32,
            (s[4] * 0x10000 + s[5]) as u32,
            (s[6] * 0x10000 + s[7]) as u32,
        ],
    }
}

/// Whether any word beyond the first is in use.
pub open spec fn wide(w: [u32; 4]) -> bool {
    w[1] != 0 || w[2] != 0 || w[3] != 0
}

fn v4_from_word(w: u32) -> (r: IpAddr)
    ensures
        r == v4_of_word(w),
{
    IpAddr::V4(
        [
            (w / 0x1000000) as u8,
            (w / 0x10000 % 0x100) as u8,
            (w / 0x100 % 0x100) as u8,
            (w % 0x100) as u8,
        ],
    )
}

fn v6_from_words(w: &[u32; 4]) -> (r: IpAddr)
    ensures
        r == v6_of_words(*w),
{
    IpAddr::V6(
        [
            (w[0] / 0x10000) as u16,
            (w[0] % 0x10000) as u16,
            (w[1] / 0x10000) as u16,
            (w[1] % 0x10000) as u16,
            (w[2] / 0x10000) as u16,
            (w[2] % 0x10000) as u16,
            (w[3] / 0x10000) as u16,
            (w[3] % 0x10000) as u16,
        ],
    )
}

impl FlowKey {
    /// Source address: IPv6 for ICMPv6 and whenever a word beyond the first is
    /// in use, IPv4 otherwise.
    pub open spec fn spec_src(self) -> IpAddr {
        if self.proto == PROTO_ICMPV6 || wide(self.saddr) {
            v6_of_words(self.saddr)
        } else {
            v4_of_word(self.saddr[0])
        }
    }

    /// Destination address, by the same rule.
    pub open spec fn spec_dst(self) -> IpAddr {
        if self.proto == PROTO_ICMPV6 || wide(self.daddr) {
            v6_of_words(self.daddr)
        } else {
            v4_of_word(self.daddr[0])
        }
    }

    /// The key of the opposite direction.
    pub open spec fn spec_reverse(self) -> FlowKey {
        FlowKey {
            saddr: self.daddr,
            daddr: self.saddr,
            sport: self.dport,
            dport: self.sport,
            proto: self.proto,
            dir: 1,
        }
    }

    pub fn src_ip(&self) -> (r: IpAddr)
        ensures
            r == self.spec_src(),
    {
        if self.proto == PROTO_ICMPV6 || self.saddr[1] != 0 || self.saddr[2] != 0 || self.saddr[3]
            != 0 {
            v6_from_words(&self.saddr)
        } else {
            v4_from_word(self.saddr[0])
        }
    }

    pub fn dst_ip(&self) -> (r: IpAddr)
        ensures
            r == self.spec_dst(),
    {
        if self.proto == PROTO_ICMPV6 || self.daddr[1] != 0 || self.daddr[2] != 0 || self.daddr[3]
            != 0 {
            v6_from_words(&self.daddr)
        } else {
            v4_from_word(self.daddr[0])
        }
    }

    pub fn reverse(&self) -> (r: FlowKey)
        ensures
            r == self.spec_reverse(),
    {
        FlowKey {
            saddr: self.daddr,
            daddr: self.saddr,
            sport: self.dport,
            dport: self.sport,
            proto: self.proto,
            dir: 1,
        }
    }
}

impl IpKey {
    /// The address that the key stands for.
    pub open spec fn spec_ip(self) -> IpAddr {
        if wide(self.addr) {
            v6_of_words(self.addr)
        } else {
            v4_of_word(self.addr[0])
        }
    }

    /// The key of an address.
    pub open spec fn of(ip: IpAddr) -> IpKey {
        let w = words_of(ip);
        IpKey { addr: [w[0], w[1], w[2], w[3]] }
    }

    pub fn from_ip(ip: IpAddr) -> (r: Self)
        ensures
            r == IpKey::of(ip),
            r.addr@ == words_of(ip),
    {
        let addr: [u32; 4] = match ip {
            IpAddr::V4(o) => {
                [
                    o[0] as u32 * 0x1000000 + o[1] as u32 * 0x10000 + o[2] as u32 * 0x100
                        + o[3] as u32,
                    0,
                    0,
                    0,
                ]
            },
            IpAddr::V6(s) => {
                [
                    s[0] as u32 * 0x10000 + s[1] as u32,
                    s[2] as u32 * 0x10000 + s[3] as u32,
                    s[4] as u32 * 0x10000 + s[5] as u32,
                    s[6] as u32 * 0x10000 + s[7] as u32,
                ]
            },
        };
        proof {
            assert(addr@ =~= words_of(ip));
            assert(addr =~= IpKey::of(ip).addr);
        }
        IpKey { addr }
    }

    pub fn to_ip(&self) -> (r: IpAddr)
        ensures
            r == self.spec_ip(),
    {
        if self.addr[1] != 0 || self.addr[2] != 0 || self.addr[3] != 0 {
            v6_from_words(&self.addr)
        } else {
            v4_from_word(self.addr[0])
        }
    }
}

/// Number of bytes of a ring-buffer event.
pub const EVENT_LEN: usize = 60;

/// The 16-bit value at offset `at`.
pub open spec fn u16_at(b: Seq<u8>, at: int, little_endian: bool) -> u16 {
    if little_endian {
        (b[at] + b[at + 1] * 0x100) as u16
    } else {
        (b[at] * 0x100 + b[at + 1]) as u16
    }
}

/// The 32-bit value at offset `at`.
pub open spec fn u32_at(b: Seq<u8>, at: int, little_endian: bool) -> u32 {
    if little_endian {
        (b[at] + b[at + 1] * 0x100 + b[at + 2] * 0x10000 + b[at + 3] * 0x1000000) as u32
    } else {
        (b[at] * 0x1000000 + b[at + 1] * 0x10000 + b[at + 2] * 0x100 + b[at + 3]) as u32
    }
}

/// The four words from offset `at` on.
pub open spec fn words_at(b: Seq<u8>, at: int, little_endian: bool) -> [u32; 4] {
    [
        u32_at(b, at, little_endian),
        u32_at(b, at + 4, little_endian),
        u32_at(b, at + 8, little_endian),
        u32_at(b, at + 12, little_endian),
    ]
}

fn read_u16(b: &[u8], at: usize, little_endian: bool) -> (r: u16)
    requires
        at + 2 <= b@.len(),
    ensures
        r == u16_at(b@, at as int, little_endian),
{
    if little_endian {
        b[at] as u16 + b[at + 1] as u16 * 0x100
    } else {
        b[at] as u16 * 0x100 + b[at + 1] as u16
    }
}

fn read_u32(b: &[u8], at: usize, little_endian: bool) -> (r: u32)
    requires
        at + 4 <= b@.len(),
    ensures
        r == u32_at(b@, at as int, little_endian),
{
    if little_endian {
        b[at] as u32 + b[at + 1] as u32 * 0x100 + b[at + 2] as u32 * 0x10000 + b[at + 3] as u32
            * 0x1000000
    } else {
        b[at] as u32 * 0x1000000 + b[at + 1] as u32 * 0x10000 + b[at + 2] as u32 * 0x100 + b[at
            + 3] as u32
    }
}

fn read_words(b: &[u8], at: usize, little_endian: bool) -> (r: [u32; 4])
    requires
        at + 16 <= b@.len(),
    ensures
        r == words_at(b@, at as int, little_endian),
{
    let _n: usize = b.len();
    let r: [u32; 4] = [
        read_u32(b, at, little_endian),
        read_u32(b, at + 4, little_endian),
        read_u32(b, at + 8, little_endian),
        read_u32(b, at + 12, little_endian),
    ];
    assert(r =~= words_at(b@, at as int, little_endian));
    r
}

impl KernelEvent {
    /// The event kind; unknown numbers count as drops.
    pub open spec fn spec_kind(self) -> EventKind {
        match EventKind::decode(self.kind) {
            Some(k) => k,
            None => EventKind::Drop,
        }
    }

    pub fn event_kind(&self) -> (r: EventKind)
        ensures
            r == self.spec_kind(),
    {
        match EventKind::from_u32(self.kind) {
            Some(k) => k,
            None => EventKind::Drop,
        }
    }

    /// The event that the first bytes of a ring-buffer record hold: four words,
    /// the flow key padded to forty bytes, and two half words.
    pub open spec fn decode(b: Seq<u8>, little_endian: bool) -> KernelEvent {
        KernelEvent {
            kind: u32_at(b, 0, little_endian),
            ts_ns: u32_at(b, 4, little_endian),
            len: u32_at(b, 8, little_endian),
            cpu: u32_at(b, 12, little_endian),
            key: FlowKey {
                saddr: words_at(b, 16, little_endian),
                daddr: words_at(b, 32, little_endian),
                sport: u16_at(b, 48, little_endian),
                dport: u16_at(b, 50, little_endian),
                proto: b[52],
                dir: b[53],
            },
            l7_app: u16_at(b, 56, little_endian),
            l7_info: u16_at(b, 58, little_endian),
        }
    }

    /// Reads a ring-buffer record in the byte order of the host; records that
    /// are too short hold no event.
    pub fn from_bytes(bytes: &[u8], little_endian: bool) -> (r: Option<KernelEvent>)
        ensures
            r == if bytes@.len() < EVENT_LEN {
                None::<KernelEvent>
            } else {
                Some(KernelEvent::decode(bytes@, little_endian))
            },
            r is Some <==> bytes@.len() >= 60,
    {
        if bytes.len() < EVENT_LEN {
            return None;
        }
        Some(
            KernelEvent {
                kind: read_u32(bytes, 0, little_endian),
                ts_ns: read_u32(bytes, 4, little_endian),
                len: read_u32(bytes, 8, little_endian),
                cpu: read_u32(bytes, 12, little_endian),
                key: FlowKey {
                    saddr: read_words(bytes, 16, little_endian),
                    daddr: read_words(bytes, 32, little_endian),
                    sport: read_u16(bytes, 48, little_endian),
                    dport: read_u16(bytes, 50, little_endian),
                    proto: bytes[52],
                    dir: bytes[53],
                },
                l7_app: read_u16(bytes, 56, little_endian),
                l7_info: read_u16(bytes, 58, little_endian),
            },
        )
    }
}

/// The low 32 bits of a 64-bit value.
pub open spec fn low_word(v: u64) -> u32 {
    (v % 0x1_0000_0000) as u32
}

/// The low 32 bits of `v`.
pub fn low_u32(v: u64) -> (r: u32)
    ensures
        r == low_word(v),
{
    (v % 0x1_0000_0000) as u32
}

impl ControlCfg {
    /// The control word for a mode, the two switches and the block TTL.
    pub open spec fn spec_new(
        enforce: bool,
        block_ip: bool,
        hit_events: bool,
        block_ttl_ns: u64,
    ) -> ControlCfg {
        ControlCfg {
            mode: if enforce {
                MODE_ENFORCE
            } else {
                MODE_MONITOR
            },
            flags: ((if block_ip {
                FLAG_BLOCK_IP
            } else {
                0
            }) + (if hit_events {
                FLAG_HIT_EVENTS
            } else {
                0
            })) as u32,
            block_ttl_ns: low_word(block_ttl_ns),
            reserved: 0,
        }
    }

    pub fn new(enforce: bool, block_ip: bool, hit_events: bool, block_ttl_ns: u64) -> (r: Self)
        ensures
            r == ControlCfg::spec_new(enforce, block_ip, hit_events, block_ttl_ns),
    {
        let ip_flag: u32 = if block_ip {
            FLAG_BLOCK_IP
        } else {
            0
        };
        let hit_flag: u32 = if hit_events {
            FLAG_HIT_EVENTS
        } else {
            0
        };
        ControlCfg {
            mode: if enforce {
                MODE_ENFORCE
            } else {
                MODE_MONITOR
            },
            flags: ip_flag + hit_flag,
            block_ttl_ns: low_u32(block_ttl_ns),
            reserved: 0,
        }
    }
}

/// Wire numbers and enums convert back and forth without loss.
pub proof fn law_codes_round_trip(e: EventKind, a: L7App, b: BlockReason)
    ensures
        EventKind::decode(e.spec_code()) == Some(e),
        L7App::decode(a.spec_code()) == a,
        BlockReason::decode(b.spec_code()) == b,
{
}

/// A quarantine key round-trips through its address.
pub proof fn law_ip_key_round_trip(k: IpKey)
    ensures
        IpKey::of(k.spec_ip()) == k,
{
    assert(IpKey::of(k.spec_ip()).addr =~= k.addr);
}

proof fn lemma_halves(hi: u16, lo: u16)
    ensures
        ((hi * 0x10000 + lo) as u32) / 0x10000 == hi,
        ((hi * 0x10000 + lo) as u32) % 0x10000 == lo,
{
}

proof fn lemma_v6_round_trip(s: [u16; 8])
    requires
        wide(IpKey::of(IpAddr::V6(s)).addr),
    ensures
        IpKey::of(IpAddr::V6(s)).spec_ip() == IpAddr::V6(s),
{
    let addr = IpKey::of(IpAddr::V6(s)).addr;
    let back = v6_of_words(addr)->V6_0;
    assert(addr[0] == (s[0] * 0x10000 + s[1]) as u32);
    assert(addr[1] == (s[2] * 0x10000 + s[3]) as u32);
    assert(addr[2] == (s[4] * 0x10000 + s[5]) as u32);
    assert(addr[3] == (s[6] * 0x10000 + s[7]) as u32);
    lemma_halves(s[0], s[1]);
    lemma_halves(s[2], s[3]);
    lemma_halves(s[4], s[5]);
    lemma_halves(s[6], s[7]);
    assert(back[0] == s[0] && back[1] == s[1]);
    assert(back[2] == s[2] && back[3] == s[3]);
    assert(back[4] == s[4] && back[5] == s[5]);
    assert(back[6] == s[6] && back[7] == s[7]);
    assert(back =~= s);
}

proof fn lemma_octets(a: u8, b: u8, c: u8, d: u8)
    ensures
        ({
            let w = (a * 0x1000000 + b * 0x10000 + c * 0x100 + d) as u32;
            &&& w / 0x1000000 == a
            &&& w / 0x10000 % 0x100 == b
            &&& w / 0x100 % 0x100 == c
            &&& w % 0x100 == d
        }),
{
    let high = a * 0x100 + b;
    let mid = high * 0x100 + c;
    let w = mid * 0x100 + d;
    assert(w / 0x100 == mid && w % 0x100 == d);
    assert(mid / 0x100 == high && mid % 0x100 == c);
    assert(high / 0x100 == a && high % 0x100 == b);
    assert(w / 0x10000 == w / 0x100 / 0x100);
    assert(w / 0x1000000 == w / 0x10000 / 0x100);
}

proof fn lemma_v4_round_trip(o: [u8; 4])
    ensures
        IpKey::of(IpAddr::V4(o)).spec_ip() == IpAddr::V4(o),
{
    let addr = IpKey::of(IpAddr::V4(o)).addr;
    assert(addr[0] == (o[0] * 0x1000000 + o[1] * 0x10000 + o[2] * 0x100 + o[3]) as u32);
    assert(addr[1] == 0 && addr[2] == 0 && addr[3] == 0);
    lemma_octets(o[0], o[1], o[2], o[3]);
    let back = v4_of_word(addr[0])->V4_0;
    assert(back[0] == o[0] && back[1] == o[1] && back[2] == o[2] && back[3] == o[3]);
    assert(back =~= o);
}

/// An address round-trips through its quarantine key, except for an IPv6
/// address that has all of its last ninety-six bits clear (such a key reads
/// back as IPv4).
pub proof fn law_ip_round_trip(ip: IpAddr)
    requires
        ip is V6 ==> wide(IpKey::of(ip).addr),
    ensures
        IpKey::of(ip).spec_ip() == ip,
{
    match ip {
        IpAddr::V4(o) => {
            lemma_v4_round_trip(o);
        },
        IpAddr::V6(s) => {
            lemma_v6_round_trip(s);
        },
    }
}

/// The quarantine key of a flow's source holds exactly the flow's source words,
/// so one flow's source key matches another's only if the words are the same.
pub proof fn law_source_key_holds_source_words(k: FlowKey)
    ensures
        IpKey::of(k.spec_src()).addr == k.saddr,
{
    assert(IpKey::of(k.spec_src()).addr =~= k.saddr);
}

/// Reversing a key twice gives it back, marked as a reverse-direction key; the
/// reverse key swaps the two addresses.
pub proof fn law_reverse_involutive(k: FlowKey)
    ensures
        k.spec_reverse().spec_reverse() == (FlowKey { dir: 1, ..k }),
        k.spec_reverse().spec_src() == k.spec_dst(),
        k.spec_reverse().spec_dst() == k.spec_src(),
{
}

/// The wire numbers are those of the probes: each kind, application and reason
/// is meant by exactly the number that the probes use for it. Other numbers mean
/// no kind, an unknown application, and triage.
pub proof fn law_wire_numbers(n: u32, v: u8)
    ensures
        EventKind::decode(n) == Some(EventKind::NewFlow) <==> n == 1,
        EventKind::decode(n) == Some(EventKind::BlockHit) <==> n == 2,
        EventKind::decode(n) == Some(EventKind::FlowExpired) <==> n == 3,
        EventKind::decode(n) == Some(EventKind::Drop) <==> n == 4,
        EventKind::decode(n) is None <==> n == 0 || n > 4,
        L7App::decode(v) == L7App::Http <==> v == 1,
        L7App::decode(v) == L7App::Tls <==> v == 2,
        L7App::decode(v) == L7App::Dns <==> v == 3,
        L7App::decode(v) == L7App::Ssh <==> v == 4,
        L7App::decode(v) == L7App::Dhcp <==> v == 5,
        L7App::decode(v) == L7App::Quic <==> v == 6,
        L7App::decode(v) == L7App::UnknownTcp <==> v == 10,
        L7App::decode(v) == L7App::UnknownUdp <==> v == 11,
        L7App::Unknown.spec_code() == 0,
        BlockReason::decode(n) == BlockReason::IpQuarantine <==> n == 2,
        BlockReason::decode(n) == BlockReason::RateLimit <==> n == 3,
        BlockReason::decode(n) == BlockReason::Manual <==> n == 4,
        BlockReason::decode(n) == BlockReason::Exfil <==> n == 5,
        BlockReason::decode(n) == BlockReason::Triage <==> n < 2 || n > 5,
{
}

/// An event is a new flow only under the number of new flows, and everything
/// that no other kind's number stands for is a drop.
pub proof fn law_unknown_events_are_drops(ev: KernelEvent)
    ensures
        ev.spec_kind() == EventKind::NewFlow <==> ev.kind == 1,
        ev.spec_kind() == EventKind::BlockHit <==> ev.kind == 2,
        ev.spec_kind() == EventKind::FlowExpired <==> ev.kind == 3,
        ev.spec_kind() == EventKind::Drop <==> ev.kind == 0 || ev.kind >= 4,
{
}

/// Whether the `n` bytes from offset `at` on spell `v` in base 256, the lowest
/// digit first if `little_endian` and last otherwise.
pub open spec fn spelled(b: Seq<u8>, at: int, n: int, v: nat, little_endian: bool) -> bool {
    forall|i: nat|
        i < n ==> b[at + if little_endian {
            i as int
        } else {
            n - 1 - i
        }] == v / #[trigger] pow2(8 * i) % 256
}

proof fn lemma_spelled_u16(b: Seq<u8>, at: int, v: u16, little_endian: bool)
    requires
        spelled(b, at, 2, v as nat, little_endian),
    ensures
        u16_at(b, at, little_endian) == v,
{
    lemma2_to64();
    assert(pow2(8 * 0) == 1 && pow2(8 * 1) == 0x100);
}

proof fn lemma_spelled_u32(b: Seq<u8>, at: int, v: u32, little_endian: bool)
    requires
        spelled(b, at, 4, v as nat, little_endian),
    ensures
        u32_at(b, at, little_endian) == v,
{
    lemma2_to64();
    assert(pow2(8 * 0) == 1 && pow2(8 * 1) == 0x100 && pow2(8 * 2) == 0x10000 && pow2(8 * 3)
        == 0x1000000);
    let (p, q) = (v / 0x100, v / 0x10000);
    assert(p / 0x100 == q && q / 0x100 == v / 0x1000000);
    assert(v == p * 0x100 + v % 0x100 && p == q * 0x100 + p % 0x100);
}

/// Reading gives back what was written: from bytes that spell the fields of an
/// event at their places, in either byte order, that event is read. The two bytes
/// of padding, and what follows the record, do not matter.
pub proof fn law_event_is_read_back(b: Seq<u8>, e: KernelEvent, little_endian: bool)
    requires
        b.len() >= 60,
        spelled(b, 0, 4, e.kind as nat, little_endian),
        spelled(b, 4, 4, e.ts_ns as nat, little_endian),
        spelled(b, 8, 4, e.len as nat, little_endian),
        spelled(b, 12, 4, e.cpu as nat, little_endian),
        spelled(b, 16, 4, e.key.saddr[0] as nat, little_endian),
        spelled(b, 20, 4, e.key.saddr[1] as nat, little_endian),
        spelled(b, 24, 4, e.key.saddr[2] as nat, little_endian),
        spelled(b, 28, 4, e.key.saddr[3] as nat, little_endian),
        spelled(b, 32, 4, e.key.daddr[0] as nat, little_endian),
        spelled(b, 36, 4, e.key.daddr[1] as nat, little_endian),
        spelled(b, 40, 4, e.key.daddr[2] as nat, little_endian),
        spelled(b, 44, 4, e.key.daddr[3] as nat, little_endian),
        spelled(b, 48, 2, e.key.sport as nat, little_endian),
        spelled(b, 50, 2, e.key.dport as nat, little_endian),
        b[52] == e.key.proto,
        b[53] == e.key.dir,
        spelled(b, 56, 2, e.l7_app as nat, little_endian),
        spelled(b, 58, 2, e.l7_info as nat, little_endian),
    ensures
        KernelEvent::decode(b, little_endian) == e,
{
    lemma_spelled_u32(b, 0, e.kind, little_endian);
    lemma_spelled_u32(b, 4, e.ts_ns, little_endian);
    lemma_spelled_u32(b, 8, e.len, little_endian);
    lemma_spelled_u32(b, 12, e.cpu, little_endian);
    lemma_spelled_u32(b, 16, e.key.saddr[0], little_endian);
    lemma_spelled_u32(b, 20, e.key.saddr[1], little_endian);
    lemma_spelled_u32(b, 24, e.key.saddr[2], little_endian);
    lemma_spelled_u32(b, 28, e.key.saddr[3], little_endian);
    lemma_spelled_u32(b, 32, e.key.daddr[0], little_endian);
    lemma_spelled_u32(b, 36, e.key.daddr[1], little_endian);
    lemma_spelled_u32(b, 40, e.key.daddr[2], little_endian);
    lemma_spelled_u32(b, 44, e.key.daddr[3], little_endian);
    lemma_spelled_u16(b, 48, e.key.sport, little_endian);
    lemma_spelled_u16(b, 50, e.key.dport, little_endian);
    lemma_spelled_u16(b, 56, e.l7_app, little_endian);
    lemma_spelled_u16(b, 58, e.l7_info, little_endian);
    let d = KernelEvent::decode(b, little_endian);
    assert(d.key.saddr =~= e.key.saddr);
    assert(d.key.daddr =~= e.key.daddr);
}

/// Address words are in network order: the first octet or segment of an address
/// is the highest digit of its first word. IPv4 leaves the other words clear.
pub proof fn law_words_are_in_network_order(o: [u8; 4], s: [u16; 8], i: int)
    requires
        0 <= i < 4,
    ensures
        IpKey::of(IpAddr::V4(o)).addr[i] == if i == 0 {
            o[0] * 16_777_216 + o[1] * 65_536 + o[2] * 256 + o[3]
        } else {
            0
        },
        IpKey::of(IpAddr::V6(s)).addr[i] == s[2 * i] * 65_536 + s[2 * i + 1],
{
}

/// A word is the number that its octets spell.
pub proof fn lemma_octets_of_word(w: u32)
    ensures
        v4_of_word(w) matches IpAddr::V4(o) && w == o[0] * 16_777_216 + o[1] * 65_536 + o[2] * 256
            + o[3],
{
    let o = v4_of_word(w)->V4_0;
    let (p, q) = (w / 0x100, w / 0x10000);
    assert(p / 0x100 == q && q / 0x100 == w / 0x1000000);
    assert(o[0] == q / 0x100 && o[1] == q % 0x100 && o[2] == p % 0x100 && o[3] == w % 0x100);
}

proof fn lemma_segments_of_words(w: [u32; 4])
    ensures
        v6_of_words(w) matches IpAddr::V6(s) && forall|i: int|
            0 <= i < 4 ==> #[trigger] w[i] == s[2 * i] * 65_536 + s[2 * i + 1],
{
    let s = v6_of_words(w)->V6_0;
    assert(s[0] == w[0] / 0x10000 && s[1] == w[0] % 0x10000);
    assert(s[2] == w[1] / 0x10000 && s[3] == w[1] % 0x10000);
    assert(s[4] == w[2] / 0x10000 && s[5] == w[2] % 0x10000);
    assert(s[6] == w[3] / 0x10000 && s[7] == w[3] % 0x10000);
    assert forall|i: int| 0 <= i < 4 implies #[trigger] w[i] == s[2 * i] * 65_536 + s[2 * i + 1] by {
        assert(i == 0 || i == 1 || i == 2 || i == 3);
    }
}

/// How the words of a flow are read as an address: ICMPv6 is IPv6; otherwise an
/// address that needs only its first word is IPv4, with the word's digits as
/// octets, and any other is IPv6.
pub proof fn law_flow_addresses(k: FlowKey)
    ensures
        k.spec_src() is V4 <==> k.proto != 58 && k.saddr[1] == 0 && k.saddr[2] == 0 && k.saddr[3]
            == 0,
        k.spec_dst() is V4 <==> k.proto != 58 && k.daddr[1] == 0 && k.daddr[2] == 0 && k.daddr[3]
            == 0,
        k.spec_src() matches IpAddr::V4(o) ==> k.saddr[0] == o[0] * 16_777_216 + o[1] * 65_536 + o[2]
            * 256 + o[3],
        k.spec_dst() matches IpAddr::V4(o) ==> k.daddr[0] == o[0] * 16_777_216 + o[1] * 65_536 + o[2]
            * 256 + o[3],
        k.spec_src() matches IpAddr::V6(s) ==> forall|i: int|
            0 <= i < 4 ==> #[trigger] k.saddr[i] == s[2 * i] * 65_536 + s[2 * i + 1],
        k.spec_dst() matches IpAddr::V6(s) ==> forall|i: int|
            0 <= i < 4 ==> #[trigger] k.daddr[i] == s[2 * i] * 65_536 + s[2 * i + 1],
{
    lemma_octets_of_word(k.saddr[0]);
    lemma_octets_of_word(k.daddr[0]);
    lemma_segments_of_words(k.saddr);
    lemma_segments_of_words(k.daddr);
}

/// The control word: mode one enforces and mode zero monitors, one flag stands
/// for whole-source blocking and two for hit events, and the time-to-live is cut
/// to 32 bits.
pub proof fn law_control_word(enforce: bool, block_ip: bool, hit_events: bool, ttl_ns: u64)
    ensures
        ({
            let c = ControlCfg::spec_new(enforce, block_ip, hit_events, ttl_ns);
            &&& c.mode == 1 <==> enforce
            &&& c.mode == 0 <==> !enforce
            &&& c.flags % 2 == 1 <==> block_ip
            &&& c.flags / 2 == 1 <==> hit_events
            &&& c.flags < 4
            &&& c.block_ttl_ns == ttl_ns % 0x1_0000_0000
            &&& c.reserved == 0
        }),
{
}

/// Names tell applications apart, as tags in audit records and as labels in
/// dumps.
pub proof fn law_names_tell_applications_apart(a: L7App)
    ensures
        a.spec_tag() == "http"@ <==> a == L7App::Http,
        a.spec_tag() == "tls"@ <==> a == L7App::Tls,
        a.spec_tag() == "dns"@ <==> a == L7App::Dns,
        a.spec_tag() == "ssh"@ <==> a == L7App::Ssh,
        a.spec_tag() == "dhcp"@ <==> a == L7App::Dhcp,
        a.spec_tag() == "quic"@ <==> a == L7App::Quic,
        a.spec_tag() == "tcp"@ <==> a == L7App::UnknownTcp,
        a.spec_tag() == "udp"@ <==> a == L7App::UnknownUdp,
        a.spec_tag() == "unknown"@ <==> a == L7App::Unknown,
        a.spec_name() == "HTTP"@ <==> a == L7App::Http,
        a.spec_name() == "TLS"@ <==> a == L7App::Tls,
        a.spec_name() == "DNS"@ <==> a == L7App::Dns,
        a.spec_name() == "SSH"@ <==> a == L7App::Ssh,
        a.spec_name() == "DHCP"@ <==> a == L7App::Dhcp,
        a.spec_name() == "QUIC"@ <==> a == L7App::Quic,
        a.spec_name() == "tcp"@ <==> a == L7App::UnknownTcp,
        a.spec_name() == "udp"@ <==> a == L7App::UnknownUdp,
        a.spec_name() == "unknown"@ <==> a == L7App::Unknown,
        a.spec_label() == "Http"@ <==> a == L7App::Http,
        a.spec_label() == "Tls"@ <==> a == L7App::Tls,
        a.spec_label() == "Dns"@ <==> a == L7App::Dns,
        a.spec_label() == "Ssh"@ <==> a == L7App::Ssh,
        a.spec_label() == "Dhcp"@ <==> a == L7App::Dhcp,
        a.spec_label() == "Quic"@ <==> a == L7App::Quic,
        a.spec_label() == "UnknownTcp"@ <==> a == L7App::UnknownTcp,
        a.spec_label() == "UnknownUdp"@ <==> a == L7App::UnknownUdp,
        a.spec_label() == "None"@ <==> a == L7App::Unknown,
{
    reveal_strlit("http");
    reveal_strlit("tls");
    reveal_strlit("dns");
    reveal_strlit("ssh");
    reveal_strlit("dhcp");
    reveal_strlit("quic");
    reveal_strlit("tcp");
    reveal_strlit("udp");
    reveal_strlit("unknown");
    assert("http"@[0] == 'h' && "tls"@[1] == 'l' && "dns"@[0] == 'd' && "ssh"@[0] == 's');
    assert("dhcp"@[0] == 'd' && "quic"@[0] == 'q' && "tcp"@[1] == 'c' && "udp"@[0] == 'u');
    assert("http"@.len() == 4 && "tls"@.len() == 3 && "dns"@.len() == 3 && "ssh"@.len() == 3);
    assert("dhcp"@.len() == 4 && "quic"@.len() == 4 && "tcp"@.len() == 3 && "udp"@.len() == 3);
    assert("unknown"@.len() == 7 && "tls"@[0] == 't' && "tcp"@[0] == 't');
    reveal_strlit("HTTP");
    reveal_strlit("TLS");
    reveal_strlit("DNS");
    reveal_strlit("SSH");
    reveal_strlit("DHCP");
    reveal_strlit("QUIC");
    assert("HTTP"@[0] == 'H' && "TLS"@[0] == 'T' && "DNS"@[1] == 'N' && "SSH"@[0] == 'S');
    assert("DHCP"@[1] == 'H' && "QUIC"@[0] == 'Q' && "DNS"@[0] == 'D' && "DHCP"@[0] == 'D');
    reveal_strlit("Http");
    reveal_strlit("Tls");
    reveal_strlit("Dns");
    reveal_strlit("Ssh");
    reveal_strlit("Dhcp");
    reveal_strlit("Quic");
    reveal_strlit("UnknownTcp");
    reveal_strlit("UnknownUdp");
    reveal_strlit("None");
    assert("Http"@[0] == 'H' && "Tls"@[0] == 'T' && "Dns"@[1] == 'n' && "Ssh"@[0] == 'S');
    assert("Dhcp"@[1] == 'h' && "Quic"@[0] == 'Q' && "Dns"@[0] == 'D' && "Dhcp"@[0] == 'D');
    assert("UnknownTcp"@[7] == 'T' && "UnknownUdp"@[7] == 'U' && "None"@[0] == 'N');
    assert("UnknownTcp"@[0] == 'U' && "UnknownUdp"@[0] == 'U');
}

/// Names tell the reasons for a block apart.
pub proof fn law_names_tell_reasons_apart(b: BlockReason)
    ensures
        b.spec_name() == "triage"@ <==> b == BlockReason::Triage,
        b.spec_name() == "ip_quarantine"@ <==> b == BlockReason::IpQuarantine,
        b.spec_name() == "rate_limit"@ <==> b == BlockReason::RateLimit,
        b.spec_name() == "manual"@ <==> b == BlockReason::Manual,
        b.spec_name() == "data_exfiltration"@ <==> b == BlockReason::Exfil,
{
    reveal_strlit("triage");
    reveal_strlit("ip_quarantine");
    reveal_strlit("rate_limit");
    reveal_strlit("manual");
    reveal_strlit("data_exfiltration");
    assert("triage"@[0] == 't' && "ip_quarantine"@[0] == 'i' && "rate_limit"@[0] == 'r');
    assert("manual"@[0] == 'm' && "data_exfiltration"@[0] == 'd');
}

} // verus!
