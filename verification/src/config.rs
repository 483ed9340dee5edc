//! Runtime configuration: command line, environment override and allowlist.

use vstd::arithmetic::power2::{lemma2_to64, lemma_pow2_pos, lemma_pow2_unfold, pow2};
use vstd::prelude::*;

use crate::addr::IpAddr;
use crate::seqs;
use crate::text;

verus! {

/// Name used to ask for automatic interface selection.
pub const AUTO_IFACE: &'static str = "auto";

/// Environment variable that can force a specific interface.
pub const IFACE_ENV: &'static str = "ZQFW_IFACE";

/// A prefix may stand for at most this many host bits (65,536 addresses).
pub const MAX_HOST_BITS: u8 = 16;

/// A span of time: whole seconds and nanoseconds below one second.
#[derive(Debug, Clone, Copy, PartialEq, Eq, Structural)]
pub struct Span {
    pub secs: u64,
    pub nanos: u32,
}

impl Span {
    /// The span in nanoseconds.
    pub open spec fn ns(self) -> nat {
        (self.secs * 1_000_000_000 + self.nanos) as nat
    }

    /// The span in whole milliseconds.
    pub open spec fn ms(self) -> nat {
        (self.secs * 1_000 + self.nanos / 1_000_000) as nat
    }

    pub fn as_nanos(&self) -> (r: u128)
        ensures
            r == self.ns(),
    {
        self.secs as u128 * 1_000_000_000 + self.nanos as u128
    }

    pub fn as_millis(&self) -> (r: u128)
        ensures
            r == self.ms(),
    {
        self.secs as u128 * 1_000 + (self.nanos / 1_000_000) as u128
    }
}

/// The low 64 bits of a value.
pub open spec fn low_64(v: nat) -> u64 {
    (v % 0x1_0000_0000_0000_0000) as u64
}

/// The low 64 bits of `v`.
pub fn low_u64(v: u128) -> (r: u64)
    ensures
        r == low_64(v as nat),
{
    (v % 0x1_0000_0000_0000_0000) as u64
}

/// What `humantime` makes of a duration text: seconds and nanoseconds, or the
/// message that says what is wrong with it.
pub uninterp spec fn humantime_reading(s: Seq<char>) -> Result<(u64, u32), Seq<char>>;

/// Number of ASCII digits in a text.
pub open spec fn digit_count(s: Seq<char>) -> nat {
    s.filter(|c: char| '0' <= c <= '9').len()
}

/// Most digits that a duration text may hold.
pub const MAX_DIGITS: usize = 13;

/// Counts the ASCII digits in a text.
pub fn count_digits(s: &str) -> (r: usize)
    ensures
        r == digit_count(s@),
{
    let chars: Vec<char> = text::chars_of(s);
    let ghost p = |c: char| '0' <= c <= '9';
    let mut n: usize = 0;
    let mut i: usize = 0;
    proof {
        reveal(Seq::filter);
    }
    while i < chars.len()
        invariant
            p == (|c: char| '0' <= c <= '9'),
            n <= i <= chars@.len(),
            n == chars@.take(i as int).filter(p).len(),
        decreases chars@.len() - i,
    {
        proof {
            seqs::lemma_filter_step(chars@, i as int, p);
        }
        let c: char = chars[i];
        if '0' <= c && c <= '9' {
            n += 1;
        }
        i += 1;
    }
    assert(chars@.take(i as int) =~= chars@);
    n
}

/// `humantime::Duration::from_str`, with the duration split into seconds and
/// nanoseconds and the error turned into its message. Claimed: the reading is a
/// function of the text, and its nanoseconds stay below one second. A text
/// whose parts add up to the largest number of seconds plus one full second of
/// fractions makes the parser panic; that takes at least twelve digits for the
/// seconds and two for the fractions.
#[verifier::external_body]
fn parse_duration(s: &str) -> (r: Result<(u64, u32), String>)
    requires
        digit_count(s@) <= MAX_DIGITS,
    ensures
        match r {
            Ok(t) => humantime_reading(s@) == Ok::<(u64, u32), Seq<char>>(t) && t.1 < 1_000_000_000,
            Err(e) => humantime_reading(s@) == Err::<(u64, u32), Seq<char>>(e@),
        },
{
    match s.parse::<humantime::Duration>() {
        Ok(d) => Ok((d.as_secs(), d.subsec_nanos())),
        Err(e) => Err(e.to_string()),
    }
}

/// The span that a duration reading stands for.
pub fn span_of(reading: Result<(u64, u32), String>) -> (r: Result<Span, String>)
    ensures
        match (reading, r) {
            (Ok(t), Ok(s)) => s.secs == t.0 && s.nanos == t.1,
            (Err(e), Err(f)) => f == e,
            _ => false,
        },
{
    match reading {
        Ok(t) => Ok(Span { secs: t.0, nanos: t.1 }),
        Err(e) => Err(e),
    }
}

/// Reads a duration such as `30s` or `5m`.
pub fn humantime(s: &str) -> (r: Result<Span, String>)
    requires
        digit_count(s@) <= MAX_DIGITS,
    ensures
        match (humantime_reading(s@), r) {
            (Ok(t), Ok(span)) => span.secs == t.0 && span.nanos == t.1 && span.nanos < 1_000_000_000,
            (Err(e), Err(f)) => f@ == e,
            _ => false,
        },
{
    span_of(parse_duration(s))
}

/// An address prefix in CIDR notation.
#[derive(Debug, Clone, Copy, PartialEq, Eq)]
pub struct Cidr {
    pub addr: IpAddr,
    pub prefix_len: u8,
}

/// What `ipnet` makes of a CIDR text, if it is well formed.
pub uninterp spec fn ipnet_reading(s: Seq<char>) -> Option<Cidr>;

/// `ipnet::IpNet::from_str`, with the network split into address and prefix
/// length and the error turned into its message. Claimed: the reading is a
/// function of the text, the prefix is no longer than the address, and there is
/// only one message.
#[verifier::external_body]
fn parse_cidr(s: &str) -> (r: Result<Cidr, String>)
    ensures
        match r {
            Ok(c) => ipnet_reading(s@) == Some(c) && c.prefix_len <= c.width(),
            Err(e) => ipnet_reading(s@) is None && e@ == "invalid IP address syntax"@,
        },
{
    match s.parse::<ipnet::IpNet>() {
        Ok(ipnet::IpNet::V4(n)) => Ok(
            Cidr { addr: IpAddr::V4(n.addr().octets()), prefix_len: n.prefix_len() },
        ),
        Ok(ipnet::IpNet::V6(n)) => Ok(
            Cidr { addr: IpAddr::V6(n.addr().segments()), prefix_len: n.prefix_len() },
        ),
        Err(e) => Err(e.to_string()),
    }
}

/// Two to the power of `n`.
pub open spec fn two_to(n: nat) -> nat
    decreases n,
{
    if n == 0 {
        1
    } else {
        2 * two_to((n - 1) as nat)
    }
}

/// Whether two addresses of one family agree on all but the last `host_bits`
/// bits (at most sixteen).
pub open spec fn same_prefix(a: IpAddr, b: IpAddr, host_bits: nat) -> bool {
    match (a, b) {
        (IpAddr::V4(_), IpAddr::V4(_)) => {
            crate::protocol::words_of(a)[0] as nat / two_to(host_bits)
                == crate::protocol::words_of(b)[0] as nat / two_to(host_bits)
        },
        (IpAddr::V6(s), IpAddr::V6(t)) => {
            &&& forall|i: int| 0 <= i < 7 ==> s[i] == t[i]
            &&& s[7] as nat / two_to(host_bits) == t[7] as nat / two_to(host_bits)
        },
        _ => false,
    }
}

impl Cidr {
    /// Number of bits of an address of the prefix's family.
    pub open spec fn width(self) -> u8 {
        match self.addr {
            IpAddr::V4(_) => 32,
            IpAddr::V6(_) => 128,
        }
    }

    /// Whether the prefix expands to at most 65,536 addresses.
    pub open spec fn spec_admitted(self) -> bool {
        self.prefix_len <= self.width() && self.width() - self.prefix_len <= MAX_HOST_BITS
    }

    /// Whether an address is one of those that the prefix expands to; prefixes
    /// that are too wide are skipped.
    pub open spec fn spec_covers(self, ip: IpAddr) -> bool {
        self.spec_admitted() && same_prefix(
            self.addr,
            ip,
            (self.width() - self.prefix_len) as nat,
        )
    }

    /// Whether the prefix is narrow enough to take effect.
    pub fn admitted(&self) -> (r: bool)
        ensures
            r == self.spec_admitted(),
    {
        let width: u8 = match self.addr {
            IpAddr::V4(_) => 32,
            IpAddr::V6(_) => 128,
        };
        self.prefix_len <= width && width - self.prefix_len <= MAX_HOST_BITS
    }

    /// Whether the prefix takes effect and holds `ip`.
    pub fn covers(&self, ip: &IpAddr) -> (r: bool)
        ensures
            r == self.spec_covers(*ip),
    {
        if !self.admitted() {
            return false;
        }
        match (self.addr, ip) {
            (IpAddr::V4(_), IpAddr::V4(_)) => {
                let block: u32 = block_size(32 - self.prefix_len);
                let mine: u32 = crate::protocol::IpKey::from_ip(self.addr).addr[0];
                let theirs: u32 = crate::protocol::IpKey::from_ip(*ip).addr[0];
                mine / block == theirs / block
            },
            (IpAddr::V6(s), IpAddr::V6(t)) => {
                let block: u32 = block_size(128 - self.prefix_len);
                s[0] == t[0] && s[1] == t[1] && s[2] == t[2] && s[3] == t[3] && s[4] == t[4] && s[5]
                    == t[5] && s[6] == t[6] && s[7] as u32 / block == t[7] as u32 / block
            },
            _ => false,
        }
    }
}

fn block_size(host_bits: u8) -> (r: u32)
    requires
        host_bits <= 16,
    ensures
        r == two_to(host_bits as nat),
        r > 0,
{
    proof {
        reveal_with_fuel(two_to, 17);
    }
    match host_bits {
        0 => 1,
        1 => 2,
        2 => 4,
        3 => 8,
        4 => 16,
        5 => 32,
        6 => 64,
        7 => 128,
        8 => 256,
        9 => 512,
        10 => 1_024,
        11 => 2_048,
        12 => 4_096,
        13 => 8_192,
        14 => 16_384,
        15 => 32_768,
        _ => 65_536,
    }
}

/// Whether any prefix of an allowlist covers `ip`.
pub open spec fn exempt(allowlist: Seq<Cidr>, ip: IpAddr) -> bool {
    exists|i: int| 0 <= i < allowlist.len() && (#[trigger] allowlist[i]).spec_covers(ip)
}

/// Whether a source is exempt from quarantine.
pub fn is_exempt(allowlist: &Vec<Cidr>, ip: &IpAddr) -> (r: bool)
    ensures
        r == exempt(allowlist@, *ip),
{
    let mut i: usize = 0;
    while i < allowlist.len()
        invariant
            i <= allowlist@.len(),
            forall|j: int| 0 <= j < i ==> !(#[trigger] allowlist@[j]).spec_covers(*ip),
        decreases allowlist@.len() - i,
    {
        if allowlist[i].covers(ip) {
            return true;
        }
        i += 1;
    }
    false
}

/// Command-line options. The threshold counts in units of
/// [`crate::triage::UNIT`].
#[derive(Debug, Clone)]
pub struct Cli {
    /// Network interface to attach to; `auto` selects the default-route one.
    pub iface: String,
    /// Run without kernel access.
    pub mock: bool,
    /// Attach mode: driver, skb, or default.
    pub xdp_mode: String,
    /// Start in monitor mode (observe, never drop).
    pub monitor: bool,
    pub threshold: u64,
    /// Quarantine duration.
    pub quarantine: Span,
    /// Re-evaluation interval.
    pub reap_interval: Span,
    /// Idle flow expiry.
    pub flow_ttl: Span,
    /// Also quarantine whole sources on systemic behaviour.
    pub block_ip: bool,
    /// Emit block-hit events.
    pub hit_events: bool,
    /// Audit log path; `-` for standard output.
    pub audit: String,
    /// Metrics bind address.
    pub metrics_addr: String,
    /// Directory where pinned maps live.
    pub pin_dir: Option<String>,
    /// Prefixes that are exempt from quarantine.
    pub allowlist: Vec<String>,
}

#[derive(Debug, Clone)]
pub struct Config {
    pub cli: Cli,
    /// Quarantine duration in nanoseconds.
    pub block_ttl_ns: u64,
    /// Whether whole-IP quarantine is enabled.
    pub block_ip: bool,
    /// Parsed allowlist entries.
    pub allowlist: Vec<Cidr>,
}

/// Why a configuration is refused.
#[derive(Debug, Clone)]
pub enum ConfigError {
    NoDefaultRoute,
    InvalidCidr { cidr: String, reason: String },
}

impl ConfigError {
    /// The message for the operator.
    pub open spec fn spec_message(self) -> Seq<char> {
        match self {
            ConfigError::NoDefaultRoute =>
                "no default-route interface found; pass --iface <name> or set ZQFW_IFACE"@,
            ConfigError::InvalidCidr { cidr, reason } => "invalid allowlist CIDR '"@ + cidr@
                + "': "@ + reason@,
        }
    }

    pub fn message(&self) -> (r: String)
        ensures
            r@ == self.spec_message(),
    {
        let mut t: String = String::new();
        match self {
            ConfigError::NoDefaultRoute => {
                t.append("no default-route interface found; pass --iface <name> or set ZQFW_IFACE");
            },
            ConfigError::InvalidCidr { cidr, reason } => {
                t.append("invalid allowlist CIDR '");
                t.append(cidr.as_str());
                t.append("': ");
                t.append(reason.as_str());
            },
        }
        assert(t@ =~= self.spec_message());
        t
    }
}

/// Index of the first line break in `s`, or its length.
pub open spec fn line_end(s: Seq<char>) -> nat
    decreases s.len(),
{
    if s.len() == 0 || s[0] == '\n' {
        0
    } else {
        1 + line_end(s.drop_first())
    }
}

/// What follows the first line of `s`.
pub open spec fn after_line(s: Seq<char>) -> Seq<char> {
    if line_end(s) < s.len() {
        s.skip(line_end(s) as int + 1)
    } else {
        Seq::empty()
    }
}

/// Scans the route lines of `s`: the interface of the first line whose
/// destination is all zeros. A line without any field ends the scan.
pub open spec fn default_route(s: Seq<char>) -> Option<Seq<char>>
    decreases s.len(),
{
    let line = s.take(line_end(s) as int);
    if s.len() == 0 || text::first_field(line).len() == 0 {
        None
    } else if text::second_field(line) == "00000000"@ {
        Some(text::first_field(line))
    } else {
        default_route(after_line(s))
    }
}

/// The interface of the IPv4 default route, by a routing table that starts with
/// a header line.
pub open spec fn default_interface(table: Seq<char>) -> Option<Seq<char>> {
    default_route(after_line(table))
}

fn find_line_end(chars: &Vec<char>, from: usize) -> (r: usize)
    requires
        from <= chars@.len(),
    ensures
        from <= r <= chars@.len(),
        r - from == line_end(chars@.skip(from as int)),
{
    let mut i: usize = from;
    while i < chars.len() && chars[i] != '\n'
        invariant
            from <= i <= chars@.len(),
            line_end(chars@.skip(from as int)) == (i - from) + line_end(chars@.skip(i as int)),
        decreases chars@.len() - i,
    {
        proof {
            assert(chars@.skip(i as int).drop_first() =~= chars@.skip(i + 1));
        }
        i += 1;
    }
    i
}

fn next_line(chars: &Vec<char>, from: usize) -> (r: usize)
    requires
        from <= chars@.len(),
    ensures
        from <= r <= chars@.len(),
        from < chars@.len() ==> from < r,
        chars@.skip(r as int) == after_line(chars@.skip(from as int)),
{
    let end: usize = find_line_end(chars, from);
    if end < chars.len() {
        proof {
            assert(chars@.skip(from as int).skip(end - from + 1) =~= chars@.skip(end + 1));
        }
        end + 1
    } else {
        proof {
            assert(chars@.skip(end as int) =~= Seq::<char>::empty());
        }
        end
    }
}

/// Picks the interface carrying the IPv4 default route from the text of the
/// kernel's routing table.
pub fn resolve_default_interface(table: &str) -> (r: Option<String>)
    ensures
        match (default_interface(table@), r) {
            (Some(name), Some(s)) => s@ == name,
            (None, None) => true,
            _ => false,
        },
{
    let chars: Vec<char> = text::chars_of(table);
    let n: usize = chars.len();
    proof {
        assert(chars@.skip(0) =~= table@);
    }
    let mut at: usize = next_line(&chars, 0);
    while at < n
        invariant
            n == chars@.len(),
            at <= n,
            default_route(chars@.skip(at as int)) == default_interface(table@),
        decreases n - at,
    {
        let end: usize = find_line_end(&chars, at);
        let ghost rest = chars@.skip(at as int);
        let ghost line = rest.take(line_end(rest) as int);
        proof {
            assert(line =~= chars@.subrange(at as int, end as int));
        }
        let start: usize = text::skip_white_space(&chars, at, end);
        let stop: usize = text::word_end(&chars, start, end);
        proof {
            assert(chars@.subrange(start as int, stop as int) == text::first_field(line));
        }
        if start == stop {
            return None;
        }
        let start2: usize = text::skip_white_space(&chars, stop, end);
        let stop2: usize = text::word_end(&chars, start2, end);
        proof {
            let trimmed = text::trim_start(line);
            assert(trimmed == chars@.subrange(start as int, end as int));
            assert(trimmed.skip(text::word(trimmed).len() as int) =~= chars@.subrange(
                stop as int,
                end as int,
            ));
            assert(chars@.subrange(start2 as int, stop2 as int) == text::second_field(line));
        }
        let dest: String = text::text_of(&chars, start2, stop2);
        if text::same_text(dest.as_str(), "00000000") {
            return Some(text::text_of(&chars, start, stop));
        }
        at = next_line(&chars, at);
    }
    proof {
        assert(chars@.skip(at as int) =~= Seq::<char>::empty());
    }
    None
}

/// The interface to use: the environment override or the option, with `auto`
/// resolved through the routing table unless nothing is attached.
pub open spec fn chosen_interface(
    iface: Seq<char>,
    mock: bool,
    from_env: Option<Seq<char>>,
    routes: Option<Seq<char>>,
) -> Option<Seq<char>> {
    let wanted = match from_env {
        Some(v) => if v.len() > 0 {
            v
        } else {
            iface
        },
        None => iface,
    };
    if wanted == AUTO_IFACE@ && !mock {
        match routes {
            Some(table) => default_interface(table),
            None => None,
        }
    } else {
        Some(wanted)
    }
}

/// The contents of an optional text.
pub open spec fn contents(s: Option<String>) -> Option<Seq<char>> {
    match s {
        Some(s) => Some(s@),
        None => None,
    }
}

/// Chooses the interface. `routes` is the text of the kernel's routing table,
/// if it can be read.
pub fn choose_interface(
    iface: String,
    mock: bool,
    from_env: Option<String>,
    routes: Option<String>,
) -> (r: Option<String>)
    ensures
        contents(r) == chosen_interface(iface@, mock, contents(from_env), contents(routes)),
{
    let wanted: String = match from_env {
        Some(v) => {
            if v.as_str().is_empty() {
                iface
            } else {
                v
            }
        },
        None => iface,
    };
    if text::same_text(wanted.as_str(), AUTO_IFACE) && !mock {
        match routes {
            Some(table) => resolve_default_interface(table.as_str()),
            None => None,
        }
    } else {
        Some(wanted)
    }
}

/// Whether every text reads as a prefix.
pub open spec fn all_read(list: Seq<String>) -> bool {
    forall|i: int| 0 <= i < list.len() ==> ipnet_reading((#[trigger] list[i])@) is Some
}

/// Reads the allowlist; the first text that is no prefix is reported.
pub fn parse_allowlist(list: &Vec<String>) -> (r: Result<Vec<Cidr>, ConfigError>)
    ensures
        match r {
            Ok(nets) => {
                &&& nets@.len() == list@.len()
                &&& forall|i: int|
                    0 <= i < nets@.len() ==> ipnet_reading(list@[i]@) == Some(#[trigger] nets@[i])
                &&& forall|i: int|
                    0 <= i < nets@.len() ==> (#[trigger] nets@[i]).prefix_len <= nets@[i].width()
            },
            Err(ConfigError::InvalidCidr { cidr, reason }) => exists|i: int|
                {
                    &&& 0 <= i < list@.len()
                    &&& ipnet_reading((#[trigger] list@[i])@) is None
                    &&& all_read(list@.take(i))
                    &&& cidr@ == list@[i]@
                    &&& reason@ == "invalid IP address syntax"@
                },
            Err(ConfigError::NoDefaultRoute) => false,
        },
{
    let mut nets: Vec<Cidr> = Vec::new();
    let mut i: usize = 0;
    while i < list.len()
        invariant
            i <= list@.len(),
            nets@.len() == i,
            forall|j: int| 0 <= j < i ==> ipnet_reading(list@[j]@) == Some(#[trigger] nets@[j]),
            forall|j: int| 0 <= j < i ==> (#[trigger] nets@[j]).prefix_len <= nets@[j].width(),
            all_read(list@.take(i as int)),
        decreases list@.len() - i,
    {
        match parse_cidr(list[i].as_str()) {
            Ok(net) => {
                nets.push(net);
            },
            Err(reason) => {
                return Err(
                    ConfigError::InvalidCidr { cidr: list[i].as_str().to_owned(), reason },
                );
            },
        }
        proof {
            assert forall|j: int| 0 <= j < i + 1 implies ipnet_reading(
                (#[trigger] list@.take(i + 1)[j])@,
            ) is Some by {
                if j < i {
                    assert(list@.take(i as int)[j] == list@[j]);
                }
            }
        }
        i += 1;
    }
    Ok(nets)
}

impl Config {
    /// The configuration that the parts make up. A missing interface is
    /// reported before a bad allowlist entry.
    pub fn assemble(
        cli: Cli,
        iface: Option<String>,
        allowlist: Result<Vec<Cidr>, ConfigError>,
    ) -> (r: Result<Config, ConfigError>)
        ensures
            match r {
                Ok(c) => {
                    &&& iface == Some(c.cli.iface)
                    &&& c.cli == (Cli { iface: c.cli.iface, ..cli })
                    &&& c.block_ttl_ns == if cli.quarantine.ns() > u64::MAX {
                        u64::MAX as nat
                    } else {
                        cli.quarantine.ns()
                    }
                    &&& c.block_ip == cli.block_ip
                    &&& allowlist == Ok::<Vec<Cidr>, ConfigError>(c.allowlist)
                },
                Err(e) => if iface is None {
                    e is NoDefaultRoute
                } else {
                    allowlist == Err::<Vec<Cidr>, ConfigError>(e)
                },
            },
    {
        let mut cli: Cli = cli;
        match iface {
            Some(name) => {
                cli.iface = name;
            },
            None => {
                return Err(ConfigError::NoDefaultRoute);
            },
        }
        let ttl: u128 = cli.quarantine.as_nanos();
        let block_ttl_ns: u64 = if ttl > u64::MAX as u128 {
            u64::MAX
        } else {
            ttl as u64
        };
        let block_ip: bool = cli.block_ip;
        match allowlist {
            Ok(allowlist) => Ok(Config { cli, block_ttl_ns, block_ip, allowlist }),
            Err(e) => Err(e),
        }
    }

    /// Completes parsed command-line options: `from_env` is the value of
    /// [`IFACE_ENV`], if set, and `routes` the text of the kernel's routing
    /// table, if it can be read.
    pub fn from_env(cli: Cli, from_env: Option<String>, routes: Option<String>) -> (r: Result<
        Config,
        ConfigError,
    >)
        ensures
            ({
                let iface = chosen_interface(
                    cli.iface@,
                    cli.mock,
                    contents(from_env),
                    contents(routes),
                );
                match r {
                    Ok(c) => {
                        &&& iface == Some(c.cli.iface@)
                        &&& c.cli == (Cli { iface: c.cli.iface, ..cli })
                        &&& c.block_ttl_ns == if cli.quarantine.ns() > u64::MAX {
                            u64::MAX as nat
                        } else {
                            cli.quarantine.ns()
                        }
                        &&& c.block_ip == cli.block_ip
                        &&& c.allowlist@.len() == cli.allowlist@.len()
                        &&& forall|i: int|
                            0 <= i < c.allowlist@.len() ==> ipnet_reading(cli.allowlist@[i]@)
                                == Some(#[trigger] c.allowlist@[i])
                    },
                    Err(ConfigError::NoDefaultRoute) => iface is None,
                    Err(ConfigError::InvalidCidr { cidr, reason }) => {
                        &&& iface is Some
                        &&& reason@ == "invalid IP address syntax"@
                        &&& exists|i: int|
                            {
                                &&& 0 <= i < cli.allowlist@.len()
                                &&& ipnet_reading((#[trigger] cli.allowlist@[i])@) is None
                                &&& all_read(cli.allowlist@.take(i))
                                &&& cidr@ == cli.allowlist@[i]@
                            }
                    },
                }
            }),
    {
        let wanted: String = cli.iface.as_str().to_owned();
        let iface: Option<String> = choose_interface(wanted, cli.mock, from_env, routes);
        let allowlist: Result<Vec<Cidr>, ConfigError> = parse_allowlist(&cli.allowlist);
        Config::assemble(cli, iface, allowlist)
    }
}

/// How the probes attach to an interface.
#[derive(Debug, Clone, Copy, PartialEq, Eq, Structural)]
pub enum AttachMode {
    Default,
    Skb,
    Driver,
}

impl AttachMode {
    /// The attach mode that an option names; anything unknown means the default.
    pub fn from_option(mode: &str) -> (r: Self)
        ensures
            r == if mode@ == "skb"@ {
                AttachMode::Skb
            } else if mode@ == "driver"@ {
                AttachMode::Driver
            } else {
                AttachMode::Default
            },
    {
        if text::same_text(mode, "skb") {
            AttachMode::Skb
        } else if text::same_text(mode, "driver") {
            AttachMode::Driver
        } else {
            AttachMode::Default
        }
    }
}

/// A prefix that takes effect covers its own address and no address of the other
/// family; one that stands for more than 65,536 addresses covers nothing.
pub proof fn law_prefix_covers_itself(c: Cidr, ip: IpAddr)
    ensures
        c.spec_admitted() ==> c.spec_covers(c.addr),
        c.addr is V4 != ip is V4 ==> !c.spec_covers(ip),
        c.width() - c.prefix_len > MAX_HOST_BITS ==> !c.spec_covers(ip),
{
}

/// A full-length prefix stands for exactly one address.
pub proof fn law_exact_address_covers_itself_only(c: Cidr, ip: IpAddr)
    requires
        c.prefix_len == c.width(),
    ensures
        c.spec_covers(ip) <==> ip == c.addr,
{
    if c.spec_covers(ip) {
        match (c.addr, ip) {
            (IpAddr::V4(_), IpAddr::V4(_)) => {
                let (mine, theirs) = (
                    crate::protocol::IpKey::of(c.addr),
                    crate::protocol::IpKey::of(ip),
                );
                assert(mine.addr =~= theirs.addr);
                crate::protocol::law_ip_round_trip(c.addr);
                crate::protocol::law_ip_round_trip(ip);
            },
            (IpAddr::V6(s), IpAddr::V6(t)) => {
                assert(s =~= t);
            },
            _ => {},
        }
    }
}

proof fn lemma_two_to(n: nat)
    ensures
        two_to(n) == pow2(n),
        two_to(n) > 0,
    decreases n,
{
    lemma_pow2_pos(n);
    if n == 0 {
        lemma2_to64();
    } else {
        lemma_two_to((n - 1) as nat);
        lemma_pow2_unfold(n);
    }
}

/// Dropping one more bit halves.
proof fn lemma_halved(x: nat, b: nat)
    ensures
        x / pow2(b) == 2 * (x / pow2(b + 1)) + x / pow2(b) % 2,
{
    lemma_pow2_pos(b);
    lemma_pow2_unfold(b + 1);
    let d = pow2(b);
    assert(x / (2 * d) == x / d / 2) by (nonlinear_arith)
        requires
            d > 0,
    ;
}

/// Numbers below `2^width` have the same quotient by `2^host` exactly when they
/// agree in every bit from `host` on.
proof fn lemma_high_bits(x: nat, y: nat, host: nat, width: nat)
    requires
        host <= width,
        x < pow2(width),
        y < pow2(width),
    ensures
        x / pow2(host) == y / pow2(host) <==> forall|b: nat|
            host <= b < width ==> x / #[trigger] pow2(b) % 2 == y / pow2(b) % 2,
    decreases width - host,
{
    if host == width {
        lemma_pow2_pos(width);
        assert(x / pow2(width) == 0 && y / pow2(width) == 0) by (nonlinear_arith)
            requires
                x < pow2(width),
                y < pow2(width),
        ;
    } else {
        lemma_high_bits(x, y, host + 1, width);
        lemma_halved(x, host);
        lemma_halved(y, host);
        let (p, q) = (x / pow2(host + 1), y / pow2(host + 1));
        if x / pow2(host) == y / pow2(host) {
            let a = x / pow2(host);
            assert(p == q) by (nonlinear_arith)
                requires
                    a == 2 * p + a % 2,
                    a == 2 * q + a % 2,
            ;
            assert forall|b: nat| host <= b < width implies x / #[trigger] pow2(b) % 2 == y
                / pow2(b) % 2 by {
                if b != host {
                    assert(host + 1 <= b);
                }
            }
        }
        if forall|b: nat| host <= b < width ==> x / #[trigger] pow2(b) % 2 == y / pow2(b) % 2 {
            assert(x / pow2(host) % 2 == y / pow2(host) % 2);
            assert forall|b: nat| host + 1 <= b < width implies x / #[trigger] pow2(b) % 2 == y
                / pow2(b) % 2 by {
                assert(host <= b);
            }
            assert(p == q);
        }
    }
}

/// An IPv4 prefix that takes effect covers exactly the IPv4 addresses whose
/// leading `prefix_len` bits are those of its own address; bit `b` counts from
/// the last one of the 32.
pub proof fn law_v4_prefix_compares_leading_bits(c: Cidr, o: [u8; 4], p: [u8; 4], x: nat, y: nat)
    requires
        c.addr == IpAddr::V4(o),
        16 <= c.prefix_len <= 32,
        x == o[0] * 16_777_216 + o[1] * 65_536 + o[2] * 256 + o[3],
        y == p[0] * 16_777_216 + p[1] * 65_536 + p[2] * 256 + p[3],
    ensures
        c.spec_covers(IpAddr::V4(p)) <==> forall|b: nat|
            32 - c.prefix_len <= b < 32 ==> x / #[trigger] pow2(b) % 2 == y / pow2(b) % 2,
{
    let host = (32 - c.prefix_len) as nat;
    lemma_two_to(host);
    lemma2_to64();
    lemma_high_bits(x, y, host, 32);
    assert(crate::protocol::words_of(IpAddr::V4(o))[0] == x);
    assert(crate::protocol::words_of(IpAddr::V4(p))[0] == y);
}

/// An IPv6 prefix that takes effect covers exactly the IPv6 addresses whose
/// leading `prefix_len` bits are those of its own address: all of the first
/// seven segments, and what is left of the prefix in the eighth.
pub proof fn law_v6_prefix_compares_leading_bits(c: Cidr, s: [u16; 8], t: [u16; 8])
    requires
        c.addr == IpAddr::V6(s),
        112 <= c.prefix_len <= 128,
    ensures
        c.spec_covers(IpAddr::V6(t)) <==> (forall|i: int| 0 <= i < 7 ==> s@[i] == t@[i])
            && forall|b: nat|
            128 - c.prefix_len <= b < 16 ==> s[7] as nat / #[trigger] pow2(b) % 2 == t[7] as nat
                / pow2(b) % 2,
{
    let host = (128 - c.prefix_len) as nat;
    lemma_two_to(host);
    lemma2_to64();
    lemma_high_bits(s[7] as nat, t[7] as nat, host, 16);
    assert((forall|i: int| 0 <= i < 7 ==> s@[i] == t@[i]) <==> (forall|i: int|
        0 <= i < 7 ==> s[i] == t[i]));
}

/// The addresses that an IPv4 prefix covers are a block: with `h` host bits they
/// are the `2^h` numbers from the prefix's own address with its host bits
/// cleared.
pub proof fn law_v4_prefix_is_a_block(
    c: Cidr,
    o: [u8; 4],
    p: [u8; 4],
    x: nat,
    y: nat,
    h: nat,
)
    requires
        c.addr == IpAddr::V4(o),
        16 <= c.prefix_len <= 32,
        h == 32 - c.prefix_len,
        x == o[0] * 16_777_216 + o[1] * 65_536 + o[2] * 256 + o[3],
        y == p[0] * 16_777_216 + p[1] * 65_536 + p[2] * 256 + p[3],
    ensures
        c.spec_covers(IpAddr::V4(p)) <==> x - x % pow2(h) <= y < x - x % pow2(h) + pow2(h),
{
    lemma_two_to(h);
    assert(crate::protocol::words_of(IpAddr::V4(o))[0] == x);
    assert(crate::protocol::words_of(IpAddr::V4(p))[0] == y);
    lemma_block(x, y, pow2(h));
}

/// An IPv4 prefix with `h` host bits covers `2^h` addresses.
pub proof fn law_v4_prefix_covers_its_hosts(c: Cidr, h: nat)
    requires
        c.addr is V4,
        16 <= c.prefix_len <= 32,
        h == 32 - c.prefix_len,
    ensures
        Set::new(
            |w: int|
                0 <= w <= u32::MAX && c.spec_covers(crate::protocol::v4_of_word(w as u32)),
        ).len() == pow2(h),
{
    let o = c.addr->V4_0;
    let x = (o[0] * 16_777_216 + o[1] * 65_536 + o[2] * 256 + o[3]) as nat;
    let base = x - x % pow2(h);
    let words = Set::new(
        |w: int| 0 <= w <= u32::MAX && c.spec_covers(crate::protocol::v4_of_word(w as u32)),
    );
    lemma_block_fits(x, h);
    let block = vstd::set_lib::set_int_range(base, base + pow2(h));
    assert forall|w: int| words.contains(w) <==> block.contains(w) by {
        if 0 <= w <= u32::MAX {
            let p = crate::protocol::v4_of_word(w as u32)->V4_0;
            crate::protocol::lemma_octets_of_word(w as u32);
            law_v4_prefix_is_a_block(c, o, p, x, w as nat, h);
        }
    }
    assert(words =~= block);
    vstd::set_lib::lemma_int_range(base, base + pow2(h));
}

/// The addresses that an IPv6 prefix covers are a block of the eighth segment:
/// with `h` host bits they are the `2^h` addresses from the prefix's own with its
/// host bits cleared.
pub proof fn law_v6_prefix_is_a_block(c: Cidr, s: [u16; 8], t: [u16; 8], h: nat)
    requires
        c.addr == IpAddr::V6(s),
        112 <= c.prefix_len <= 128,
        h == 128 - c.prefix_len,
        forall|i: int| 0 <= i < 7 ==> s@[i] == t@[i],
    ensures
        ({
            let base = s[7] - s[7] as nat % pow2(h);
            c.spec_covers(IpAddr::V6(t)) <==> base <= t[7] < base + pow2(h)
        }),
{
    lemma_two_to(h);
    lemma2_to64();
    lemma_block(s[7] as nat, t[7] as nat, pow2(h));
    assert forall|i: int| 0 <= i < 7 implies s[i] == t[i] by {
        assert(s@[i] == t@[i]);
    }
}

proof fn lemma_block(x: nat, y: nat, d: nat)
    requires
        d > 0,
    ensures
        x / d == y / d <==> x - x % d <= y < x - x % d + d,
{
    assert(x == d * (x / d) + x % d && y == d * (y / d) + y % d && x % d < d && y % d < d)
        by (nonlinear_arith)
        requires
            d > 0,
    ;
    let (q, r) = (x / d, y / d);
    if q < r {
        assert(d * q + d <= d * r) by (nonlinear_arith)
            requires
                q < r,
                d > 0,
        ;
    }
    if r < q {
        assert(d * r + d <= d * q) by (nonlinear_arith)
            requires
                r < q,
                d > 0,
        ;
    }
}

proof fn lemma_block_fits(x: nat, h: nat)
    requires
        h <= 16,
        x <= u32::MAX,
    ensures
        pow2(h) > 0,
        0 <= x - x % pow2(h),
        x - x % pow2(h) + pow2(h) <= 0x1_0000_0000,
{
    lemma_pow2_pos(h);
    let (d, e) = (pow2(h), pow2((32 - h) as nat));
    vstd::arithmetic::power2::lemma_pow2_adds(h, (32 - h) as nat);
    lemma2_to64();
    assert(d * e == 0x1_0000_0000);
    let q = x / d;
    assert(x == d * q + x % d && 0 <= x % d < d) by (nonlinear_arith)
        requires
            d > 0,
            q == x / d,
    ;
    assert(q < e) by (nonlinear_arith)
        requires
            d * q <= x,
            x < d * e,
            d > 0,
    ;
    assert(d * q + d <= d * e) by (nonlinear_arith)
        requires
            q + 1 <= e,
            d > 0,
    ;
    assert(0 <= d * q) by (nonlinear_arith)
        requires
            d >= 0,
            q >= 0,
    ;
}

/// A prefix takes effect exactly from a /16 on for IPv4 and from a /112 on for
/// IPv6, up to the length of an address; one that does not covers nothing, and
/// none covers an address of the other family.
pub proof fn law_prefix_takes_effect(c: Cidr, ip: IpAddr)
    ensures
        c.addr is V4 ==> (c.spec_admitted() <==> 16 <= c.prefix_len <= 32),
        c.addr is V6 ==> (c.spec_admitted() <==> 112 <= c.prefix_len <= 128),
        c.spec_covers(ip) ==> c.spec_admitted() && (c.addr is V4 <==> ip is V4),
{
}

/// A span in milliseconds is its nanoseconds, rounded down.
pub proof fn law_span_units_agree(s: Span)
    requires
        s.nanos < 1_000_000_000,
    ensures
        s.ms() * 1_000_000 <= s.ns() < (s.ms() + 1) * 1_000_000,
        s.secs * 1_000_000_000 <= s.ns() < (s.secs + 1) * 1_000_000_000,
{
}

/// An address is exempt once a prefix of the list covers it: one more prefix
/// exempts what it covers and changes nothing else, wherever it stands.
pub proof fn law_each_prefix_exempts(a: Seq<Cidr>, c: Cidr, b: Seq<Cidr>, ip: IpAddr)
    ensures
        exempt(a.push(c) + b, ip) <==> c.spec_covers(ip) || exempt(a + b, ip),
        !exempt(Seq::<Cidr>::empty(), ip),
{
    let (with, without) = (a.push(c) + b, a + b);
    if exempt(with, ip) {
        let i = choose|i: int| 0 <= i < with.len() && (#[trigger] with[i]).spec_covers(ip);
        if i < a.len() {
            assert(without[i] == with[i]);
        } else if i > a.len() {
            assert(without[i - 1] == with[i]);
        }
    }
    if exempt(without, ip) {
        let i = choose|i: int| 0 <= i < without.len() && (#[trigger] without[i]).spec_covers(ip);
        if i < a.len() {
            assert(with[i] == without[i]);
        } else {
            assert(with[i + 1] == without[i]);
        }
    }
    if c.spec_covers(ip) {
        assert(with[a.len() as int] == c);
    }
}

proof fn lemma_line_end(line: Seq<char>, rest: Seq<char>)
    requires
        !line.contains('\n'),
    ensures
        line_end(line + seq!['\n'] + rest) == line.len(),
        line_end(line) == line.len(),
    decreases line.len(),
{
    let s = line + seq!['\n'] + rest;
    if line.len() > 0 {
        let l = line.drop_first();
        assert(!l.contains('\n')) by {
            if l.contains('\n') {
                let i = choose|i: int| 0 <= i < l.len() && l[i] == '\n';
                assert(line[i + 1] == '\n');
            }
        }
        assert(line[0] != '\n') by {
            assert(line.contains(line[0]));
        }
        assert(s.drop_first() =~= l + seq!['\n'] + rest);
        lemma_line_end(l, rest);
    }
}

/// The default route is found line by line below the header, whatever the header
/// says: a line whose second field is eight zeros settles the interface, by its
/// first field; any other line with a field is passed over; and a line without
/// one ends the search.
pub proof fn law_default_route_is_the_first_match(
    header: Seq<char>,
    line: Seq<char>,
    rest: Seq<char>,
)
    requires
        !header.contains('\n'),
        !line.contains('\n'),
    ensures
        ({
            let table = header + seq!['\n'] + (line + seq!['\n'] + rest);
            let next = header + seq!['\n'] + rest;
            let (iface, dest) = (text::first_field(line), text::second_field(line));
            &&& iface.len() == 0 ==> default_interface(table) is None
            &&& iface.len() > 0 && dest == "00000000"@ ==> default_interface(table) == Some(iface)
            &&& iface.len() > 0 && dest != "00000000"@ ==> default_interface(table)
                == default_interface(next)
        }),
        default_interface(header) is None,
        default_interface(header + seq!['\n']) is None,
{
    let body = line + seq!['\n'] + rest;
    lemma_line_end(header, body);
    lemma_line_end(header, rest);
    lemma_line_end(header, Seq::empty());
    lemma_line_end(line, rest);
    assert((header + seq!['\n'] + body).skip(header.len() as int + 1) =~= body);
    assert((header + seq!['\n'] + rest).skip(header.len() as int + 1) =~= rest);
    assert(body.skip(line.len() as int + 1) =~= rest);
    assert(body.take(line.len() as int) =~= line);
    assert(header + seq!['\n'] + Seq::<char>::empty() =~= header + seq!['\n']);
    assert((header + seq!['\n']).skip(header.len() as int + 1) =~= Seq::<char>::empty());
}

/// How the interface is chosen. A name in the environment goes before the
/// option; an empty one does not count. Anything but `auto` is taken as it is,
/// and so is `auto` where nothing is attached; otherwise the routing table
/// decides, and without one there is no interface.
pub proof fn law_interface_choice(
    iface: Seq<char>,
    mock: bool,
    env: Seq<char>,
    routes: Option<Seq<char>>,
)
    ensures
        env.len() > 0 ==> chosen_interface(iface, mock, Some(env), routes) == chosen_interface(
            env,
            mock,
            None,
            routes,
        ),
        env.len() == 0 ==> chosen_interface(iface, mock, Some(env), routes) == chosen_interface(
            iface,
            mock,
            None,
            routes,
        ),
        iface != "auto"@ || mock ==> chosen_interface(iface, mock, None, routes) == Some(iface),
        iface == "auto"@ && !mock ==> chosen_interface(iface, mock, None, None) is None,
        iface == "auto"@ && !mock ==> (routes matches Some(t) ==> chosen_interface(
            iface,
            mock,
            None,
            routes,
        ) == default_interface(t)),
{
}

/// Values that are too wide for 64 bits are cut, not capped: numbers that fit
/// are kept, and counting on from there starts over at zero.
pub proof fn law_low_bits_repeat(v: nat)
    ensures
        v <= u64::MAX ==> low_64(v) == v,
        low_64(v + 0x1_0000_0000_0000_0000) == low_64(v),
{
}

/// Digits are counted one by one: only `0` to `9` count.
pub proof fn law_digits_are_counted(s: Seq<char>, c: char)
    ensures
        digit_count(s.push(c)) == digit_count(s) + if '0' <= c <= '9' {
            1nat
        } else {
            0
        },
        digit_count(Seq::empty()) == 0,
{
    reveal(Seq::filter);
    assert(s.push(c).drop_last() =~= s);
}

/// The message for a bad allowlist entry names the entry and what is wrong with
/// it.
pub proof fn law_refusal_names_the_entry(cidr: String, reason: String)
    ensures
        text::says(
            (ConfigError::InvalidCidr { cidr, reason }).spec_message(),
            "invalid allowlist CIDR '"@,
            cidr@,
            "': "@,
        ),
        text::says(
            (ConfigError::InvalidCidr { cidr, reason }).spec_message(),
            "': "@,
            reason@,
            Seq::empty(),
        ),
{
    broadcast use text::lemma_run_push;

    let parts = Seq::empty()
        .push("invalid allowlist CIDR '"@)
        .push(cidr@)
        .push("': "@)
        .push(reason@)
        .push(Seq::<char>::empty());
    assert(text::run(parts) == (ConfigError::InvalidCidr { cidr, reason }).spec_message());
    text::lemma_run_says(parts, 0);
    text::lemma_run_says(parts, 2);
}

} // verus!
