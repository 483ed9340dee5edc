//! In-memory session model used by the triage controller.

use vstd::prelude::*;

use crate::keyed::KeyedMap;
use crate::protocol::{FlowKey, FlowMetrics, KernelEvent};

verus! {

#[derive(Debug, Clone, Copy, PartialEq, Eq, Structural)]
pub enum SessionState {
    New,
    Active,
    Suspicious,
    Quarantined,
    Expired,
}

impl SessionState {
    /// Name of the state.
    pub open spec fn spec_label(self) -> Seq<char> {
        match self {
            SessionState::New => "New"@,
            SessionState::Active => "Active"@,
            SessionState::Suspicious => "Suspicious"@,
            SessionState::Quarantined => "Quarantined"@,
            SessionState::Expired => "Expired"@,
        }
    }

    /// Name of the state, as session dumps print it.
    pub fn label(self) -> (r: &'static str)
        ensures
            r@ == self.spec_label(),
    {
        match self {
            SessionState::New => "New",
            SessionState::Active => "Active",
            SessionState::Suspicious => "Suspicious",
            SessionState::Quarantined => "Quarantined",
            SessionState::Expired => "Expired",
        }
    }
}

#[derive(Debug, Clone, Copy, PartialEq, Eq)]
pub struct Session {
    pub key: FlowKey,
    pub first_seen_ns: u64,
    pub last_seen_ns: u64,
    pub packets: u64,
    pub bytes: u64,
    pub sum_pkt_len: u64,
    pub max_pkt_len: u32,
    pub min_pkt_len: u32,
    pub syn_count: u32,
    pub fin_count: u32,
    pub rst_count: u32,
    pub tcp_flags_or: u16,
    pub l7_app: u8,
    pub l7_info: u16,
    pub proto: u8,
    /// Risk score, in units of [`crate::triage::UNIT`].
    pub risk: u64,
    pub state: SessionState,
    /// Wall-clock ms when the quarantine expires, if any.
    pub quarantine_until_ms: Option<u64>,
    pub block_seq: Option<u64>,
}

/// The low byte of a 16-bit value.
pub open spec fn low_byte(v: u16) -> u8 {
    (v % 0x100) as u8
}

impl Session {
    /// The session that a new-flow event opens.
    pub open spec fn opened(ev: KernelEvent, now_ns: u64) -> Session {
        Session {
            key: ev.key,
            first_seen_ns: now_ns,
            last_seen_ns: now_ns,
            packets: 1,
            bytes: ev.len as u64,
            sum_pkt_len: ev.len as u64,
            max_pkt_len: ev.len,
            min_pkt_len: ev.len,
            syn_count: 0,
            fin_count: 0,
            rst_count: 0,
            tcp_flags_or: 0,
            l7_app: low_byte(ev.l7_app),
            l7_info: ev.l7_info,
            proto: ev.key.proto,
            risk: 0,
            state: SessionState::New,
            quarantine_until_ms: None,
            block_seq: None,
        }
    }

    /// A session that has seen nothing yet, for a flow first known by its metrics.
    pub open spec fn blank(key: FlowKey, m: FlowMetrics) -> Session {
        Session {
            key,
            first_seen_ns: m.first_seen_ns,
            last_seen_ns: m.last_seen_ns,
            packets: 0,
            bytes: 0,
            sum_pkt_len: 0,
            max_pkt_len: 0,
            min_pkt_len: 0,
            syn_count: 0,
            fin_count: 0,
            rst_count: 0,
            tcp_flags_or: 0,
            l7_app: 0,
            l7_info: 0,
            proto: m.proto,
            risk: 0,
            state: SessionState::New,
            quarantine_until_ms: None,
            block_seq: None,
        }
    }

    /// The session after one more new-flow event for it.
    pub open spec fn touched(self, ev: KernelEvent, now_ns: u64) -> Session {
        let names_app = low_byte(ev.l7_app) != 0 && self.l7_app == 0;
        Session {
            last_seen_ns: now_ns,
            packets: (self.packets + 1) as u64,
            bytes: (self.bytes + ev.len) as u64,
            sum_pkt_len: (self.sum_pkt_len + ev.len) as u64,
            state: if self.state == SessionState::New {
                SessionState::Active
            } else {
                self.state
            },
            l7_app: if names_app {
                low_byte(ev.l7_app)
            } else {
                self.l7_app
            },
            l7_info: if names_app {
                ev.l7_info
            } else {
                self.l7_info
            },
            ..self
        }
    }

    /// Whether one more event of `len` bytes keeps the totals within range.
    pub open spec fn has_room_for(self, len: u32) -> bool {
        &&& self.packets + 1 <= u64::MAX
        &&& self.bytes + len <= u64::MAX
        &&& self.sum_pkt_len + len <= u64::MAX
    }

    /// The session after the kernel's metrics for its flow were merged in: the
    /// kernel's totals replace the session's, the observed time span and packet
    /// sizes widen, and a second packet makes a new session active.
    pub open spec fn merged(self, m: FlowMetrics) -> Session {
        Session {
            first_seen_ns: if m.first_seen_ns < self.first_seen_ns {
                m.first_seen_ns
            } else {
                self.first_seen_ns
            },
            last_seen_ns: if m.last_seen_ns > self.last_seen_ns {
                m.last_seen_ns
            } else {
                self.last_seen_ns
            },
            packets: m.packets,
            bytes: m.bytes,
            sum_pkt_len: m.sum_pkt_len,
            max_pkt_len: if m.max_pkt_len > self.max_pkt_len {
                m.max_pkt_len
            } else {
                self.max_pkt_len
            },
            min_pkt_len: if m.min_pkt_len > 0 && (self.min_pkt_len == 0 || m.min_pkt_len
                < self.min_pkt_len) {
                m.min_pkt_len
            } else {
                self.min_pkt_len
            },
            syn_count: m.syn_count,
            fin_count: m.fin_count,
            rst_count: m.rst_count,
            tcp_flags_or: m.tcp_flags_or,
            l7_app: if m.l7_app != 0 {
                low_byte(m.l7_app)
            } else {
                self.l7_app
            },
            l7_info: if m.l7_app != 0 {
                m.l7_info
            } else {
                self.l7_info
            },
            proto: m.proto,
            state: if self.state == SessionState::New && m.packets > 1 {
                SessionState::Active
            } else {
                self.state
            },
            ..self
        }
    }

    pub fn from_event(ev: &KernelEvent, now_ns: u64) -> (r: Self)
        ensures
            r == Session::opened(*ev, now_ns),
    {
        Session {
            key: ev.key,
            first_seen_ns: now_ns,
            last_seen_ns: now_ns,
            packets: 1,
            bytes: ev.len as u64,
            sum_pkt_len: ev.len as u64,
            max_pkt_len: ev.len,
            min_pkt_len: ev.len,
            syn_count: 0,
            fin_count: 0,
            rst_count: 0,
            tcp_flags_or: 0,
            l7_app: (ev.l7_app % 0x100) as u8,
            l7_info: ev.l7_info,
            proto: ev.key.proto,
            risk: 0,
            state: SessionState::New,
            quarantine_until_ms: None,
            block_seq: None,
        }
    }

    pub fn merge_metrics(&mut self, m: &FlowMetrics)
        ensures
            *final(self) == old(self).merged(*m),
            final(self).packets == m.packets,
            final(self).bytes == m.bytes,
            final(self).sum_pkt_len == m.sum_pkt_len,
            final(self).syn_count == m.syn_count,
            final(self).fin_count == m.fin_count,
            final(self).rst_count == m.rst_count,
            final(self).tcp_flags_or == m.tcp_flags_or,
            final(self).proto == m.proto,
    {
        if m.first_seen_ns < self.first_seen_ns {
            self.first_seen_ns = m.first_seen_ns;
        }
        if m.last_seen_ns > self.last_seen_ns {
            self.last_seen_ns = m.last_seen_ns;
        }
        self.packets = m.packets;
        self.bytes = m.bytes;
        self.sum_pkt_len = m.sum_pkt_len;
        if m.max_pkt_len > self.max_pkt_len {
            self.max_pkt_len = m.max_pkt_len;
        }
        if m.min_pkt_len > 0 && (self.min_pkt_len == 0 || m.min_pkt_len < self.min_pkt_len) {
            self.min_pkt_len = m.min_pkt_len;
        }
        self.syn_count = m.syn_count;
        self.fin_count = m.fin_count;
        self.rst_count = m.rst_count;
        self.tcp_flags_or = m.tcp_flags_or;
        if m.l7_app != 0 {
            self.l7_app = (m.l7_app % 0x100) as u8;
            self.l7_info = m.l7_info;
        }
        self.proto = m.proto;
        if self.state == SessionState::New && m.packets > 1 {
            self.state = SessionState::Active;
        }
    }
}

/// Sessions by flow key.
pub struct SessionTable {
    pub sessions: KeyedMap<FlowKey, Session>,
}

impl Default for SessionTable {
    fn default() -> (r: Self)
        ensures
            r.sessions@ == Map::<FlowKey, Session>::empty(),
            r.sessions.order() == Seq::<FlowKey>::empty(),
    {
        SessionTable { sessions: KeyedMap::new() }
    }
}

/// The session that a metrics record for `key` leaves behind.
pub open spec fn after_metrics(m: Map<FlowKey, Session>, key: FlowKey, x: FlowMetrics) -> Session {
    if m.contains_key(key) {
        m[key].merged(x)
    } else {
        Session::blank(key, x).merged(x)
    }
}

/// The sessions after the metrics records of a snapshot were merged in, one
/// after the other.
pub open spec fn after_snapshot(
    m: Map<FlowKey, Session>,
    snap: Seq<(FlowKey, FlowMetrics)>,
) -> Map<FlowKey, Session>
    decreases snap.len(),
{
    if snap.len() == 0 {
        m
    } else {
        let before = after_snapshot(m, snap.drop_last());
        before.insert(snap.last().0, after_metrics(before, snap.last().0, snap.last().1))
    }
}

/// The walk order after a snapshot was merged in: flows that were not known
/// follow in the order of the snapshot.
pub open spec fn order_after_snapshot(
    m: Map<FlowKey, Session>,
    order: Seq<FlowKey>,
    snap: Seq<(FlowKey, FlowMetrics)>,
) -> Seq<FlowKey>
    decreases snap.len(),
{
    if snap.len() == 0 {
        order
    } else {
        let before = order_after_snapshot(m, order, snap.drop_last());
        if after_snapshot(m, snap.drop_last()).contains_key(snap.last().0) {
            before
        } else {
            before.push(snap.last().0)
        }
    }
}

impl SessionTable {
    /// The walk order once `key` is in the table.
    pub open spec fn order_with(&self, key: FlowKey) -> Seq<FlowKey> {
        if self.sessions@.contains_key(key) {
            self.sessions.order()
        } else {
            self.sessions.order().push(key)
        }
    }

    /// Opens a session for a flow seen for the first time, or records one more
    /// event on the flow's session.
    pub fn upsert_from_event(&mut self, ev: &KernelEvent, now_ns: u64)
        requires
            old(self).sessions@.contains_key(ev.key) ==> old(self).sessions@[ev.key].has_room_for(
                ev.len,
            ),
        ensures
            final(self).sessions@ == old(self).sessions@.insert(
                ev.key,
                if old(self).sessions@.contains_key(ev.key) {
                    old(self).sessions@[ev.key].touched(*ev, now_ns)
                } else {
                    Session::opened(*ev, now_ns)
                },
            ),
            final(self).sessions.order() == old(self).order_with(ev.key),
    {
        let known: Option<Session> = match self.sessions.get(&ev.key) {
            Some(s) => Some(*s),
            None => None,
        };
        match known {
            Some(found) => {
                let mut s: Session = found;
                s.last_seen_ns = now_ns;
                s.packets = s.packets + 1;
                s.bytes = s.bytes + ev.len as u64;
                s.sum_pkt_len = s.sum_pkt_len + ev.len as u64;
                if s.state == SessionState::New {
                    s.state = SessionState::Active;
                }
                let app: u8 = (ev.l7_app % 0x100) as u8;
                if app != 0 && s.l7_app == 0 {
                    s.l7_app = app;
                    s.l7_info = ev.l7_info;
                }
                self.sessions.insert(ev.key, s);
            },
            None => {
                let s: Session = Session::from_event(ev, now_ns);
                self.sessions.insert(ev.key, s);
            },
        }
    }

    /// Merges the kernel's metrics for `key` into its session, opening one if
    /// the flow is not known yet.
    pub fn merge_metrics(&mut self, key: FlowKey, m: &FlowMetrics)
        ensures
            final(self).sessions@ == old(self).sessions@.insert(
                key,
                after_metrics(old(self).sessions@, key, *m),
            ),
            final(self).sessions.order() == old(self).order_with(key),
            final(self).sessions@[key].packets == m.packets,
            final(self).sessions@[key].bytes == m.bytes,
            final(self).sessions@[key].sum_pkt_len == m.sum_pkt_len,
            final(self).sessions@[key].syn_count == m.syn_count,
            final(self).sessions@[key].fin_count == m.fin_count,
            final(self).sessions@[key].rst_count == m.rst_count,
            final(self).sessions@[key].tcp_flags_or == m.tcp_flags_or,
            final(self).sessions@[key].proto == m.proto,
    {
        let mut s: Session = match self.sessions.get(&key) {
            Some(s) => *s,
            None => Session {
                key,
                first_seen_ns: m.first_seen_ns,
                last_seen_ns: m.last_seen_ns,
                packets: 0,
                bytes: 0,
                sum_pkt_len: 0,
                max_pkt_len: 0,
                min_pkt_len: 0,
                syn_count: 0,
                fin_count: 0,
                rst_count: 0,
                tcp_flags_or: 0,
                l7_app: 0,
                l7_info: 0,
                proto: m.proto,
                risk: 0,
                state: SessionState::New,
                quarantine_until_ms: None,
                block_seq: None,
            },
        };
        s.merge_metrics(m);
        self.sessions.insert(key, s);
    }

    /// Merges a snapshot of the kernel's flow metrics.
    pub fn merge_snapshot(&mut self, snap: &Vec<(FlowKey, FlowMetrics)>)
        ensures
            final(self).sessions@ == after_snapshot(old(self).sessions@, snap@),
            final(self).sessions.order() == order_after_snapshot(
                old(self).sessions@,
                old(self).sessions.order(),
                snap@,
            ),
    {
        let ghost m = self.sessions@;
        let ghost order = self.sessions.order();
        let mut i: usize = 0;
        assert(snap@.take(0) =~= Seq::empty());
        while i < snap.len()
            invariant
                i <= snap@.len(),
                self.sessions@ == after_snapshot(m, snap@.take(i as int)),
                self.sessions.order() == order_after_snapshot(m, order, snap@.take(i as int)),
            decreases snap@.len() - i,
        {
            let (key, metrics): (FlowKey, FlowMetrics) = snap[i];
            self.merge_metrics(key, &metrics);
            proof {
                assert(snap@.take(i + 1).drop_last() =~= snap@.take(i as int));
            }
            i += 1;
        }
        assert(snap@.take(i as int) =~= snap@);
    }

    /// Forgets the session of `key` and hands it back.
    pub fn remove(&mut self, key: &FlowKey) -> (r: Option<Session>)
        ensures
            final(self).sessions@ == old(self).sessions@.remove(*key),
            final(self).sessions.order() == crate::keyed::without(old(self).sessions.order(), *key),
            r == if old(self).sessions@.contains_key(*key) {
                Some(old(self).sessions@[*key])
            } else {
                None::<Session>
            },
    {
        self.sessions.remove(key)
    }
}

/// Merging the same kernel snapshot again changes nothing.
pub proof fn law_merge_idempotent(s: Session, m: FlowMetrics)
    ensures
        s.merged(m).merged(m) == s.merged(m),
{
}

/// Merging never shortens a session's observed time span, and leaves its
/// quarantine bookkeeping and risk alone; only a new session changes state.
pub proof fn law_merge_keeps_quarantine(s: Session, m: FlowMetrics)
    ensures
        s.merged(m).first_seen_ns <= s.first_seen_ns,
        s.merged(m).last_seen_ns >= s.last_seen_ns,
        s.merged(m).key == s.key,
        s.merged(m).risk == s.risk,
        s.merged(m).quarantine_until_ms == s.quarantine_until_ms,
        s.merged(m).block_seq == s.block_seq,
        s.state != SessionState::New ==> s.merged(m).state == s.state,
{
}

/// Each total of a merged session is the kernel's total of the same name,
/// whatever the session counted before.
pub proof fn law_merge_takes_the_kernels_totals(s: Session, m: FlowMetrics)
    ensures
        s.merged(m).packets == m.packets,
        s.merged(m).bytes == m.bytes,
        s.merged(m).sum_pkt_len == m.sum_pkt_len,
        s.merged(m).syn_count == m.syn_count,
        s.merged(m).fin_count == m.fin_count,
        s.merged(m).rst_count == m.rst_count,
        s.merged(m).tcp_flags_or == m.tcp_flags_or,
        s.merged(m).proto == m.proto,
{
}

/// A merge widens what was observed and no further: the time span and the packet
/// sizes cover what the session and the kernel saw, and each bound is one that
/// the session or the kernel saw. A smallest size of zero stands for none seen.
pub proof fn law_merge_covers_both(s: Session, m: FlowMetrics)
    ensures
        s.merged(m).first_seen_ns <= m.first_seen_ns,
        s.merged(m).first_seen_ns == s.first_seen_ns || s.merged(m).first_seen_ns
            == m.first_seen_ns,
        s.merged(m).last_seen_ns >= m.last_seen_ns,
        s.merged(m).last_seen_ns == s.last_seen_ns || s.merged(m).last_seen_ns == m.last_seen_ns,
        s.merged(m).max_pkt_len >= s.max_pkt_len,
        s.merged(m).max_pkt_len >= m.max_pkt_len,
        s.merged(m).max_pkt_len == s.max_pkt_len || s.merged(m).max_pkt_len == m.max_pkt_len,
        s.min_pkt_len > 0 ==> s.merged(m).min_pkt_len <= s.min_pkt_len,
        m.min_pkt_len > 0 ==> s.merged(m).min_pkt_len <= m.min_pkt_len,
        s.min_pkt_len > 0 || m.min_pkt_len > 0 ==> s.merged(m).min_pkt_len > 0,
        s.merged(m).min_pkt_len == s.min_pkt_len || s.merged(m).min_pkt_len == m.min_pkt_len,
{
}

/// The kernel names an application once it knows one, and its name then replaces
/// the session's, together with what goes with it. Until then the session keeps
/// its own.
pub proof fn law_merge_keeps_known_application(s: Session, m: FlowMetrics)
    ensures
        m.l7_app == 0 ==> s.merged(m).l7_app == s.l7_app && s.merged(m).l7_info == s.l7_info,
        m.l7_app != 0 ==> s.merged(m).l7_info == m.l7_info,
        m.l7_app != 0 ==> s.merged(m).l7_app == m.l7_app % 256,
{
}

/// A new session becomes active with its second packet, and not before.
pub proof fn law_second_packet_activates(s: Session, m: FlowMetrics, ev: KernelEvent, now_ns: u64)
    requires
        s.state == SessionState::New,
    ensures
        m.packets >= 2 ==> s.merged(m).state == SessionState::Active,
        m.packets < 2 ==> s.merged(m).state == SessionState::New,
        Session::opened(ev, now_ns).state == SessionState::New,
        s.touched(ev, now_ns).state == SessionState::Active,
{
}

/// A session opened by an event describes one packet, of the event's length and
/// seen now, on the event's flow; nothing is known against it.
pub proof fn law_opened_session_is_one_packet(ev: KernelEvent, now_ns: u64)
    ensures
        ({
            let s = Session::opened(ev, now_ns);
            &&& s.key == ev.key
            &&& s.proto == ev.key.proto
            &&& s.first_seen_ns == now_ns
            &&& s.last_seen_ns == now_ns
            &&& s.packets == 1
            &&& s.bytes == ev.len
            &&& s.sum_pkt_len == ev.len
            &&& s.min_pkt_len == ev.len
            &&& s.max_pkt_len == ev.len
            &&& s.l7_app == ev.l7_app % 256
            &&& s.l7_info == ev.l7_info
            &&& s.syn_count == 0 && s.fin_count == 0 && s.rst_count == 0 && s.tcp_flags_or == 0
            &&& s.risk == 0
            &&& s.state == SessionState::New
            &&& s.quarantine_until_ms is None
            &&& s.block_seq is None
        }),
{
}

/// One more event on a session is one more packet of the event's length, seen
/// now. The first event that names an application settles it. Everything else
/// stays: the flow, the first sighting, the flags, the risk and the quarantine.
pub proof fn law_event_adds_one_packet(s: Session, ev: KernelEvent, now_ns: u64)
    requires
        s.has_room_for(ev.len),
    ensures
        ({
            let t = s.touched(ev, now_ns);
            &&& t.packets == s.packets + 1
            &&& t.bytes == s.bytes + ev.len
            &&& t.sum_pkt_len == s.sum_pkt_len + ev.len
            &&& t.last_seen_ns == now_ns
            &&& s.l7_app == 0 && ev.l7_app % 256 != 0 ==> t.l7_app == ev.l7_app % 256 && t.l7_info
                == ev.l7_info
            &&& s.l7_app != 0 || ev.l7_app % 256 == 0 ==> t.l7_app == s.l7_app && t.l7_info
                == s.l7_info
            &&& s.state != SessionState::New ==> t.state == s.state
            &&& t.key == s.key && t.proto == s.proto && t.first_seen_ns == s.first_seen_ns
            &&& t.max_pkt_len == s.max_pkt_len && t.min_pkt_len == s.min_pkt_len
            &&& t.syn_count == s.syn_count && t.fin_count == s.fin_count && t.rst_count
                == s.rst_count && t.tcp_flags_or == s.tcp_flags_or
            &&& t.risk == s.risk && t.quarantine_until_ms == s.quarantine_until_ms && t.block_seq
                == s.block_seq
        }),
{
}

/// After a snapshot, the last record of a flow has the say: each total of the
/// flow's session is that record's total of the same name. The session spans
/// all of the flow's records and what it spanned before, and keeps its risk and
/// its quarantine.
pub proof fn law_snapshot_sets_totals(
    m: Map<FlowKey, Session>,
    snap: Seq<(FlowKey, FlowMetrics)>,
    i: int,
)
    requires
        0 <= i < snap.len(),
        forall|j: int| i < j < snap.len() ==> (#[trigger] snap[j]).0 != snap[i].0,
    ensures
        after_snapshot(m, snap).contains_key(snap[i].0),
        ({
            let s = after_snapshot(m, snap)[snap[i].0];
            let x = snap[i].1;
            &&& s.packets == x.packets
            &&& s.bytes == x.bytes
            &&& s.sum_pkt_len == x.sum_pkt_len
            &&& s.syn_count == x.syn_count
            &&& s.fin_count == x.fin_count
            &&& s.rst_count == x.rst_count
            &&& s.tcp_flags_or == x.tcp_flags_or
            &&& s.proto == x.proto
        }),
    decreases snap.len(),
{
    let rest = snap.drop_last();
    if i < rest.len() {
        assert forall|j: int| i < j < rest.len() implies (#[trigger] rest[j]).0 != rest[i].0 by {
            assert(rest[j] == snap[j] && rest[i] == snap[i]);
        }
        law_snapshot_sets_totals(m, rest, i);
        assert(snap[snap.len() - 1].0 != snap[i].0);
    }
}

/// A snapshot leaves the session of a flow that it does not list as it was, and
/// knows every flow that it lists. It never touches the risk, the quarantine or
/// the settled state of a session, and never narrows its time span.
pub proof fn law_snapshot_keeps_the_rest(
    m: Map<FlowKey, Session>,
    snap: Seq<(FlowKey, FlowMetrics)>,
    k: FlowKey,
)
    ensures
        after_snapshot(m, snap).contains_key(k) <==> m.contains_key(k) || exists|i: int|
            0 <= i < snap.len() && (#[trigger] snap[i]).0 == k,
        (forall|i: int| 0 <= i < snap.len() ==> (#[trigger] snap[i]).0 != k) && m.contains_key(k)
            ==> after_snapshot(m, snap)[k] == m[k],
        m.contains_key(k) ==> {
            let (s, t) = (m[k], after_snapshot(m, snap)[k]);
            &&& t.key == s.key
            &&& t.risk == s.risk
            &&& t.quarantine_until_ms == s.quarantine_until_ms
            &&& t.block_seq == s.block_seq
            &&& s.state != SessionState::New ==> t.state == s.state
            &&& t.first_seen_ns <= s.first_seen_ns
            &&& t.last_seen_ns >= s.last_seen_ns
        },
        !m.contains_key(k) && after_snapshot(m, snap).contains_key(k) ==> {
            let t = after_snapshot(m, snap)[k];
            &&& t.key == k
            &&& t.risk == 0
            &&& t.quarantine_until_ms is None
            &&& t.block_seq is None
            &&& t.state == SessionState::New || t.state == SessionState::Active
        },
        forall|i: int|
            0 <= i < snap.len() && (#[trigger] snap[i]).0 == k ==> after_snapshot(
                m,
                snap,
            )[k].first_seen_ns <= snap[i].1.first_seen_ns && after_snapshot(
                m,
                snap,
            )[k].last_seen_ns >= snap[i].1.last_seen_ns,
    decreases snap.len(),
{
    if snap.len() > 0 {
        let rest = snap.drop_last();
        law_snapshot_keeps_the_rest(m, rest, k);
        assert forall|i: int| 0 <= i < rest.len() implies rest[i] == #[trigger] snap[i] by {}
        assert(snap[snap.len() - 1] == snap.last());
        if exists|i: int| 0 <= i < rest.len() && (#[trigger] rest[i]).0 == k {
            let i = choose|i: int| 0 <= i < rest.len() && (#[trigger] rest[i]).0 == k;
            assert(snap[i].0 == k);
        }
        if exists|i: int| 0 <= i < snap.len() && (#[trigger] snap[i]).0 == k {
            let i = choose|i: int| 0 <= i < snap.len() && (#[trigger] snap[i]).0 == k;
            if i < rest.len() {
                assert(rest[i].0 == k);
            }
        }
        if forall|i: int| 0 <= i < snap.len() ==> (#[trigger] snap[i]).0 != k {
            assert forall|i: int| 0 <= i < rest.len() implies (#[trigger] rest[i]).0 != k by {
                assert(snap[i].0 != k);
            }
        }
        assert forall|i: int| 0 <= i < snap.len() && (#[trigger] snap[i]).0 == k implies
            after_snapshot(m, snap)[k].first_seen_ns <= snap[i].1.first_seen_ns && after_snapshot(
            m,
            snap,
        )[k].last_seen_ns >= snap[i].1.last_seen_ns by {
            if i < rest.len() {
                assert(rest[i].0 == k);
            }
        }
    }
}

/// A flow first known by its metrics gets a session that says what the metrics
/// say, with nothing known against it.
pub proof fn law_first_metrics_open_a_session(
    m: Map<FlowKey, Session>,
    key: FlowKey,
    x: FlowMetrics,
)
    requires
        !m.contains_key(key),
    ensures
        ({
            let s = after_metrics(m, key, x);
            &&& s.key == key
            &&& s.first_seen_ns == x.first_seen_ns
            &&& s.last_seen_ns == x.last_seen_ns
            &&& s.max_pkt_len == x.max_pkt_len
            &&& s.min_pkt_len == x.min_pkt_len
            &&& x.l7_app < 256 ==> s.l7_app == x.l7_app
            &&& x.l7_app != 0 ==> s.l7_info == x.l7_info
            &&& s.risk == 0
            &&& s.state == SessionState::Active <==> x.packets > 1
            &&& s.state == SessionState::New <==> x.packets <= 1
            &&& s.quarantine_until_ms is None
            &&& s.block_seq is None
        }),
{
}

/// A snapshot keeps the walk order of the flows that were known and lists the
/// others behind them, each flow once.
pub proof fn law_snapshot_extends_the_order(
    m: Map<FlowKey, Session>,
    order: Seq<FlowKey>,
    snap: Seq<(FlowKey, FlowMetrics)>,
)
    requires
        order.no_duplicates(),
        forall|k: FlowKey| #[trigger] order.contains(k) <==> m.contains_key(k),
    ensures
        order.is_prefix_of(order_after_snapshot(m, order, snap)),
        order_after_snapshot(m, order, snap).no_duplicates(),
        forall|k: FlowKey| #[trigger]
            order_after_snapshot(m, order, snap).contains(k) <==> after_snapshot(
                m,
                snap,
            ).contains_key(k),
    decreases snap.len(),
{
    if snap.len() > 0 {
        let rest = snap.drop_last();
        let new = snap.last().0;
        law_snapshot_extends_the_order(m, order, rest);
        let before = order_after_snapshot(m, order, rest);
        let after = order_after_snapshot(m, order, snap);
        if !after_snapshot(m, rest).contains_key(new) {
            assert(!before.contains(new));
            assert forall|i: int, j: int| 0 <= i < j < after.len() implies after[i] != after[j] by {
                assert(before[i] == after[i]);
                assert(before.contains(before[i]));
            }
        }
        assert forall|k: FlowKey| #[trigger] after.contains(k) <==> after_snapshot(
            m,
            snap,
        ).contains_key(k) by {
            if before.contains(k) {
                let i = choose|i: int| 0 <= i < before.len() && before[i] == k;
                assert(after[i] == k);
            }
            if after.contains(k) && k != new {
                let i = choose|i: int| 0 <= i < after.len() && after[i] == k;
                assert(before[i] == k);
            }
            if after_snapshot(m, rest).contains_key(new) {
                assert(before.contains(new));
            } else {
                assert(after[before.len() as int] == new);
            }
        }
    }
}

/// Each state is labelled with its own name.
pub proof fn law_labels_tell_states_apart(s: SessionState)
    ensures
        s.spec_label() == "New"@ <==> s == SessionState::New,
        s.spec_label() == "Active"@ <==> s == SessionState::Active,
        s.spec_label() == "Suspicious"@ <==> s == SessionState::Suspicious,
        s.spec_label() == "Quarantined"@ <==> s == SessionState::Quarantined,
        s.spec_label() == "Expired"@ <==> s == SessionState::Expired,
{
    reveal_strlit("New");
    reveal_strlit("Active");
    reveal_strlit("Suspicious");
    reveal_strlit("Quarantined");
    reveal_strlit("Expired");
    assert("New"@.len() == 3 && "Active"@.len() == 6 && "Suspicious"@.len() == 10);
    assert("Quarantined"@.len() == 11 && "Expired"@.len() == 7);
}

} // verus!
