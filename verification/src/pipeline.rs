//! The supervisor: maintains the session table from kernel events, runs triage,
//! decides what to isolate, re-evaluates and expires isolations, and prepares
//! the audit trail.
//!
//! Each step takes what was observed (an event, a snapshot, the outcome of a map
//! update) and the time, changes the supervisor's state, and hands back the
//! actions that are to be carried out on the data plane.

use vstd::prelude::*;

use crate::addr::IpAddr;
use crate::audit;
use crate::audit::{
    ActionRecord, ActionRef, AuditEvent, AuditLogger, AuditRecord, Decision, FlowRecord, FlowRef,
    RationaleRecord, RationaleSignal,
};
use crate::config;
use crate::config::Config;
use crate::flow;
use crate::flow::{Session, SessionState, SessionTable};
use crate::keyed::{KeyEq, KeyedMap};
use crate::mock::PlaneModel;
use crate::protocol;
use crate::protocol::{
    BlockEntry, BlockReason, ControlCfg, CounterVec, EventKind, FlowKey, FlowMetrics, IpKey,
    KernelEvent, L7App,
};
use crate::seqs;
use crate::text;
use crate::triage;
use crate::triage::context;
use crate::triage::context::{Sighting, TriageContext};
use crate::triage::llm::LlmBackend;
use crate::triage::{TriageController, TriageOutcome, UNIT};

verus! {

/// Snapshot of the world exposed to the metrics exporter.
#[derive(Debug, Clone, Copy, PartialEq, Eq, Structural)]
pub struct MetricsState {
    pub pass: u64,
    pub drop: u64,
    pub block_hits: u64,
    pub new_flows: u64,
    pub malformed: u64,
    pub events_lost: u64,
    pub sessions: usize,
    pub quarantined_flows: usize,
    pub quarantined_ips: usize,
    pub decisions: u64,
    pub enforce: bool,
}

impl Default for MetricsState {
    fn default() -> (r: Self)
        ensures
            r == (MetricsState {
                pass: 0,
                drop: 0,
                block_hits: 0,
                new_flows: 0,
                malformed: 0,
                events_lost: 0,
                sessions: 0,
                quarantined_flows: 0,
                quarantined_ips: 0,
                decisions: 0,
                enforce: false,
            }),
    {
        MetricsState {
            pass: 0,
            drop: 0,
            block_hits: 0,
            new_flows: 0,
            malformed: 0,
            events_lost: 0,
            sessions: 0,
            quarantined_flows: 0,
            quarantined_ips: 0,
            decisions: 0,
            enforce: false,
        }
    }
}

/// State of the control loop.
pub struct Supervisor {
    pub table: SessionTable,
    pub ctrl: TriageController,
    pub cfg: Config,
    pub audit: AuditLogger,
    pub enforce: bool,
    pub llm: Option<LlmBackend>,
    /// Sources under quarantine, with the wall-clock ms at which it ends.
    pub quarantined_ips_expiry: Vec<(IpAddr, u64)>,
    /// Reverse directions that are blocked along with a source, with the
    /// wall-clock ms at which that ends.
    pub reverse_expiry: Vec<(FlowKey, u64)>,
    /// When sources were seen, over the ticks of the window.
    pub sightings: KeyedMap<IpAddr, Sighting>,
    /// Isolations enforced so far; the count wraps around.
    pub decisions: u64,
}

/// What a triage tick goes through: the candidates in table order, and the
/// context that they are scored in.
pub struct TriageRound {
    pub ctx: TriageContext,
    pub candidates: Vec<(FlowKey, Session)>,
}

/// The verdict on a candidate, and what is to be done about it.
pub struct Assessment {
    pub outcome: TriageOutcome,
    /// The external model is to be asked for a rationale.
    pub review: bool,
    /// The flow or its source is to be isolated.
    pub isolate: bool,
}

/// An isolation to be carried out on the data plane.
#[derive(Debug, Clone, Copy, PartialEq, Eq)]
pub struct Isolation {
    pub key: FlowKey,
    /// The whole source is quarantined; otherwise only the flow.
    pub whole_source: bool,
    pub source: IpKey,
    /// The reverse direction of the flow, where it is blocked too.
    pub reverse: Option<FlowKey>,
    pub entry: BlockEntry,
    pub seq: u64,
}

/// A control setting to be applied to the data plane, with its report.
pub struct ModeChange {
    pub control: ControlCfg,
    pub event: AuditEvent,
}

/// A listing of the session table, with its report.
pub struct SessionDump {
    pub sessions: usize,
    pub summary: String,
    pub event: AuditEvent,
}

/// What a reap tick ends. First the flows in `unblocked` are to be unblocked and
/// the events of the released flows reported, then each source is to be unblocked
/// and its event reported.
pub struct Reaped {
    /// Flows whose quarantine ended.
    pub released: Vec<FlowKey>,
    /// Flows that nothing blocks any longer: released ones, and reverse
    /// directions of freed sources.
    pub unblocked: Vec<FlowKey>,
    pub freed: Vec<IpAddr>,
    /// One event for each flow in `released`, then one for each source.
    pub events: Vec<AuditEvent>,
}

/// Whether a session has been idle for longer than `ttl_ns`.
pub open spec fn idle(s: Session, now_ns: u64, ttl_ns: u64) -> bool {
    context::elapsed(now_ns, s.last_seen_ns) > ttl_ns
}

/// Whether the quarantine of a session ends: its window is over.
pub open spec fn releasable(s: Session, now_ms: u64) -> bool {
    &&& s.state == SessionState::Quarantined
    &&& s.quarantine_until_ms matches Some(until) && now_ms >= until
}

/// Whether a session is forgotten: it is idle and not quarantined.
pub open spec fn forgotten(s: Session, now_ns: u64, ttl_ns: u64) -> bool {
    idle(s, now_ns, ttl_ns) && s.state != SessionState::Quarantined
}

/// A session whose quarantine ended.
pub open spec fn released(s: Session) -> Session {
    Session {
        state: SessionState::Active,
        quarantine_until_ms: None,
        block_seq: None,
        ..s
    }
}

/// The sessions that a reap leaves behind.
pub open spec fn after_reap(m: Map<FlowKey, Session>, now_ns: u64, now_ms: u64, ttl_ns: u64) -> Map<
    FlowKey,
    Session,
> {
    Map::new(
        |k: FlowKey| m.contains_key(k) && !forgotten(m[k], now_ns, ttl_ns),
        |k: FlowKey|
            if releasable(m[k], now_ms) {
                released(m[k])
            } else {
                m[k]
            },
    )
}

/// Name of an enforcement mode.
pub open spec fn mode_name(enforce: bool) -> Seq<char> {
    if enforce {
        "enforce"@
    } else {
        "monitor"@
    }
}

/// Text of a truth value.
pub open spec fn truth(b: bool) -> Seq<char> {
    if b {
        "true"@
    } else {
        "false"@
    }
}

fn push_truth(out: &mut String, b: bool)
    ensures
        final(out)@ == old(out)@ + truth(b),
{
    if b {
        out.append("true");
    } else {
        out.append("false");
    }
}

/// A score with two decimals.
pub open spec fn score_text(v: u64) -> Seq<char> {
    text::two_decimals(text::round_half_even((v * 100) as nat, UNIT as nat))
}

fn push_score(out: &mut String, v: u64)
    ensures
        final(out)@ == old(out)@ + score_text(v),
{
    text::push_two_decimals(out, text::rounded(v as u128 * 100, UNIT as u128));
}

/// One line of a session dump.
pub open spec fn session_line(k: FlowKey, s: Session) -> Seq<char> {
    s.state.spec_label() + " "@ + L7App::decode(s.l7_app).spec_label() + " "@
        + k.spec_src().spec_text() + " -> "@ + audit::endpoint(k.spec_dst(), k.dport) + " pkts="@
        + text::dec(s.packets as nat) + " risk="@ + score_text(s.risk)
}

fn session_text(k: &FlowKey, s: &Session) -> (r: String)
    ensures
        r@ == session_line(*k, *s),
{
    let mut t: String = String::new();
    t.append(s.state.label());
    t.append(" ");
    t.append(L7App::from_u8(s.l7_app).label());
    t.append(" ");
    k.src_ip().push_text(&mut t);
    t.append(" -> ");
    audit::push_endpoint(&mut t, &k.dst_ip(), k.dport);
    t.append(" pkts=");
    text::push_dec(&mut t, s.packets as u128);
    t.append(" risk=");
    push_score(&mut t, s.risk);
    assert(t@ =~= session_line(*k, *s));
    t
}

/// What the external model is told of a flow.
pub open spec fn review_text(k: FlowKey, s: Session, out: TriageOutcome) -> Seq<char> {
    "flow "@ + k.spec_src().spec_text() + " -> "@ + audit::endpoint(k.spec_dst(), k.dport)
        + " proto="@ + text::dec(k.proto as nat) + " app="@ + text::dec(s.l7_app as nat)
        + " packets="@ + text::dec(s.packets as nat) + " bytes="@ + text::dec(s.bytes as nat)
        + " syn="@ + text::dec(s.syn_count as nat) + " risk="@ + score_text(out.risk)
        + " rationale="@ + text::joined(
        out.records().map_values(|r: RationaleRecord| r.signal),
        ","@,
    )
}

fn signal_names(rationale: &Vec<RationaleSignal>) -> (r: Vec<String>)
    ensures
        text::views(r@) == audit::rationale_records(rationale@).map_values(
            |r: RationaleRecord| r.signal,
        ),
{
    let mut out: Vec<String> = Vec::new();
    let mut i: usize = 0;
    while i < rationale.len()
        invariant
            i <= rationale@.len(),
            out@.len() == i,
            forall|j: int| 0 <= j < i ==> (#[trigger] out@[j])@ == rationale@[j].signal@,
        decreases rationale@.len() - i,
    {
        out.push(rationale[i].signal.to_owned());
        i += 1;
    }
    assert(text::views(out@) =~= audit::rationale_records(rationale@).map_values(
        |r: RationaleRecord| r.signal,
    ));
    out
}

/// The report of a model's rationale.
pub fn review_event(
    key: &FlowKey,
    session: &Session,
    out: TriageOutcome,
    rationale: String,
    now_ms: u64,
) -> (r: AuditEvent)
    ensures
        r@ == (AuditRecord {
            ts: now_ms,
            level: "info"@,
            event: "llm_rationale"@,
            flow: Some(
                FlowRecord {
                    app: L7App::decode(session.l7_app).spec_tag(),
                    ..FlowRecord::of(*key, session.packets, session.bytes)
                },
            ),
            src_ip: Some(key.spec_src()),
            risk: Some(out.risk),
            threshold: None,
            confidence: None,
            decision: Some(out.decision),
            rationale: out.records(),
            action: None,
            latency_ns: None,
            detail: Some(rationale@),
        }),
{
    let mut flow_ref: FlowRef = FlowRef::from_key(key, session.packets, session.bytes);
    flow_ref.app = L7App::from_u8(session.l7_app).tag();
    AuditEvent {
        ts: now_ms,
        level: "info",
        event: "llm_rationale",
        flow: Some(flow_ref),
        src_ip: Some(key.src_ip()),
        risk: Some(out.risk),
        threshold: None,
        confidence: None,
        decision: Some(out.decision),
        rationale: out.rationale,
        action: None,
        latency_ns: None,
        detail: Some(rationale),
    }
}

/// Whether `k` stands in a list of blocks with their deadlines.
pub open spec fn listed<K>(list: Seq<(K, u64)>, k: K) -> bool {
    exists|i: int| 0 <= i < list.len() && (#[trigger] list[i]).0 == k
}

/// The entries of a list that are not over at `now_ms`.
pub open spec fn live<K>(list: Seq<(K, u64)>, now_ms: u64) -> Seq<(K, u64)> {
    list.filter(|e: (K, u64)| now_ms < e.1)
}

/// The entries of a list that are over at `now_ms`.
pub open spec fn over<K>(list: Seq<(K, u64)>, now_ms: u64) -> Seq<(K, u64)> {
    list.filter(|e: (K, u64)| e.1 <= now_ms)
}

/// Whether a session carries the bookkeeping of a quarantine exactly when it is
/// quarantined.
pub open spec fn coherent(s: Session) -> bool {
    &&& s.state == SessionState::Quarantined <==> s.quarantine_until_ms is Some
    &&& s.state == SessionState::Quarantined <==> s.block_seq is Some
}

proof fn lemma_snapshot_keeps_books(
    m: Map<FlowKey, Session>,
    snap: Seq<(FlowKey, FlowMetrics)>,
)
    requires
        forall|k: FlowKey| #[trigger] m.contains_key(k) ==> m[k].key == k && coherent(m[k]),
    ensures
        forall|k: FlowKey| #[trigger]
            flow::after_snapshot(m, snap).contains_key(k) ==> flow::after_snapshot(m, snap)[k].key
                == k && coherent(flow::after_snapshot(m, snap)[k]),
    decreases snap.len(),
{
    if snap.len() > 0 {
        lemma_snapshot_keeps_books(m, snap.drop_last());
    }
}

fn is_listed<K: KeyEq>(list: &Vec<(K, u64)>, k: &K) -> (r: bool)
    ensures
        r == listed(list@, *k),
{
    let mut i: usize = 0;
    while i < list.len()
        invariant
            i <= list@.len(),
            forall|j: int| 0 <= j < i ==> (#[trigger] list@[j]).0 != *k,
        decreases list@.len() - i,
    {
        if list[i].0.same(k) {
            return true;
        }
        i += 1;
    }
    false
}

impl Supervisor {
    /// The signals are countable, every session stands under its own key with
    /// coherent bookkeeping, and no source is under quarantine twice.
    pub open spec fn valid(&self) -> bool {
        &&& self.ctrl.signals@.len() <= triage::MAX_SIGNALS
        &&& forall|k: FlowKey| #[trigger]
            self.table.sessions@.contains_key(k) ==> self.table.sessions@[k].key == k && coherent(
                self.table.sessions@[k],
            )
        &&& forall|i: int, j: int|
            0 <= i < j < self.quarantined_ips_expiry@.len() ==> (
            #[trigger] self.quarantined_ips_expiry@[i]).0 != (
            #[trigger] self.quarantined_ips_expiry@[j]).0
    }

    /// The settings of the two are the same.
    pub open spec fn same_settings(&self, other: &Supervisor) -> bool {
        &&& self.ctrl == other.ctrl
        &&& self.cfg == other.cfg
        &&& self.audit.sink == other.audit.sink
        &&& self.llm == other.llm
    }

    /// The isolation bookkeeping of the two is the same, apart from the sessions.
    pub open spec fn same_books(&self, other: &Supervisor) -> bool {
        &&& self.quarantined_ips_expiry@ == other.quarantined_ips_expiry@
        &&& self.reverse_expiry@ == other.reverse_expiry@
        &&& self.decisions == other.decisions
        &&& self.audit.seq == other.audit.seq
        &&& self.enforce == other.enforce
    }

    /// The two remember the same sightings.
    pub open spec fn same_memory(&self, other: &Supervisor) -> bool {
        self.sightings@ == other.sightings@
    }

    /// The two hold the same flows in quarantine.
    pub open spec fn same_holds(&self, other: &Supervisor) -> bool {
        forall|k: FlowKey| #[trigger] self.holds(k) <==> other.holds(k)
    }

    /// A supervisor that knows no flows yet.
    pub fn new(
        ctrl: TriageController,
        cfg: Config,
        audit: AuditLogger,
        llm: Option<LlmBackend>,
    ) -> (r: Self)
        requires
            ctrl.signals@.len() <= triage::MAX_SIGNALS,
        ensures
            r.valid(),
            r.table.sessions@ == Map::<FlowKey, Session>::empty(),
            r.table.sessions.order() == Seq::<FlowKey>::empty(),
            r.quarantined_ips_expiry@ == Seq::<(IpAddr, u64)>::empty(),
            r.reverse_expiry@ == Seq::<(FlowKey, u64)>::empty(),
            r.sightings@ == Map::<IpAddr, Sighting>::empty(),
            r.decisions == 0,
            r.ctrl == ctrl,
            r.cfg == cfg,
            r.audit == audit,
            r.llm == llm,
            r.enforce == !cfg.cli.monitor,
    {
        let enforce: bool = !cfg.cli.monitor;
        Supervisor {
            table: SessionTable::default(),
            ctrl,
            cfg,
            audit,
            enforce,
            llm,
            quarantined_ips_expiry: Vec::new(),
            reverse_expiry: Vec::new(),
            sightings: KeyedMap::new(),
            decisions: 0,
        }
    }

    /// A new-flow event opens or touches the flow's session; other events carry
    /// nothing that the table needs.
    pub fn on_event(&mut self, ev: &KernelEvent, now_ns: u64)
        requires
            old(self).valid(),
            ev.spec_kind() == EventKind::NewFlow && old(self).table.sessions@.contains_key(ev.key)
                ==> old(self).table.sessions@[ev.key].has_room_for(ev.len),
        ensures
            final(self).valid(),
            final(self).same_settings(old(self)),
            final(self).same_holds(old(self)),
            final(self).same_memory(old(self)),
            final(self).same_books(old(self)),
            final(self).table.sessions@ == if ev.spec_kind() == EventKind::NewFlow {
                old(self).table.sessions@.insert(
                    ev.key,
                    if old(self).table.sessions@.contains_key(ev.key) {
                        old(self).table.sessions@[ev.key].touched(*ev, now_ns)
                    } else {
                        Session::opened(*ev, now_ns)
                    },
                )
            } else {
                old(self).table.sessions@
            },
            final(self).table.sessions.order() == if ev.spec_kind() == EventKind::NewFlow {
                old(self).table.order_with(ev.key)
            } else {
                old(self).table.sessions.order()
            },
            ev.kind != 1 ==> final(self).table.sessions@ == old(self).table.sessions@,
            ev.kind == 1 ==> final(self).table.sessions@.contains_key(ev.key),
            forall|k: FlowKey|
                k != ev.key ==> (#[trigger] final(self).table.sessions@.contains_key(k) <==> old(
                    self,
                ).table.sessions@.contains_key(k)) && final(self).table.sessions@[k] == old(
                    self,
                ).table.sessions@[k],
    {
        match ev.event_kind() {
            EventKind::NewFlow => {
                self.table.upsert_from_event(ev, now_ns);
            },
            EventKind::BlockHit | EventKind::Drop | EventKind::FlowExpired => {},
        }
    }

    /// Whether the session of `k` is scored: it is neither quarantined nor
    /// expired, and its source is neither under quarantine nor allowlisted.
    pub open spec fn eligible(&self, k: FlowKey) -> bool {
        &&& self.table.sessions@[k].state != SessionState::Quarantined
        &&& self.table.sessions@[k].state != SessionState::Expired
        &&& !listed(self.quarantined_ips_expiry@, k.spec_src())
        &&& !config::exempt(self.cfg.allowlist@, k.spec_src())
    }

    /// The sessions to score, in table order.
    pub open spec fn candidates(&self) -> Seq<(FlowKey, Session)> {
        self.table.sessions.order().filter(|k: FlowKey| self.eligible(k)).map_values(
            |k: FlowKey| (k, self.table.sessions@[k]),
        )
    }

    /// The sources that have a live session.
    pub open spec fn sources(&self) -> Set<IpAddr> {
        Set::new(
            |a: IpAddr|
                context::source_seen(self.table.sessions@, self.table.sessions@.dom(), a),
        )
    }

    /// Starts a triage tick: the kernel's counters are authoritative and are
    /// merged in, the context is rebuilt with the remembered first sightings, and
    /// the sessions to score are listed.
    pub fn triage_tick(&mut self, snap: &Vec<(FlowKey, FlowMetrics)>, now_ms: u64) -> (r:
        TriageRound)
        requires
            old(self).valid(),
        ensures
            final(self).valid(),
            final(self).same_settings(old(self)),
            final(self).same_holds(old(self)),
            final(self).same_books(old(self)),
            final(self).table.sessions@ == flow::after_snapshot(old(self).table.sessions@, snap@),
            final(self).table.sessions.order() == flow::order_after_snapshot(
                old(self).table.sessions@,
                old(self).table.sessions.order(),
                snap@,
            ),
            r.ctx.tallies(final(self).table.sessions@, final(self).table.sessions@.dom()),
            r.ctx.first_seen_src@ == Map::new(
                |a: IpAddr| final(self).sources().contains(a),
                |a: IpAddr| context::first_sighting(old(self).sightings@, a, now_ms),
            ),
            final(self).sightings@ == context::after_sightings(
                old(self).sightings@,
                final(self).sources(),
                now_ms,
            ),
            r.candidates@ == final(self).candidates(),
    {
        self.table.merge_snapshot(snap);
        proof {
            lemma_snapshot_keeps_books(old(self).table.sessions@, snap@);
        }
        let mut ctx: TriageContext = TriageContext::rebuild(&self.table.sessions, now_ms);
        assert(ctx.first_seen_src@.dom() =~= self.sources());
        let ghost fresh = ctx;
        ctx.recall(&mut self.sightings, now_ms);
        proof {
            context::lemma_same_tallies(
                fresh,
                ctx,
                self.table.sessions@,
                self.table.sessions@.dom(),
            );
            assert forall|k: FlowKey| #[trigger] self.holds(k) <==> old(self).holds(k) by {
                lemma_snapshot_keeps_holds(old(self).table.sessions@, snap@, k);
            }
        }
        let candidates: Vec<(FlowKey, Session)> = self.list_candidates();
        TriageRound { ctx, candidates }
    }

    fn list_candidates(&self) -> (r: Vec<(FlowKey, Session)>)
        ensures
            r@ == self.candidates(),
    {
        let mut out: Vec<(FlowKey, Session)> = Vec::new();
        let n: usize = self.table.sessions.len();
        let ghost order = self.table.sessions.order();
        let ghost p = |k: FlowKey| self.eligible(k);
        let ghost pair = |k: FlowKey| (k, self.table.sessions@[k]);
        let mut i: usize = 0;
        proof {
            reveal(Seq::filter);
            assert(order.take(0).filter(p).map_values(pair) =~= Seq::empty());
        }
        while i < n
            invariant
                n == order.len(),
                order == self.table.sessions.order(),
                p == (|k: FlowKey| self.eligible(k)),
                pair == (|k: FlowKey| (k, self.table.sessions@[k])),
                i <= n,
                out@ == order.take(i as int).filter(p).map_values(pair),
            decreases n - i,
        {
            let key: FlowKey = self.table.sessions.key_at(i);
            let s: Session = *self.table.sessions.value_at(i);
            let src: IpAddr = key.src_ip();
            proof {
                seqs::lemma_filter_step(order, i as int, p);
            }
            if s.state != SessionState::Quarantined && s.state != SessionState::Expired
                && !is_listed(&self.quarantined_ips_expiry, &src) && !config::is_exempt(
                &self.cfg.allowlist,
                &src,
            ) {
                proof {
                    let kept = order.take(i as int).filter(p);
                    assert(kept.push(key).map_values(pair) =~= kept.map_values(pair).push(
                        (key, s),
                    ));
                }
                out.push((key, s));
            }
            i += 1;
        }
        assert(order.take(n as int) =~= order);
        out
    }

    /// Whether a risk is close enough to the threshold for the session to be
    /// marked: seven tenths of it.
    pub open spec fn near_threshold(&self, risk: u64) -> bool {
        risk * 10 >= self.ctrl.threshold * 7
    }

    /// The sessions after the session of `key` was found near the threshold.
    pub open spec fn with_suspect(&self, key: FlowKey) -> Map<FlowKey, Session> {
        let m = self.table.sessions@;
        if m.contains_key(key) && (m[key].state == SessionState::New || m[key].state
            == SessionState::Active) {
            m.insert(key, Session { state: SessionState::Suspicious, ..m[key] })
        } else {
            m
        }
    }

    /// Scores one candidate. A session that is not isolated but comes near the
    /// threshold is marked suspicious.
    pub fn assess(
        &mut self,
        key: &FlowKey,
        session: &Session,
        ctx: &TriageContext,
        now_ns: u64,
        now_ms: u64,
    ) -> (r: Assessment)
        requires
            old(self).valid(),
        ensures
            final(self).valid(),
            final(self).same_settings(old(self)),
            final(self).same_holds(old(self)),
            final(self).same_memory(old(self)),
            final(self).same_books(old(self)),
            old(self).ctrl.is_verdict(
                r.outcome,
                old(self).ctrl.fired_on(*session, *ctx, now_ns, now_ms),
                *session,
                *ctx,
            ),
            r.review == (r.outcome.risk >= UNIT / 2 && old(self).llm is Some),
            r.isolate == (r.outcome.decision == Decision::Quarantine || r.outcome.decision
                == Decision::QuarantineIp),
            final(self).table.sessions@ == if !r.isolate && old(self).near_threshold(
                r.outcome.risk,
            ) {
                old(self).with_suspect(*key)
            } else {
                old(self).table.sessions@
            },
            final(self).table.sessions.order() == old(self).table.sessions.order(),
    {
        let outcome: TriageOutcome = self.ctrl.triage(session, ctx, now_ns, now_ms);
        let review: bool = self.ctrl.warrants_review(&outcome) && self.llm.is_some();
        let isolate: bool = match outcome.decision {
            Decision::Quarantine | Decision::QuarantineIp => true,
            _ => false,
        };
        if !isolate && outcome.risk as u128 * 10 >= self.ctrl.threshold as u128 * 7 {
            let known: Option<Session> = match self.table.sessions.get(key) {
                Some(s) => Some(*s),
                None => None,
            };
            if let Some(found) = known {
                if found.state == SessionState::New || found.state == SessionState::Active {
                    let mut s: Session = found;
                    s.state = SessionState::Suspicious;
                    self.table.sessions.insert(*key, s);
                }
            }
        }
        Assessment { outcome, review, isolate }
    }

    /// Whether the session of `key` is quarantined already.
    pub open spec fn holds(&self, key: FlowKey) -> bool {
        self.table.sessions@.contains_key(key) && self.table.sessions@[key].state
            == SessionState::Quarantined
    }

    /// Plans the isolation of a flow or of its source. A session is isolated
    /// once: nothing is planned for one that is quarantined already, nor for a
    /// source that came under quarantine meanwhile, nor for an allowlisted one.
    /// Every plan, and every refusal because of a quarantined source, uses up a
    /// sequence number.
    pub fn enforce_isolation(&mut self, key: &FlowKey, decision: Decision, ts_ns: u64) -> (r: Option<
        Isolation,
    >)
        requires
            old(self).valid(),
        ensures
            final(self).valid(),
            final(self).same_settings(old(self)),
            final(self).same_holds(old(self)),
            final(self).same_memory(old(self)),
            final(self).table.sessions@ == old(self).table.sessions@,
            final(self).table.sessions.order() == old(self).table.sessions.order(),
            final(self).quarantined_ips_expiry@ == old(self).quarantined_ips_expiry@,
            final(self).reverse_expiry@ == old(self).reverse_expiry@,
            final(self).decisions == old(self).decisions,
            final(self).enforce == old(self).enforce,
            final(self).audit.seq == if old(self).holds(*key) || config::exempt(
                old(self).cfg.allowlist@,
                key.spec_src(),
            ) {
                old(self).audit.seq as int
            } else {
                (old(self).audit.seq + 1) % 0x1_0000_0000_0000_0000
            },
            r == if old(self).holds(*key) || config::exempt(
                old(self).cfg.allowlist@,
                key.spec_src(),
            ) || (decision == Decision::QuarantineIp && listed(
                old(self).quarantined_ips_expiry@,
                key.spec_src(),
            )) {
                None
            } else {
                Some(old(self).plan(*key, decision, ts_ns))
            },
            config::exempt(old(self).cfg.allowlist@, key.spec_src()) ==> r is None,
            old(self).table.sessions@.contains_key(*key) && old(self).table.sessions@[*key].state
                == SessionState::Quarantined ==> r is None,
            r matches Some(iso) ==> iso.key == *key && iso.seq == old(self).audit.seq
                && final(self).audit.seq != old(self).audit.seq,
    {
        if let Some(s) = self.table.sessions.get(key) {
            if s.state == SessionState::Quarantined {
                return None;
            }
        }
        let src: IpAddr = key.src_ip();
        if config::is_exempt(&self.cfg.allowlist, &src) {
            return None;
        }
        let seq: u64 = self.audit.next_seq();
        let whole_source: bool = decision == Decision::QuarantineIp;
        if whole_source && is_listed(&self.quarantined_ips_expiry, &src) {
            return None;
        }
        let reason: u32 = if whole_source {
            BlockReason::IpQuarantine.code()
        } else {
            BlockReason::Triage.code()
        };
        let entry = BlockEntry {
            reason,
            ts_ns: protocol::low_u32(ts_ns),
            ttl_ns: protocol::low_u32(self.cfg.block_ttl_ns),
            seq: protocol::low_u32(seq),
        };
        let reverse: Option<FlowKey> = if whole_source && !config::is_exempt(
            &self.cfg.allowlist,
            &key.dst_ip(),
        ) {
            Some(key.reverse())
        } else {
            None
        };
        let source: IpKey = IpKey::from_ip(src);
        Some(Isolation { key: *key, whole_source, source, reverse, entry, seq })
    }

    /// The isolation of `key` that a decision calls for. With a whole source the
    /// reverse direction of the flow is blocked too, unless it comes from an
    /// allowlisted address.
    pub open spec fn plan(&self, key: FlowKey, decision: Decision, ts_ns: u64) -> Isolation {
        let whole_source = decision == Decision::QuarantineIp;
        Isolation {
            key,
            whole_source,
            source: IpKey::of(key.spec_src()),
            reverse: if whole_source && !config::exempt(self.cfg.allowlist@, key.spec_dst()) {
                Some(key.spec_reverse())
            } else {
                None
            },
            entry: BlockEntry {
                reason: if whole_source {
                    BlockReason::IpQuarantine.spec_code()
                } else {
                    BlockReason::Triage.spec_code()
                },
                ts_ns: protocol::low_word(ts_ns),
                ttl_ns: protocol::low_word(self.cfg.block_ttl_ns),
                seq: protocol::low_word(self.audit.seq),
            },
            seq: self.audit.seq,
        }
    }

    /// Length of the quarantine window in ms.
    pub open spec fn window_ms(&self) -> u64 {
        config::low_64(self.cfg.cli.quarantine.ms())
    }

    /// The quarantined sources once `iso` took effect.
    pub open spec fn sources_with(&self, iso: Isolation, now_ms: u64) -> Seq<(IpAddr, u64)> {
        let list = self.quarantined_ips_expiry@;
        if iso.whole_source && !listed(list, iso.key.spec_src()) {
            list.push((iso.key.spec_src(), (now_ms + self.window_ms()) as u64))
        } else {
            list
        }
    }

    /// The blocked reverse directions once `iso` took effect.
    pub open spec fn reverses_with(&self, iso: Isolation, now_ms: u64) -> Seq<(FlowKey, u64)> {
        match iso.reverse {
            Some(r) => self.reverse_expiry@.push((r, (now_ms + self.window_ms()) as u64)),
            None => self.reverse_expiry@,
        }
    }

    /// The sessions once `iso` took effect.
    pub open spec fn sessions_with(&self, iso: Isolation, risk: u64, now_ms: u64) -> Map<
        FlowKey,
        Session,
    > {
        let m = self.table.sessions@;
        if m.contains_key(iso.key) {
            m.insert(
                iso.key,
                Session {
                    state: SessionState::Quarantined,
                    risk,
                    quarantine_until_ms: Some((now_ms + self.window_ms()) as u64),
                    block_seq: Some(iso.seq),
                    ..m[iso.key]
                },
            )
        } else {
            m
        }
    }

    /// The alert for an isolation.
    pub open spec fn isolation_record(
        &self,
        iso: Isolation,
        session: Session,
        out: TriageOutcome,
        latency_ns: u64,
        now_ms: u64,
    ) -> AuditRecord {
        let src = iso.key.spec_src();
        AuditRecord {
            ts: now_ms,
            level: "alert"@,
            event: "isolation_enforced"@,
            flow: Some(
                FlowRecord {
                    app: L7App::decode(session.l7_app).spec_tag(),
                    ..FlowRecord::of(iso.key, session.packets, session.bytes)
                },
            ),
            src_ip: Some(src),
            risk: Some(out.risk),
            threshold: Some(self.ctrl.threshold),
            confidence: Some(out.confidence),
            decision: Some(out.decision),
            rationale: out.records(),
            action: Some(
                ActionRecord {
                    kind: if iso.whole_source {
                        "ip_quarantine"@
                    } else {
                        "flow_quarantine"@
                    },
                    map: if iso.whole_source {
                        "blocklist_ip"@
                    } else {
                        "blocklist"@
                    },
                    key: if iso.whole_source {
                        src.spec_text()
                    } else {
                        audit::endpoint(src, iso.key.sport) + "->"@ + audit::endpoint(
                            iso.key.spec_dst(),
                            iso.key.dport,
                        )
                    },
                    reason: if iso.whole_source {
                        "ip_quarantine"@
                    } else {
                        "triage"@
                    },
                    seq: iso.seq,
                    ttl_ns: self.cfg.block_ttl_ns,
                },
            ),
            latency_ns: Some(latency_ns),
            detail: None,
        }
    }

    /// Records the outcome of an isolation. One that the data plane refused
    /// leaves no trace in the state; one that took effect is counted, marks the
    /// session (and the source and the reverse direction), and is reported.
    pub fn complete_isolation(
        &mut self,
        iso: &Isolation,
        session: &Session,
        out: TriageOutcome,
        blocked: bool,
        latency_ns: u64,
        now_ms: u64,
    ) -> (r: Option<AuditEvent>)
        requires
            old(self).valid(),
            blocked ==> now_ms + old(self).window_ms() <= u64::MAX,
        ensures
            final(self).valid(),
            final(self).same_settings(old(self)),
            final(self).same_memory(old(self)),
            final(self).audit.seq == old(self).audit.seq,
            final(self).enforce == old(self).enforce,
            final(self).table.sessions.order() == old(self).table.sessions.order(),
            match r {
                None => {
                    &&& !blocked
                    &&& final(self).same_holds(old(self))
                    &&& final(self).table.sessions@ == old(self).table.sessions@
                    &&& final(self).same_books(old(self))
                },
                Some(ev) => {
                    &&& blocked
                    &&& final(self).table.sessions@ == old(self).sessions_with(
                        *iso,
                        out.risk,
                        now_ms,
                    )
                    &&& final(self).quarantined_ips_expiry@ == old(self).sources_with(*iso, now_ms)
                    &&& final(self).reverse_expiry@ == old(self).reverses_with(*iso, now_ms)
                    &&& final(self).decisions == (old(self).decisions + 1) % 0x1_0000_0000_0000_0000
                    &&& ev@ == old(self).isolation_record(*iso, *session, out, latency_ns, now_ms)
                },
            },
    {
        if !blocked {
            return None;
        }
        let until: u64 = now_ms + config::low_u64(self.cfg.cli.quarantine.as_millis());
        let src: IpAddr = iso.key.src_ip();
        if iso.whole_source && !is_listed(&self.quarantined_ips_expiry, &src) {
            self.quarantined_ips_expiry.push((src, until));
            proof {
                let list = self.quarantined_ips_expiry@;
                assert(list.drop_last() =~= old(self).quarantined_ips_expiry@);
                assert forall|i: int| 0 <= i < list.len() - 1 implies (#[trigger] list[i]).0
                    != src by {
                    assert(list[i] == old(self).quarantined_ips_expiry@[i]);
                }
            }
        }
        if let Some(r) = iso.reverse {
            self.reverse_expiry.push((r, until));
        }
        self.decisions = if self.decisions == u64::MAX {
            0
        } else {
            self.decisions + 1
        };
        let known: Option<Session> = match self.table.sessions.get(&iso.key) {
            Some(s) => Some(*s),
            None => None,
        };
        if let Some(found) = known {
            let mut s: Session = found;
            s.state = SessionState::Quarantined;
            s.risk = out.risk;
            s.quarantine_until_ms = Some(until);
            s.block_seq = Some(iso.seq);
            self.table.sessions.insert(iso.key, s);
        }
        let mut target: String = String::new();
        if iso.whole_source {
            src.push_text(&mut target);
            assert(target@ =~= src.spec_text());
        } else {
            audit::push_endpoint(&mut target, &src, iso.key.sport);
            target.append("->");
            audit::push_endpoint(&mut target, &iso.key.dst_ip(), iso.key.dport);
            assert(target@ =~= audit::endpoint(src, iso.key.sport) + "->"@ + audit::endpoint(
                iso.key.spec_dst(),
                iso.key.dport,
            ));
        }
        let (kind, map, reason): (&'static str, &'static str, &'static str) = if iso.whole_source {
            ("ip_quarantine", "blocklist_ip", "ip_quarantine")
        } else {
            ("flow_quarantine", "blocklist", "triage")
        };
        let mut flow_ref: FlowRef = FlowRef::from_key(&iso.key, session.packets, session.bytes);
        flow_ref.app = L7App::from_u8(session.l7_app).tag();
        let ev = AuditEvent {
            ts: now_ms,
            level: "alert",
            event: "isolation_enforced",
            flow: Some(flow_ref),
            src_ip: Some(src),
            risk: Some(out.risk),
            threshold: Some(self.ctrl.threshold),
            confidence: Some(out.confidence),
            decision: Some(out.decision),
            rationale: out.rationale,
            action: Some(
                ActionRef {
                    kind,
                    map,
                    key: target,
                    reason,
                    seq: iso.seq,
                    ttl_ns: self.cfg.block_ttl_ns,
                },
            ),
            latency_ns: Some(latency_ns),
            detail: None,
        };
        Some(self.audit.enforce(ev, now_ms))
    }

    /// Time after which an idle flow is forgotten, in ns.
    pub open spec fn flow_ttl_ns(&self) -> u64 {
        config::low_64(self.cfg.cli.flow_ttl.ns())
    }

    /// The report that a flow's quarantine ended. Only a flow that is `open` again
    /// has an unblocking to report.
    pub open spec fn release_record(&self, key: FlowKey, open: bool, now_ms: u64) -> AuditRecord {
        AuditRecord {
            ts: now_ms,
            level: "info"@,
            event: "isolation_released"@,
            flow: Some(FlowRecord::of(key, 0, 0)),
            src_ip: Some(key.spec_src()),
            risk: None,
            threshold: Some(self.ctrl.threshold),
            confidence: None,
            decision: Some(Decision::Unquarantine),
            rationale: Seq::empty(),
            action: if open {
                Some(
                    ActionRecord {
                        kind: "unblock"@,
                        map: "blocklist"@,
                        key: audit::endpoint(key.spec_dst(), key.dport),
                        reason: "ttl_expired"@,
                        seq: 0,
                        ttl_ns: 0,
                    },
                )
            } else {
                None
            },
            latency_ns: None,
            detail: Some(
                "quarantine window of "@ + text::dec(self.cfg.cli.quarantine.secs as nat)
                    + "s elapsed"@,
            ),
        }
    }

    fn release_event(&self, key: &FlowKey, open: bool, now_ms: u64) -> (r: AuditEvent)
        ensures
            r@ == self.release_record(*key, open, now_ms),
    {
        let mut detail: String = String::new();
        detail.append("quarantine window of ");
        text::push_dec(&mut detail, self.cfg.cli.quarantine.secs as u128);
        detail.append("s elapsed");
        assert(detail@ =~= "quarantine window of "@ + text::dec(
            self.cfg.cli.quarantine.secs as nat,
        ) + "s elapsed"@);
        let ev = AuditEvent {
            ts: now_ms,
            level: "info",
            event: "isolation_released",
            flow: Some(FlowRef::from_key(key, 0, 0)),
            src_ip: Some(key.src_ip()),
            risk: None,
            threshold: Some(self.ctrl.threshold),
            confidence: None,
            decision: Some(Decision::Unquarantine),
            rationale: Vec::new(),
            action: if open {
                Some(
                    ActionRef {
                        kind: "unblock",
                        map: "blocklist",
                        key: audit::endpoint_text(&key.dst_ip(), key.dport),
                        reason: "ttl_expired",
                        seq: 0,
                        ttl_ns: 0,
                    },
                )
            } else {
                None
            },
            latency_ns: None,
            detail: Some(detail),
        };
        assert(ev@.rationale =~= Seq::empty());
        self.audit.log(ev, now_ms)
    }

    /// The report that a source's quarantine ended.
    pub open spec fn source_release_record(&self, ip: IpAddr, now_ms: u64) -> AuditRecord {
        AuditRecord {
            ts: now_ms,
            level: "info"@,
            event: "ip_isolation_released"@,
            flow: None,
            src_ip: Some(ip),
            risk: None,
            threshold: Some(self.ctrl.threshold),
            confidence: None,
            decision: Some(Decision::Unquarantine),
            rationale: Seq::empty(),
            action: Some(
                ActionRecord {
                    kind: "unblock"@,
                    map: "blocklist_ip"@,
                    key: ip.spec_text(),
                    reason: "ttl_expired"@,
                    seq: 0,
                    ttl_ns: 0,
                },
            ),
            latency_ns: None,
            detail: Some(
                "IP quarantine window of "@ + text::dec((self.window_ms() / 1_000) as nat)
                    + "s elapsed"@,
            ),
        }
    }

    fn source_release_event(&self, ip: &IpAddr, now_ms: u64) -> (r: AuditEvent)
        ensures
            r@ == self.source_release_record(*ip, now_ms),
    {
        let window: u64 = config::low_u64(self.cfg.cli.quarantine.as_millis());
        let mut detail: String = String::new();
        detail.append("IP quarantine window of ");
        text::push_dec(&mut detail, (window / 1_000) as u128);
        detail.append("s elapsed");
        assert(detail@ =~= "IP quarantine window of "@ + text::dec(
            (self.window_ms() / 1_000) as nat,
        ) + "s elapsed"@);
        let ev = AuditEvent {
            ts: now_ms,
            level: "info",
            event: "ip_isolation_released",
            flow: None,
            src_ip: Some(*ip),
            risk: None,
            threshold: Some(self.ctrl.threshold),
            confidence: None,
            decision: Some(Decision::Unquarantine),
            rationale: Vec::new(),
            action: Some(
                ActionRef {
                    kind: "unblock",
                    map: "blocklist_ip",
                    key: ip.to_text(),
                    reason: "ttl_expired",
                    seq: 0,
                    ttl_ns: 0,
                },
            ),
            latency_ns: None,
            detail: Some(detail),
        };
        assert(ev@.rationale =~= Seq::empty());
        self.audit.log(ev, now_ms)
    }

    /// The flows whose quarantine ends, in table order.
    pub open spec fn to_release(&self, now_ms: u64) -> Seq<FlowKey> {
        self.table.sessions.order().filter(
            |k: FlowKey| releasable(self.table.sessions@[k], now_ms),
        )
    }

    /// The entries of the sources whose quarantine ends, in list order.
    pub open spec fn to_free(&self, now_ms: u64) -> Seq<(IpAddr, u64)> {
        over(self.quarantined_ips_expiry@, now_ms)
    }

    /// Whether a flow stays blocked at `now_ms`: its own quarantine goes on, or it
    /// is the reverse direction of one that does.
    pub open spec fn stays_blocked(&self, k: FlowKey, now_ms: u64) -> bool {
        ||| self.holds(k) && !releasable(self.table.sessions@[k], now_ms)
        ||| listed(live(self.reverse_expiry@, now_ms), k)
    }

    /// The flows that a quarantine that ends at `now_ms` blocked, in table order
    /// and then in list order, each once, unless something else keeps them blocked.
    pub open spec fn to_unblock(&self, now_ms: u64) -> Seq<FlowKey> {
        seqs::distinct(
            (self.to_release(now_ms) + over(self.reverse_expiry@, now_ms).map_values(
                |e: (FlowKey, u64)| e.0,
            )).filter(|k: FlowKey| !self.stays_blocked(k, now_ms)),
        )
    }

    /// The reports of a reap: one for each flow released, with the unblocking
    /// unless the flow stays blocked, then one for each source freed.
    pub open spec fn reap_records(&self, now_ms: u64) -> Seq<AuditRecord> {
        self.to_release(now_ms).map_values(
            |k: FlowKey| self.release_record(k, !self.stays_blocked(k, now_ms), now_ms),
        ) + self.to_free(now_ms).map_values(
            |e: (IpAddr, u64)| self.source_release_record(e.0, now_ms),
        )
    }

    /// Ends the quarantines whose window is over, with the reverse directions that
    /// were blocked along with them, and forgets the sessions that are idle and
    /// not quarantined. A released session stays in the table as an active one.
    pub fn reap_tick(&mut self, now_ns: u64, now_ms: u64) -> (r: Reaped)
        requires
            old(self).valid(),
        ensures
            final(self).valid(),
            final(self).same_settings(old(self)),
            final(self).same_memory(old(self)),
            final(self).decisions == old(self).decisions,
            final(self).audit.seq == old(self).audit.seq,
            final(self).enforce == old(self).enforce,
            final(self).table.sessions@ == after_reap(
                old(self).table.sessions@,
                now_ns,
                now_ms,
                old(self).flow_ttl_ns(),
            ),
            final(self).table.sessions.order() == old(self).table.sessions.order().filter(
                |k: FlowKey|
                    !forgotten(old(self).table.sessions@[k], now_ns, old(self).flow_ttl_ns()),
            ),
            forall|k: FlowKey| #[trigger]
                final(self).table.sessions@.contains_key(k) && now_ns
                    > final(self).table.sessions@[k].last_seen_ns + old(self).flow_ttl_ns()
                    ==> old(self).table.sessions@[k].state == SessionState::Quarantined,
            final(self).quarantined_ips_expiry@ == live(old(self).quarantined_ips_expiry@, now_ms),
            final(self).reverse_expiry@ == live(old(self).reverse_expiry@, now_ms),
            r.released@ == old(self).to_release(now_ms),
            r.unblocked@ == old(self).to_unblock(now_ms),
            r.unblocked@.no_duplicates(),
            r.freed@ == old(self).to_free(now_ms).map_values(|e: (IpAddr, u64)| e.0),
            audit::audit_records(r.events@) == old(self).reap_records(now_ms),
    {
        let released: Vec<FlowKey> = self.reap_sessions(now_ns, now_ms);
        let (ended, standing): (Vec<FlowKey>, Vec<(FlowKey, u64)>) = split_expired(
            &self.reverse_expiry,
            now_ms,
        );
        let unblocked: Vec<FlowKey> = self.unblockable(&released, &ended, &standing);
        proof {
            let was = *old(self);
            let p = |k: FlowKey| !was.stays_blocked(k, now_ms);
            let q = |k: FlowKey| !self.holds(k) && !listed(standing@, k);
            assert forall|k: FlowKey| #[trigger]
                was.stays_blocked(k, now_ms) <==> self.holds(k) || listed(standing@, k) by {
                assert(self.holds(k) <==> was.holds(k) && !releasable(
                    was.table.sessions@[k],
                    now_ms,
                ));
            }
            assert(p =~= q);
        }
        self.reverse_expiry = standing;
        let mut events: Vec<AuditEvent> = Vec::new();
        let mut i: usize = 0;
        let ghost of_key = |k: FlowKey|
            old(self).release_record(k, !old(self).stays_blocked(k, now_ms), now_ms);
        let ghost of_entry = |e: (IpAddr, u64)| old(self).source_release_record(e.0, now_ms);
        assert(audit::audit_records(events@) =~= released@.take(0).map_values(of_key));
        while i < released.len()
            invariant
                i <= released@.len(),
                self.same_settings(old(self)),
                of_key == (|k: FlowKey|
                    old(self).release_record(k, !old(self).stays_blocked(k, now_ms), now_ms)),
                forall|k: FlowKey| #[trigger]
                    old(self).stays_blocked(k, now_ms) <==> self.holds(k) || listed(
                        self.reverse_expiry@,
                        k,
                    ),
                audit::audit_records(events@) == released@.take(i as int).map_values(of_key),
            decreases released@.len() - i,
        {
            let ghost before = events@;
            let key: FlowKey = released[i];
            let open: bool = !self.is_held(&key) && !is_listed(&self.reverse_expiry, &key);
            let ev: AuditEvent = self.release_event(&key, open, now_ms);
            events.push(ev);
            proof {
                assert(ev@ == of_key(released@[i as int]));
                assert(audit::audit_records(events@) =~= audit::audit_records(before).push(ev@));
                assert(released@.take(i + 1).map_values(of_key) =~= released@.take(
                    i as int,
                ).map_values(of_key).push(ev@));
            }
            i += 1;
        }
        assert(released@.take(i as int) =~= released@);
        let ghost first = audit::audit_records(events@);
        let (freed, kept): (Vec<IpAddr>, Vec<(IpAddr, u64)>) = split_expired(
            &self.quarantined_ips_expiry,
            now_ms,
        );
        proof {
            lemma_filter_keeps_order(
                self.quarantined_ips_expiry@,
                |e: (IpAddr, u64)| now_ms < e.1,
            );
        }
        self.quarantined_ips_expiry = kept;
        let ghost entries = old(self).to_free(now_ms);
        let mut j: usize = 0;
        assert(first + entries.take(0).map_values(of_entry) =~= first);
        while j < freed.len()
            invariant
                j <= freed@.len(),
                freed@ == entries.map_values(|e: (IpAddr, u64)| e.0),
                self.same_settings(old(self)),
                of_entry == (|e: (IpAddr, u64)| old(self).source_release_record(e.0, now_ms)),
                audit::audit_records(events@) == first + entries.take(j as int).map_values(
                    of_entry,
                ),
            decreases freed@.len() - j,
        {
            let ghost before = events@;
            let ev: AuditEvent = self.source_release_event(&freed[j], now_ms);
            events.push(ev);
            proof {
                assert(ev@ == of_entry(entries[j as int]));
                assert(audit::audit_records(events@) =~= audit::audit_records(before).push(ev@));
                assert(entries.take(j + 1).map_values(of_entry) =~= entries.take(
                    j as int,
                ).map_values(of_entry).push(ev@));
            }
            j += 1;
        }
        assert(entries.take(j as int) =~= entries);
        Reaped { released, unblocked, freed, events }
    }

    /// The flows among those whose block ended that nothing else blocks: neither
    /// their own quarantine nor an entry of `standing`. Each is given once.
    fn unblockable(
        &self,
        released: &Vec<FlowKey>,
        ended: &Vec<FlowKey>,
        standing: &Vec<(FlowKey, u64)>,
    ) -> (r: Vec<FlowKey>)
        ensures
            r@ == seqs::distinct(
                (released@ + ended@).filter(|k: FlowKey| !self.holds(k) && !listed(standing@, k)),
            ),
            r@.no_duplicates(),
    {
        let ghost all = released@ + ended@;
        let ghost p = |k: FlowKey| !self.holds(k) && !listed(standing@, k);
        let n: usize = released.len();
        let m: usize = ended.len();
        let mut out: Vec<FlowKey> = Vec::new();
        let mut i: usize = 0;
        proof {
            reveal(Seq::filter);
        }
        while i < n
            invariant
                n == released@.len(),
                all == released@ + ended@,
                p == (|k: FlowKey| !self.holds(k) && !listed(standing@, k)),
                i <= n,
                out@ == seqs::distinct(all.take(i as int).filter(p)),
            decreases n - i,
        {
            let k: FlowKey = released[i];
            proof {
                seqs::lemma_filter_step(all, i as int, p);
                seqs::lemma_distinct_push(all.take(i as int).filter(p), k);
            }
            if !self.is_held(&k) && !is_listed(standing, &k) {
                push_new(&mut out, k);
            }
            i += 1;
        }
        let mut j: usize = 0;
        while j < m
            invariant
                n == released@.len(),
                m == ended@.len(),
                all == released@ + ended@,
                p == (|k: FlowKey| !self.holds(k) && !listed(standing@, k)),
                j <= m,
                out@ == seqs::distinct(all.take(n + j).filter(p)),
            decreases m - j,
        {
            let k: FlowKey = ended[j];
            proof {
                seqs::lemma_filter_step(all, n + j, p);
                seqs::lemma_distinct_push(all.take(n + j).filter(p), k);
            }
            if !self.is_held(&k) && !is_listed(standing, &k) {
                push_new(&mut out, k);
            }
            j += 1;
        }
        proof {
            assert(all.take(n + m) =~= all);
            seqs::lemma_distinct(all.filter(p));
        }
        out
    }

    fn is_held(&self, key: &FlowKey) -> (r: bool)
        ensures
            r == self.holds(*key),
    {
        match self.table.sessions.get(key) {
            Some(s) => s.state == SessionState::Quarantined,
            None => false,
        }
    }

    /// Releases and forgets sessions; returns the released keys.
    fn reap_sessions(&mut self, now_ns: u64, now_ms: u64) -> (r: Vec<FlowKey>)
        requires
            old(self).valid(),
        ensures
            final(self).valid(),
            final(self).same_settings(old(self)),
            final(self).same_memory(old(self)),
            final(self).same_books(old(self)),
            final(self).table.sessions@ == after_reap(
                old(self).table.sessions@,
                now_ns,
                now_ms,
                old(self).flow_ttl_ns(),
            ),
            final(self).table.sessions.order() == old(self).table.sessions.order().filter(
                |k: FlowKey|
                    !forgotten(old(self).table.sessions@[k], now_ns, old(self).flow_ttl_ns()),
            ),
            r@ == old(self).to_release(now_ms),
    {
        let ttl_ns: u64 = config::low_u64(self.cfg.cli.flow_ttl.as_nanos());
        let ghost m = self.table.sessions@;
        let ghost order = self.table.sessions.order();
        let ghost ends = |k: FlowKey| releasable(m[k], now_ms);
        let ghost stays = |k: FlowKey| !forgotten(m[k], now_ns, ttl_ns);
        let mut kept: KeyedMap<FlowKey, Session> = KeyedMap::new();
        let mut out: Vec<FlowKey> = Vec::new();
        let n: usize = self.table.sessions.len();
        let mut i: usize = 0;
        proof {
            reveal(Seq::filter);
        }
        while i < n
            invariant
                n == order.len(),
                m == self.table.sessions@,
                order == self.table.sessions.order(),
                order.no_duplicates(),
                ends == (|k: FlowKey| releasable(m[k], now_ms)),
                stays == (|k: FlowKey| !forgotten(m[k], now_ns, ttl_ns)),
                i <= n,
                out@ == order.take(i as int).filter(ends),
                kept.order() == order.take(i as int).filter(stays),
                forall|k: FlowKey| #[trigger]
                    kept@.contains_key(k) <==> order.take(i as int).contains(k) && stays(k),
                forall|k: FlowKey| #[trigger]
                    kept@.contains_key(k) ==> kept@[k] == after_reap(
                        m,
                        now_ns,
                        now_ms,
                        ttl_ns,
                    )[k] && m.contains_key(k),
            decreases n - i,
        {
            let key: FlowKey = self.table.sessions.key_at(i);
            let s: Session = *self.table.sessions.value_at(i);
            let quiet: bool = s.last_seen_ns < now_ns && now_ns - s.last_seen_ns > ttl_ns;
            let done: bool = match s.quarantine_until_ms {
                Some(until) => now_ms >= until,
                None => false,
            };
            proof {
                seqs::lemma_filter_step(order, i as int, ends);
                seqs::lemma_filter_step(order, i as int, stays);
                let seen = order.take(i as int);
                assert(order.take(i + 1) =~= seen.push(key));
                assert forall|k: FlowKey| order.take(i + 1).contains(k) <==> seen.contains(k) || k
                    == key by {
                    if seen.contains(k) {
                        let j = choose|j: int| 0 <= j < seen.len() && seen[j] == k;
                        assert(order.take(i + 1)[j] == k);
                    }
                    assert(order.take(i + 1)[i as int] == key);
                }
                if seen.contains(key) {
                    let j = choose|j: int| 0 <= j < seen.len() && seen[j] == key;
                    assert(order[j] == order[i as int]);
                }
                assert(!kept@.contains_key(key));
            }
            if s.state == SessionState::Quarantined && done {
                out.push(key);
                let mut t: Session = s;
                t.state = SessionState::Active;
                t.quarantine_until_ms = None;
                t.block_seq = None;
                kept.insert(key, t);
            } else if s.state == SessionState::Quarantined || !quiet {
                kept.insert(key, s);
            }
            i += 1;
        }
        proof {
            assert(order.take(n as int) =~= order);
            assert(self.table.sessions.valid());
            assert(kept@ =~= after_reap(m, now_ns, now_ms, ttl_ns));
        }
        self.table.sessions = kept;
        out
    }

    /// The control setting for the current mode.
    pub open spec fn control(&self) -> ControlCfg {
        ControlCfg::spec_new(
            self.enforce,
            self.cfg.block_ip,
            self.cfg.cli.hit_events,
            self.cfg.block_ttl_ns,
        )
    }

    fn control_cfg(&self) -> (r: ControlCfg)
        ensures
            r == self.control(),
    {
        ControlCfg::new(
            self.enforce,
            self.cfg.block_ip,
            self.cfg.cli.hit_events,
            self.cfg.block_ttl_ns,
        )
    }

    /// A report about the enforcement mode.
    pub open spec fn mode_record(
        &self,
        event: Seq<char>,
        ttl_ns: u64,
        detail: Seq<char>,
        now_ms: u64,
    ) -> AuditRecord {
        AuditRecord {
            ts: now_ms,
            level: "info"@,
            event,
            flow: None,
            src_ip: None,
            risk: None,
            threshold: Some(self.ctrl.threshold),
            confidence: None,
            decision: Some(Decision::Monitor),
            rationale: Seq::empty(),
            action: Some(
                ActionRecord {
                    kind: "ctl"@,
                    map: "ctl"@,
                    key: "mode"@,
                    reason: mode_name(self.enforce),
                    seq: 0,
                    ttl_ns,
                },
            ),
            latency_ns: None,
            detail: Some(detail),
        }
    }

    fn mode_event(&self, event: &'static str, ttl_ns: u64, detail: String, now_ms: u64) -> (r:
        AuditEvent)
        ensures
            r@ == self.mode_record(event@, ttl_ns, detail@, now_ms),
    {
        let ev = AuditEvent {
            ts: now_ms,
            level: "info",
            event,
            flow: None,
            src_ip: None,
            risk: None,
            threshold: Some(self.ctrl.threshold),
            confidence: None,
            decision: Some(Decision::Monitor),
            rationale: Vec::new(),
            action: Some(
                ActionRef {
                    kind: "ctl",
                    map: "ctl",
                    key: "mode".to_owned(),
                    reason: if self.enforce {
                        "enforce"
                    } else {
                        "monitor"
                    },
                    seq: 0,
                    ttl_ns,
                },
            ),
            latency_ns: None,
            detail: Some(detail),
        };
        assert(ev@.rationale =~= Seq::empty());
        self.audit.log(ev, now_ms)
    }

    /// The settings that a start is reported with.
    pub open spec fn start_detail(&self) -> Seq<char> {
        "attach="@ + mode_name(self.enforce) + " iface="@ + self.cfg.cli.iface@ + " threshold="@
            + text::fixed_point(self.ctrl.threshold as nat, UNIT as nat) + " quarantine="@
            + text::dec(self.cfg.cli.quarantine.secs as nat) + "s block_ip="@ + truth(
            self.cfg.block_ip,
        ) + " mock="@ + truth(self.cfg.cli.mock)
    }

    /// Starts the control loop in the configured mode.
    pub fn start(&mut self, now_ms: u64) -> (r: ModeChange)
        requires
            old(self).valid(),
        ensures
            final(self).valid(),
            final(self).same_settings(old(self)),
            final(self).same_holds(old(self)),
            final(self).same_memory(old(self)),
            final(self).enforce == !old(self).cfg.cli.monitor,
            final(self).audit.seq == old(self).audit.seq,
            final(self).decisions == old(self).decisions,
            final(self).quarantined_ips_expiry@ == old(self).quarantined_ips_expiry@,
            final(self).reverse_expiry@ == old(self).reverse_expiry@,
            final(self).table.sessions@ == old(self).table.sessions@,
            final(self).table.sessions.order() == old(self).table.sessions.order(),
            r.control == final(self).control(),
            r.event@ == final(self).mode_record(
                "supervisor_started"@,
                final(self).cfg.block_ttl_ns,
                final(self).start_detail(),
                now_ms,
            ),
    {
        self.enforce = !self.cfg.cli.monitor;
        let mut t: String = String::new();
        t.append("attach=");
        t.append(
            if self.enforce {
                "enforce"
            } else {
                "monitor"
            },
        );
        t.append(" iface=");
        t.append(self.cfg.cli.iface.as_str());
        t.append(" threshold=");
        proof {
            reveal_with_fuel(text::power_of_ten, 19);
        }
        text::push_fixed_point(&mut t, self.ctrl.threshold, UNIT);
        t.append(" quarantine=");
        text::push_dec(&mut t, self.cfg.cli.quarantine.secs as u128);
        t.append("s block_ip=");
        push_truth(&mut t, self.cfg.block_ip);
        t.append(" mock=");
        push_truth(&mut t, self.cfg.cli.mock);
        assert(t@ =~= self.start_detail());
        ModeChange {
            control: self.control_cfg(),
            event: self.mode_event("supervisor_started", self.cfg.block_ttl_ns, t, now_ms),
        }
    }

    /// Switches between enforcing and monitoring.
    pub fn toggle_enforce(&mut self, now_ms: u64) -> (r: ModeChange)
        requires
            old(self).valid(),
        ensures
            final(self).valid(),
            final(self).same_settings(old(self)),
            final(self).same_holds(old(self)),
            final(self).same_memory(old(self)),
            final(self).enforce == !old(self).enforce,
            final(self).audit.seq == old(self).audit.seq,
            final(self).decisions == old(self).decisions,
            final(self).quarantined_ips_expiry@ == old(self).quarantined_ips_expiry@,
            final(self).reverse_expiry@ == old(self).reverse_expiry@,
            final(self).table.sessions@ == old(self).table.sessions@,
            final(self).table.sessions.order() == old(self).table.sessions.order(),
            r.control == final(self).control(),
            r.event@ == final(self).mode_record(
                "mode_toggle"@,
                0,
                if final(self).enforce {
                    "switched to enforce (drops active)"@
                } else {
                    "switched to monitor (observe only)"@
                },
                now_ms,
            ),
    {
        self.enforce = !self.enforce;
        let detail: String = if self.enforce {
            "switched to enforce (drops active)".to_owned()
        } else {
            "switched to monitor (observe only)".to_owned()
        };
        ModeChange {
            control: self.control_cfg(),
            event: self.mode_event("mode_toggle", 0, detail, now_ms),
        }
    }

    /// What the external model is to be told of a flow, if there is a
    /// model.
    pub fn request_llm_review(&self, key: &FlowKey, session: &Session, out: &TriageOutcome) -> (r:
        Option<String>)
        ensures
            match r {
                Some(t) => self.llm is Some && t@ == review_text(*key, *session, *out),
                None => self.llm is None,
            },
    {
        if self.llm.is_none() {
            return None;
        }
        let mut t: String = String::new();
        t.append("flow ");
        key.src_ip().push_text(&mut t);
        t.append(" -> ");
        audit::push_endpoint(&mut t, &key.dst_ip(), key.dport);
        t.append(" proto=");
        text::push_dec(&mut t, key.proto as u128);
        t.append(" app=");
        text::push_dec(&mut t, session.l7_app as u128);
        t.append(" packets=");
        text::push_dec(&mut t, session.packets as u128);
        t.append(" bytes=");
        text::push_dec(&mut t, session.bytes as u128);
        t.append(" syn=");
        text::push_dec(&mut t, session.syn_count as u128);
        t.append(" risk=");
        push_score(&mut t, out.risk);
        t.append(" rationale=");
        t.append(text::join(&signal_names(&out.rationale), ",").as_str());
        assert(t@ =~= review_text(*key, *session, *out));
        Some(t)
    }

    /// The flows under quarantine, in table order.
    pub open spec fn held_flows(&self) -> Seq<FlowKey> {
        self.table.sessions.order().filter(|k: FlowKey| self.holds(k))
    }

    /// The figures for the metrics exporter.
    pub fn publish_metrics(&self, counters: &CounterVec) -> (r: MetricsState)
        ensures
            r.pass == counters.pass,
            r.drop == counters.drop,
            r.block_hits == counters.block_hits,
            r.new_flows == counters.new_flows,
            r.malformed == counters.malformed,
            r.events_lost == counters.events_lost,
            r.sessions == self.table.sessions@.dom().len(),
            r.quarantined_flows == self.held_flows().len(),
            r.quarantined_ips == self.quarantined_ips_expiry@.len(),
            r.decisions == self.decisions,
            r.enforce == self.enforce,
    {
        let n: usize = self.table.sessions.len();
        let ghost order = self.table.sessions.order();
        let ghost p = |k: FlowKey| self.holds(k);
        let mut held: usize = 0;
        let mut i: usize = 0;
        proof {
            reveal(Seq::filter);
        }
        while i < n
            invariant
                n == order.len(),
                order == self.table.sessions.order(),
                p == (|k: FlowKey| self.holds(k)),
                held <= i <= n,
                held == order.take(i as int).filter(p).len(),
            decreases n - i,
        {
            proof {
                seqs::lemma_filter_step(order, i as int, p);
            }
            let s: Session = *self.table.sessions.value_at(i);
            if s.state == SessionState::Quarantined {
                held += 1;
            }
            i += 1;
        }
        assert(order.take(n as int) =~= order);
        MetricsState {
            pass: counters.pass,
            drop: counters.drop,
            block_hits: counters.block_hits,
            new_flows: counters.new_flows,
            malformed: counters.malformed,
            events_lost: counters.events_lost,
            sessions: n,
            quarantined_flows: held,
            quarantined_ips: self.quarantined_ips_expiry.len(),
            decisions: self.decisions,
            enforce: self.enforce,
        }
    }

    /// The session table in words, one line per session.
    pub open spec fn dump_text(&self) -> Seq<char> {
        text::joined(
            self.table.sessions.order().map_values(
                |k: FlowKey| session_line(k, self.table.sessions@[k]),
            ),
            "\n"@,
        )
    }

    /// Lists the session table.
    pub fn dump_table(&self, now_ms: u64) -> (r: SessionDump)
        ensures
            r.sessions == self.table.sessions@.dom().len(),
            r.summary@ == self.dump_text(),
            r.event@ == (AuditRecord {
                ts: now_ms,
                level: "info"@,
                event: "session_dump"@,
                flow: None,
                src_ip: None,
                risk: None,
                threshold: None,
                confidence: None,
                decision: None,
                rationale: Seq::empty(),
                action: None,
                latency_ns: None,
                detail: Some(self.dump_text()),
            }),
    {
        let n: usize = self.table.sessions.len();
        let ghost order = self.table.sessions.order();
        let ghost line = |k: FlowKey| session_line(k, self.table.sessions@[k]);
        let mut lines: Vec<String> = Vec::new();
        let mut i: usize = 0;
        while i < n
            invariant
                n == order.len(),
                order == self.table.sessions.order(),
                i <= n,
                lines@.len() == i,
                forall|j: int|
                    0 <= j < i ==> (#[trigger] lines@[j])@ == session_line(
                        order[j],
                        self.table.sessions@[order[j]],
                    ),
            decreases n - i,
        {
            let key: FlowKey = self.table.sessions.key_at(i);
            lines.push(session_text(&key, self.table.sessions.value_at(i)));
            i += 1;
        }
        assert(text::views(lines@) =~= order.map_values(line));
        let summary: String = text::join(&lines, "\n");
        let ev = AuditEvent {
            ts: now_ms,
            level: "info",
            event: "session_dump",
            flow: None,
            src_ip: None,
            risk: None,
            threshold: None,
            confidence: None,
            decision: None,
            rationale: Vec::new(),
            action: None,
            latency_ns: None,
            detail: Some(summary.as_str().to_owned()),
        };
        assert(ev@.rationale =~= Seq::empty());
        SessionDump { sessions: n, summary, event: self.audit.log(ev, now_ms) }
    }
}

proof fn lemma_snapshot_keeps_holds(
    m: Map<FlowKey, Session>,
    snap: Seq<(FlowKey, FlowMetrics)>,
    k: FlowKey,
)
    ensures
        ({
            let after = flow::after_snapshot(m, snap);
            (after.contains_key(k) && after[k].state == SessionState::Quarantined) == (
            m.contains_key(k) && m[k].state == SessionState::Quarantined)
        }),
    decreases snap.len(),
{
    if snap.len() > 0 {
        lemma_snapshot_keeps_holds(m, snap.drop_last(), k);
    }
}

proof fn lemma_filter_keeps_order(s: Seq<(IpAddr, u64)>, p: spec_fn((IpAddr, u64)) -> bool)
    requires
        forall|i: int, j: int|
            0 <= i < j < s.len() ==> (#[trigger] s[i]).0 != (#[trigger] s[j]).0,
    ensures
        forall|i: int, j: int|
            0 <= i < j < s.filter(p).len() ==> (#[trigger] s.filter(p)[i]).0 != (
            #[trigger] s.filter(p)[j]).0,
        forall|i: int| 0 <= i < s.filter(p).len() ==> s.contains(#[trigger] s.filter(p)[i]),
    decreases s.len(),
{
    reveal(Seq::filter);
    if s.len() > 0 {
        let t = s.drop_last();
        lemma_filter_keeps_order(t, p);
        let f = t.filter(p);
        assert forall|i: int| 0 <= i < s.filter(p).len() implies s.contains(
            #[trigger] s.filter(p)[i],
        ) by {
            if i < f.len() {
                assert(s.filter(p)[i] == f[i]);
                assert(t.contains(f[i]));
                let j = choose|j: int| 0 <= j < t.len() && t[j] == f[i];
                assert(s[j] == f[i]);
            } else {
                assert(s.filter(p)[i] == s[s.len() - 1]);
            }
        }
        assert forall|i: int, j: int| 0 <= i < j < s.filter(p).len() implies (
        #[trigger] s.filter(p)[i]).0 != (#[trigger] s.filter(p)[j]).0 by {
            assert(s.filter(p)[i] == f[i]);
            if j < f.len() {
                assert(s.filter(p)[j] == f[j]);
            } else {
                assert(t.contains(f[i]));
                let q = choose|q: int| 0 <= q < t.len() && t[q] == f[i];
                assert(s[q] == f[i] && s.filter(p)[j] == s[s.len() - 1]);
            }
        }
    }
}

/// Appends `k` unless it is there already.
fn push_new<K: KeyEq>(list: &mut Vec<K>, k: K)
    ensures
        final(list)@ == if old(list)@.contains(k) {
            old(list)@
        } else {
            old(list)@.push(k)
        },
{
    let mut i: usize = 0;
    while i < list.len()
        invariant
            i <= list@.len(),
            list@ == old(list)@,
            forall|j: int| 0 <= j < i ==> #[trigger] list@[j] != k,
        decreases list@.len() - i,
    {
        if list[i].same(&k) {
            assert(list@[i as int] == k);
            return ;
        }
        i += 1;
    }
    list.push(k);
}

/// Splits a list of blocks into what is over and what goes on.
fn split_expired<K: KeyEq>(list: &Vec<(K, u64)>, now_ms: u64) -> (r: (Vec<K>, Vec<(K, u64)>))
    ensures
        r.0@ == over(list@, now_ms).map_values(|e: (K, u64)| e.0),
        r.1@ == live(list@, now_ms),
{
    let ghost ended = |e: (K, u64)| e.1 <= now_ms;
    let ghost stays = |e: (K, u64)| now_ms < e.1;
    let ghost key_of = |e: (K, u64)| e.0;
    let mut gone: Vec<K> = Vec::new();
    let mut kept: Vec<(K, u64)> = Vec::new();
    let mut i: usize = 0;
    proof {
        reveal(Seq::filter);
        assert(list@.take(0).filter(ended).map_values(key_of) =~= Seq::empty());
    }
    while i < list.len()
        invariant
            i <= list@.len(),
            ended == (|e: (K, u64)| e.1 <= now_ms),
            stays == (|e: (K, u64)| now_ms < e.1),
            key_of == (|e: (K, u64)| e.0),
            gone@ == list@.take(i as int).filter(ended).map_values(key_of),
            kept@ == list@.take(i as int).filter(stays),
        decreases list@.len() - i,
    {
        let key: K = list[i].0;
        let until: u64 = list[i].1;
        proof {
            seqs::lemma_filter_step(list@, i as int, ended);
            seqs::lemma_filter_step(list@, i as int, stays);
        }
        if now_ms < until {
            kept.push((key, until));
        } else {
            proof {
                let done = list@.take(i as int).filter(ended);
                assert(done.push((key, until)).map_values(key_of) =~= done.map_values(key_of).push(
                    key,
                ));
            }
            gone.push(key);
        }
        i += 1;
    }
    assert(list@.take(i as int) =~= list@);
    (gone, kept)
}

/// The plane once an isolation was carried out on it.
pub open spec fn isolated(p: PlaneModel, iso: Isolation) -> PlaneModel {
    if iso.whole_source {
        PlaneModel {
            blocklist_ip: p.blocklist_ip.insert(iso.source),
            blocklist: match iso.reverse {
                Some(r) => p.blocklist.insert(r),
                None => p.blocklist,
            },
            ..p
        }
    } else {
        PlaneModel { blocklist: p.blocklist.insert(iso.key), ..p }
    }
}

/// The plane once an isolation was reverted: the flow, its reverse direction and,
/// for a whole source, the source are unblocked.
pub open spec fn reopened(p: PlaneModel, iso: Isolation) -> PlaneModel {
    PlaneModel {
        blocklist: match iso.reverse {
            Some(r) => p.blocklist.remove(iso.key).remove(r),
            None => p.blocklist.remove(iso.key),
        },
        blocklist_ip: if iso.whole_source {
            p.blocklist_ip.remove(iso.source)
        } else {
            p.blocklist_ip
        },
        ..p
    }
}

/// The plane once the unblocking that a reap at `now_ms` asks for was carried out.
pub open spec fn reaped(p: PlaneModel, sup: &Supervisor, now_ms: u64) -> PlaneModel {
    PlaneModel {
        blocklist: p.blocklist.difference(sup.to_unblock(now_ms).to_set()),
        blocklist_ip: p.blocklist_ip.difference(
            sup.to_free(now_ms).map_values(|e: (IpAddr, u64)| IpKey::of(e.0)).to_set(),
        ),
        ..p
    }
}

/// Whether the supervisor accounts for everything that the plane blocks: each
/// flow is quarantined or a reverse direction, each source is listed.
pub open spec fn accounted(sup: &Supervisor, p: PlaneModel) -> bool {
    &&& forall|k: FlowKey| #[trigger]
        p.blocklist.contains(k) ==> sup.holds(k) || listed(sup.reverse_expiry@, k)
    &&& forall|i: IpKey| #[trigger]
        p.blocklist_ip.contains(i) ==> exists|ip: IpAddr| #[trigger]
            listed(sup.quarantined_ips_expiry@, ip) && IpKey::of(ip) == i
}

/// An isolated flow is dropped while the plane enforces, and so is every other
/// flow of a source that is isolated as a whole.
pub proof fn law_isolated_flow_is_dropped(
    sup: &Supervisor,
    p: PlaneModel,
    key: FlowKey,
    decision: Decision,
    ts_ns: u64,
    other: FlowKey,
)
    requires
        p.enforce,
    ensures
        isolated(p, sup.plan(key, decision, ts_ns)).drops(key),
        decision == Decision::QuarantineIp && other.spec_src() == key.spec_src() ==> isolated(
            p,
            sup.plan(key, decision, ts_ns),
        ).drops(other),
{
}

/// Reverting an isolation undoes it: the plane blocks exactly what it blocked
/// before.
pub proof fn law_release_undoes_isolation(
    sup: &Supervisor,
    p: PlaneModel,
    key: FlowKey,
    decision: Decision,
    ts_ns: u64,
    other: FlowKey,
)
    requires
        !p.blocked(key),
        sup.plan(key, decision, ts_ns).reverse matches Some(r) ==> !p.blocklist.contains(r),
    ensures
        ({
            let iso = sup.plan(key, decision, ts_ns);
            reopened(isolated(p, iso), iso).blocked(other) == p.blocked(other)
        }),
{
}

/// A quarantine is bounded: a reap at or after the end of its window releases
/// the flow, unblocks it unless it is the reverse direction of another isolation,
/// and the session goes on as an active one.
pub proof fn law_quarantine_ends_with_its_window(
    sup: &Supervisor,
    key: FlowKey,
    now_ns: u64,
    now_ms: u64,
)
    requires
        sup.valid(),
        sup.table.sessions.valid(),
        sup.holds(key),
        sup.table.sessions@[key].quarantine_until_ms->0 <= now_ms,
    ensures
        sup.to_release(now_ms).contains(key),
        !listed(live(sup.reverse_expiry@, now_ms), key) ==> sup.to_unblock(now_ms).contains(key),
        ({
            let after = after_reap(sup.table.sessions@, now_ns, now_ms, sup.flow_ttl_ns());
            &&& after.contains_key(key)
            &&& after[key].state == SessionState::Active
            &&& after[key].quarantine_until_ms is None
            &&& after[key].block_seq is None
        }),
{
    let p = |k: FlowKey| releasable(sup.table.sessions@[k], now_ms);
    seqs::lemma_filter_contains(sup.table.sessions.order(), p, key);
    lemma_unblocks(sup, key, now_ms);
}

/// A quarantine is not ended early: before the end of its window a flow stays
/// quarantined and blocked, idle or not, and its session is unchanged.
pub proof fn law_quarantine_lasts_for_its_window(
    sup: &Supervisor,
    key: FlowKey,
    now_ns: u64,
    now_ms: u64,
)
    requires
        sup.valid(),
        sup.holds(key),
        now_ms < sup.table.sessions@[key].quarantine_until_ms->0,
    ensures
        !sup.to_release(now_ms).contains(key),
        !sup.to_unblock(now_ms).contains(key),
        ({
            let after = after_reap(sup.table.sessions@, now_ns, now_ms, sup.flow_ttl_ns());
            after.contains_key(key) && after[key] == sup.table.sessions@[key]
        }),
{
    let p = |k: FlowKey| releasable(sup.table.sessions@[k], now_ms);
    seqs::lemma_filter_contains(sup.table.sessions.order(), p, key);
    lemma_unblocks(sup, key, now_ms);
}

/// What a reap unblocks: a flow whose quarantine ends or whose time as a reverse
/// direction is over, unless it stays blocked otherwise.
proof fn lemma_unblocks(sup: &Supervisor, k: FlowKey, now_ms: u64)
    ensures
        sup.to_unblock(now_ms).contains(k) <==> {
            &&& sup.to_release(now_ms).contains(k) || listed(over(sup.reverse_expiry@, now_ms), k)
            &&& !sup.stays_blocked(k, now_ms)
        },
{
    let first = sup.to_release(now_ms);
    let ended = over(sup.reverse_expiry@, now_ms);
    let second = ended.map_values(|e: (FlowKey, u64)| e.0);
    let all = first + second;
    let p = |k: FlowKey| !sup.stays_blocked(k, now_ms);
    seqs::lemma_filter_contains(all, p, k);
    seqs::lemma_distinct(all.filter(p));
    if first.contains(k) {
        let i = choose|i: int| 0 <= i < first.len() && first[i] == k;
        assert(all[i] == k);
    }
    if listed(ended, k) {
        let i = choose|i: int| 0 <= i < ended.len() && (#[trigger] ended[i]).0 == k;
        assert(all[first.len() + i] == k);
    }
    if all.contains(k) {
        let i = choose|i: int| 0 <= i < all.len() && all[i] == k;
        if i < first.len() {
            assert(first[i] == k);
        } else {
            assert(ended[i - first.len()].0 == k);
        }
    }
}

/// An entry of a list is over or live, and listed keys split accordingly.
proof fn lemma_over_or_live<K>(list: Seq<(K, u64)>, k: K, now_ms: u64)
    ensures
        listed(list, k) <==> listed(over(list, now_ms), k) || listed(live(list, now_ms), k),
{
    let (past, now) = (over(list, now_ms), live(list, now_ms));
    let (p, q) = (|e: (K, u64)| e.1 <= now_ms, |e: (K, u64)| now_ms < e.1);
    if listed(list, k) {
        let i = choose|i: int| 0 <= i < list.len() && (#[trigger] list[i]).0 == k;
        let e = list[i];
        assert(list.contains(e));
        seqs::lemma_filter_contains(list, p, e);
        seqs::lemma_filter_contains(list, q, e);
        if p(e) {
            let j = choose|j: int| 0 <= j < past.len() && past[j] == e;
            assert(past[j].0 == k);
        } else {
            let j = choose|j: int| 0 <= j < now.len() && now[j] == e;
            assert(now[j].0 == k);
        }
    }
    if listed(past, k) {
        let j = choose|j: int| 0 <= j < past.len() && (#[trigger] past[j]).0 == k;
        assert(past.contains(past[j]));
        seqs::lemma_filter_contains(list, p, past[j]);
        let i = choose|i: int| 0 <= i < list.len() && list[i] == past[j];
        assert(list[i].0 == k);
    }
    if listed(now, k) {
        let j = choose|j: int| 0 <= j < now.len() && (#[trigger] now[j]).0 == k;
        assert(now.contains(now[j]));
        seqs::lemma_filter_contains(list, q, now[j]);
        let i = choose|i: int| 0 <= i < list.len() && list[i] == now[j];
        assert(list[i].0 == k);
    }
}

/// Nothing is blocked that the supervisor does not account for: an isolation that
/// took effect keeps it so.
pub proof fn law_isolation_is_accounted_for(
    before: &Supervisor,
    after: &Supervisor,
    p: PlaneModel,
    key: FlowKey,
    decision: Decision,
    ts_ns: u64,
    risk: u64,
    now_ms: u64,
)
    requires
        accounted(before, p),
        before.table.sessions@.contains_key(key),
        ({
            let iso = before.plan(key, decision, ts_ns);
            &&& after.table.sessions@ == before.sessions_with(iso, risk, now_ms)
            &&& after.quarantined_ips_expiry@ == before.sources_with(iso, now_ms)
            &&& after.reverse_expiry@ == before.reverses_with(iso, now_ms)
        }),
    ensures
        accounted(after, isolated(p, before.plan(key, decision, ts_ns))),
{
    let iso = before.plan(key, decision, ts_ns);
    let q = isolated(p, iso);
    let (was, is) = (before.reverse_expiry@, after.reverse_expiry@);
    assert forall|k: FlowKey| #[trigger] q.blocklist.contains(k) implies after.holds(k) || listed(
        is,
        k,
    ) by {
        if p.blocklist.contains(k) && listed(was, k) {
            let i = choose|i: int| 0 <= i < was.len() && (#[trigger] was[i]).0 == k;
            assert(is[i] == was[i]);
        }
        if iso.reverse == Some(k) {
            assert(is[is.len() - 1].0 == k);
        }
    }
    let (old_ips, ips) = (before.quarantined_ips_expiry@, after.quarantined_ips_expiry@);
    assert forall|x: IpKey| #[trigger] q.blocklist_ip.contains(x) implies exists|ip: IpAddr|
        #[trigger] listed(ips, ip) && IpKey::of(ip) == x by {
        if p.blocklist_ip.contains(x) {
            let ip = choose|ip: IpAddr| #[trigger] listed(old_ips, ip) && IpKey::of(ip) == x;
            let i = choose|i: int| 0 <= i < old_ips.len() && (#[trigger] old_ips[i]).0 == ip;
            assert(ips[i] == old_ips[i]);
            assert(listed(ips, ip));
        } else {
            let src = key.spec_src();
            if !listed(old_ips, src) {
                assert(ips[ips.len() - 1].0 == src);
            }
            assert(listed(ips, src));
        }
    }
}

/// Nothing is blocked that the supervisor does not account for: a step that
/// leaves the held flows, the quarantined sources and the reverse directions as
/// they are keeps it so. Such steps are events, the start of a triage tick, the
/// scoring of a candidate, the planning of an isolation, one that the plane
/// refused, the start of the loop and a change of mode.
pub proof fn law_other_steps_keep_the_account(
    before: &Supervisor,
    after: &Supervisor,
    p: PlaneModel,
)
    requires
        accounted(before, p),
        after.same_holds(before),
        after.quarantined_ips_expiry@ == before.quarantined_ips_expiry@,
        after.reverse_expiry@ == before.reverse_expiry@,
    ensures
        accounted(after, p),
{
    assert forall|k: FlowKey| #[trigger] p.blocklist.contains(k) implies after.holds(k) || listed(
        after.reverse_expiry@,
        k,
    ) by {
        assert(before.holds(k) || listed(before.reverse_expiry@, k));
        assert(after.holds(k) <==> before.holds(k));
    }
}

/// Every isolation is reverted: after a reap nothing is blocked, in either
/// direction or by source, but what a quarantine that goes on accounts for.
pub proof fn law_reap_reverts_what_is_over(
    before: &Supervisor,
    after: &Supervisor,
    p: PlaneModel,
    now_ns: u64,
    now_ms: u64,
)
    requires
        before.valid(),
        before.table.sessions.valid(),
        accounted(before, p),
        after.table.sessions@ == after_reap(
            before.table.sessions@,
            now_ns,
            now_ms,
            before.flow_ttl_ns(),
        ),
        after.quarantined_ips_expiry@ == live(before.quarantined_ips_expiry@, now_ms),
        after.reverse_expiry@ == live(before.reverse_expiry@, now_ms),
    ensures
        accounted(after, reaped(p, before, now_ms)),
{
    let q = reaped(p, before, now_ms);
    assert forall|k: FlowKey| #[trigger] q.blocklist.contains(k) implies after.holds(k) || listed(
        after.reverse_expiry@,
        k,
    ) by {
        assert(p.blocklist.contains(k));
        lemma_over_or_live(before.reverse_expiry@, k, now_ms);
        lemma_unblocks(before, k, now_ms);
        seqs::lemma_filter_contains(
            before.table.sessions.order(),
            |k: FlowKey| releasable(before.table.sessions@[k], now_ms),
            k,
        );
        assert(!before.to_unblock(now_ms).contains(k));
    }
    let ended = before.to_free(now_ms);
    let keys = ended.map_values(|e: (IpAddr, u64)| IpKey::of(e.0));
    assert forall|x: IpKey| #[trigger] q.blocklist_ip.contains(x) implies exists|ip: IpAddr|
        #[trigger] listed(after.quarantined_ips_expiry@, ip) && IpKey::of(ip) == x by {
        assert(p.blocklist_ip.contains(x));
        let ip = choose|ip: IpAddr| #[trigger]
            listed(before.quarantined_ips_expiry@, ip) && IpKey::of(ip) == x;
        lemma_over_or_live(before.quarantined_ips_expiry@, ip, now_ms);
        if listed(ended, ip) {
            let i = choose|i: int| 0 <= i < ended.len() && (#[trigger] ended[i]).0 == ip;
            assert(keys[i] == x);
            assert(keys.contains(x));
        }
    }
}

/// The isolation of a source is reverted as a whole: a reap at or after its
/// deadline unblocks the source, the flow and its reverse direction, each unless
/// another isolation that goes on blocks it.
pub proof fn law_source_isolation_is_reverted(
    before: &Supervisor,
    after: &Supervisor,
    p: PlaneModel,
    key: FlowKey,
    ts_ns: u64,
    risk: u64,
    then_ms: u64,
    now_ms: u64,
)
    requires
        then_ms + before.window_ms() <= now_ms,
        !listed(before.quarantined_ips_expiry@, key.spec_src()),
        before.table.sessions@.contains_key(key),
        after.table.sessions.valid(),
        ({
            let iso = before.plan(key, Decision::QuarantineIp, ts_ns);
            &&& after.table.sessions@ == before.sessions_with(iso, risk, then_ms)
            &&& after.quarantined_ips_expiry@ == before.sources_with(iso, then_ms)
            &&& after.reverse_expiry@ == before.reverses_with(iso, then_ms)
        }),
    ensures
        ({
            let iso = before.plan(key, Decision::QuarantineIp, ts_ns);
            let q = reaped(isolated(p, iso), after, now_ms);
            &&& !q.blocklist_ip.contains(IpKey::of(key.spec_src()))
            &&& !after.stays_blocked(key, now_ms) ==> !q.blocklist.contains(key)
            &&& iso.reverse matches Some(r) ==> !after.stays_blocked(r, now_ms)
                ==> !q.blocklist.contains(r)
        }),
{
    let iso = before.plan(key, Decision::QuarantineIp, ts_ns);
    let src = key.spec_src();
    let ips = after.quarantined_ips_expiry@;
    let e = ips[ips.len() - 1];
    assert(e.0 == src && e.1 <= now_ms && ips.contains(e));
    seqs::lemma_filter_contains(ips, |e: (IpAddr, u64)| e.1 <= now_ms, e);
    let ended = after.to_free(now_ms);
    let keys = ended.map_values(|e: (IpAddr, u64)| IpKey::of(e.0));
    let i = choose|i: int| 0 <= i < ended.len() && ended[i] == e;
    assert(keys[i] == IpKey::of(src));
    assert(keys.contains(IpKey::of(src)));
    seqs::lemma_filter_contains(
        after.table.sessions.order(),
        |k: FlowKey| releasable(after.table.sessions@[k], now_ms),
        key,
    );
    lemma_unblocks(after, key, now_ms);
    if let Some(r) = iso.reverse {
        let list = after.reverse_expiry@;
        let f = list[list.len() - 1];
        assert(f.0 == r && f.1 <= now_ms && list.contains(f));
        seqs::lemma_filter_contains(list, |e: (FlowKey, u64)| e.1 <= now_ms, f);
        let past = over(list, now_ms);
        let j = choose|j: int| 0 <= j < past.len() && past[j] == f;
        assert(past[j].0 == r);
        lemma_unblocks(after, r, now_ms);
    }
}

/// A quarantined source is freed by the first reap at or after the end of its
/// window, and not before.
pub proof fn law_source_freed_at_end_of_window(sup: &Supervisor, i: int, now_ms: u64)
    requires
        0 <= i < sup.quarantined_ips_expiry@.len(),
    ensures
        sup.to_free(now_ms).contains(sup.quarantined_ips_expiry@[i]) <==> now_ms
            >= sup.quarantined_ips_expiry@[i].1,
        live(sup.quarantined_ips_expiry@, now_ms).contains(sup.quarantined_ips_expiry@[i]) <==> now_ms < sup.quarantined_ips_expiry@[i].1,
{
    let e = sup.quarantined_ips_expiry@[i];
    assert(sup.quarantined_ips_expiry@.contains(e));
    seqs::lemma_filter_contains(
        sup.quarantined_ips_expiry@,
        |e: (IpAddr, u64)| e.1 <= now_ms,
        e,
    );
    seqs::lemma_filter_contains(
        sup.quarantined_ips_expiry@,
        |e: (IpAddr, u64)| now_ms < e.1,
        e,
    );
}

/// A second reap at the same time ends no further quarantine.
pub proof fn law_reap_ends_each_quarantine_once(
    m: Map<FlowKey, Session>,
    key: FlowKey,
    now_ns: u64,
    now_ms: u64,
    ttl_ns: u64,
)
    requires
        after_reap(m, now_ns, now_ms, ttl_ns).contains_key(key),
    ensures
        !releasable(after_reap(m, now_ns, now_ms, ttl_ns)[key], now_ms),
{
}

/// Blocking is idempotent: once an isolation took effect its session is held, so
/// no further one is planned for it; and no flow of a source that is isolated as
/// a whole is scored again while the source is listed.
pub proof fn law_isolated_once_per_window(
    before: &Supervisor,
    after: &Supervisor,
    iso: Isolation,
    risk: u64,
    now_ms: u64,
    other: FlowKey,
)
    requires
        after.table.sessions@ == before.sessions_with(iso, risk, now_ms),
        after.quarantined_ips_expiry@ == before.sources_with(iso, now_ms),
    ensures
        before.table.sessions@.contains_key(iso.key) ==> after.holds(iso.key) && !after.eligible(
            iso.key,
        ),
        iso.whole_source && other.spec_src() == iso.key.spec_src() ==> listed(
            after.quarantined_ips_expiry@,
            other.spec_src(),
        ) && !after.eligible(other),
{
    if iso.whole_source && !listed(before.quarantined_ips_expiry@, iso.key.spec_src()) {
        let list = after.quarantined_ips_expiry@;
        assert(list[list.len() - 1].0 == iso.key.spec_src());
    }
}

/// Allowlisted sources are exempt from quarantine: none of their flows is ever
/// scored, and no isolation blocks traffic that comes from them as its reverse
/// direction.
pub proof fn law_allowlisted_sources_are_exempt(
    sup: &Supervisor,
    i: int,
    key: FlowKey,
    decision: Decision,
    ts_ns: u64,
)
    requires
        sup.table.sessions.valid(),
    ensures
        0 <= i < sup.candidates().len() ==> !config::exempt(
            sup.cfg.allowlist@,
            sup.candidates()[i].0.spec_src(),
        ),
        sup.plan(key, decision, ts_ns).reverse matches Some(r) ==> !config::exempt(
            sup.cfg.allowlist@,
            r.spec_src(),
        ),
{
    let p = |k: FlowKey| sup.eligible(k);
    let order = sup.table.sessions.order();
    if 0 <= i < sup.candidates().len() {
        let k = order.filter(p)[i];
        assert(sup.candidates()[i].0 == k);
        assert(order.filter(p).contains(k));
        seqs::lemma_filter_contains(order, p, k);
    }
    protocol::law_reverse_involutive(key);
}

/// Isolations planned one after the other carry different sequence numbers.
pub proof fn law_isolations_are_numbered(
    before: &Supervisor,
    after: &Supervisor,
    key: FlowKey,
    other: FlowKey,
    decision: Decision,
    ts_ns: u64,
)
    requires
        after.audit.seq == (before.audit.seq + 1) % 0x1_0000_0000_0000_0000,
    ensures
        before.plan(key, decision, ts_ns).seq != after.plan(other, decision, ts_ns).seq,
        before.plan(key, decision, ts_ns).entry.seq != after.plan(
            other,
            decision,
            ts_ns,
        ).entry.seq,
{
}

/// Toggling the mode twice restores the control setting; toggling it once
/// changes the mode and nothing else of the setting.
pub proof fn law_toggle_twice_restores_mode(a: &Supervisor, b: &Supervisor, c: &Supervisor)
    requires
        b.same_settings(a),
        c.same_settings(b),
        b.enforce == !a.enforce,
        c.enforce == !b.enforce,
    ensures
        c.control() == a.control(),
        b.control().mode != a.control().mode,
        b.control() == (ControlCfg { mode: b.control().mode, ..a.control() }),
{
}

/// A reap clears away what is idle: no session that was not quarantined outlasts
/// the flow time-to-live without traffic, whatever its state. An idle session
/// that is left was quarantined when the reap began, and if it is not any more,
/// this reap ended its window. What is not idle, or quarantined, always stays.
pub proof fn law_reap_leaves_nothing_idle(
    m: Map<FlowKey, Session>,
    k: FlowKey,
    now_ns: u64,
    now_ms: u64,
    ttl_ns: u64,
)
    ensures
        ({
            let after = after_reap(m, now_ns, now_ms, ttl_ns);
            &&& after.contains_key(k) ==> m.contains_key(k)
            &&& after.contains_key(k) && after[k].state != SessionState::Quarantined && now_ns
                > after[k].last_seen_ns + ttl_ns ==> m[k].state == SessionState::Quarantined
                && m[k].quarantine_until_ms is Some && m[k].quarantine_until_ms->0 <= now_ms
            &&& m.contains_key(k) && now_ns > m[k].last_seen_ns + ttl_ns && m[k].state
                != SessionState::Quarantined ==> !after.contains_key(k)
            &&& m.contains_key(k) && m[k].state == SessionState::Quarantined
                ==> after.contains_key(k)
            &&& m.contains_key(k) && now_ns <= m[k].last_seen_ns + ttl_ns ==> after.contains_key(k)
        }),
{
}

/// A reap changes a session only by ending its quarantine, and then only its
/// state and its quarantine: what it knows of the flow stays.
pub proof fn law_reap_keeps_what_sessions_know(
    m: Map<FlowKey, Session>,
    k: FlowKey,
    now_ns: u64,
    now_ms: u64,
    ttl_ns: u64,
)
    requires
        after_reap(m, now_ns, now_ms, ttl_ns).contains_key(k),
    ensures
        ({
            let (s, t) = (m[k], after_reap(m, now_ns, now_ms, ttl_ns)[k]);
            &&& t.key == s.key && t.proto == s.proto && t.risk == s.risk
            &&& t.first_seen_ns == s.first_seen_ns && t.last_seen_ns == s.last_seen_ns
            &&& t.packets == s.packets && t.bytes == s.bytes && t.sum_pkt_len == s.sum_pkt_len
            &&& t.max_pkt_len == s.max_pkt_len && t.min_pkt_len == s.min_pkt_len
            &&& t.syn_count == s.syn_count && t.fin_count == s.fin_count && t.rst_count
                == s.rst_count && t.tcp_flags_or == s.tcp_flags_or
            &&& t.l7_app == s.l7_app && t.l7_info == s.l7_info
            &&& s.state != SessionState::Quarantined ==> t.state == s.state
                && t.quarantine_until_ms == s.quarantine_until_ms && t.block_seq == s.block_seq
            &&& s.state == SessionState::Quarantined && s.quarantine_until_ms is Some
                && s.quarantine_until_ms->0 <= now_ms ==> t.state == SessionState::Active
                && t.quarantine_until_ms is None && t.block_seq is None
            &&& s.state == SessionState::Quarantined && s.quarantine_until_ms is Some
                && s.quarantine_until_ms->0 > now_ms ==> t == s
        }),
{
}

/// The windows are the configured ones: the quarantine in milliseconds, the flow
/// time-to-live in nanoseconds, as long as they fit in 64 bits.
pub proof fn law_windows_are_the_configured_ones(sup: &Supervisor)
    ensures
        ({
            let (q, t) = (sup.cfg.cli.quarantine, sup.cfg.cli.flow_ttl);
            &&& q.secs * 1_000 + q.nanos / 1_000_000 <= u64::MAX ==> sup.window_ms() == q.secs
                * 1_000 + q.nanos / 1_000_000
            &&& t.secs * 1_000_000_000 + t.nanos <= u64::MAX ==> sup.flow_ttl_ns() == t.secs
                * 1_000_000_000 + t.nanos
        }),
{
}

/// Scored are exactly the sessions that are neither quarantined nor expired and
/// whose source neither stands on the list of quarantined sources nor is covered
/// by a prefix of the allowlist; each once, as it stands in the table.
pub proof fn law_candidates_are_what_can_be_scored(sup: &Supervisor, k: FlowKey, s: Session)
    requires
        sup.table.sessions.valid(),
    ensures
        sup.candidates().contains((k, s)) <==> {
            &&& sup.table.sessions@.contains_key(k)
            &&& s == sup.table.sessions@[k]
            &&& s.state == SessionState::New || s.state == SessionState::Active || s.state
                == SessionState::Suspicious
            &&& forall|i: int|
                0 <= i < sup.quarantined_ips_expiry@.len() ==> (
                #[trigger] sup.quarantined_ips_expiry@[i]).0 != k.spec_src()
            &&& forall|i: int|
                0 <= i < sup.cfg.allowlist@.len() ==> !(
                #[trigger] sup.cfg.allowlist@[i]).spec_covers(k.spec_src())
        },
        sup.candidates().no_duplicates(),
{
    let order = sup.table.sessions.order();
    let p = |k: FlowKey| sup.eligible(k);
    let pair = |k: FlowKey| (k, sup.table.sessions@[k]);
    let kept = order.filter(p);
    seqs::lemma_filter_contains(order, p, k);
    assert(sup.candidates() == kept.map_values(pair));
    if sup.candidates().contains((k, s)) {
        let i = choose|i: int| 0 <= i < sup.candidates().len() && sup.candidates()[i] == (k, s);
        assert(kept[i] == k);
        assert(kept.contains(k));
    }
    if kept.contains(k) {
        let i = choose|i: int| 0 <= i < kept.len() && kept[i] == k;
        assert(sup.candidates()[i] == (k, sup.table.sessions@[k]));
    }
    lemma_filter_no_duplicates(order, p);
    assert forall|i: int, j: int|
        0 <= i < j < sup.candidates().len() implies sup.candidates()[i] != sup.candidates()[j] by {
        assert(kept[i] != kept[j]);
    }
}

proof fn lemma_filter_no_duplicates<A>(s: Seq<A>, p: spec_fn(A) -> bool)
    requires
        s.no_duplicates(),
    ensures
        s.filter(p).no_duplicates(),
    decreases s.len(),
{
    reveal(Seq::filter);
    if s.len() > 0 {
        let t = s.drop_last();
        assert forall|i: int, j: int| 0 <= i < t.len() && 0 <= j < t.len() && i != j implies t[i]
            != t[j] by {
            assert(t[i] == s[i] && t[j] == s[j]);
        }
        lemma_filter_no_duplicates(t, p);
        let f = t.filter(p);
        if p(s.last()) {
            assert(!f.contains(s.last())) by {
                seqs::lemma_filter_contains(t, p, s.last());
                if t.contains(s.last()) {
                    let i = choose|i: int| 0 <= i < t.len() && t[i] == s.last();
                    assert(s[i] == s[s.len() - 1]);
                }
            }
            let g = f.push(s.last());
            assert(s.filter(p) == g);
            assert forall|i: int, j: int| 0 <= i < g.len() && 0 <= j < g.len() && i != j implies g[i]
                != g[j] by {
                if i < f.len() {
                    assert(f.contains(f[i]));
                }
                if j < f.len() {
                    assert(f.contains(f[j]));
                }
            }
        }
    }
}

/// What an assessment does to the table: a session that was new or active and
/// whose risk is at least seven tenths of the threshold becomes suspicious. No
/// other field of it changes, and no other session does.
pub proof fn law_near_threshold_marks_suspicion(
    sup: &Supervisor,
    key: FlowKey,
    other: FlowKey,
    risk: u64,
)
    ensures
        sup.near_threshold(risk) <==> 10 * risk >= 7 * sup.ctrl.threshold,
        sup.with_suspect(key).contains_key(other) <==> sup.table.sessions@.contains_key(other),
        sup.table.sessions@.contains_key(other) ==> {
            let (s, t) = (sup.table.sessions@[other], sup.with_suspect(key)[other]);
            &&& t == (Session { state: t.state, ..s })
            &&& t.state == SessionState::Suspicious || t.state == s.state
            &&& other == key && (s.state == SessionState::New || s.state == SessionState::Active)
                ==> t.state == SessionState::Suspicious
            &&& other != key || s.state == SessionState::Quarantined || s.state
                == SessionState::Expired ==> t.state == s.state
        },
{
}

/// What is planned against a flow: the flow itself, and with a quarantine of the
/// source the source's address and, unless the peer is allowlisted, the answers
/// too. The entry for the plane carries the reason, and the low 32 bits of the
/// time, the window and the number of the isolation.
pub proof fn law_plan_follows_the_decision(
    sup: &Supervisor,
    key: FlowKey,
    decision: Decision,
    ts_ns: u64,
)
    ensures
        ({
            let p = sup.plan(key, decision, ts_ns);
            &&& p.key == key
            &&& p.whole_source <==> decision == Decision::QuarantineIp
            &&& p.source.addr == key.saddr
            &&& decision == Decision::QuarantineIp ==> p.entry.reason == 2
            &&& decision != Decision::QuarantineIp ==> p.entry.reason == 1 && p.reverse is None
            &&& decision == Decision::QuarantineIp ==> (p.reverse is None <==> exists|i: int|
                0 <= i < sup.cfg.allowlist@.len() && (
                #[trigger] sup.cfg.allowlist@[i]).spec_covers(key.spec_dst()))
            &&& p.reverse matches Some(r) ==> r.saddr == key.daddr && r.daddr == key.saddr
                && r.sport == key.dport && r.dport == key.sport && r.proto == key.proto
            &&& p.entry.ts_ns == ts_ns % 0x1_0000_0000
            &&& p.entry.ttl_ns == sup.cfg.block_ttl_ns % 0x1_0000_0000
            &&& p.entry.seq == sup.audit.seq % 0x1_0000_0000
            &&& p.seq == sup.audit.seq
        }),
{
    protocol::law_source_key_holds_source_words(key);
}

/// An isolation that took effect marks exactly its own session: quarantined,
/// with the risk that led to it, until the window from now is over, and under
/// the number of the isolation. A source isolated as a whole is listed for the
/// same window, unless it is listed already; so is the blocked reverse
/// direction. Nothing else is touched.
pub proof fn law_isolation_marks_its_own_session(
    sup: &Supervisor,
    iso: Isolation,
    risk: u64,
    now_ms: u64,
    other: FlowKey,
)
    requires
        now_ms + sup.window_ms() <= u64::MAX,
    ensures
        ({
            let (m, after) = (sup.table.sessions@, sup.sessions_with(iso, risk, now_ms));
            let until = now_ms + sup.window_ms();
            &&& after.contains_key(other) <==> m.contains_key(other)
            &&& m.contains_key(other) && other != iso.key ==> after[other] == m[other]
            &&& m.contains_key(iso.key) ==> {
                let (s, t) = (m[iso.key], after[iso.key]);
                &&& t.state == SessionState::Quarantined
                &&& t.risk == risk
                &&& t.quarantine_until_ms is Some && t.quarantine_until_ms->0 == until
                &&& t.block_seq == Some(iso.seq)
                &&& t.key == s.key && t.proto == s.proto
                &&& t.first_seen_ns == s.first_seen_ns && t.last_seen_ns == s.last_seen_ns
                &&& t.packets == s.packets && t.bytes == s.bytes && t.sum_pkt_len == s.sum_pkt_len
                &&& t.max_pkt_len == s.max_pkt_len && t.min_pkt_len == s.min_pkt_len
                &&& t.syn_count == s.syn_count && t.fin_count == s.fin_count && t.rst_count
                    == s.rst_count && t.tcp_flags_or == s.tcp_flags_or
                &&& t.l7_app == s.l7_app && t.l7_info == s.l7_info
            }
            &&& sup.quarantined_ips_expiry@.is_prefix_of(sup.sources_with(iso, now_ms))
            &&& sup.reverse_expiry@.is_prefix_of(sup.reverses_with(iso, now_ms))
            &&& !iso.whole_source ==> sup.sources_with(iso, now_ms) == sup.quarantined_ips_expiry@
            &&& iso.whole_source && (forall|i: int|
                0 <= i < sup.quarantined_ips_expiry@.len() ==> (
                #[trigger] sup.quarantined_ips_expiry@[i]).0 != iso.key.spec_src()) ==> {
                let l = sup.sources_with(iso, now_ms);
                l.len() == sup.quarantined_ips_expiry@.len() + 1 && l.last().0
                    == iso.key.spec_src() && l.last().1 == until
            }
            &&& (exists|i: int|
                0 <= i < sup.quarantined_ips_expiry@.len() && (
                #[trigger] sup.quarantined_ips_expiry@[i]).0 == iso.key.spec_src())
                ==> sup.sources_with(iso, now_ms) == sup.quarantined_ips_expiry@
            &&& iso.reverse is None ==> sup.reverses_with(iso, now_ms) == sup.reverse_expiry@
            &&& iso.reverse matches Some(r) ==> {
                let l = sup.reverses_with(iso, now_ms);
                l.len() == sup.reverse_expiry@.len() + 1 && l.last().0 == r && l.last().1 == until
            }
        }),
{
}

/// The number of quarantined flows that is published is the length of any list
/// that holds each quarantined session of the table once.
pub proof fn law_held_flows_are_counted(sup: &Supervisor, ks: Seq<FlowKey>)
    requires
        sup.table.sessions.valid(),
        ks.no_duplicates(),
        forall|k: FlowKey| #[trigger]
            ks.contains(k) <==> sup.table.sessions@.contains_key(k) && sup.table.sessions@[k].state
                == SessionState::Quarantined,
    ensures
        sup.held_flows().len() == ks.len(),
{
    let order = sup.table.sessions.order();
    let p = |k: FlowKey| sup.holds(k);
    let held = order.filter(p);
    lemma_filter_no_duplicates(order, p);
    held.unique_seq_to_set();
    ks.unique_seq_to_set();
    assert forall|k: FlowKey| held.to_set().contains(k) <==> ks.to_set().contains(k) by {
        seqs::lemma_filter_contains(order, p, k);
        assert(held.to_set().contains(k) <==> held.contains(k));
        assert(ks.to_set().contains(k) <==> ks.contains(k));
    }
    assert(held.to_set() =~= ks.to_set());
}

/// A reap reports each flow that it releases and then each source that it frees,
/// once and in that order. Every report is of an end of quarantine, under the
/// flow or the source that it ended for; only one that opens something again
/// names the unblocking.
pub proof fn law_reap_reports_what_it_ends(sup: &Supervisor, now_ms: u64, i: int)
    requires
        0 <= i < sup.reap_records(now_ms).len(),
    ensures
        sup.reap_records(now_ms).len() == sup.to_release(now_ms).len() + sup.to_free(now_ms).len(),
        ({
            let r = sup.reap_records(now_ms)[i];
            let n = sup.to_release(now_ms).len();
            &&& r.ts == now_ms
            &&& r.decision == Some(Decision::Unquarantine)
            &&& r.threshold == Some(sup.ctrl.threshold)
            &&& r.risk is None && r.confidence is None && r.latency_ns is None && r.rationale.len()
                == 0
            &&& i < n ==> {
                let k = sup.to_release(now_ms)[i];
                &&& r.event == "isolation_released"@
                &&& r.src_ip == Some(k.spec_src())
                &&& r.flow is Some
                &&& r.action is Some <==> !sup.stays_blocked(k, now_ms)
                &&& r.action matches Some(a) ==> a.map == "blocklist"@ && a.kind == "unblock"@
                    && a.reason == "ttl_expired"@
            }
            &&& i >= n ==> {
                let (ip, until) = sup.to_free(now_ms)[i - n];
                &&& r.event == "ip_isolation_released"@
                &&& r.src_ip == Some(ip)
                &&& r.flow is None
                &&& r.action matches Some(a) && a.map == "blocklist_ip"@ && a.kind == "unblock"@
                    && a.reason == "ttl_expired"@ && a.key == ip.spec_text()
            }
        }),
{
}

/// A flow stays blocked exactly while its own quarantine runs or it is the
/// reverse direction of one that does.
pub proof fn law_stays_blocked_while_a_window_runs(sup: &Supervisor, k: FlowKey, now_ms: u64)
    requires
        sup.valid(),
    ensures
        sup.stays_blocked(k, now_ms) <==> {
            ||| sup.table.sessions@.contains_key(k) && sup.table.sessions@[k].state
                == SessionState::Quarantined && sup.table.sessions@[k].quarantine_until_ms->0
                > now_ms
            ||| exists|i: int|
                0 <= i < sup.reverse_expiry@.len() && (#[trigger] sup.reverse_expiry@[i]).0 == k
                    && sup.reverse_expiry@[i].1 > now_ms
        },
{
    let list = sup.reverse_expiry@;
    let p = |e: (FlowKey, u64)| now_ms < e.1;
    let kept = live(list, now_ms);
    assert(kept == list.filter(p));
    if listed(kept, k) {
        let i = choose|i: int| 0 <= i < kept.len() && (#[trigger] kept[i]).0 == k;
        assert(kept.contains(kept[i]));
        seqs::lemma_filter_contains(list, p, kept[i]);
        let j = choose|j: int| 0 <= j < list.len() && list[j] == kept[i];
        assert(list[j].0 == k);
    }
    if exists|i: int| 0 <= i < list.len() && (#[trigger] list[i]).0 == k && list[i].1 > now_ms {
        let i = choose|i: int| 0 <= i < list.len() && (#[trigger] list[i]).0 == k && list[i].1 > now_ms;
        assert(list.contains(list[i]));
        seqs::lemma_filter_contains(list, p, list[i]);
        let j = choose|j: int| 0 <= j < kept.len() && kept[j] == list[i];
        assert(kept[j].0 == k);
    }
}

/// A score is shown in hundredths, rounded to the nearest.
pub proof fn law_score_text_is_the_nearest_hundredth(v: u64)
    ensures
        exists|h: nat| #[trigger]
            text::two_decimals(h) == score_text(v) && 200 * v <= (2 * h + 1)
                * 1_000_000_000_000_000_000 && 200 * v >= (2 * h - 1) * 1_000_000_000_000_000_000,
{
    let h = text::round_half_even((v * 100) as nat, UNIT as nat);
    text::law_rounding_is_to_the_nearest((v * 100) as nat, UNIT as nat);
    assert(text::two_decimals(h) == score_text(v));
}

/// The alert for an isolation names what was blocked and why: the source for a
/// whole source and both ends of the flow otherwise, in the map that holds such
/// blocks, with the number and the time-to-live that the plane was given, and
/// the verdict that led to it.
pub proof fn law_alert_names_what_was_blocked(
    sup: &Supervisor,
    iso: Isolation,
    session: Session,
    out: TriageOutcome,
    latency_ns: u64,
    now_ms: u64,
)
    ensures
        ({
            let r = sup.isolation_record(iso, session, out, latency_ns, now_ms);
            let (src, dst) = (iso.key.spec_src(), iso.key.spec_dst());
            &&& r.level == "alert"@ && r.event == "isolation_enforced"@ && r.ts == now_ms
            &&& r.src_ip == Some(src)
            &&& r.risk == Some(out.risk) && r.confidence == Some(out.confidence) && r.decision
                == Some(out.decision) && r.rationale == out.records()
            &&& r.threshold == Some(sup.ctrl.threshold)
            &&& r.latency_ns == Some(latency_ns)
            &&& r.flow matches Some(f) && f.src == src.spec_text() + ":"@ + text::dec(
                iso.key.sport as nat,
            ) && f.dst == dst.spec_text() + ":"@ + text::dec(iso.key.dport as nat) && f.packets
                == session.packets && f.bytes == session.bytes && f.app == L7App::decode(
                session.l7_app,
            ).spec_tag()
            &&& r.action matches Some(a) && a.seq == iso.seq && a.ttl_ns == sup.cfg.block_ttl_ns
                && (iso.whole_source ==> a.map == "blocklist_ip"@ && a.kind == "ip_quarantine"@
                && a.reason == BlockReason::IpQuarantine.spec_name() && a.key == src.spec_text())
                && (!iso.whole_source ==> a.map == "blocklist"@ && a.kind == "flow_quarantine"@
                && a.reason == BlockReason::Triage.spec_name() && text::says(
                a.key,
                src.spec_text() + ":"@ + text::dec(iso.key.sport as nat),
                "->"@,
                dst.spec_text() + ":"@ + text::dec(iso.key.dport as nat),
            ))
        }),
{
    let (a, b) = (
        audit::endpoint(iso.key.spec_src(), iso.key.sport),
        audit::endpoint(iso.key.spec_dst(), iso.key.dport),
    );
    let parts = Seq::empty().push(a).push("->"@).push(b);
    assert(text::run(parts) == a + "->"@ + b) by {
        broadcast use text::lemma_run_push;

    }
    text::lemma_run_says(parts, 0);
}

/// The sources that a tick sees are those of the sessions that have not expired.
pub proof fn law_sources_have_a_live_session(sup: &Supervisor, a: IpAddr)
    ensures
        sup.sources().contains(a) <==> exists|k: FlowKey| #[trigger]
            sup.table.sessions@.contains_key(k) && sup.table.sessions@[k].state
                != SessionState::Expired && sup.table.sessions@[k].key.spec_src() == a,
{
    let m = sup.table.sessions@;
    if sup.sources().contains(a) {
        let k = choose|k: FlowKey| context::live_from(m, m.dom(), k, a);
        assert(m.contains_key(k));
    }
    if exists|k: FlowKey| #[trigger]
        m.contains_key(k) && m[k].state != SessionState::Expired && m[k].key.spec_src() == a {
        let k = choose|k: FlowKey| #[trigger]
            m.contains_key(k) && m[k].state != SessionState::Expired && m[k].key.spec_src() == a;
        assert(context::live_from(m, m.dom(), k, a));
    }
}

/// The control word follows the mode and the settings.
pub proof fn law_control_follows_the_settings(sup: &Supervisor)
    ensures
        sup.control().mode == 1 <==> sup.enforce,
        sup.control().mode == 0 <==> !sup.enforce,
        sup.control().flags % 2 == 1 <==> sup.cfg.block_ip,
        sup.control().flags / 2 == 1 <==> sup.cfg.cli.hit_events,
        sup.control().block_ttl_ns == sup.cfg.block_ttl_ns % 0x1_0000_0000,
{
}

/// A report about the mode names the mode that is now in force, the event, the
/// detail and the time-to-live that it was made with, and concerns no flow.
pub proof fn law_mode_report_names_the_mode(
    sup: &Supervisor,
    event: Seq<char>,
    ttl_ns: u64,
    detail: Seq<char>,
    now_ms: u64,
)
    ensures
        ({
            let r = sup.mode_record(event, ttl_ns, detail, now_ms);
            &&& r.ts == now_ms && r.level == "info"@ && r.event == event
            &&& r.detail == Some(detail)
            &&& r.threshold == Some(sup.ctrl.threshold)
            &&& r.decision == Some(Decision::Monitor)
            &&& r.flow is None && r.src_ip is None && r.risk is None && r.confidence is None
            &&& r.rationale.len() == 0
            &&& r.action matches Some(a) && a.kind == "ctl"@ && a.map == "ctl"@ && a.key == "mode"@
                && a.ttl_ns == ttl_ns && a.seq == 0 && (sup.enforce ==> a.reason == "enforce"@) && (
            !sup.enforce ==> a.reason == "monitor"@)
        }),
{
}

/// A dump is one line for each session of the table, in walk order.
pub proof fn law_dump_lists_every_session(sup: &Supervisor, lines: Seq<Seq<char>>)
    requires
        lines.len() == sup.table.sessions.order().len(),
        forall|i: int|
            0 <= i < lines.len() ==> #[trigger] lines[i] == session_line(
                sup.table.sessions.order()[i],
                sup.table.sessions@[sup.table.sessions.order()[i]],
            ),
    ensures
        sup.dump_text() == text::joined(lines, seq!['\n']),
{
    reveal_strlit("\n");
    assert("\n"@ =~= seq!['\n']);
    assert(lines =~= sup.table.sessions.order().map_values(
        |k: FlowKey| session_line(k, sup.table.sessions@[k]),
    ));
}

/// The report of a release refers to the flow by its two ends, without totals,
/// and the unblocking to the flow's destination.
pub proof fn law_release_names_the_flow(sup: &Supervisor, key: FlowKey, open: bool, now_ms: u64)
    ensures
        ({
            let r = sup.release_record(key, open, now_ms);
            &&& r.level == "info"@
            &&& r.flow matches Some(f) && f.packets == 0 && f.bytes == 0 && f.src
                == key.spec_src().spec_text() + ":"@ + text::dec(key.sport as nat) && f.dst
                == key.spec_dst().spec_text() + ":"@ + text::dec(key.dport as nat)
            &&& open ==> (r.action matches Some(a) && a.key == key.spec_dst().spec_text() + ":"@
                + text::dec(key.dport as nat) && a.seq == 0 && a.ttl_ns == 0)
        }),
{
}

/// A list of blocks is split by deadline, in order: an entry whose deadline lies
/// ahead stays, one whose deadline has come is over, and none is both or neither.
pub proof fn law_deadlines_split_the_list<K>(list: Seq<(K, u64)>, e: (K, u64), now_ms: u64)
    ensures
        e.1 > now_ms ==> live(list.push(e), now_ms) == live(list, now_ms).push(e) && over(
            list.push(e),
            now_ms,
        ) == over(list, now_ms),
        e.1 <= now_ms ==> over(list.push(e), now_ms) == over(list, now_ms).push(e) && live(
            list.push(e),
            now_ms,
        ) == live(list, now_ms),
        live(Seq::<(K, u64)>::empty(), now_ms).len() == 0,
        over(Seq::<(K, u64)>::empty(), now_ms).len() == 0,
{
    reveal(Seq::filter);
    assert(list.push(e).drop_last() =~= list);
}

/// A reap releases exactly the flows that are quarantined and whose window is
/// over, each once. It unblocks those of them, and those reverse directions whose
/// time is over, that neither a running quarantine nor a running entry for the
/// same reverse direction keeps blocked.
pub proof fn law_reap_unblocks_what_nothing_keeps_blocked(
    sup: &Supervisor,
    k: FlowKey,
    now_ms: u64,
)
    requires
        sup.valid(),
        sup.table.sessions.valid(),
    ensures
        ({
            let m = sup.table.sessions@;
            let quarantined = m.contains_key(k) && m[k].state == SessionState::Quarantined;
            let until = m[k].quarantine_until_ms->0;
            let back = sup.reverse_expiry@;
            &&& sup.to_release(now_ms).contains(k) <==> quarantined && until <= now_ms
            &&& sup.to_release(now_ms).no_duplicates()
            &&& sup.to_unblock(now_ms).contains(k) <==> {
                &&& quarantined && until <= now_ms || exists|i: int|
                    0 <= i < back.len() && (#[trigger] back[i]).0 == k && back[i].1 <= now_ms
                &&& !(quarantined && until > now_ms)
                &&& forall|i: int|
                    0 <= i < back.len() && (#[trigger] back[i]).0 == k ==> back[i].1 <= now_ms
            }
        }),
{
    let order = sup.table.sessions.order();
    let p = |k: FlowKey| releasable(sup.table.sessions@[k], now_ms);
    seqs::lemma_filter_contains(order, p, k);
    lemma_filter_no_duplicates(order, p);
    lemma_unblocks(sup, k, now_ms);
    law_stays_blocked_while_a_window_runs(sup, k, now_ms);
    let back = sup.reverse_expiry@;
    let q = |e: (FlowKey, u64)| e.1 <= now_ms;
    let past = over(back, now_ms);
    if listed(past, k) {
        let i = choose|i: int| 0 <= i < past.len() && (#[trigger] past[i]).0 == k;
        assert(past.contains(past[i]));
        seqs::lemma_filter_contains(back, q, past[i]);
        let j = choose|j: int| 0 <= j < back.len() && back[j] == past[i];
        assert(back[j].0 == k);
    }
    if exists|i: int| 0 <= i < back.len() && (#[trigger] back[i]).0 == k && back[i].1 <= now_ms {
        let i = choose|i: int|
            0 <= i < back.len() && (#[trigger] back[i]).0 == k && back[i].1 <= now_ms;
        assert(back.contains(back[i]));
        seqs::lemma_filter_contains(back, q, back[i]);
        let j = choose|j: int| 0 <= j < past.len() && past[j] == back[i];
        assert(past[j].0 == k);
    }
}

/// What the model is told names each figure of the flow behind its own label: the
/// two ends, the protocol, the application, packets, bytes, SYNs, the risk and the
/// signals that fired.
pub proof fn law_review_text_names_the_figures(k: FlowKey, s: Session, out: TriageOutcome)
    ensures
        text::says(review_text(k, s, out), "flow "@, k.spec_src().spec_text(), " -> "@),
        text::says(
            review_text(k, s, out),
            " -> "@,
            audit::endpoint(k.spec_dst(), k.dport),
            " proto="@,
        ),
        text::says(review_text(k, s, out), " proto="@, text::dec(k.proto as nat), " app="@),
        text::says(review_text(k, s, out), " app="@, text::dec(s.l7_app as nat), " packets="@),
        text::says(review_text(k, s, out), " packets="@, text::dec(s.packets as nat), " bytes="@),
        text::says(review_text(k, s, out), " bytes="@, text::dec(s.bytes as nat), " syn="@),
        text::says(review_text(k, s, out), " syn="@, text::dec(s.syn_count as nat), " risk="@),
        text::says(review_text(k, s, out), " risk="@, score_text(out.risk), " rationale="@),
        text::says(
            review_text(k, s, out),
            " rationale="@,
            text::joined(out.records().map_values(|r: RationaleRecord| r.signal), ","@),
            Seq::empty(),
        ),
{
    broadcast use text::lemma_run_push;

    let parts = Seq::empty()
        .push("flow "@)
        .push(k.spec_src().spec_text())
        .push(" -> "@)
        .push(audit::endpoint(k.spec_dst(), k.dport))
        .push(" proto="@)
        .push(text::dec(k.proto as nat))
        .push(" app="@)
        .push(text::dec(s.l7_app as nat))
        .push(" packets="@)
        .push(text::dec(s.packets as nat))
        .push(" bytes="@)
        .push(text::dec(s.bytes as nat))
        .push(" syn="@)
        .push(text::dec(s.syn_count as nat))
        .push(" risk="@)
        .push(score_text(out.risk))
        .push(" rationale="@)
        .push(text::joined(out.records().map_values(|r: RationaleRecord| r.signal), ","@))
        .push(Seq::<char>::empty());
    assert(text::run(parts) == review_text(k, s, out));
    text::lemma_run_says(parts, 0);
    text::lemma_run_says(parts, 2);
    text::lemma_run_says(parts, 4);
    text::lemma_run_says(parts, 6);
    text::lemma_run_says(parts, 8);
    text::lemma_run_says(parts, 10);
    text::lemma_run_says(parts, 12);
    text::lemma_run_says(parts, 14);
    text::lemma_run_says(parts, 16);
}

/// A line of a dump names the state, the application, the two ends, the packets
/// and the risk of a session, each behind its own label.
pub proof fn law_session_line_names_the_figures(k: FlowKey, s: Session)
    ensures
        text::says(session_line(k, s), Seq::empty(), s.state.spec_label(), " "@),
        text::says(session_line(k, s), " "@, L7App::decode(s.l7_app).spec_label(), " "@),
        text::says(session_line(k, s), " "@, k.spec_src().spec_text(), " -> "@),
        text::says(session_line(k, s), " -> "@, audit::endpoint(k.spec_dst(), k.dport), " pkts="@),
        text::says(session_line(k, s), " pkts="@, text::dec(s.packets as nat), " risk="@),
        text::says(session_line(k, s), " risk="@, score_text(s.risk), Seq::empty()),
{
    broadcast use text::lemma_run_push;

    let parts = Seq::empty()
        .push(Seq::<char>::empty())
        .push(s.state.spec_label())
        .push(" "@)
        .push(L7App::decode(s.l7_app).spec_label())
        .push(" "@)
        .push(k.spec_src().spec_text())
        .push(" -> "@)
        .push(audit::endpoint(k.spec_dst(), k.dport))
        .push(" pkts="@)
        .push(text::dec(s.packets as nat))
        .push(" risk="@)
        .push(score_text(s.risk))
        .push(Seq::<char>::empty());
    assert(text::run(parts) == session_line(k, s));
    text::lemma_run_says(parts, 0);
    text::lemma_run_says(parts, 2);
    text::lemma_run_says(parts, 4);
    text::lemma_run_says(parts, 6);
    text::lemma_run_says(parts, 8);
    text::lemma_run_says(parts, 10);
}

/// The report of a start names each setting behind its own label: the mode, the
/// interface, the threshold, the quarantine in seconds, whole-source blocking and
/// whether the plane is a mock.
pub proof fn law_start_detail_names_the_settings(sup: &Supervisor)
    ensures
        text::says(sup.start_detail(), "attach="@, mode_name(sup.enforce), " iface="@),
        text::says(sup.start_detail(), " iface="@, sup.cfg.cli.iface@, " threshold="@),
        text::says(
            sup.start_detail(),
            " threshold="@,
            text::fixed_point(sup.ctrl.threshold as nat, UNIT as nat),
            " quarantine="@,
        ),
        text::says(
            sup.start_detail(),
            " quarantine="@,
            text::dec(sup.cfg.cli.quarantine.secs as nat),
            "s block_ip="@,
        ),
        text::says(sup.start_detail(), "s block_ip="@, truth(sup.cfg.block_ip), " mock="@),
        text::says(sup.start_detail(), " mock="@, truth(sup.cfg.cli.mock), Seq::empty()),
{
    broadcast use text::lemma_run_push;

    let parts = Seq::empty()
        .push("attach="@)
        .push(mode_name(sup.enforce))
        .push(" iface="@)
        .push(sup.cfg.cli.iface@)
        .push(" threshold="@)
        .push(text::fixed_point(sup.ctrl.threshold as nat, UNIT as nat))
        .push(" quarantine="@)
        .push(text::dec(sup.cfg.cli.quarantine.secs as nat))
        .push("s block_ip="@)
        .push(truth(sup.cfg.block_ip))
        .push(" mock="@)
        .push(truth(sup.cfg.cli.mock))
        .push(Seq::<char>::empty());
    assert(text::run(parts) == sup.start_detail());
    text::lemma_run_says(parts, 0);
    text::lemma_run_says(parts, 2);
    text::lemma_run_says(parts, 4);
    text::lemma_run_says(parts, 6);
    text::lemma_run_says(parts, 8);
    text::lemma_run_says(parts, 10);
}

/// The report of a release names the length of the quarantine in seconds.
pub proof fn law_release_names_the_window(sup: &Supervisor, key: FlowKey, open: bool, now_ms: u64)
    ensures
        text::says(
            sup.release_record(key, open, now_ms).detail->0,
            "quarantine window of "@,
            text::dec(sup.cfg.cli.quarantine.secs as nat),
            "s elapsed"@,
        ),
{
    broadcast use text::lemma_run_push;

    let parts = Seq::empty()
        .push("quarantine window of "@)
        .push(text::dec(sup.cfg.cli.quarantine.secs as nat))
        .push("s elapsed"@);
    assert(text::run(parts) == sup.release_record(key, open, now_ms).detail->0);
    text::lemma_run_says(parts, 0);
}

/// The report of a freed source names the length of the quarantine in seconds.
pub proof fn law_source_release_names_the_window(sup: &Supervisor, ip: IpAddr, now_ms: u64)
    ensures
        text::says(
            sup.source_release_record(ip, now_ms).detail->0,
            "IP quarantine window of "@,
            text::dec((sup.window_ms() / 1_000) as nat),
            "s elapsed"@,
        ),
{
    broadcast use text::lemma_run_push;

    let parts = Seq::empty()
        .push("IP quarantine window of "@)
        .push(text::dec((sup.window_ms() / 1_000) as nat))
        .push("s elapsed"@);
    assert(text::run(parts) == sup.source_release_record(ip, now_ms).detail->0);
    text::lemma_run_says(parts, 0);
}

/// Sessions are scored, and flows released, in the order in which the table
/// walks them.
pub proof fn law_table_order_is_kept(sup: &Supervisor, now_ms: u64, i: int, j: int)
    ensures
        0 <= i < j < sup.candidates().len() ==> exists|a: int, b: int|
            0 <= a < b < sup.table.sessions.order().len() && #[trigger] sup.table.sessions.order()[a]
                == sup.candidates()[i].0 && #[trigger] sup.table.sessions.order()[b]
                == sup.candidates()[j].0,
        0 <= i < j < sup.to_release(now_ms).len() ==> exists|a: int, b: int|
            0 <= a < b < sup.table.sessions.order().len() && #[trigger] sup.table.sessions.order()[a]
                == sup.to_release(now_ms)[i] && #[trigger] sup.table.sessions.order()[b]
                == sup.to_release(now_ms)[j],
{
    let order = sup.table.sessions.order();
    if 0 <= i < j < sup.candidates().len() {
        seqs::lemma_filter_keeps_order(order, |k: FlowKey| sup.eligible(k), i, j);
    }
    if 0 <= i < j < sup.to_release(now_ms).len() {
        seqs::lemma_filter_keeps_order(
            order,
            |k: FlowKey| releasable(sup.table.sessions@[k], now_ms),
            i,
            j,
        );
    }
}

} // verus!
