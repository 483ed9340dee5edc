//! Triage controller.
//!
//! Combines the signal engine (a lightweight, explainable model) with an
//! optional external model. The controller is deterministic: enforcement
//! always uses the signal engine, while the model only adds free-form
//! reasoning to the audit trail.

use vstd::prelude::*;

use crate::audit::{Decision, RationaleRecord, RationaleSignal};
use crate::flow::Session;
use crate::text;

pub mod context;
pub mod llm;
pub mod signals;

use self::context::TriageContext;
use self::signals::{Signal, SignalKind};

pub use self::signals::UNIT;

verus! {

/// Most signals whose weighted scores add up within 128 bits.
pub const MAX_SIGNALS: u128 = 1_334_440_654_591_915_542;

/// A source needs this many live sessions before it is quarantined as a whole.
pub const SYSTEMIC_FLOWS: usize = 3;

/// The verdict on one session. Scores count in units of [`UNIT`].
#[derive(Debug, Clone)]
pub struct TriageOutcome {
    pub decision: Decision,
    pub risk: u64,
    pub confidence: u64,
    pub rationale: Vec<RationaleSignal>,
    pub quarantine_ms: u64,
}

pub struct TriageController {
    /// Risk from which a session is quarantined, in units of [`UNIT`].
    pub threshold: u64,
    pub quarantine_ms: u64,
    pub block_ip: bool,
    pub signals: Vec<Signal>,
}

/// The record that a signal leaves in the rationale, if it fires.
pub open spec fn fired_one(
    sig: (Seq<char>, nat, SignalKind),
    s: Session,
    ctx: TriageContext,
    now_ns: u64,
    now_ms: u64,
) -> Seq<RationaleRecord> {
    match sig.2.finding(s, ctx, now_ns, now_ms) {
        Some(f) => seq![
            RationaleRecord {
                signal: sig.0,
                weight: sig.1,
                contribution: f.contribution,
                evidence: f.evidence,
            },
        ],
        None => Seq::empty(),
    }
}

/// The signals that fire on a session, in registry order.
pub open spec fn fired(
    sigs: Seq<(Seq<char>, nat, SignalKind)>,
    s: Session,
    ctx: TriageContext,
    now_ns: u64,
    now_ms: u64,
) -> Seq<RationaleRecord>
    decreases sigs.len(),
{
    if sigs.len() == 0 {
        Seq::empty()
    } else {
        fired(sigs.drop_last(), s, ctx, now_ns, now_ms) + fired_one(
            sigs.last(),
            s,
            ctx,
            now_ns,
            now_ms,
        )
    }
}

/// Sum of contribution times weight over the fired signals.
pub open spec fn weighted_score(f: Seq<RationaleRecord>) -> nat
    decreases f.len(),
{
    if f.len() == 0 {
        0
    } else {
        weighted_score(f.drop_last()) + f.last().contribution * f.last().weight
    }
}

/// Sum of the weights of the fired signals.
pub open spec fn total_weight(f: Seq<RationaleRecord>) -> nat
    decreases f.len(),
{
    if f.len() == 0 {
        0
    } else {
        total_weight(f.drop_last()) + f.last().weight
    }
}

/// The risk of a session: the weighted mean of the fired contributions, at most
/// one; zero if nothing fired.
pub open spec fn risk_of(f: Seq<RationaleRecord>) -> nat {
    if total_weight(f) == 0 {
        0
    } else if weighted_score(f) / total_weight(f) > UNIT {
        UNIT as nat
    } else {
        weighted_score(f) / total_weight(f)
    }
}

/// Whether a source-behavioural signal fired, which justifies quarantining the
/// whole source.
pub open spec fn systemic(f: Seq<RationaleRecord>) -> bool {
    exists|i: int|
        0 <= i < f.len() && ((#[trigger] f[i]).signal == "port_scan"@ || f[i].signal
            == "syn_flood"@)
}

/// The confidence in a quarantine: 0.3 plus 0.7 of the risk, at most 0.99.
pub open spec fn quarantine_confidence(risk: nat) -> nat {
    let c = risk * 7 / 10 + UNIT as nat / 10 * 3;
    if c > UNIT as nat / 100 * 99 {
        UNIT as nat / 100 * 99
    } else {
        c
    }
}

impl TriageOutcome {
    /// The contents of the rationale.
    pub open spec fn records(&self) -> Seq<RationaleRecord> {
        crate::audit::rationale_records(self.rationale@)
    }
}

impl TriageController {
    /// The signals in plain terms.
    pub open spec fn terms(&self) -> Seq<(Seq<char>, nat, SignalKind)> {
        self.signals@.map_values(|g: Signal| g.terms())
    }

    /// The signals that fire on a session.
    pub open spec fn fired_on(
        &self,
        s: Session,
        ctx: TriageContext,
        now_ns: u64,
        now_ms: u64,
    ) -> Seq<RationaleRecord> {
        fired(self.terms(), s, ctx, now_ns, now_ms)
    }

    /// The decision for a session given what fired: below the threshold it is
    /// allowed; a systemic source with enough live sessions is quarantined as a
    /// whole when that is enabled; otherwise the flow is quarantined.
    pub open spec fn decide(
        &self,
        f: Seq<RationaleRecord>,
        s: Session,
        ctx: TriageContext,
    ) -> Decision {
        if risk_of(f) < self.threshold {
            Decision::Allow
        } else if self.block_ip && systemic(f) && ctx.spec_flow_count(s.key.spec_src())
            >= SYSTEMIC_FLOWS {
            Decision::QuarantineIp
        } else {
            Decision::Quarantine
        }
    }

    /// Whether `out` is the verdict on a session on which `f` fired.
    pub open spec fn is_verdict(
        &self,
        out: TriageOutcome,
        f: Seq<RationaleRecord>,
        s: Session,
        ctx: TriageContext,
    ) -> bool {
        &&& out.records() == f
        &&& out.risk == risk_of(f)
        &&& out.decision == self.decide(f, s, ctx)
        &&& out.confidence == if out.decision == Decision::Allow {
            risk_of(f)
        } else {
            quarantine_confidence(risk_of(f))
        }
        &&& out.quarantine_ms == self.quarantine_ms
    }

    pub fn new(threshold: u64, quarantine_ms: u64, block_ip: bool) -> (r: Self)
        ensures
            r.threshold == threshold,
            r.quarantine_ms == quarantine_ms,
            r.block_ip == block_ip,
            r.terms() == signals::registered(),
            r.signals@.len() == signals::registered().len(),
    {
        let r = TriageController {
            threshold,
            quarantine_ms,
            block_ip,
            signals: signals::registry(),
        };
        assert(r.terms() =~= signals::registered());
        r
    }

    /// Scores a single session. `now_ns` is boot time (as the kernel reports),
    /// `now_ms` is wall-clock ms (used by time-window signals).
    pub fn triage(
        &self,
        session: &Session,
        ctx: &TriageContext,
        now_ns: u64,
        now_ms: u64,
    ) -> (out: TriageOutcome)
        requires
            self.signals@.len() <= MAX_SIGNALS,
        ensures
            self.is_verdict(out, self.fired_on(*session, *ctx, now_ns, now_ms), *session, *ctx),
            out.decision == Decision::Allow <==> out.risk < self.threshold,
            out.decision == Decision::QuarantineIp <==> out.risk >= self.threshold && self.block_ip
                && ctx.spec_flow_count(session.key.spec_src()) >= 3 && exists|i: int|
                0 <= i < out.rationale@.len() && ((#[trigger] out.rationale@[i]).signal@
                    == "port_scan"@ || out.rationale@[i].signal@ == "syn_flood"@),
            out.decision == Decision::Allow || out.decision == Decision::Quarantine || out.decision
                == Decision::QuarantineIp,
            out.quarantine_ms == self.quarantine_ms,
    {
        let mut rationale: Vec<RationaleSignal> = Vec::new();
        let mut weight_sum: u128 = 0;
        let mut score: u128 = 0;
        let mut source_signal: bool = false;
        let n: usize = self.signals.len();
        let ghost terms = self.terms();
        let mut i: usize = 0;
        assert(crate::audit::rationale_records(rationale@) =~= Seq::<RationaleRecord>::empty());
        assert(terms.take(0) =~= Seq::empty());
        while i < n
            invariant
                n == self.signals@.len(),
                n <= MAX_SIGNALS,
                terms == self.terms(),
                i <= n,
                crate::audit::rationale_records(rationale@) == fired(
                    terms.take(i as int),
                    *session,
                    *ctx,
                    now_ns,
                    now_ms,
                ),
                score == weighted_score(crate::audit::rationale_records(rationale@)),
                weight_sum == total_weight(crate::audit::rationale_records(rationale@)),
                source_signal == systemic(crate::audit::rationale_records(rationale@)),
                score <= i * MAX_TERM,
                weight_sum <= i * 255,
            decreases n - i,
        {
            let sig: Signal = self.signals[i];
            let ghost before = crate::audit::rationale_records(rationale@);
            proof {
                assert(terms.take(i + 1).drop_last() =~= terms.take(i as int));
                assert(terms.take(i + 1).last() == sig.terms());
            }
            match sig.kind.eval(session, ctx, now_ns, now_ms) {
                Some(ev) => {
                    proof {
                        signals::lemma_contribution_bounds(
                            sig.kind,
                            *session,
                            *ctx,
                            now_ns,
                            now_ms,
                        );
                        assert(ev.contribution * sig.weight <= MAX_TERM) by (nonlinear_arith)
                            requires
                                0 <= ev.contribution <= UNIT,
                                0 <= sig.weight <= 255,
                                MAX_TERM == UNIT * 255,
                        ;
                        assert(0 <= ev.contribution * sig.weight) by (nonlinear_arith);
                        assert((i + 1) * MAX_TERM <= MAX_SIGNALS * MAX_TERM) by (nonlinear_arith)
                            requires
                                i < MAX_SIGNALS,
                                MAX_TERM >= 0,
                        ;
                        assert((i + 1) * MAX_TERM == i * MAX_TERM + MAX_TERM) by (nonlinear_arith);
                    }
                    score = score + ev.contribution * sig.weight as u128;
                    weight_sum = weight_sum + sig.weight as u128;
                    if text::same_text(sig.id, "port_scan") || text::same_text(
                        sig.id,
                        "syn_flood",
                    ) {
                        source_signal = true;
                    }
                    let entry = RationaleSignal {
                        signal: sig.id,
                        weight: sig.weight,
                        contribution: ev.contribution,
                        evidence: ev.evidence,
                    };
                    rationale.push(entry);
                    proof {
                        let after = crate::audit::rationale_records(rationale@);
                        assert(after =~= before.push(entry@));
                        assert(after.drop_last() =~= before);
                        assert(after =~= before + fired_one(
                            sig.terms(),
                            *session,
                            *ctx,
                            now_ns,
                            now_ms,
                        ));
                        lemma_systemic_push(before, entry@);
                    }
                },
                None => {
                    proof {
                        assert(before + Seq::<RationaleRecord>::empty() =~= before);
                        assert(i * MAX_TERM <= (i + 1) * MAX_TERM) by (nonlinear_arith)
                            requires
                                MAX_TERM >= 0,
                        ;
                    }
                },
            }
            i += 1;
        }
        assert(terms.take(n as int) =~= terms);

        let risk: u64 = if weight_sum > 0 {
            let mean: u128 = score / weight_sum;
            if mean > UNIT as u128 {
                UNIT
            } else {
                mean as u64
            }
        } else {
            0
        };

        let (decision, confidence): (Decision, u64) = if risk >= self.threshold {
            let src = session.key.src_ip();
            let escalate: bool = self.block_ip && source_signal && ctx.flow_count(&src)
                >= SYSTEMIC_FLOWS;
            let raised: u64 = (risk as u128 * 7 / 10) as u64 + UNIT / 10 * 3;
            let confidence: u64 = if raised > UNIT / 100 * 99 {
                UNIT / 100 * 99
            } else {
                raised
            };
            if escalate {
                (Decision::QuarantineIp, confidence)
            } else {
                (Decision::Quarantine, confidence)
            }
        } else {
            (Decision::Allow, risk)
        };

        let out = TriageOutcome {
            decision,
            risk,
            confidence,
            rationale,
            quarantine_ms: self.quarantine_ms,
        };
        proof {
            law_source_quarantine_names_a_source_signal(
                self,
                out,
                out.records(),
                *session,
                *ctx,
            );
        }
        out
    }

    /// Whether this session merits a second, free-form review.
    pub fn warrants_review(&self, outcome: &TriageOutcome) -> (r: bool)
        ensures
            r == (outcome.risk >= UNIT / 2),
            r == (2 * outcome.risk >= 1_000_000_000_000_000_000),
    {
        outcome.risk >= UNIT / 2
    }
}

/// No product of a contribution and a weight exceeds this.
pub const MAX_TERM: u128 = 255_000_000_000_000_000_000;

proof fn lemma_systemic_push(f: Seq<RationaleRecord>, r: RationaleRecord)
    ensures
        systemic(f.push(r)) == (systemic(f) || r.signal == "port_scan"@ || r.signal
            == "syn_flood"@),
{
    let g = f.push(r);
    if systemic(f) {
        let i = choose|i: int|
            0 <= i < f.len() && ((#[trigger] f[i]).signal == "port_scan"@ || f[i].signal
                == "syn_flood"@);
        assert(g[i] == f[i]);
    }
    if r.signal == "port_scan"@ || r.signal == "syn_flood"@ {
        assert(g[f.len() as int] == r);
    }
    if systemic(g) {
        let i = choose|i: int|
            0 <= i < g.len() && ((#[trigger] g[i]).signal == "port_scan"@ || g[i].signal
                == "syn_flood"@);
        if i < f.len() {
            assert(f[i] == g[i]);
        }
    }
}

/// The risk is a score between zero and one, and the confidence in a quarantine
/// lies between 0.3 and 0.99.
pub proof fn law_scores_are_bounded(f: Seq<RationaleRecord>)
    ensures
        risk_of(f) <= UNIT,
        UNIT as nat / 10 * 3 <= quarantine_confidence(risk_of(f)) <= UNIT as nat / 100 * 99,
{
}

/// A session on which nothing fires has no risk, and is allowed under any
/// threshold above zero.
pub proof fn law_no_evidence_is_allowed(c: &TriageController, s: Session, ctx: TriageContext)
    ensures
        risk_of(Seq::empty()) == 0,
        c.threshold > 0 ==> c.decide(Seq::empty(), s, ctx) == Decision::Allow,
{
}

/// When a single signal fires, the risk is its contribution (at most one),
/// whatever its weight.
pub proof fn law_single_signal_sets_risk(r: RationaleRecord)
    requires
        r.weight > 0,
    ensures
        risk_of(seq![r]) == if r.contribution > UNIT {
            UNIT as nat
        } else {
            r.contribution
        },
{
    let f = seq![r];
    assert(f.drop_last() =~= Seq::empty());
    reveal_with_fuel(weighted_score, 2);
    reveal_with_fuel(total_weight, 2);
    assert(r.contribution * r.weight / r.weight == r.contribution) by (nonlinear_arith)
        requires
            r.weight > 0,
    ;
}

proof fn lemma_score_between(f: Seq<RationaleRecord>, lo: nat, hi: nat)
    requires
        forall|i: int| 0 <= i < f.len() ==> lo <= (#[trigger] f[i]).contribution <= hi,
    ensures
        lo * total_weight(f) <= weighted_score(f) <= hi * total_weight(f),
    decreases f.len(),
{
    if f.len() > 0 {
        let g = f.drop_last();
        let last = f.last();
        assert forall|i: int| 0 <= i < g.len() implies lo <= (#[trigger] g[i]).contribution
            <= hi by {
            assert(g[i] == f[i]);
        }
        assert(last == f[f.len() - 1]);
        lemma_score_between(g, lo, hi);
        let (c, w, t) = (last.contribution, last.weight, total_weight(g));
        assert(lo * (t + w) == lo * t + lo * w && hi * (t + w) == hi * t + hi * w && lo * w <= c * w
            && c * w <= hi * w) by (nonlinear_arith)
            requires
                lo <= c <= hi,
        ;
    } else {
        assert(lo * 0 == 0 && hi * 0 == 0) by (nonlinear_arith);
    }
}

/// The risk is a weighted mean: it lies between the weakest and the strongest
/// contribution that fired (or is one, where contributions exceed one).
pub proof fn law_risk_between_contributions(f: Seq<RationaleRecord>, lo: nat, hi: nat)
    requires
        total_weight(f) > 0,
        forall|i: int| 0 <= i < f.len() ==> lo <= (#[trigger] f[i]).contribution <= hi,
        lo <= UNIT,
    ensures
        lo <= risk_of(f) <= hi,
{
    lemma_score_between(f, lo, hi);
    let (n, d) = (weighted_score(f), total_weight(f));
    assert(lo <= n / d <= hi) by (nonlinear_arith)
        requires
            d > 0,
            lo * d <= n <= hi * d,
    ;
}

/// A session is quarantined exactly when its risk reaches the threshold; the
/// whole source only if that is enabled, a source-behavioural signal fired, and
/// the source has enough live sessions.
pub proof fn law_quarantine_from_threshold(
    c: &TriageController,
    f: Seq<RationaleRecord>,
    s: Session,
    ctx: TriageContext,
)
    ensures
        c.decide(f, s, ctx) == Decision::Allow <==> risk_of(f) < c.threshold,
        c.decide(f, s, ctx) == Decision::QuarantineIp <==> risk_of(f) >= c.threshold && c.block_ip
            && systemic(f) && ctx.spec_flow_count(s.key.spec_src()) >= SYSTEMIC_FLOWS,
        c.decide(f, s, ctx) == Decision::Allow || c.decide(f, s, ctx) == Decision::Quarantine
            || c.decide(f, s, ctx) == Decision::QuarantineIp,
{
}

/// A whole source is quarantined only on evidence about the source: the
/// rationale then names a port scan or a SYN flood. Where every fired signal has
/// another name, or nothing fired, the verdict never extends beyond the flow,
/// however many sessions the source has. With such a name, three live sessions
/// and the policy enabled, a risky source is always quarantined as a whole.
pub proof fn law_source_quarantine_names_a_source_signal(
    c: &TriageController,
    out: TriageOutcome,
    f: Seq<RationaleRecord>,
    s: Session,
    ctx: TriageContext,
)
    requires
        c.is_verdict(out, f, s, ctx),
    ensures
        out.decision == Decision::QuarantineIp ==> exists|i: int|
            0 <= i < out.rationale@.len() && ((#[trigger] out.rationale@[i]).signal@
                == "port_scan"@ || out.rationale@[i].signal@ == "syn_flood"@),
        (forall|i: int|
            0 <= i < out.rationale@.len() ==> (#[trigger] out.rationale@[i]).signal@
                != "port_scan"@ && out.rationale@[i].signal@ != "syn_flood"@) ==> out.decision
            != Decision::QuarantineIp,
        out.decision == Decision::QuarantineIp <==> out.risk >= c.threshold && c.block_ip
            && ctx.spec_flow_count(s.key.spec_src()) >= 3 && exists|i: int|
            0 <= i < out.rationale@.len() && ((#[trigger] out.rationale@[i]).signal@
                == "port_scan"@ || out.rationale@[i].signal@ == "syn_flood"@),
{
    assert(f.len() == out.rationale@.len());
    assert forall|i: int| 0 <= i < f.len() implies (#[trigger] f[i]).signal
        == out.rationale@[i].signal@ by {
        assert(f[i] == out.rationale@[i]@);
    }
    if systemic(f) {
        let i = choose|i: int|
            0 <= i < f.len() && ((#[trigger] f[i]).signal == "port_scan"@ || f[i].signal
                == "syn_flood"@);
        assert(out.rationale@[i].signal@ == f[i].signal);
    }
    if exists|i: int|
        0 <= i < out.rationale@.len() && ((#[trigger] out.rationale@[i]).signal@ == "port_scan"@
            || out.rationale@[i].signal@ == "syn_flood"@) {
        let i = choose|i: int|
            0 <= i < out.rationale@.len() && ((#[trigger] out.rationale@[i]).signal@
                == "port_scan"@ || out.rationale@[i].signal@ == "syn_flood"@);
        assert(f[i].signal == out.rationale@[i].signal@);
    }
}

/// The risk is the quotient of two sums over the rationale, rounded down: the
/// contributions times their weights, over the weights. It stops at one.
pub proof fn law_risk_is_the_weighted_mean(f: Seq<RationaleRecord>, score: nat, weight: nat)
    requires
        score == f.fold_left(0nat, |t: nat, r: RationaleRecord| t + r.contribution * r.weight),
        weight == f.fold_left(0nat, |t: nat, r: RationaleRecord| t + r.weight),
    ensures
        weight == 0 ==> risk_of(f) == 0,
        weight > 0 && score >= 1_000_000_000_000_000_000 * weight ==> risk_of(f)
            == 1_000_000_000_000_000_000,
        weight > 0 && score < 1_000_000_000_000_000_000 * weight ==> risk_of(f) * weight <= score
            < (risk_of(f) + 1) * weight,
{
    lemma_sums(f);
    if weight > 0 {
        let q = score / weight;
        assert(q * weight <= score < (q + 1) * weight) by (nonlinear_arith)
            requires
                weight > 0,
                q == score / weight,
        ;
        if score >= UNIT * weight {
            assert(q >= UNIT) by (nonlinear_arith)
                requires
                    score < (q + 1) * weight,
                    score >= UNIT * weight,
                    weight > 0,
            ;
        } else {
            assert(q < UNIT) by (nonlinear_arith)
                requires
                    q * weight <= score,
                    score < UNIT * weight,
                    weight > 0,
            ;
        }
    }
}

proof fn lemma_sums(f: Seq<RationaleRecord>)
    ensures
        weighted_score(f) == f.fold_left(
            0nat,
            |t: nat, r: RationaleRecord| t + r.contribution * r.weight,
        ),
        total_weight(f) == f.fold_left(0nat, |t: nat, r: RationaleRecord| t + r.weight),
    decreases f.len(),
{
    if f.len() > 0 {
        lemma_sums(f.drop_last());
    }
}

/// The confidence in a quarantine starts at 0.3, grows by seven for every ten
/// that the risk grows, and stops at 0.99.
pub proof fn law_confidence_follows_risk(risk: nat)
    ensures
        10 * quarantine_confidence(risk) <= 3_000_000_000_000_000_000 + 7 * risk,
        quarantine_confidence(risk) <= 990_000_000_000_000_000,
        quarantine_confidence(risk) < 990_000_000_000_000_000 ==> 10 * (quarantine_confidence(risk)
            + 1) > 3_000_000_000_000_000_000 + 7 * risk,
{
}

/// The rationale is complete and holds nothing else: each signal that finds
/// something leaves a record under its name, with its weight and with what it
/// found, and each record was left by such a signal.
pub proof fn law_rationale_is_what_fired(
    sigs: Seq<(Seq<char>, nat, SignalKind)>,
    s: Session,
    ctx: TriageContext,
    now_ns: u64,
    now_ms: u64,
)
    ensures
        forall|r: RationaleRecord| #[trigger]
            fired(sigs, s, ctx, now_ns, now_ms).contains(r) <==> exists|i: int|
                0 <= i < sigs.len() && r.signal == (#[trigger] sigs[i]).0 && r.weight == sigs[i].1
                    && sigs[i].2.finding(s, ctx, now_ns, now_ms) == Some(
                    (signals::Finding { contribution: r.contribution, evidence: r.evidence }),
                ),
        fired(sigs, s, ctx, now_ns, now_ms).len() == sigs.filter(
            |g: (Seq<char>, nat, SignalKind)| g.2.finding(s, ctx, now_ns, now_ms) is Some,
        ).len(),
    decreases sigs.len(),
{
    let p = |g: (Seq<char>, nat, SignalKind)| g.2.finding(s, ctx, now_ns, now_ms) is Some;
    let all = fired(sigs, s, ctx, now_ns, now_ms);
    if sigs.len() == 0 {
        assert(sigs.filter(p) =~= Seq::empty()) by {
            reveal(Seq::filter);
        }
    } else {
        let (rest, last) = (sigs.drop_last(), sigs.last());
        law_rationale_is_what_fired(rest, s, ctx, now_ns, now_ms);
        let before = fired(rest, s, ctx, now_ns, now_ms);
        let own = fired_one(last, s, ctx, now_ns, now_ms);
        assert(sigs.filter(p).len() == rest.filter(p).len() + own.len()) by {
            reveal(Seq::filter);
        }
        assert forall|r: RationaleRecord| #[trigger] all.contains(r) <==> exists|i: int|
            0 <= i < sigs.len() && r.signal == (#[trigger] sigs[i]).0 && r.weight == sigs[i].1
                && sigs[i].2.finding(s, ctx, now_ns, now_ms) == Some(
                (signals::Finding { contribution: r.contribution, evidence: r.evidence }),
            ) by {
            if all.contains(r) {
                let j = choose|j: int| 0 <= j < all.len() && all[j] == r;
                if j < before.len() {
                    assert(before[j] == r);
                    assert(before.contains(r));
                    let i = choose|i: int|
                        0 <= i < rest.len() && r.signal == (#[trigger] rest[i]).0 && r.weight
                            == rest[i].1 && rest[i].2.finding(s, ctx, now_ns, now_ms) == Some(
                            (signals::Finding {
                                contribution: r.contribution,
                                evidence: r.evidence,
                            }),
                        );
                    assert(sigs[i] == rest[i]);
                } else {
                    assert(own[j - before.len()] == r);
                    assert(sigs[sigs.len() - 1] == last);
                }
            }
            if exists|i: int|
                0 <= i < sigs.len() && r.signal == (#[trigger] sigs[i]).0 && r.weight == sigs[i].1
                    && sigs[i].2.finding(s, ctx, now_ns, now_ms) == Some(
                    (signals::Finding { contribution: r.contribution, evidence: r.evidence }),
                ) {
                let i = choose|i: int|
                    0 <= i < sigs.len() && r.signal == (#[trigger] sigs[i]).0 && r.weight
                        == sigs[i].1 && sigs[i].2.finding(s, ctx, now_ns, now_ms) == Some(
                        (signals::Finding { contribution: r.contribution, evidence: r.evidence }),
                    );
                if i < rest.len() {
                    assert(rest[i] == sigs[i]);
                    assert(before.contains(r));
                    let j = choose|j: int| 0 <= j < before.len() && before[j] == r;
                    assert(all[j] == r);
                } else {
                    assert(own =~= seq![r]);
                    assert(all[before.len() as int] == r);
                }
            }
        }
    }
}

/// The rationale follows the order of the registry: what a first group of
/// signals leaves stands before what the group behind it leaves.
pub proof fn law_rationale_keeps_registry_order(
    a: Seq<(Seq<char>, nat, SignalKind)>,
    b: Seq<(Seq<char>, nat, SignalKind)>,
    s: Session,
    ctx: TriageContext,
    now_ns: u64,
    now_ms: u64,
)
    ensures
        fired(a + b, s, ctx, now_ns, now_ms) == fired(a, s, ctx, now_ns, now_ms) + fired(
            b,
            s,
            ctx,
            now_ns,
            now_ms,
        ),
    decreases b.len(),
{
    let first = fired(a, s, ctx, now_ns, now_ms);
    if b.len() == 0 {
        assert(a + b =~= a);
        assert(first + fired(b, s, ctx, now_ns, now_ms) =~= first);
    } else {
        assert((a + b).drop_last() =~= a + b.drop_last());
        law_rationale_keeps_registry_order(a, b.drop_last(), s, ctx, now_ns, now_ms);
        let own = fired_one(b.last(), s, ctx, now_ns, now_ms);
        let mid = fired(b.drop_last(), s, ctx, now_ns, now_ms);
        assert(first + mid + own =~= first + (mid + own));
    }
}

} // verus!
