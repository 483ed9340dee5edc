use zqfw::addr::IpAddr;
use zqfw::audit::{AuditEvent, AuditLogger, Decision};
use zqfw::config::{Cidr, Cli, Config, Span};
use zqfw::flow::SessionState;
use zqfw::mock::MockDataPlane;
use zqfw::pipeline::{review_event, Supervisor};
use zqfw::protocol::{EventKind, FlowKey, FlowMetrics, IpKey, KernelEvent, L7App};
use zqfw::traffic::sim::{scenarios, FlowSpec, PortMode};
use zqfw::triage::llm::LlmBackend;
use zqfw::triage::{TriageController, UNIT};

const BASE_NS: u64 = 5_000_000_000_000;
const BASE_MS: u64 = 1_700_000_000_000;

fn config(block_ip: bool) -> Config {
    let cli = Cli {
        iface: "auto".to_string(),
        mock: true,
        xdp_mode: "default".to_string(),
        monitor: false,
        threshold: UNIT / 10 * 8,
        quarantine: Span { secs: 60, nanos: 0 },
        reap_interval: Span { secs: 1, nanos: 0 },
        flow_ttl: Span { secs: 10, nanos: 0 },
        block_ip,
        hit_events: false,
        audit: "/dev/null".to_string(),
        metrics_addr: "127.0.0.1:9790".to_string(),
        pin_dir: None,
        allowlist: Vec::new(),
    };
    Config::from_env(cli, None, None).unwrap()
}

fn supervisor(cfg: Config) -> Supervisor {
    let ctrl = TriageController::new(cfg.cli.threshold, cfg.block_ttl_ns / 1_000_000, cfg.block_ip);
    let audit = AuditLogger::new(&cfg.cli.audit);
    Supervisor::new(ctrl, cfg, audit, None)
}

/// One triage tick against the mock plane.
fn triage(sup: &mut Supervisor, plane: &mut MockDataPlane, now_ns: u64, now_ms: u64) -> Vec<AuditEvent> {
    let mut log = Vec::new();
    let snap = plane.snapshot_flows();
    let round = sup.triage_tick(&snap, now_ms);
    for (key, session) in &round.candidates {
        let a = sup.assess(key, session, &round.ctx, now_ns, now_ms);
        if !a.isolate {
            continue;
        }
        if let Some(iso) = sup.enforce_isolation(key, a.outcome.decision, now_ns) {
            if iso.whole_source {
                plane.block_ip(&iso.source, iso.entry);
            } else {
                plane.block_flow(&iso.key, iso.entry);
            }
            if let Some(ev) = sup.complete_isolation(&iso, session, a.outcome, true, 4_000, now_ms) {
                log.push(ev);
            }
            if let Some(r) = &iso.reverse {
                plane.block_flow(r, iso.entry);
            }
        }
    }
    log
}

/// One reap tick against the mock plane.
fn reap(sup: &mut Supervisor, plane: &mut MockDataPlane, now_ns: u64, now_ms: u64) -> Vec<AuditEvent> {
    let done = sup.reap_tick(now_ns, now_ms);
    for key in &done.unblocked {
        plane.unblock_flow(key);
    }
    for ip in &done.freed {
        plane.unblock_ip(&IpKey::from_ip(*ip));
    }
    done.events
}

fn scenario_keys(spec: &FlowSpec) -> Vec<FlowKey> {
    let mut k = FlowKey::default();
    k.proto = spec.proto;
    if let (IpAddr::V4(s), IpAddr::V4(d)) = (spec.src, spec.dst) {
        k.saddr[0] = u32::from_be_bytes(s);
        k.daddr[0] = u32::from_be_bytes(d);
    }
    k.sport = spec.sport;
    match spec.port_mode {
        PortMode::StepDstPort { from, to } => {
            let count = to.saturating_sub(from).min(20);
            (0..count)
                .map(|i| {
                    let mut k = k;
                    k.dport = from + i;
                    k
                })
                .collect()
        }
        PortMode::Fixed => {
            k.dport = spec.dport;
            vec![k]
        }
    }
}

fn opening(key: FlowKey, len: u32, app: L7App, info: u16) -> KernelEvent {
    KernelEvent {
        kind: EventKind::NewFlow.code(),
        ts_ns: 0,
        len,
        cpu: 0,
        key,
        l7_app: app.code() as u16,
        l7_info: info,
    }
}

#[test]
fn mock_e2e_detects_all_attacks_no_false_positives() {
    let mut plane = MockDataPlane::new();
    let mut expected: Vec<(IpAddr, &str)> = Vec::new();
    let specs = scenarios();
    for spec in &specs {
        if spec.name.starts_with("benign-") {
            continue;
        }
        let keys = scenario_keys(spec);
        let total_pkts = (spec.pps * spec.duration_s) as u64;
        let start_ns = BASE_NS + spec.start_s as u64 * 1_000_000_000;
        let end_ns = start_ns + spec.duration_s as u64 * 1_000_000_000;
        for key in &keys {
            let per_key = (total_pkts / keys.len() as u64).max(1);
            let interval_ns = if per_key > 1 { (end_ns - start_ns) / (per_key - 1) } else { 0 };
            let mut ts_ns = start_ns;
            for _ in 0..per_key.min(200) {
                plane.ingest_packet(key, spec.pkt_len, ts_ns, spec.flags);
                ts_ns += interval_ns.max(1);
            }
        }
        match spec.name {
            "attacker-portscan" => {
                for _ in 0..20 {
                    expected.push((spec.src, "flow_quarantine"));
                }
            }
            "attacker-synflood" | "attacker-dnstunnel" | "attacker-exfil" | "attacker-lateral" => {
                expected.push((spec.src, "flow_quarantine"))
            }
            _ => {}
        }
    }
    assert_eq!(expected.len(), 24);

    let mut sup = supervisor(config(false));
    for spec in &specs {
        if spec.name.starts_with("benign-") {
            continue;
        }
        for key in scenario_keys(spec) {
            sup.on_event(&opening(key, spec.pkt_len, spec.l7, spec.l7_info), BASE_NS);
        }
    }
    for i in 0..4u64 {
        let now_ns = BASE_NS + i * 100_000_000;
        let now_ms = BASE_MS + i * 100;
        triage(&mut sup, &mut plane, now_ns, now_ms);
        reap(&mut sup, &mut plane, now_ns, now_ms);
    }

    let blocklist: Vec<FlowKey> = (0..plane.blocklist.len()).map(|i| plane.blocklist.at(i)).collect();
    let blocklist_ip: Vec<IpAddr> =
        (0..plane.blocklist_ip.len()).map(|i| plane.blocklist_ip.at(i).to_ip()).collect();
    for (ip, kind) in &expected {
        match *kind {
            "ip_quarantine" => {
                assert!(blocklist_ip.contains(ip), "expected IP quarantine for {} ({})", ip.to_text(), kind)
            }
            "flow_quarantine" => {
                let count = blocklist.iter().filter(|fk| fk.src_ip() == *ip).count();
                assert!(
                    count > 0,
                    "expected at least one flow quarantine for {} ({}), found {}",
                    ip.to_text(),
                    kind,
                    count
                );
            }
            _ => {}
        }
    }
    assert_eq!(blocklist.len(), 24);
    assert_eq!(sup.decisions, 24);
}

fn key(src: [u8; 4], dst: [u8; 4], dport: u16) -> FlowKey {
    let mut k = FlowKey::default();
    k.saddr[0] = u32::from_be_bytes(src);
    k.daddr[0] = u32::from_be_bytes(dst);
    k.sport = 40000;
    k.dport = dport;
    k.proto = 6;
    k
}

fn flood(plane: &mut MockDataPlane, k: &FlowKey, ts_ns: u64) {
    for i in 0..20u64 {
        plane.ingest_packet(k, 60, ts_ns + i, 0x02);
    }
}

#[test]
fn isolation_lifecycle_of_a_flow() {
    let mut plane = MockDataPlane::new();
    plane.apply_control(true);
    let mut sup = supervisor(config(false));
    let k = key([10, 0, 0, 9], [10, 0, 0, 5], 443);
    flood(&mut plane, &k, BASE_NS);

    let log = triage(&mut sup, &mut plane, BASE_NS + 1_000_000_000, BASE_MS);
    assert_eq!(log.len(), 1);
    let ev = &log[0];
    assert_eq!((ev.event, ev.level, ev.ts), ("isolation_enforced", "alert", BASE_MS));
    assert_eq!(ev.decision, Some(Decision::Quarantine));
    assert_eq!((ev.risk, ev.threshold), (Some(UNIT), Some(UNIT / 10 * 8)));
    assert_eq!(ev.latency_ns, Some(4_000));
    let flow = ev.flow.as_ref().unwrap();
    assert_eq!((flow.src.as_str(), flow.packets, flow.bytes), ("10.0.0.9:40000", 20, 1200));
    let action = ev.action.as_ref().unwrap();
    assert_eq!((action.kind, action.map, action.reason), ("flow_quarantine", "blocklist", "triage"));
    assert_eq!(action.key, "10.0.0.9:40000->10.0.0.5:443");
    assert_eq!((action.seq, action.ttl_ns), (0, 60_000_000_000));
    assert!(plane.ingest_packet(&k, 60, BASE_NS + 50, 0x02));

    // Held: no second isolation, nothing released before the window is over.
    assert!(triage(&mut sup, &mut plane, BASE_NS + 2_000_000_000, BASE_MS + 1000).is_empty());
    assert!(reap(&mut sup, &mut plane, BASE_NS + 2_000_000_000, BASE_MS + 59_999).is_empty());
    assert!(plane.blocklist.contains(&k));
    assert_eq!(sup.publish_metrics(&plane.snapshot_counters()).quarantined_flows, 1);

    // The window is over: the flow passes again and the session stays.
    let log = reap(&mut sup, &mut plane, BASE_NS + 2_000_000_000, BASE_MS + 60_000);
    assert_eq!(log.len(), 1);
    assert_eq!(log[0].event, "isolation_released");
    assert_eq!(log[0].decision, Some(Decision::Unquarantine));
    assert_eq!(log[0].detail.as_deref(), Some("quarantine window of 60s elapsed"));
    assert_eq!(log[0].action.as_ref().unwrap().key, "10.0.0.5:443");
    assert!(!plane.ingest_packet(&k, 60, BASE_NS + 60, 0x02));
    let s = sup.table.sessions.get(&k).unwrap();
    assert_eq!(s.state, SessionState::Active);
    assert_eq!((s.quarantine_until_ms, s.block_seq), (None, None));

    // The evidence is still there: isolated again, under the next number.
    let log = triage(&mut sup, &mut plane, BASE_NS + 3_000_000_000, BASE_MS + 61_000);
    assert_eq!(log[0].action.as_ref().unwrap().seq, 1);
    assert_eq!(sup.decisions, 2);
}

#[test]
fn idle_flows_stay_quarantined_for_their_window() {
    let mut plane = MockDataPlane::new();
    let mut sup = supervisor(config(false));
    let k = key([10, 0, 0, 9], [10, 0, 0, 5], 443);
    flood(&mut plane, &k, BASE_NS);
    triage(&mut sup, &mut plane, BASE_NS, BASE_MS);
    let idle = BASE_NS + 19 + 10_000_000_001;
    assert!(reap(&mut sup, &mut plane, idle, BASE_MS + 59_999).is_empty());
    assert!(plane.blocklist.contains(&k));
    assert_eq!(sup.table.sessions.get(&k).unwrap().state, SessionState::Quarantined);
    let log = reap(&mut sup, &mut plane, idle, BASE_MS + 60_000);
    assert_eq!(log.len(), 1);
    assert!(!plane.blocklist.contains(&k));
    assert_eq!(sup.table.sessions.len(), 1);
    // Released, the idle session is forgotten by the next reap.
    assert!(reap(&mut sup, &mut plane, idle - 1, BASE_MS + 60_000).is_empty());
    assert_eq!(sup.table.sessions.len(), 1);
    assert!(reap(&mut sup, &mut plane, idle, BASE_MS + 60_000).is_empty());
    assert_eq!(sup.table.sessions.len(), 0);
}

fn scan(plane: &mut MockDataPlane, src: [u8; 4]) {
    for dport in 1..=20u16 {
        plane.ingest_packet(&key(src, [10, 0, 0, 5], dport), 60, BASE_NS, 0x02);
    }
}

#[test]
fn source_is_quarantined_once_per_window() {
    let mut plane = MockDataPlane::new();
    plane.apply_control(true);
    let mut sup = supervisor(config(true));
    scan(&mut plane, [198, 51, 100, 10]);
    let src = IpAddr::V4([198, 51, 100, 10]);

    let log = triage(&mut sup, &mut plane, BASE_NS, BASE_MS);
    assert_eq!(log.len(), 1);
    let action = log[0].action.as_ref().unwrap();
    assert_eq!(log[0].decision, Some(Decision::QuarantineIp));
    assert_eq!((action.kind, action.map), ("ip_quarantine", "blocklist_ip"));
    assert_eq!((action.key.as_str(), action.reason), ("198.51.100.10", "ip_quarantine"));
    assert_eq!(sup.quarantined_ips_expiry, vec![(src, BASE_MS + 60_000)]);
    // Every refused session of the tick used up a number as well.
    assert_eq!(sup.audit.seq, 20);
    let first = key([198, 51, 100, 10], [10, 0, 0, 5], 1);
    assert!(plane.blocklist.contains(&first.reverse()));
    assert!(plane.ingest_packet(&key([198, 51, 100, 10], [10, 0, 0, 77], 9), 60, BASE_NS, 0x02));

    // While the source is listed, none of its sessions is scored.
    let snap = plane.snapshot_flows();
    assert!(sup.triage_tick(&snap, BASE_MS + 1).candidates.is_empty());
    assert_eq!(sup.publish_metrics(&plane.snapshot_counters()).quarantined_ips, 1);

    let log = reap(&mut sup, &mut plane, BASE_NS, BASE_MS + 60_000);
    assert_eq!(log.len(), 2);
    assert_eq!(log[0].event, "isolation_released");
    assert_eq!(log[1].event, "ip_isolation_released");
    assert_eq!(log[1].src_ip, Some(src));
    assert_eq!(log[1].detail.as_deref(), Some("IP quarantine window of 60s elapsed"));
    assert!(sup.quarantined_ips_expiry.is_empty());
    assert!(!plane.ingest_packet(&first, 60, BASE_NS, 0x02));
    // So is the reverse direction.
    assert!(!plane.blocklist.contains(&first.reverse()));
    assert_eq!((plane.blocklist.len(), plane.blocklist_ip.len()), (0, 0));
    assert!(sup.reverse_expiry.is_empty());
}

#[test]
fn a_flow_with_two_reasons_stays_blocked() {
    let mut plane = MockDataPlane::new();
    let mut sup = supervisor(config(true));
    // A flow that is the reverse direction of another one, and held by itself.
    let k = key([198, 51, 100, 11], [10, 0, 0, 6], 1);
    let r = k.reverse();
    sup.on_event(&opening(k, 60, L7App::Unknown, 0), BASE_NS);
    sup.on_event(&opening(r, 60, L7App::Unknown, 0), BASE_NS);
    let s = *sup.table.sessions.get(&k).unwrap();
    let t = *sup.table.sessions.get(&r).unwrap();
    let ctx = sup.triage_tick(&Vec::new(), BASE_MS).ctx;
    let out = sup.ctrl.triage(&s, &ctx, BASE_NS, BASE_MS);
    let iso = sup.enforce_isolation(&k, Decision::QuarantineIp, BASE_NS).unwrap();
    plane.block_ip(&iso.source, iso.entry);
    sup.complete_isolation(&iso, &s, out.clone(), true, 0, BASE_MS);
    assert_eq!(iso.reverse, Some(r));
    plane.block_flow(&r, iso.entry);
    let own = sup.enforce_isolation(&r, Decision::Quarantine, BASE_NS).unwrap();
    plane.block_flow(&r, own.entry);
    sup.complete_isolation(&own, &t, out, true, 0, BASE_MS + 10_000);
    // The source is freed first; the flow's own quarantine goes on.
    let log = reap(&mut sup, &mut plane, BASE_NS, BASE_MS + 60_000);
    assert_eq!(log.len(), 2);
    assert!(plane.blocklist.contains(&r));
    assert_eq!(plane.blocklist_ip.len(), 0);
    let log = reap(&mut sup, &mut plane, BASE_NS, BASE_MS + 70_000);
    assert_eq!(log.len(), 1);
    assert_eq!(log[0].action.as_ref().unwrap().kind, "unblock");
    assert!(!plane.blocklist.contains(&r));
}

/// A supervisor that isolated the source of `k` at `first_ms`, and the reverse
/// direction of `k` by itself at `own_ms`.
fn held_twice(k: FlowKey, first_ms: u64, own_ms: u64) -> Supervisor {
    let mut sup = supervisor(config(true));
    let r = k.reverse();
    sup.on_event(&opening(k, 60, L7App::Unknown, 0), BASE_NS);
    sup.on_event(&opening(r, 60, L7App::Unknown, 0), BASE_NS);
    let s = *sup.table.sessions.get(&k).unwrap();
    let t = *sup.table.sessions.get(&r).unwrap();
    let ctx = sup.triage_tick(&Vec::new(), BASE_MS).ctx;
    let out = sup.ctrl.triage(&s, &ctx, BASE_NS, BASE_MS);
    let iso = sup.enforce_isolation(&k, Decision::QuarantineIp, BASE_NS).unwrap();
    sup.complete_isolation(&iso, &s, out.clone(), true, 0, first_ms);
    let own = sup.enforce_isolation(&r, Decision::Quarantine, BASE_NS).unwrap();
    sup.complete_isolation(&own, &t, out, true, 0, own_ms);
    sup
}

#[test]
fn release_reports_an_unblocking_only_where_there_is_one() {
    let k = key([198, 51, 100, 11], [10, 0, 0, 6], 1);
    let mut sup = held_twice(k, BASE_MS + 10_000, BASE_MS);
    // The own quarantine of the reverse direction is over, the source's is not.
    let done = sup.reap_tick(BASE_NS, BASE_MS + 60_000);
    assert_eq!(done.released, vec![k.reverse()]);
    assert!(done.unblocked.is_empty());
    assert_eq!(done.events.len(), 1);
    assert_eq!(done.events[0].event, "isolation_released");
    assert!(done.events[0].action.is_none());
    let done = sup.reap_tick(BASE_NS, BASE_MS + 70_000);
    assert_eq!(done.released, vec![k]);
    assert_eq!(done.unblocked, vec![k, k.reverse()]);
    assert!(done.events.iter().all(|e| e.action.is_some()));
}

#[test]
fn no_flow_is_unblocked_twice() {
    let k = key([198, 51, 100, 11], [10, 0, 0, 6], 1);
    let mut sup = held_twice(k, BASE_MS, BASE_MS);
    let done = sup.reap_tick(BASE_NS, BASE_MS + 60_000);
    assert_eq!(done.released, vec![k, k.reverse()]);
    assert_eq!(done.unblocked, vec![k, k.reverse()]);
    assert_eq!(done.freed, vec![k.src_ip()]);
    assert_eq!(done.events.len(), 3);
}

#[test]
fn known_sources_stop_firing_first_contact() {
    let mut sup = supervisor(config(false));
    let k = key([8, 8, 8, 8], [10, 0, 0, 5], 443);
    sup.on_event(&opening(k, 100, L7App::Tls, 0), BASE_NS);
    let mut risk = |now_ms: u64| {
        let round = sup.triage_tick(&Vec::new(), now_ms);
        let s = *sup.table.sessions.get(&k).unwrap();
        sup.ctrl.triage(&s, &round.ctx, BASE_NS, now_ms).risk
    };
    assert_eq!(risk(BASE_MS), UNIT / 10 * 8);
    assert_eq!(risk(BASE_MS + 59_999), UNIT / 10 * 8);
    assert_eq!(risk(BASE_MS + 60_000), 0);
    assert_eq!(risk(BASE_MS + 360_000), 0);
}

#[test]
fn allowlisted_sources_are_never_scored() {
    let mut plane = MockDataPlane::new();
    let mut cfg = config(true);
    cfg.allowlist = vec![Cidr { addr: IpAddr::V4([198, 51, 100, 10]), prefix_len: 32 }];
    let mut sup = supervisor(cfg);
    scan(&mut plane, [198, 51, 100, 10]);
    scan(&mut plane, [198, 51, 100, 11]);
    let log = triage(&mut sup, &mut plane, BASE_NS, BASE_MS);
    assert_eq!(log.len(), 1);
    assert_eq!(log[0].src_ip, Some(IpAddr::V4([198, 51, 100, 11])));

    // Nor is an isolation planned for one.
    let k = key([198, 51, 100, 10], [10, 0, 0, 5], 1);
    let seq = sup.audit.seq;
    assert!(sup.enforce_isolation(&k, Decision::Quarantine, 7).is_none());
    assert!(sup.enforce_isolation(&k, Decision::QuarantineIp, 7).is_none());
    assert_eq!(sup.audit.seq, seq);

    // Nor is traffic from an allowlisted address blocked as a reverse direction.
    let mut cfg = config(true);
    cfg.allowlist = vec![Cidr { addr: IpAddr::V4([10, 0, 0, 5]), prefix_len: 32 }];
    let mut sup = supervisor(cfg);
    let k = key([198, 51, 100, 11], [10, 0, 0, 5], 1);
    let iso = sup.enforce_isolation(&k, Decision::QuarantineIp, 7).unwrap();
    assert!(iso.whole_source);
    assert_eq!(iso.reverse, None);
    let k = key([198, 51, 100, 11], [10, 0, 0, 6], 1);
    let iso = sup.enforce_isolation(&k, Decision::QuarantineIp, 7).unwrap();
    assert_eq!(iso.reverse, Some(k.reverse()));
    assert_eq!((iso.entry.reason, iso.entry.ts_ns, iso.entry.seq), (2, 7, 1));
    assert_eq!(iso.entry.ttl_ns, (60_000_000_000u64 % (1 << 32)) as u32);
}

#[test]
fn refused_isolation_leaves_no_trace() {
    let mut plane = MockDataPlane::new();
    let mut sup = supervisor(config(false));
    let k = key([10, 0, 0, 9], [10, 0, 0, 5], 443);
    flood(&mut plane, &k, BASE_NS);
    let snap = plane.snapshot_flows();
    let round = sup.triage_tick(&snap, BASE_MS);
    let (key, session) = &round.candidates[0];
    let a = sup.assess(key, session, &round.ctx, BASE_NS, BASE_MS);
    let iso = sup.enforce_isolation(key, a.outcome.decision, BASE_NS).unwrap();
    assert!(sup.complete_isolation(&iso, session, a.outcome, false, 0, BASE_MS).is_none());
    assert_eq!(sup.decisions, 0);
    assert_eq!(sup.table.sessions.get(key).unwrap().state, SessionState::Active);
}

#[test]
fn near_threshold_sessions_become_suspicious() {
    let mut sup = supervisor(config(false));
    let mut k = key([10, 0, 0, 9], [10, 0, 0, 5], 53);
    k.proto = 17;
    sup.on_event(&opening(k, 100, L7App::Dns, 31), BASE_NS);
    let mut m = FlowMetrics {
        packets: 40,
        bytes: 4000,
        sum_pkt_len: 4000,
        first_seen_ns: BASE_NS,
        last_seen_ns: BASE_NS,
        max_pkt_len: 100,
        min_pkt_len: 100,
        syn_count: 0,
        fin_count: 0,
        rst_count: 0,
        tcp_flags_or: 0,
        l7_app: 0,
        l7_info: 0,
        proto: 17,
        emitted: 0,
    };
    let round = sup.triage_tick(&vec![(k, m)], BASE_MS);
    let (key, session) = &round.candidates[0];
    // 0.6 against a threshold of 0.8: above seven tenths of it.
    let a = sup.assess(key, session, &round.ctx, BASE_NS + 1_000_000_000, BASE_MS);
    assert_eq!(a.outcome.risk, UNIT / 10 * 6);
    assert!(!a.isolate);
    assert!(!a.review);
    assert_eq!(sup.table.sessions.get(key).unwrap().state, SessionState::Suspicious);
    // No risk: nothing changes.
    m.packets = 1;
    let round = sup.triage_tick(&vec![(k, m)], BASE_MS);
    let (key, session) = &round.candidates[0];
    let a = sup.assess(key, session, &round.ctx, BASE_NS + 1_000_000_000, BASE_MS);
    assert_eq!(a.outcome.risk, 0);
    assert_eq!(sup.table.sessions.get(key).unwrap().state, SessionState::Suspicious);
}

#[test]
fn other_events_leave_the_table_alone() {
    let mut sup = supervisor(config(false));
    let k = key([10, 0, 0, 9], [10, 0, 0, 5], 443);
    let mut ev = opening(k, 100, L7App::Tls, 0);
    for kind in [EventKind::BlockHit, EventKind::Drop, EventKind::FlowExpired] {
        ev.kind = kind.code();
        sup.on_event(&ev, BASE_NS);
    }
    assert_eq!(sup.table.sessions.len(), 0);
    ev.kind = EventKind::NewFlow.code();
    sup.on_event(&ev, BASE_NS);
    sup.on_event(&ev, BASE_NS + 5);
    let s = sup.table.sessions.get(&k).unwrap();
    assert_eq!((s.packets, s.bytes, s.last_seen_ns), (2, 200, BASE_NS + 5));
    assert_eq!(s.state, SessionState::Active);
}

#[test]
fn start_and_toggle() {
    let mut sup = supervisor(config(true));
    let c = sup.start(BASE_MS);
    assert_eq!((c.control.mode, c.control.flags), (1, 1));
    assert_eq!(c.event.event, "supervisor_started");
    assert_eq!(
        c.event.detail.as_deref(),
        Some("attach=enforce iface=auto threshold=0.8 quarantine=60s block_ip=true mock=true")
    );
    let action = c.event.action.unwrap();
    assert_eq!((action.kind, action.key.as_str(), action.reason), ("ctl", "mode", "enforce"));
    assert_eq!(action.ttl_ns, 60_000_000_000);
    let off = sup.toggle_enforce(BASE_MS);
    assert!(!sup.enforce);
    assert_eq!(off.control.mode, 0);
    assert_eq!(off.event.event, "mode_toggle");
    assert_eq!(off.event.detail.as_deref(), Some("switched to monitor (observe only)"));
    let on = sup.toggle_enforce(BASE_MS);
    assert_eq!(on.control, c.control);
    assert_eq!(on.event.detail.as_deref(), Some("switched to enforce (drops active)"));
    let mut cfg = config(false);
    cfg.cli.monitor = true;
    let mut sup = supervisor(cfg);
    assert_eq!(sup.start(BASE_MS).control.mode, 0);
}

#[test]
fn session_dump_text() {
    let mut sup = supervisor(config(false));
    let empty = sup.dump_table(BASE_MS);
    assert_eq!((empty.sessions, empty.summary.as_str()), (0, ""));
    let a = key([10, 0, 0, 9], [10, 0, 0, 5], 443);
    let b = key([10, 0, 0, 8], [10, 0, 0, 5], 53);
    sup.on_event(&opening(a, 100, L7App::Tls, 0), BASE_NS);
    sup.on_event(&opening(b, 100, L7App::Unknown, 0), BASE_NS);
    let mut s = *sup.table.sessions.get(&b).unwrap();
    s.risk = UNIT / 1000 * 875;
    sup.table.sessions.insert(b, s);
    let dump = sup.dump_table(BASE_MS);
    assert_eq!(dump.sessions, 2);
    assert_eq!(
        dump.summary,
        "New Tls 10.0.0.9 -> 10.0.0.5:443 pkts=1 risk=0.00\nNew None 10.0.0.8 -> 10.0.0.5:53 pkts=1 risk=0.88"
    );
    assert_eq!(dump.event.event, "session_dump");
    assert_eq!(dump.event.detail, Some(dump.summary));
}

#[test]
fn model_is_asked_and_reported() {
    let mut sup = supervisor(config(false));
    let k = key([8, 8, 8, 8], [10, 0, 0, 5], 443);
    sup.on_event(&opening(k, 100, L7App::Tls, 0), BASE_NS);
    let round = sup.triage_tick(&Vec::new(), BASE_MS);
    let (key, session) = &round.candidates[0];
    let a = sup.assess(key, session, &round.ctx, BASE_NS, BASE_MS);
    assert!(!a.review);
    assert!(sup.request_llm_review(key, session, &a.outcome).is_none());
    sup.llm = LlmBackend::from_env(Some("http://h".to_string()), None, None);
    let a = sup.assess(key, session, &round.ctx, BASE_NS, BASE_MS);
    assert!(a.review);
    assert_eq!(
        sup.request_llm_review(key, session, &a.outcome).unwrap(),
        "flow 8.8.8.8 -> 10.0.0.5:443 proto=6 app=2 packets=1 bytes=100 syn=0 risk=0.80 rationale=first_contact"
    );
    let ev = review_event(key, session, a.outcome, "fine".to_string(), BASE_MS);
    assert_eq!((ev.event, ev.level, ev.threshold), ("llm_rationale", "info", None));
    assert_eq!(ev.detail.as_deref(), Some("fine"));
    assert_eq!(ev.flow.unwrap().app, "tls");
    assert_eq!(ev.rationale.len(), 1);
}

#[test]
fn audit_line_of_a_dns_tunnel() {
    let mut sup = supervisor(config(false));
    let mut k = FlowKey::default();
    k.saddr[0] = u32::from_be_bytes([203, 0, 113, 7]);
    k.daddr[0] = u32::from_be_bytes([10, 0, 0, 53]);
    k.sport = 40000;
    k.dport = 53;
    k.proto = 17;
    sup.on_event(&opening(k, 900, L7App::Dns, 58), BASE_NS);
    let s = *sup.table.sessions.get(&k).unwrap();
    let ctx = sup.triage_tick(&Vec::new(), BASE_MS).ctx;
    let out = sup.ctrl.triage(&s, &ctx, BASE_NS, BASE_MS);
    let iso = sup.enforce_isolation(&k, Decision::Quarantine, BASE_NS).unwrap();
    let ev = sup.complete_isolation(&iso, &s, out, true, 4_000, BASE_MS).unwrap();
    let flow = ev.flow.unwrap();
    assert_eq!((flow.src.as_str(), flow.dst.as_str()), ("203.0.113.7:40000", "10.0.0.53:53"));
    assert_eq!((flow.proto, flow.app), ("udp", "dns"));
    assert_eq!(ev.action.unwrap().key, "203.0.113.7:40000->10.0.0.53:53");
}
