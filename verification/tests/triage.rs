use zqfw::addr::IpAddr;
use zqfw::audit::Decision;
use zqfw::flow::{Session, SessionState};
use zqfw::keyed::KeyedMap;
use zqfw::protocol::{FlowKey, L7App};
use zqfw::triage::context::{is_ephemeral, is_private, is_sensitive_service, TriageContext};
use zqfw::triage::llm::{LlmBackend, ReviewError};
use zqfw::triage::signals::{
    registry, signal_data_exfil, signal_dns_tunnel, signal_first_contact, signal_lateral_movement,
    signal_port_scan, signal_rst_flood, signal_slow_drip, signal_syn_flood,
    signal_unidirectional_udp,
};
use zqfw::triage::{TriageController, UNIT};

const THRESHOLD: u64 = UNIT / 10 * 8;

fn session_with(key: FlowKey, packets: u64, syn: u32, flags: u16, first: u64) -> Session {
    Session {
        key,
        first_seen_ns: first,
        last_seen_ns: first + 2_000_000_000,
        packets,
        bytes: packets * 1500,
        sum_pkt_len: packets * 1500,
        max_pkt_len: 1500,
        min_pkt_len: 64,
        syn_count: syn,
        fin_count: 0,
        rst_count: 0,
        tcp_flags_or: flags,
        l7_app: 0,
        l7_info: 0,
        proto: key.proto,
        risk: 0,
        state: SessionState::Active,
        quarantine_until_ms: None,
        block_seq: None,
    }
}

fn flow(src: [u8; 4], dst: [u8; 4], sport: u16, dport: u16, proto: u8) -> FlowKey {
    let mut key = FlowKey::default();
    key.saddr[0] = u32::from_be_bytes(src);
    key.daddr[0] = u32::from_be_bytes(dst);
    key.sport = sport;
    key.dport = dport;
    key.proto = proto;
    key
}

#[test]
fn syn_flood_quarantines() {
    let key = flow([1, 2, 3, 4], [5, 6, 7, 8], 11111, 443, 6);
    let s = session_with(key, 20, 20, 0x02, 1_000_000_000);
    let ctx = TriageContext::default();
    let ctrl = TriageController::new(THRESHOLD, 300_000, false);
    let out = ctrl.triage(&s, &ctx, 3_000_000_000, 0);
    assert_eq!(out.decision, Decision::Quarantine);
    assert!(out.risk > THRESHOLD);
    assert!(!out.rationale.is_empty());
    // (1.0 * 0.95 + 0.8 * 0.30) / 1.25
    assert_eq!(out.risk, UNIT / 1000 * 952);
    assert_eq!(out.confidence, UNIT / 10000 * 9664);
    assert_eq!(out.rationale[0].signal, "syn_flood");
    assert_eq!(out.rationale[0].weight, 95);
    assert_eq!(
        out.rationale[0].evidence,
        "SYN flood: 20 SYN packets without any ACK in session 443"
    );
    assert_eq!(out.rationale[1].signal, "first_contact");
    assert!(ctrl.warrants_review(&out));
}

#[test]
fn benign_flow_allowed() {
    let key = flow([10, 0, 0, 1], [10, 0, 0, 2], 40000, 443, 6);
    let s = session_with(key, 5, 1, 0x12, 1_000_000_000);
    let ctx = TriageContext::default();
    let ctrl = TriageController::new(THRESHOLD, 300_000, false);
    let out = ctrl.triage(&s, &ctx, 3_000_000_000, 0);
    assert_eq!(out.decision, Decision::Allow, "benign risk={}", out.risk);
    assert!(out.risk < THRESHOLD);
    assert_eq!(out.risk, 0);
    assert!(out.rationale.is_empty());
    assert!(!ctrl.warrants_review(&out));
}

#[test]
fn scan_escalates_to_ip_when_enabled() {
    let mut table: KeyedMap<FlowKey, Session> = KeyedMap::new();
    let ctrl = TriageController::new(THRESHOLD, 300_000, true);
    for dport in [1u16, 22, 80, 443, 8080, 53, 21, 25, 110, 143, 993, 3306] {
        let key = flow([1, 2, 3, 4], [5, 6, 7, 8], 11111, dport, 6);
        let s = session_with(key, 1, 1, 0x02, 1_000_000_000);
        table.insert(key, s);
    }
    // Rebuild context so it sees the multi-port pattern.
    let ctx = TriageContext::rebuild(&table, 1_000_000_000_000);
    let key = flow([1, 2, 3, 4], [5, 6, 7, 8], 11111, 445, 6);
    let s = session_with(key, 1, 1, 0x02, 1_000_000_000);
    let out = ctrl.triage(&s, &ctx, 3_000_000_000, 0);
    assert_eq!(out.decision, Decision::QuarantineIp);

    let flows_only = TriageController::new(THRESHOLD, 300_000, false);
    assert_eq!(flows_only.triage(&s, &ctx, 3_000_000_000, 0).decision, Decision::Quarantine);
    assert_eq!(ctx.distinct_ports_to(&key.src_ip(), &key.dst_ip()), 12);
    assert_eq!(ctx.distinct_dst_ips(&key.src_ip()), 1);
    assert_eq!(ctx.flow_count(&key.src_ip()), 12);
    assert!(ctx.src_is_new(&key.src_ip(), 1_000_000_000_000));
    assert!(ctx.src_is_new(&key.src_ip(), 1_000_000_059_999));
    assert!(!ctx.src_is_new(&key.src_ip(), 1_000_000_060_000));
}

#[test]
fn first_contact_alone_reaches_default_threshold() {
    let key = flow([8, 8, 8, 8], [10, 0, 0, 2], 40000, 443, 6);
    let s = session_with(key, 5, 1, 0x12, 1_000_000_000);
    let ctx = TriageContext::default();
    let ctrl = TriageController::new(THRESHOLD, 300_000, false);
    let out = ctrl.triage(&s, &ctx, 3_000_000_000, 0);
    assert_eq!(out.risk, THRESHOLD);
    assert_eq!(out.decision, Decision::Quarantine);
    let strict = TriageController::new(THRESHOLD + 1, 300_000, false);
    let out = strict.triage(&s, &ctx, 3_000_000_000, 0);
    assert_eq!(out.decision, Decision::Allow);
    assert_eq!(out.confidence, THRESHOLD);
}

#[test]
fn registry_weights() {
    let w: Vec<(&str, u8)> = registry().iter().map(|s| (s.id, s.weight)).collect();
    assert_eq!(
        w,
        vec![
            ("port_scan", 90),
            ("syn_flood", 95),
            ("dns_tunnel", 85),
            ("data_exfil", 90),
            ("lateral_movement", 95),
            ("unidirectional_udp", 60),
            ("rst_flood", 80),
            ("slow_drip", 50),
            ("first_contact", 30),
        ]
    );
}

#[test]
fn port_scan_strength_and_evidence() {
    let mut table: KeyedMap<FlowKey, Session> = KeyedMap::new();
    let mut s = session_with(flow([1, 2, 3, 4], [5, 6, 7, 8], 1, 1, 6), 1, 1, 2, 0);
    for dport in 1..=9u16 {
        let key = flow([1, 2, 3, 4], [5, 6, 7, 8], 1, dport, 6);
        s = session_with(key, 1, 1, 2, 0);
        table.insert(key, s);
    }
    let ctx = TriageContext::rebuild(&table, 0);
    assert!(signal_port_scan(&s, &ctx).is_none());
    let key = flow([1, 2, 3, 4], [5, 6, 7, 8], 1, 10, 6);
    table.insert(key, session_with(key, 1, 1, 2, 0));
    let ctx = TriageContext::rebuild(&table, 0);
    let e = signal_port_scan(&s, &ctx).unwrap();
    assert_eq!(e.contribution, UNIT as u128 * 10 / 15);
    assert_eq!(
        e.evidence,
        "port scan pattern: 10 distinct ports to 5.6.7.8 and 1 distinct destinations from 1.2.3.4"
    );
}

#[test]
fn port_scan_counts_ports_over_all_destinations() {
    let mut table: KeyedMap<FlowKey, Session> = KeyedMap::new();
    for dport in 1..=9u16 {
        let last = if dport <= 5 { 8 } else { 9 };
        let key = flow([1, 2, 3, 4], [5, 6, 7, last], 11111, dport, 6);
        table.insert(key, session_with(key, 1, 1, 2, 0));
    }
    // The same port on a second host adds nothing.
    let again = flow([1, 2, 3, 4], [5, 6, 7, 9], 11111, 1, 6);
    table.insert(again, session_with(again, 1, 1, 2, 0));
    let s = session_with(flow([1, 2, 3, 4], [5, 6, 7, 8], 11111, 1, 6), 1, 1, 2, 0);
    let ctx = TriageContext::rebuild(&table, 0);
    assert_eq!(ctx.distinct_ports_from(&s.key.src_ip()), 9);
    assert!(signal_port_scan(&s, &ctx).is_none());
    let tenth = flow([1, 2, 3, 4], [5, 6, 7, 9], 11111, 10, 6);
    table.insert(tenth, session_with(tenth, 1, 1, 2, 0));
    let ctx = TriageContext::rebuild(&table, 0);
    let e = signal_port_scan(&s, &ctx).unwrap();
    assert_eq!(e.contribution, UNIT as u128 * 10 / 15);
    assert_eq!(
        e.evidence,
        "port scan pattern: 5 distinct ports to 5.6.7.8 and 2 distinct destinations from 1.2.3.4"
    );
}

#[test]
fn rebuilt_context_has_no_phantom_keys() {
    let mut table: KeyedMap<FlowKey, Session> = KeyedMap::new();
    let key = flow([1, 2, 3, 4], [5, 6, 7, 8], 1, 10, 6);
    table.insert(key, session_with(key, 1, 1, 2, 0));
    let ctx = TriageContext::rebuild(&table, 42);
    assert_eq!(ctx.dst_ports.len(), 1);
    assert_eq!(ctx.dst_ips.len(), 1);
    assert_eq!(ctx.src_flow_count.len(), 1);
    assert_eq!(ctx.first_seen_src.len(), 1);
    assert_eq!(ctx.first_seen_src.get(&key.src_ip()), Some(&42));
}

#[test]
fn sightings_last_for_the_window() {
    let mut table: KeyedMap<FlowKey, Session> = KeyedMap::new();
    let key = flow([1, 2, 3, 4], [5, 6, 7, 8], 1, 10, 6);
    let src = key.src_ip();
    table.insert(key, session_with(key, 1, 1, 2, 0));
    let mut memory = KeyedMap::new();
    let mut is_new = |now_ms: u64| {
        let mut ctx = TriageContext::rebuild(&table, now_ms);
        ctx.recall(&mut memory, now_ms);
        ctx.src_is_new(&src, now_ms)
    };
    assert!(is_new(1_000_000));
    assert!(is_new(1_059_999));
    assert!(!is_new(1_060_000));
    // Seen all along: never new again.
    assert!(!is_new(1_360_000));
    assert!(!is_new(1_660_000));
    // Not seen for longer than the window.
    assert!(is_new(1_960_001));
}

#[test]
fn expired_sessions_do_not_count() {
    let mut table: KeyedMap<FlowKey, Session> = KeyedMap::new();
    let key = flow([1, 2, 3, 4], [5, 6, 7, 8], 1, 10, 6);
    let mut s = session_with(key, 1, 1, 2, 0);
    s.state = SessionState::Expired;
    table.insert(key, s);
    let ctx = TriageContext::rebuild(&table, 0);
    assert_eq!(ctx.flow_count(&key.src_ip()), 0);
    assert_eq!(ctx.distinct_dst_ips(&key.src_ip()), 0);
}

#[test]
fn syn_rate_without_handshake_context() {
    let key = flow([10, 0, 0, 1], [10, 0, 0, 2], 1, 80, 6);
    let mut s = session_with(key, 200, 81, 0x12, 0);
    assert_eq!(signal_syn_flood(&s).unwrap().evidence, "SYN flood: 40 SYNs/sec");
    s.syn_count = 80;
    assert!(signal_syn_flood(&s).is_none());
    s.syn_count = 7;
    s.tcp_flags_or = 0x02;
    assert!(signal_syn_flood(&s).is_none());
    s.syn_count = 8;
    assert_eq!(signal_syn_flood(&s).unwrap().contribution, UNIT as u128);
    s.proto = 17;
    assert!(signal_syn_flood(&s).is_none());
}

#[test]
fn udp_burst() {
    let key = flow([10, 0, 0, 1], [10, 0, 0, 2], 999, 80, 17);
    let mut s = session_with(key, 1000, 0, 0, 0);
    s.bytes = 1_500_000;
    let ctx = TriageContext::default();
    let e = signal_unidirectional_udp(&s, &ctx, 1_000_000_000).unwrap();
    assert_eq!(e.contribution, UNIT as u128 / 2);
    assert_eq!(e.evidence, "unidirectional UDP burst: 1000 pps / 1500 KB/s from 10.0.0.1:999");
    // The peer answers to another port, then to the port of the burst.
    let mut table: KeyedMap<FlowKey, Session> = KeyedMap::new();
    let other = flow([10, 0, 0, 2], [10, 0, 0, 1], 80, 998, 17);
    table.insert(other, session_with(other, 1, 0, 0, 0));
    let ctx = TriageContext::rebuild(&table, 0);
    assert!(signal_unidirectional_udp(&s, &ctx, 1_000_000_000).is_some());
    let answer = flow([10, 0, 0, 2], [10, 0, 0, 1], 80, 999, 17);
    table.insert(answer, session_with(answer, 1, 0, 0, 0));
    let ctx = TriageContext::rebuild(&table, 0);
    assert!(ctx.reaches(&answer.src_ip(), &answer.dst_ip(), 999));
    assert!(signal_unidirectional_udp(&s, &ctx, 1_000_000_000).is_none());
    s.bytes = 100_000;
    assert!(signal_unidirectional_udp(&s, &TriageContext::default(), 1_000_000_000).is_none());
}

#[test]
fn dns_tunnel_levels() {
    let key = flow([10, 0, 0, 1], [10, 0, 0, 2], 999, 53, 17);
    let mut s = session_with(key, 51, 0, 0, 0);
    s.l7_app = L7App::Dns.code();
    s.l7_info = 41;
    let e = signal_dns_tunnel(&s, 1_000_000_000).unwrap();
    assert_eq!(e.contribution, UNIT as u128);
    assert_eq!(e.evidence, "DNS tunneling: 51 pps with query names ~41 bytes long");
    s.l7_info = 31;
    let e = signal_dns_tunnel(&s, 1_000_000_000).unwrap();
    assert_eq!(e.contribution, UNIT as u128 / 10 * 6);
    assert_eq!(e.evidence, "high-rate DNS (51 pps) with long labels");
    s.l7_info = 30;
    assert!(signal_dns_tunnel(&s, 1_000_000_000).is_none());
    assert!(TriageContext::app_is(&s, L7App::Dns));
    assert!(!TriageContext::app_is(&s, L7App::Tls));
}

#[test]
fn first_contact_needs_public_source() {
    let ctx = TriageContext::default();
    let public = session_with(flow([8, 8, 8, 8], [10, 0, 0, 2], 1, 443, 6), 1, 0, 0, 0);
    let e = signal_first_contact(&public, &ctx, 0).unwrap();
    assert_eq!(e.contribution, UNIT as u128 / 10 * 8);
    assert_eq!(e.evidence, "first contact from unseen source 8.8.8.8 to 10.0.0.2:443");
    let private = session_with(flow([10, 0, 0, 8], [10, 0, 0, 2], 1, 443, 6), 1, 0, 0, 0);
    assert!(signal_first_contact(&private, &ctx, 0).is_none());
}

#[test]
fn exfiltration_needs_an_unusual_port() {
    let key = flow([10, 0, 0, 1], [203, 0, 113, 9], 1, 5555, 17);
    let mut s = session_with(key, 10, 0, 0, 0);
    s.bytes = 1_000_000;
    let e = signal_data_exfil(&s, 1_000_000_000).unwrap();
    assert_eq!(e.contribution, UNIT as u128 / 2);
    assert_eq!(e.evidence, "possible data exfiltration: 1000 KB/s raw to 203.0.113.9:5555");
    s.key.dport = 443;
    assert!(signal_data_exfil(&s, 1_000_000_000).is_none());
    s.l7_app = L7App::Tls.code();
    assert!(signal_data_exfil(&s, 1_000_000_000).is_none());
    s.key.dport = 8443;
    let e = signal_data_exfil(&s, 1_000_000_000).unwrap();
    assert_eq!(e.evidence, "possible data exfiltration: 1000 KB/s encrypted to 203.0.113.9:8443");
    s.key.dport = 32768;
    assert!(signal_data_exfil(&s, 1_000_000_000).is_none());
}

#[test]
fn rst_ratio() {
    let key = flow([10, 0, 0, 1], [203, 0, 113, 9], 1, 5555, 6);
    let mut s = session_with(key, 20, 0, 0, 0);
    s.rst_count = 14;
    let e = signal_rst_flood(&s).unwrap();
    assert_eq!(e.contribution, UNIT as u128);
    assert_eq!(e.evidence, "abnormal RST ratio 70% (14 RSTs): torn-down / scanning session");
    s.rst_count = 20;
    assert_eq!(signal_rst_flood(&s).unwrap().contribution, UNIT as u128);
    s.packets = 40;
    s.rst_count = 21;
    // (52.5% - 35%) / 35%
    assert_eq!(signal_rst_flood(&s).unwrap().contribution, UNIT as u128 / 2);
    s.rst_count = 10;
    assert!(signal_rst_flood(&s).is_none());
}

#[test]
fn lateral_moves_between_private_hosts() {
    let key = flow([10, 0, 0, 5], [10, 0, 0, 20], 1, 22, 6);
    let mut s = session_with(key, 6, 6, 0x02, 0);
    let e = signal_lateral_movement(&s).unwrap();
    assert_eq!(e.contribution, UNIT as u128);
    assert_eq!(
        e.evidence,
        "zero-trust violation: unexpected internal access 10.0.0.5 -> 10.0.0.20:22 (6 SYN retries, no ACK)"
    );
    s.tcp_flags_or = 0x12;
    assert!(signal_lateral_movement(&s).is_none());
    s.tcp_flags_or = 0x02;
    s.key.dport = 8081;
    assert!(signal_lateral_movement(&s).is_none());
}

#[test]
fn slow_drips() {
    let key = flow([10, 0, 0, 5], [10, 0, 0, 20], 1, 22, 17);
    let mut s = session_with(key, 501, 0, 0, 0);
    s.last_seen_ns = 5_000_000_001;
    let e = signal_slow_drip(&s).unwrap();
    assert_eq!(e.contribution, UNIT as u128 / 2);
    assert_eq!(e.evidence, "slow drip volumetric UDP: 501 packets over 5s");
    s.last_seen_ns = 5_000_000_000;
    assert!(signal_slow_drip(&s).is_none());
}

#[test]
fn risk_is_the_weighted_mean() {
    // rst_flood alone, at full strength.
    let key = flow([10, 0, 0, 1], [203, 0, 113, 9], 1, 5555, 6);
    let mut s = session_with(key, 20, 0, 0, 0);
    s.rst_count = 20;
    let ctrl = TriageController::new(THRESHOLD, 1, false);
    let out = ctrl.triage(&s, &TriageContext::default(), 2_000_000_000, 0);
    assert_eq!(out.rationale.len(), 1);
    assert_eq!(out.rationale[0].contribution, UNIT as u128);
    assert_eq!(out.risk, UNIT);
    assert_eq!(out.confidence, UNIT / 100 * 99);
    assert_eq!(out.quarantine_ms, 1);
    // slow_drip (0.5, weight 50) and unidirectional_udp (1.0, weight 60).
    let key = flow([10, 0, 0, 1], [10, 0, 0, 9], 1, 80, 17);
    let mut s = session_with(key, 100_000, 0, 0, 0);
    s.last_seen_ns = 10_000_000_000;
    s.bytes = 1_000_000;
    let out = ctrl.triage(&s, &TriageContext::default(), 10_000_000_000, 0);
    assert_eq!(out.rationale.len(), 2);
    assert_eq!(out.risk as u128, UNIT as u128 * 85 / 110);
    assert_eq!(out.decision, Decision::Allow);
}

#[test]
fn address_and_port_classes() {
    for ip in [
        IpAddr::V4([10, 0, 0, 1]),
        IpAddr::V4([172, 16, 0, 1]),
        IpAddr::V4([192, 168, 1, 1]),
        IpAddr::V4([127, 0, 0, 1]),
        IpAddr::V6([0, 0, 0, 0, 0, 0, 0, 1]),
        IpAddr::V6([0xfd12, 0, 0, 0, 0, 0, 0, 1]),
    ] {
        assert!(is_private(ip), "{}", ip.to_text());
    }
    assert!(!is_private(IpAddr::V4([172, 32, 0, 1])));
    assert!(!is_private(IpAddr::V4([8, 8, 8, 8])));
    assert!(is_sensitive_service(22));
    assert!(!is_sensitive_service(8081));
    assert!(is_ephemeral(50000));
    assert!(!is_ephemeral(443));
}

#[test]
fn model_settings_and_replies() {
    assert!(LlmBackend::from_env(None, Some("m".to_string()), None).is_none());
    let b = LlmBackend::from_env(Some("http://h/v1".to_string()), None, None).unwrap();
    assert_eq!(b.model, "llama3.1");
    let reply = br#"{"choices":[{"message":{"role":"assistant","content":"  looks bad \n"}}]}"#;
    assert_eq!(b.review(200, reply), Ok("looks bad".to_string()));
    assert_eq!(b.review(500, reply), Err(ReviewError::Status(500)));
    assert_eq!(b.review(199, b""), Err(ReviewError::Status(199)));
    assert_eq!(b.review(200, br#"{"choices":[]}"#), Err(ReviewError::Empty));
    assert_eq!(b.review(200, br#"{"choices":[{"message":{"content":7}}]}"#), Err(ReviewError::Empty));
    assert!(matches!(b.review(200, b"{oops"), Err(ReviewError::Unparseable(_))));
    let blank = Ok(Some(" \u{2003}\t".to_string()));
    assert_eq!(LlmBackend::accept(299, blank), Err(ReviewError::Empty));
    assert_eq!(LlmBackend::accept(300, Ok(None)), Err(ReviewError::Status(300)));
    assert_eq!(LlmBackend::accept(200, Ok(None)), Err(ReviewError::Empty));
    assert_eq!(
        LlmBackend::accept(200, Err("bad".to_string())),
        Err(ReviewError::Unparseable("bad".to_string()))
    );
}
