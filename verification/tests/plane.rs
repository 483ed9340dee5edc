use zqfw::addr::IpAddr;
use zqfw::flow::{Session, SessionState, SessionTable};
use zqfw::keyed::{KeySet, KeyedMap};
use zqfw::mock::MockDataPlane;
use zqfw::protocol::{BlockEntry, FlowKey, IpKey, KernelEvent};
use zqfw::traffic::sim::{make_key, scenarios, FlowSpec, PortMode, Simulator, RUN_NS};

fn key(src: [u8; 4], dport: u16) -> FlowKey {
    let mut k = FlowKey::default();
    k.saddr[0] = u32::from_be_bytes(src);
    k.daddr[0] = u32::from_be_bytes([10, 0, 0, 5]);
    k.sport = 1;
    k.dport = dport;
    k.proto = 6;
    k
}

const ENTRY: BlockEntry = BlockEntry { reason: 1, ts_ns: 0, ttl_ns: 0, seq: 0 };

#[test]
fn blocked_packets_are_counted_and_dropped_when_enforcing() {
    let mut p = MockDataPlane::new();
    let k = key([1, 2, 3, 4], 80);
    assert!(!p.process_packet(&k, 60, 5, 0x02));
    p.block_flow(&k, ENTRY);
    // Monitoring: counted, never dropped.
    assert!(!p.process_packet(&k, 60, 6, 0x02));
    p.apply_control(true);
    assert!(p.process_packet(&k, 60, 7, 0x02));
    let c = p.snapshot_counters();
    assert_eq!((c.pass, c.drop, c.block_hits), (1, 2, 2));
    assert!(!p.process_packet(&key([1, 2, 3, 4], 81), 60, 8, 0x02));
    p.block_ip(&IpKey::from_ip(IpAddr::V4([1, 2, 3, 4])), ENTRY);
    assert!(p.process_packet(&key([1, 2, 3, 4], 81), 60, 9, 0x02));
    p.unblock_ip(&IpKey::from_ip(IpAddr::V4([1, 2, 3, 4])));
    p.unblock_flow(&k);
    assert!(!p.process_packet(&k, 60, 10, 0x02));
}

#[test]
fn flow_metrics_accumulate() {
    let mut p = MockDataPlane::default();
    let k = key([1, 2, 3, 4], 80);
    p.ingest_packet(&k, 60, 5, 0x02);
    p.ingest_packet(&k, 1400, 9, 0x12);
    p.ingest_packet(&k, 40, 11, 0x05);
    let snap = p.snapshot_flows();
    assert_eq!(snap.len(), 1);
    let (kk, m) = snap[0];
    assert_eq!(kk, k);
    assert_eq!((m.packets, m.bytes, m.sum_pkt_len), (3, 1500, 1500));
    assert_eq!((m.first_seen_ns, m.last_seen_ns), (5, 11));
    assert_eq!((m.min_pkt_len, m.max_pkt_len), (40, 1400));
    assert_eq!((m.syn_count, m.fin_count, m.rst_count), (1, 1, 1));
    assert_eq!(m.tcp_flags_or, 0x17);
}

#[test]
fn sessions_merge_kernel_metrics() {
    let mut p = MockDataPlane::new();
    let k = key([1, 2, 3, 4], 80);
    p.ingest_packet(&k, 60, 5, 0x02);
    p.ingest_packet(&k, 60, 9, 0x02);
    let mut t = SessionTable::default();
    let snap = p.snapshot_flows();
    t.merge_snapshot(&snap);
    let once: Session = *t.sessions.get(&k).unwrap();
    assert_eq!(once.state, SessionState::Active);
    assert_eq!((once.packets, once.syn_count, once.min_pkt_len), (2, 2, 60));
    t.merge_metrics(k, &snap[0].1);
    assert_eq!(*t.sessions.get(&k).unwrap(), once);
    let mut early = snap[0].1;
    early.first_seen_ns = 1;
    early.last_seen_ns = 6;
    t.merge_metrics(k, &early);
    let s = t.sessions.get(&k).unwrap();
    assert_eq!((s.first_seen_ns, s.last_seen_ns), (1, 9));
    assert_eq!(t.remove(&k).unwrap().packets, 2);
    assert!(t.remove(&k).is_none());
}

#[test]
fn session_from_event() {
    let ev = KernelEvent {
        kind: 1,
        ts_ns: 0,
        len: 77,
        cpu: 0,
        key: key([1, 2, 3, 4], 80),
        l7_app: 0x0102,
        l7_info: 9,
    };
    let s = Session::from_event(&ev, 42);
    assert_eq!((s.packets, s.bytes, s.first_seen_ns, s.l7_app), (1, 77, 42, 2));
    assert_eq!(s.state, SessionState::New);
    assert_eq!(s.state.label(), "New");
}

#[test]
fn containers_keep_insertion_order() {
    let mut m: KeyedMap<u16, u32> = KeyedMap::new();
    m.insert(3, 30);
    m.insert(1, 10);
    m.insert(3, 31);
    assert_eq!(m.len(), 2);
    assert_eq!((m.key_at(0), *m.value_at(0)), (3, 31));
    assert_eq!(m.remove(&3), Some(31));
    assert_eq!(m.remove(&3), None);
    assert!(m.contains_key(&1) && !m.contains_key(&3));
    let mut s: KeySet<u16> = KeySet::new();
    assert!(s.insert(5));
    assert!(!s.insert(5));
    assert!(s.contains(&5));
    assert!(s.remove(&5));
    assert!(!s.remove(&5));
    assert_eq!(s.len(), 0);
}

#[test]
fn canonical_scenarios() {
    let names: Vec<&str> = scenarios().iter().map(|s| s.name).collect();
    assert_eq!(
        names,
        vec![
            "benign-web",
            "benign-dns",
            "attacker-portscan",
            "attacker-synflood",
            "attacker-dnstunnel",
            "attacker-exfil",
            "attacker-lateral",
        ]
    );
}

fn spec(pps: u32, port_mode: PortMode) -> FlowSpec {
    FlowSpec { pps, port_mode, start_s: 1, duration_s: 1, ..scenarios()[2] }
}

#[test]
fn simulator_paces_packets() {
    let base = 1_000;
    let mut sim = Simulator::new(vec![spec(25, PortMode::Fixed)], base);
    assert!(sim.step(999_999_999).is_empty());
    let mut counts = Vec::new();
    let mut events = 0;
    for i in 0..=10u64 {
        let now = 1_000_000_000 + i * 100_000_000;
        let packets = sim.step(now);
        counts.push(packets.len());
        for p in &packets {
            assert_eq!(p.ts_ns, base + now);
            assert_eq!((p.len, p.flags), (60, 0x02));
            events += p.event.is_some() as usize;
        }
    }
    assert_eq!(counts, vec![2, 3, 2, 3, 2, 3, 2, 3, 2, 3, 2]);
    assert_eq!(events, 1);
    assert!(sim.step(2_000_000_001).is_empty());
}

#[test]
fn simulator_steps_ports_and_announces_each_flow_once() {
    let mut sim = Simulator::new(vec![spec(40, PortMode::StepDstPort { from: 7, to: 10 })], 0);
    let packets = sim.step(1_000_000_000);
    let ports: Vec<u16> = packets.iter().map(|p| p.key.dport).collect();
    assert_eq!(ports, vec![7, 8, 9, 7]);
    let announced: Vec<bool> = packets.iter().map(|p| p.event.is_some()).collect();
    assert_eq!(announced, vec![true, true, true, false]);
    let ev = packets[1].event.unwrap();
    assert_eq!((ev.kind, ev.key.dport, ev.l7_app), (1, 8, 10));
    assert_eq!(ev.ts_ns, 1_000_000_000);
    assert!(sim.step(1_100_000_000).iter().all(|p| p.event.is_none()));
}

#[test]
fn stepped_keys_walk_the_range_and_wrap() {
    let s = spec(1, PortMode::StepDstPort { from: 7, to: 10 });
    let mut next = 0u16;
    let keys: Vec<FlowKey> = (0..4).map(|_| make_key(&s, &mut next)).collect();
    let ports: Vec<u16> = keys.iter().map(|k| k.dport).collect();
    assert_eq!(ports, vec![7, 8, 9, 7]);
    assert_eq!(next, 4);
    for k in &keys {
        assert_eq!(FlowKey { dport: 7, ..*k }, keys[0]);
    }
    assert_eq!(keys[0].src_ip(), s.src);
    assert_eq!(keys[0].dst_ip(), s.dst);
    next = u16::MAX;
    make_key(&s, &mut next);
    assert_eq!(next, 0);
}

#[test]
fn planes_stay_consistent() {
    let mut p = MockDataPlane::new();
    let (a, b) = (key([1, 2, 3, 4], 80), key([1, 2, 3, 5], 80));
    for i in 0..20u64 {
        p.ingest_packet(&a, 60, i, 0x07);
        if i == 7 {
            p.block_flow(&b, ENTRY);
        }
        p.ingest_packet(&b, 40, i, 0x02);
    }
    let c = p.snapshot_counters();
    assert_eq!((c.pass, c.drop, c.block_hits), (27, 13, 13));
    let snap = p.snapshot_flows();
    assert_eq!(snap.iter().map(|(_, m)| m.packets).sum::<u64>(), c.pass);
    for (_, m) in &snap {
        assert_eq!(m.bytes, m.sum_pkt_len);
        assert!(m.syn_count as u64 <= m.packets && m.rst_count as u64 <= m.packets);
    }
}

#[test]
fn simulator_ends() {
    assert!(!Simulator::finished(RUN_NS, false));
    assert!(Simulator::finished(RUN_NS + 1, false));
    assert!(Simulator::finished(0, true));
}
