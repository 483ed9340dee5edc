use zqfw::addr::IpAddr;
use zqfw::protocol::{
    BlockReason, ControlCfg, EventKind, FlowKey, IpKey, KernelEvent, L7App, EVENT_LEN,
};

#[test]
fn flow_key_size() {
    // Must match the C layout: 4+4 u32s + 2 u16s + 2 u8s = 40 bytes.
    assert_eq!(std::mem::size_of::<FlowKey>(), 40);
}

#[test]
fn ip_roundtrip_v4() {
    let ip = IpAddr::V4([10, 1, 2, 3]);
    assert_eq!(ip.to_text(), "10.1.2.3");
    assert_eq!(IpKey::from_ip(ip).to_ip(), ip);
}

#[test]
fn ip_roundtrip_v6() {
    let ip = IpAddr::V6([0x2001, 0xdb8, 0, 0, 0, 0, 0, 1]);
    assert_eq!(ip.to_text(), "2001:db8::1");
    assert_eq!(IpKey::from_ip(ip).to_ip(), ip);
}

#[test]
fn flow_key_ip_roundtrip() {
    let mut k = FlowKey::default();
    k.saddr[0] = u32::from_be_bytes([10, 1, 2, 3]);
    assert_eq!(k.src_ip(), IpAddr::V4([10, 1, 2, 3]));
    assert_eq!(k.src_ip().to_text(), "10.1.2.3");
}

#[test]
fn sparse_v6_key_reads_back_as_v4() {
    let ip = IpAddr::V6([0x0a01, 0x0203, 0, 0, 0, 0, 0, 0]);
    assert_eq!(IpKey::from_ip(ip).to_ip(), IpAddr::V4([10, 1, 2, 3]));
}

#[test]
fn v6_text_forms() {
    let text = |s: [u16; 8]| IpAddr::V6(s).to_text();
    assert_eq!(text([0, 0, 0, 0, 0, 0, 0, 0]), "::");
    assert_eq!(text([0, 0, 0, 0, 0, 0, 0, 1]), "::1");
    assert_eq!(text([0xfe80, 0, 0, 0, 1, 0, 0, 0]), "fe80::1:0:0:0");
    assert_eq!(text([1, 0, 0, 2, 0, 0, 0, 3]), "1:0:0:2::3");
    assert_eq!(text([1, 0, 2, 3, 4, 5, 6, 7]), "1:0:2:3:4:5:6:7");
    assert_eq!(text([0, 0, 0, 0, 0, 0xffff, 0x0a00, 0x0001]), "::ffff:10.0.0.1");
}

#[test]
fn reversed_key_swaps_ends() {
    let mut k = FlowKey::default();
    k.saddr[0] = u32::from_be_bytes([10, 1, 2, 3]);
    k.daddr[0] = u32::from_be_bytes([10, 9, 8, 7]);
    k.sport = 1000;
    k.dport = 22;
    k.proto = 6;
    let r = k.reverse();
    assert_eq!(r.src_ip(), k.dst_ip());
    assert_eq!(r.dst_ip(), k.src_ip());
    assert_eq!((r.sport, r.dport, r.proto), (22, 1000, 6));
    assert_eq!(r.dir, 1);
    assert_eq!(r.reverse(), FlowKey { dir: 1, ..k });
}

#[test]
fn codes_and_names() {
    assert_eq!(EventKind::from_u32(EventKind::NewFlow.code()), Some(EventKind::NewFlow));
    assert_eq!(EventKind::from_u32(77), None);
    for (code, app, name) in [
        (0u8, L7App::Unknown, "unknown"),
        (1, L7App::Http, "HTTP"),
        (2, L7App::Tls, "TLS"),
        (3, L7App::Dns, "DNS"),
        (4, L7App::Ssh, "SSH"),
        (5, L7App::Dhcp, "DHCP"),
        (6, L7App::Quic, "QUIC"),
        (10, L7App::UnknownTcp, "tcp"),
        (11, L7App::UnknownUdp, "udp"),
    ] {
        assert_eq!(L7App::from_u8(code), app);
        assert_eq!(app.code(), code);
        assert_eq!(app.name(), name);
        assert_eq!(app.tag(), name.to_lowercase());
    }
    assert_eq!(L7App::from_u8(200), L7App::Unknown);
    assert_eq!(L7App::Unknown.label(), "None");
    for (code, reason, name) in [
        (1u32, BlockReason::Triage, "triage"),
        (2, BlockReason::IpQuarantine, "ip_quarantine"),
        (3, BlockReason::RateLimit, "rate_limit"),
        (4, BlockReason::Manual, "manual"),
        (5, BlockReason::Exfil, "data_exfiltration"),
    ] {
        assert_eq!(BlockReason::from_u32(code), reason);
        assert_eq!(reason.code(), code);
        assert_eq!(reason.name(), name);
    }
    assert_eq!(BlockReason::from_u32(99), BlockReason::Triage);
}

#[test]
fn event_decodes_from_wire_bytes() {
    let mut b: Vec<u8> = Vec::new();
    b.extend_from_slice(&1u32.to_le_bytes());
    b.extend_from_slice(&7u32.to_le_bytes());
    b.extend_from_slice(&1400u32.to_le_bytes());
    b.extend_from_slice(&3u32.to_le_bytes());
    for w in [0x0a010203u32, 0, 0, 0, 0x0a090807, 0, 0, 0] {
        b.extend_from_slice(&w.to_le_bytes());
    }
    b.extend_from_slice(&50000u16.to_le_bytes());
    b.extend_from_slice(&443u16.to_le_bytes());
    b.push(6);
    b.push(0);
    b.extend_from_slice(&[0, 0]);
    b.extend_from_slice(&2u16.to_le_bytes());
    b.extend_from_slice(&0x0303u16.to_le_bytes());
    assert_eq!(b.len(), EVENT_LEN);
    let ev = KernelEvent::from_bytes(&b, true).unwrap();
    assert_eq!(ev.event_kind(), EventKind::NewFlow);
    assert_eq!((ev.ts_ns, ev.len, ev.cpu), (7, 1400, 3));
    assert_eq!(ev.key.src_ip(), IpAddr::V4([10, 1, 2, 3]));
    assert_eq!(ev.key.dst_ip(), IpAddr::V4([10, 9, 8, 7]));
    assert_eq!((ev.key.sport, ev.key.dport, ev.key.proto), (50000, 443, 6));
    assert_eq!((ev.l7_app, ev.l7_info), (2, 0x0303));
    assert!(KernelEvent::from_bytes(&b[..EVENT_LEN - 1], true).is_none());
}

#[test]
fn control_word() {
    let c = ControlCfg::new(true, true, false, 0x1_0000_0005);
    assert_eq!((c.mode, c.flags, c.block_ttl_ns, c.reserved), (1, 1, 5, 0));
    let c = ControlCfg::new(false, false, true, 9);
    assert_eq!((c.mode, c.flags, c.block_ttl_ns), (0, 2, 9));
}
