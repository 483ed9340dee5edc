use zqfw::audit::{endpoint_text, now_ms, wall_ms, AuditLogger, AuditSink, FlowRef};
use zqfw::addr::IpAddr;
use zqfw::metrics::{render, respond};
use zqfw::pipeline::MetricsState;
use zqfw::protocol::FlowKey;
use zqfw::text::{
    is_white_space, join, push_dec, push_fixed_point, push_hex, push_two_decimals, rounded, trimmed,
};

fn dec(n: u128) -> String {
    let mut t = String::new();
    push_dec(&mut t, n);
    t
}

#[test]
fn numbers_in_text() {
    for n in [0u128, 7, 10, 99, 100, 65535, u64::MAX as u128, u128::MAX] {
        assert_eq!(dec(n), n.to_string());
        let mut t = String::from("x");
        push_hex(&mut t, n);
        assert_eq!(t, format!("x{:x}", n));
    }
}

#[test]
fn rounding_matches_float_display() {
    for n in 0..2000u128 {
        let exact = n as f64 / 8.0;
        assert_eq!(dec(rounded(n, 8)), format!("{:.0}", exact));
        let mut t = String::new();
        push_two_decimals(&mut t, rounded(n * 100, 8));
        assert_eq!(t, format!("{:.2}", exact));
    }
}

#[test]
fn fixed_point_matches_float_display() {
    for n in [0u64, 1, 5, 10, 750, 800, 1000, 1001, 1250, 123_456] {
        let mut t = String::new();
        push_fixed_point(&mut t, n, 1000);
        assert_eq!(t, format!("{}", n as f64 / 1000.0));
    }
}

#[test]
fn joined_text() {
    let parts = |v: &[&str]| v.iter().map(|s| s.to_string()).collect::<Vec<String>>();
    assert_eq!(join(&parts(&[]), ","), "");
    assert_eq!(join(&parts(&["a"]), ","), "a");
    assert_eq!(join(&parts(&["a", "", "b"]), ", "), "a, , b");
}

#[test]
fn white_space_matches_std() {
    for v in 0..0x11_0000u32 {
        if let Some(c) = char::from_u32(v) {
            assert_eq!(is_white_space(c), c.is_whitespace(), "{:x}", v);
        }
    }
    for s in ["", "  ", " a b ", "\u{3000}x\n", "y"] {
        assert_eq!(trimmed(s), s.trim());
    }
}

#[test]
fn clock_readings() {
    assert_eq!(wall_ms(None), 0);
    assert_eq!(wall_ms(Some(1_700_000_000_123)), 1_700_000_000_123);
    assert_eq!(wall_ms(Some((1u128 << 64) + 5)), 5);
    let std_ms = std::time::SystemTime::now()
        .duration_since(std::time::UNIX_EPOCH)
        .unwrap()
        .as_millis() as u64;
    let ours = now_ms();
    assert!(ours >= std_ms && ours < std_ms + 10_000);
}

#[test]
fn endpoints_and_flow_refs() {
    assert_eq!(endpoint_text(&IpAddr::V4([10, 0, 0, 1]), 53), "10.0.0.1:53");
    let mut k = FlowKey::default();
    k.saddr[0] = u32::from_be_bytes([10, 1, 2, 3]);
    k.daddr[0] = u32::from_be_bytes([10, 9, 8, 7]);
    k.sport = 1000;
    k.dport = 22;
    for (proto, name) in [(6u8, "tcp"), (17, "udp"), (1, "icmp"), (99, "other")] {
        k.proto = proto;
        let f = FlowRef::from_key(&k, 3, 4);
        assert_eq!(f.src, "10.1.2.3:1000");
        assert_eq!(f.dst, "10.9.8.7:22");
        assert_eq!((f.proto, f.app, f.packets, f.bytes), (name, "unknown", 3, 4));
    }
    // ICMPv6 carries IPv6 addresses.
    k.proto = 58;
    let f = FlowRef::from_key(&k, 3, 4);
    assert_eq!((f.src.as_str(), f.proto), ("a01:203:::1000", "icmpv6"));
}

#[test]
fn audit_sinks_and_numbers() {
    let mut a = AuditLogger::new("-");
    assert!(matches!(a.sink, AuditSink::Stdout));
    assert_eq!((a.next_seq(), a.next_seq(), a.next_seq()), (0, 1, 2));
    a.seq = u64::MAX;
    assert_eq!((a.next_seq(), a.next_seq()), (u64::MAX, 0));
    match AuditLogger::new("audit.jsonl").sink {
        AuditSink::File(f) => assert_eq!(f, "audit.jsonl"),
        AuditSink::Stdout => panic!("a path is a file"),
    }
}

#[test]
fn metrics_page() {
    let mut m = MetricsState::default();
    m.pass = 263;
    m.drop = 18;
    m.block_hits = 18;
    m.quarantined_ips = 2;
    m.enforce = true;
    let page = render(&m);
    assert!(page.starts_with("# HELP zqfw_packets_total Packets evaluated by the probes.\n"));
    assert!(page.contains("\nzqfw_packets_passed_total 263\nzqfw_packets_dropped_total 18\n"));
    assert!(page.contains("\nzqfw_block_hits_total 18\nzqfw_new_flows_total 0\n"));
    assert!(page.contains("\nzqfw_quarantined_ips 2\nzqfw_decisions_total 0\n"));
    assert!(page.ends_with("# TYPE zqfw_enforce gauge\nzqfw_enforce 1\n"));
    let answer = respond(&m);
    let head = format!(
        "HTTP/1.1 200 OK\r\nContent-Type: text/plain; version=0.0.4\r\nContent-Length: {}\r\nConnection: close\r\n\r\n",
        page.len()
    );
    assert_eq!(answer, format!("{}{}", head, page));
}
