use zqfw::addr::IpAddr;
use zqfw::config::{
    choose_interface, count_digits, humantime, is_exempt, parse_allowlist, resolve_default_interface, AttachMode,
    Cidr, Cli, Config, ConfigError, Span, AUTO_IFACE, IFACE_ENV,
};

fn cli() -> Cli {
    Cli {
        iface: "auto".to_string(),
        mock: true,
        xdp_mode: "default".to_string(),
        monitor: false,
        threshold: 800_000_000_000_000_000,
        quarantine: Span { secs: 60, nanos: 0 },
        reap_interval: Span { secs: 1, nanos: 0 },
        flow_ttl: Span { secs: 10, nanos: 0 },
        block_ip: true,
        hit_events: false,
        audit: "-".to_string(),
        metrics_addr: "127.0.0.1:9790".to_string(),
        pin_dir: None,
        allowlist: Vec::new(),
    }
}

const ROUTES: &str = "Iface\tDestination\tGateway\nlo\t0000007F\t0\nens33\t00000000\t0102A8C0\neth1\t00000000\t0\n";

#[test]
fn auto_iface_is_a_supported_literal() {
    assert_eq!(AUTO_IFACE, "auto");
}

#[test]
fn durations_are_read() {
    assert_eq!(humantime("5m"), Ok(Span { secs: 300, nanos: 0 }));
    assert_eq!(humantime("60s"), Ok(Span { secs: 60, nanos: 0 }));
    assert_eq!(humantime("1s 250ms"), Ok(Span { secs: 1, nanos: 250_000_000 }));
    assert_eq!(humantime("1h 30m"), Ok(Span { secs: 5400, nanos: 0 }));
    assert_eq!(humantime(""), Err("value was empty".to_string()));
    assert_eq!(
        humantime("7"),
        Err("time unit needed, for example 7sec or 7ms".to_string())
    );
    assert_eq!(count_digits("1h 30m, 2\u{0664}5"), 5);
    let s = Span { secs: 2, nanos: 1_500_000 };
    assert_eq!(s.as_millis(), 2001);
    assert_eq!(s.as_nanos(), 2_001_500_000);
}

#[test]
fn default_route_is_found() {
    assert_eq!(resolve_default_interface(ROUTES), Some("ens33".to_string()));
    assert_eq!(resolve_default_interface("Iface\tDestination\nlo\t0000007F\n"), None);
    assert_eq!(resolve_default_interface(""), None);
    // A blank line ends the search.
    assert_eq!(resolve_default_interface("h\n\nens33\t00000000\n"), None);
    // The header is skipped whatever it holds.
    assert_eq!(resolve_default_interface("eth0\t00000000\n"), None);
}

#[test]
fn interface_choice() {
    let some = |s: &str| Some(s.to_string());
    let pick = |iface: &str, mock: bool, env: Option<&str>, routes: Option<&str>| {
        choose_interface(
            iface.to_string(),
            mock,
            env.map(|s| s.to_string()),
            routes.map(|s| s.to_string()),
        )
    };
    assert_eq!(IFACE_ENV, "ZQFW_IFACE");
    assert_eq!(pick("eth7", false, None, None), some("eth7"));
    assert_eq!(pick("eth7", false, Some("ens1"), None), some("ens1"));
    assert_eq!(pick("eth7", false, Some(""), None), some("eth7"));
    assert_eq!(pick("auto", false, None, Some(ROUTES)), some("ens33"));
    assert_eq!(pick("auto", false, Some("auto"), Some(ROUTES)), some("ens33"));
    assert_eq!(pick("auto", false, None, None), None);
    assert_eq!(pick("auto", true, None, None), some("auto"));
}

#[test]
fn allowlist_is_parsed_in_order() {
    let list = vec!["10.0.0.0/24".to_string(), "2001:db8::/128".to_string()];
    let nets = parse_allowlist(&list).unwrap();
    assert_eq!(nets[0], Cidr { addr: IpAddr::V4([10, 0, 0, 0]), prefix_len: 24 });
    assert_eq!(
        nets[1],
        Cidr { addr: IpAddr::V6([0x2001, 0xdb8, 0, 0, 0, 0, 0, 0]), prefix_len: 128 }
    );
    let bad = vec!["10.0.0.0/24".to_string(), "nonsense".to_string(), "x".to_string()];
    let e = parse_allowlist(&bad).unwrap_err();
    assert_eq!(
        e.message(),
        "invalid allowlist CIDR 'nonsense': invalid IP address syntax"
    );
}

#[test]
fn allowlist_coverage() {
    let nets = vec![
        Cidr { addr: IpAddr::V4([192, 168, 1, 77]), prefix_len: 24 },
        Cidr { addr: IpAddr::V4([10, 0, 0, 0]), prefix_len: 8 },
        Cidr { addr: IpAddr::V4([172, 16, 0, 0]), prefix_len: 16 },
        Cidr { addr: IpAddr::V4([203, 0, 113, 5]), prefix_len: 32 },
        Cidr { addr: IpAddr::V6([0xfd00, 0, 0, 0, 0, 0, 0, 0x1200]), prefix_len: 120 },
    ];
    let covered = |o: [u8; 4]| is_exempt(&nets, &IpAddr::V4(o));
    assert!(covered([192, 168, 1, 1]));
    assert!(!covered([192, 168, 2, 1]));
    // Wider than 65,536 addresses: skipped.
    assert!(!nets[1].admitted());
    assert!(!covered([10, 0, 0, 0]));
    assert!(nets[2].admitted());
    assert!(covered([172, 16, 255, 255]));
    assert!(!covered([172, 17, 0, 0]));
    assert!(covered([203, 0, 113, 5]));
    assert!(!covered([203, 0, 113, 4]));
    assert!(is_exempt(&nets, &IpAddr::V6([0xfd00, 0, 0, 0, 0, 0, 0, 0x12ff])));
    assert!(!is_exempt(&nets, &IpAddr::V6([0xfd00, 0, 0, 0, 0, 0, 0, 0x1300])));
    assert!(!is_exempt(&nets, &IpAddr::V6([0xfd00, 0, 0, 0, 0, 0, 1, 0x1200])));
}

#[test]
fn configuration_is_completed() {
    let mut c = cli();
    c.mock = false;
    c.allowlist = vec!["203.0.113.5/32".to_string()];
    let cfg = Config::from_env(c, None, Some(ROUTES.to_string())).unwrap();
    assert_eq!(cfg.cli.iface, "ens33");
    assert_eq!(cfg.block_ttl_ns, 60_000_000_000);
    assert!(cfg.block_ip);
    assert_eq!(cfg.allowlist.len(), 1);
}

#[test]
fn longest_quarantine_saturates() {
    let mut c = cli();
    c.quarantine = Span { secs: u64::MAX, nanos: 0 };
    assert_eq!(Config::from_env(c, None, None).unwrap().block_ttl_ns, u64::MAX);
}

#[test]
fn configuration_errors() {
    let mut c = cli();
    c.mock = false;
    c.allowlist = vec!["bad".to_string()];
    let e = Config::from_env(c.clone(), None, None).unwrap_err();
    assert!(matches!(e, ConfigError::NoDefaultRoute));
    assert_eq!(
        e.message(),
        "no default-route interface found; pass --iface <name> or set ZQFW_IFACE"
    );
    let e = Config::from_env(c, Some("eth0".to_string()), None).unwrap_err();
    assert!(matches!(e, ConfigError::InvalidCidr { .. }));
}

#[test]
fn attach_modes() {
    assert_eq!(AttachMode::from_option("skb"), AttachMode::Skb);
    assert_eq!(AttachMode::from_option("driver"), AttachMode::Driver);
    assert_eq!(AttachMode::from_option("default"), AttachMode::Default);
    assert_eq!(AttachMode::from_option("other"), AttachMode::Default);
}
