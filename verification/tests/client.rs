use packet_browser::client::api::{
    agwpe_failed, agwpe_status, apply_update, cache_page_rows, connect_outcome,
    connection_state_class, consent_info, consent_outcome, disconnect_outcome, modem_outcome,
    modem_target, note_consent, plan_connect, ports_json, transport_state, vara_unreachable,
    ConfigUpdate, ConnectPlan, ConnectRequest, TransportDefaults,
};
use packet_browser::client::browse::{
    answer_failure, answer_page, build_cached_html_response, dispatch_ax25, effective_ttl_secs,
    frame_page, handle_browse, post_target, read_reply, read_text, tell, unquote, visit,
    wants_no_cache, Answer, BrowseStep, Sent, Visit,
};
use packet_browser::client::cache::{remaining_secs, Cache, Hit, Moment, Row};
use packet_browser::client::config::{
    cleaned_hosts, settings_from, CacheSection, CliArgs, ConfigError, ConnectionConfig,
    FileConfig, RawSettings,
};
use packet_browser::client::hosts::{
    is_lan_ip, origin_matches_host, security_guard, strip_port_from_host, HostAllowlist,
};
use packet_browser::client::rewrite::{
    build_proxy_url, edits, handlers, rewrite_html, selector, Edit, RewriteError, Rule,
};
use packet_browser::client::startup::{startup_banner, verbosity, Bound, ClientError, Verbosity};
use packet_browser::client::state::{
    AppState, ConnectionState, DebugLogEntry, Direction, LogLevel, PortInfo,
};
use packet_browser::client::transport::agwpe::AgwpeError;
use packet_browser::client::transport::{TransportKind, VaraBandwidth, VaraMode, VaraParams};
use packet_browser::client::ui::{
    browse_page, cache_page, configuration_page, connect_page, error_page, h, json_for_script,
    render_session_error_page, CachePageRow,
};
use packet_browser::ip::{parse_ip, IpAddr};
use packet_browser::server::requests::page_response;
use packet_browser::shared::compress::CompressionError;
use packet_browser::shared::protocol::{Request, Response, Status};

// Settings

#[test]
fn test_config_default() {
    let config = FileConfig::default();
    assert_eq!(config.agwpe_host, "127.0.0.1");
    assert_eq!(config.agwpe_port, 8000);
    assert_eq!(config.my_callsign, "");
    assert_eq!(config.target_callsign, "");
    assert_eq!(config.bpq_command, "WEB");
}

#[test]
fn test_config_save_load_roundtrip() {
    let config = FileConfig {
        agwpe_host: "192.168.1.100".to_string(),
        agwpe_port: 9000,
        my_callsign: "N0CALL".to_string(),
        target_callsign: "NODE1".to_string(),
        bpq_command: "BROWSE".to_string(),
        skip_bpq_app: false,
        cache: CacheSection::default(),
        connection: ConnectionConfig::default(),
    };

    let saved = config.save();
    let loaded = FileConfig::load("config.ini", Ok(Some(saved))).unwrap();

    assert_eq!(loaded.agwpe_host, "192.168.1.100");
    assert_eq!(loaded.agwpe_port, 9000);
    assert_eq!(loaded.my_callsign, "N0CALL");
    assert_eq!(loaded.target_callsign, "NODE1");
    assert_eq!(loaded.bpq_command, "BROWSE");
}

#[test]
fn test_config_load_missing_file() {
    let config = FileConfig::load("nonexistent.ini", Ok(None)).unwrap();
    assert_eq!(config.agwpe_host, "127.0.0.1");
    assert_eq!(config.agwpe_port, 8000);
}

#[test]
fn test_config_update_target() {
    let mut config = FileConfig::default();
    assert_eq!(config.target_callsign, "");

    config.update_target("NEWNODE");
    assert_eq!(config.target_callsign, "NEWNODE");
}

#[test]
fn test_cli_args_override() {
    let mut config = FileConfig::default();
    config.agwpe_host = "10.0.0.1".to_string();
    config.agwpe_port = 7000;
    let saved = config.save();

    let cli = CliArgs {
        config_path: Some("config.ini".to_string()),
        agwpe_host: Some("192.168.1.1".to_string()),
        agwpe_port: None,
        listen_addr: "127.0.0.1:8080".to_string(),
        bpq_command: Some("WEB".to_string()),
        verbosity: 0,
        allowed_hosts: vec![],
    };

    assert_eq!(cli.settings_path(None, false, true).unwrap(), "config.ini");
    let resolved = cli.resolve_config("config.ini", Ok(Some(saved))).unwrap();
    assert_eq!(resolved.agwpe_host, "192.168.1.1");
    assert_eq!(resolved.agwpe_port, 7000);
}

#[test]
fn cache_defaults_are_applied_when_section_absent() {
    let saved = FileConfig::default().save();
    let loaded = FileConfig::load("config.ini", Ok(Some(saved))).unwrap();
    assert!(loaded.cache.enabled);
    assert_eq!(loaded.cache.max_bytes, 209_715_200);
    assert_eq!(loaded.cache.max_ttl_seconds, 86_400);
    assert!(loaded.cache.dir.is_none());
}

#[test]
fn cache_section_roundtrip() {
    let cfg = FileConfig {
        cache: CacheSection {
            enabled: false,
            max_bytes: 42,
            max_ttl_seconds: 7,
            dir: Some("/tmp/pb-cache".to_string()),
        },
        ..FileConfig::default()
    };
    let loaded = FileConfig::load("config.ini", Ok(Some(cfg.save()))).unwrap();
    assert!(!loaded.cache.enabled);
    assert_eq!(loaded.cache.max_bytes, 42);
    assert_eq!(loaded.cache.max_ttl_seconds, 7);
    assert_eq!(loaded.cache.dir, Some("/tmp/pb-cache".to_string()));
}

#[test]
fn test_connection_config_defaults() {
    let cfg = FileConfig::default();
    assert_eq!(cfg.connection.response_timeout_secs, 30);
    assert!(cfg.connection.auto_reconnect);
}

#[test]
fn test_connection_config_overrides() {
    let text = "[server]\nagwpe_host=127.0.0.1\nagwpe_port=8000\n[session]\nmy_callsign=W1TEST\ntarget_callsign=N0CALL\nbpq_command=WEB\nskip_bpq_app=false\n[connection]\nresponse_timeout_secs=15\nauto_reconnect=false\n";
    let loaded = FileConfig::load("config.ini", Ok(Some(text.to_string()))).unwrap();
    assert_eq!(loaded.connection.response_timeout_secs, 15);
    assert!(!loaded.connection.auto_reconnect);
}

#[test]
fn settings_that_are_no_settings() {
    match FileConfig::load("config.ini", Ok(Some("[server\nx".to_string()))) {
        Err(e) => assert_eq!(
            e.message(),
            "Parse error: couldn't read config.ini: line 1: Found opening bracket for section name but no closing bracket"
        ),
        Ok(_) => panic!("was read"),
    }
    match FileConfig::load("/x", Err("denied".to_string())) {
        Err(e) => assert_eq!(e.message(), "Parse error: couldn't read /x: denied"),
        Ok(_) => panic!("was read"),
    }
    let inner = FileConfig { bpq_command: "A\rB".to_string(), ..FileConfig::default() };
    let loaded = FileConfig::load("config.ini", Ok(Some(inner.save()))).unwrap();
    assert_eq!(loaded.bpq_command, "A\rB");
    let loaded = FileConfig::load("config.ini", Ok(Some("[server]\nagwpe_port=x\n".to_string()))).unwrap();
    assert_eq!(loaded.agwpe_port, 8000);
    assert_eq!(ConfigError::NoConfigDir.message(), "Config directory not found");
    assert_eq!(ConfigError::Io("e".to_string()).message(), "IO error: e");
    let hosts = cleaned_hosts(&vec![" Radio.LAN ".to_string(), " ".to_string()]);
    assert_eq!(hosts, vec!["radio.lan"]);
    let cli = CliArgs {
        config_path: None,
        agwpe_host: None,
        agwpe_port: Some(1),
        listen_addr: String::new(),
        bpq_command: None,
        verbosity: 0,
        allowed_hosts: vec![],
    };
    assert!(matches!(cli.settings_path(None, false, false), Err(ConfigError::NoConfigDir)));
    assert_eq!(cli.settings_path(None, false, true).unwrap(), "/etc/packet-browser/config.ini");
    let user = || Some("s".to_string());
    assert_eq!(cli.settings_path(user(), true, true).unwrap(), "s");
    assert_eq!(cli.settings_path(user(), false, false).unwrap(), "s");
    assert_eq!(
        cli.settings_path(user(), false, true).unwrap(),
        "/etc/packet-browser/config.ini"
    );
    assert_eq!(cli.resolve_config("s", Ok(None)).unwrap().agwpe_port, 1);
}

fn raw_settings() -> RawSettings {
    RawSettings {
        agwpe_host: None,
        agwpe_port: None,
        my_callsign: None,
        target_callsign: None,
        bpq_command: None,
        skip_bpq_app: None,
        cache_enabled: None,
        cache_max_bytes: None,
        cache_max_ttl_seconds: None,
        cache_dir: None,
        response_timeout_secs: None,
        auto_reconnect: None,
    }
}

#[test]
fn values_make_settings() {
    let c = settings_from(raw_settings());
    assert_eq!((c.agwpe_host.as_str(), c.agwpe_port), ("127.0.0.1", 8000));
    assert_eq!((c.my_callsign.as_str(), c.bpq_command.as_str()), ("", "WEB"));
    assert!(!c.skip_bpq_app && c.cache.enabled && c.connection.auto_reconnect);
    let text = |s: &str| Some(s.to_string());
    let c = settings_from(RawSettings {
        agwpe_port: text("65536"),
        skip_bpq_app: text("TRUE"),
        cache_enabled: text("On"),
        cache_max_bytes: text("18446744073709551615"),
        cache_dir: text("  "),
        response_timeout_secs: text("-1"),
        auto_reconnect: text("off"),
        ..raw_settings()
    });
    assert_eq!(c.agwpe_port, 8000);
    assert!(c.skip_bpq_app && c.cache.enabled && !c.connection.auto_reconnect);
    assert_eq!(c.cache.max_bytes, u64::MAX);
    assert!(c.cache.dir.is_none());
    assert_eq!(c.connection.response_timeout_secs, 30);
    assert!(!settings_from(RawSettings { skip_bpq_app: text("yes"), ..raw_settings() }).skip_bpq_app);
}

// The state

#[test]
fn test_connection_state_display() {
    assert_eq!(ConnectionState::Disconnected.to_text(), "Disconnected");
    assert_eq!(ConnectionState::AgwpeConnected.to_text(), "AGWPE Connected");
    assert_eq!(ConnectionState::Connecting.to_text(), "Connecting");
    assert_eq!(ConnectionState::Connected.to_text(), "Connected");
    assert_eq!(ConnectionState::Error("test".to_string()).to_text(), "Error: test");
}

#[test]
fn test_debug_log_entry() {
    let entry = DebugLogEntry::new(LogLevel::Info, "TEST", "test message")
        .with_direction(Direction::Tx)
        .with_details("some details");

    assert_eq!(entry.level, LogLevel::Info);
    assert_eq!(entry.category, "TEST");
    assert_eq!(entry.message, "test message");
    assert_eq!(entry.direction, Some(Direction::Tx));
    assert_eq!(entry.details, Some("some details".to_string()));
}

#[test]
fn test_app_state_ring_buffer() {
    let config = FileConfig::default();
    let mut state = AppState::new(config).with_capacity(3);

    state.add_log(DebugLogEntry::new(LogLevel::Info, "TEST", "msg1"));
    state.add_log(DebugLogEntry::new(LogLevel::Info, "TEST", "msg2"));
    state.add_log(DebugLogEntry::new(LogLevel::Info, "TEST", "msg3"));
    state.add_log(DebugLogEntry::new(LogLevel::Info, "TEST", "msg4"));

    assert_eq!(state.debug_log.len(), 3);
    assert_eq!(state.debug_log[0].message, "msg2");
    assert_eq!(state.debug_log[1].message, "msg3");
    assert_eq!(state.debug_log[2].message, "msg4");
}

#[test]
fn test_app_state_log_filtering() {
    let config = FileConfig::default();
    let mut state = AppState::new(config);

    state.add_log(DebugLogEntry::new(LogLevel::Info, "TEST", "info"));
    state.add_log(DebugLogEntry::new(LogLevel::Debug, "TEST", "debug"));
    state.add_log(DebugLogEntry::new(LogLevel::Trace, "TEST", "trace"));

    let all = state.get_logs(None);
    assert_eq!(all.len(), 3);

    let info_only = state.get_logs(Some(LogLevel::Info));
    assert_eq!(info_only.len(), 1);
    assert_eq!(info_only[0].message, "info");

    let info_and_debug = state.get_logs(Some(LogLevel::Debug));
    assert_eq!(info_and_debug.len(), 2);
}

#[test]
fn test_app_state_ports() {
    let config = FileConfig::default();
    let mut state = AppState::new(config);

    assert!(state.available_ports.is_empty());
    assert!(state.agwpe_port_num.is_none());

    state.set_ports(vec![
        PortInfo { port_num: 0, description: "Port 0".to_string() },
        PortInfo { port_num: 1, description: "Port 1".to_string() },
    ]);

    assert_eq!(state.available_ports.len(), 2);

    state.set_agwpe_port(1);
    assert_eq!(state.agwpe_port_num, Some(1));

    state.clear_ports();
    assert!(state.available_ports.is_empty());
    assert!(state.agwpe_port_num.is_none());
}

#[test]
fn test_shared_state() {
    let config = FileConfig::default();
    let state = std::sync::Arc::new(std::sync::Mutex::new(AppState::new(config)));

    let mut guard = state.lock().unwrap();
    guard.set_connection_state(ConnectionState::Connected);
    drop(guard);

    let guard = state.lock().unwrap();
    assert_eq!(guard.connection_state, ConnectionState::Connected);
}

#[test]
fn changes_are_logged() {
    let mut state = AppState::new(FileConfig::default());
    let entry = state.set_connection_state(ConnectionState::Connected);
    assert_eq!(entry.message, "State changed to: Connected");
    assert_eq!(state.connection_state, ConnectionState::Connected);
    state.set_error("bad");
    assert_eq!(state.connection_state, ConnectionState::Error("bad".to_string()));
    assert_eq!(state.debug_log.len(), 2);
}

// The cache

fn put(c: &mut Cache, url: &str, body: &[u8], age: i32, now: u64) {
    c.insert(url, "e", body, age, now);
}

#[test]
fn insert_then_lookup_roundtrip() {
    let mut c = Cache::open(1_000_000, 600);
    c.insert("https://a", "etag1", &[1, 2, 3], 300, 1000);
    let hit = c.lookup("https://a").unwrap();
    assert_eq!(hit.etag, "etag1");
    assert_eq!(hit.brotli_body, vec![1, 2, 3]);
    assert_eq!(hit.max_age, 300);
}

#[test]
fn negative_max_age_skips_write() {
    let mut c = Cache::open(1_000_000, 600);
    c.insert("https://a", "etag1", &[1, 2, 3], -1, 1000);
    assert!(c.lookup("https://a").is_none());
}

#[test]
fn zero_max_age_is_stored_but_never_fresh() {
    let mut c = Cache::open(1_000_000, 600);
    c.insert("https://a", "etag1", &[1, 2, 3], 0, 1000);
    let hit = c.lookup("https://a").unwrap();
    assert!(!hit.is_fresh(1000));
}

#[test]
fn max_ttl_caps_server_max_age() {
    let mut c = Cache::open(1_000_000, 60);
    c.insert("https://a", "etag1", &[1, 2, 3], 999_999, 1000);
    let hit = c.lookup("https://a").unwrap();
    assert_eq!(hit.max_age, 60);
}

#[test]
fn is_fresh_boundaries() {
    let hit = Hit {
        etag: "e".to_string(),
        brotli_body: vec![],
        fetched_at: 1000,
        max_age: 1,
    };
    assert!(hit.is_fresh(1000));
    assert!(!hit.is_fresh(1000 + 2));
    assert!(!hit.is_fresh(999));
}

#[test]
fn touch_last_used_updates_ordering() {
    let mut c = Cache::open(1_000_000, 600);
    put(&mut c, "https://old", &[0u8; 10], 300, 1000);
    put(&mut c, "https://new", &[0u8; 10], 300, 1001);
    c.touch_last_used("https://old", 1002);
    let entries = c.list();
    assert_eq!(entries[0].url, "https://old");
}

#[test]
fn lru_evicts_least_recently_used_on_overflow() {
    let mut c = Cache::open(30, 600);
    put(&mut c, "https://a", &[0u8; 20], 300, 1000);
    put(&mut c, "https://b", &[0u8; 20], 300, 1001);
    assert!(c.lookup("https://a").is_none(), "oldest should have been evicted");
    assert!(c.lookup("https://b").is_some());
}

#[test]
fn delete_and_clear() {
    let mut c = Cache::open(1_000_000, 600);
    put(&mut c, "https://a", &[1], 300, 1000);
    put(&mut c, "https://b", &[1], 300, 1000);
    c.delete("https://a");
    assert!(c.lookup("https://a").is_none());
    assert!(c.lookup("https://b").is_some());
    c.clear();
    assert!(c.lookup("https://b").is_none());
}

#[test]
fn touch_fresh_bumps_fetched_at() {
    let mut c = Cache::open(1_000_000, 600);
    put(&mut c, "https://a", &[1], 300, 1000);
    let before = c.lookup("https://a").unwrap().fetched_at;
    c.touch_fresh("https://a", 1001);
    let after = c.lookup("https://a").unwrap().fetched_at;
    assert!(after > before);
}

#[test]
fn the_largest_limit_lets_nothing_go() {
    let mut c = Cache::open(u64::MAX, 600);
    put(&mut c, "a", &[0; 20], 1, 10);
    put(&mut c, "b", &[0; 20], 1, 11);
    assert!(c.lookup("a").is_some());
    assert!(c.lookup("b").is_some());
}

#[test]
fn eviction_goes_by_use_and_spares_the_newcomer() {
    let mut c = Cache::open(50, 600);
    put(&mut c, "a", &[0; 20], 1, 10);
    put(&mut c, "b", &[0; 20], 1, 11);
    c.touch_last_used("a", 12);
    put(&mut c, "c", &[0; 20], 1, 13);
    assert!(c.lookup("a").is_some());
    assert!(c.lookup("b").is_none());
    put(&mut c, "big", &[0; 200], 1, 14);
    assert_eq!(c.rows.len(), 1);
    assert!(c.lookup("big").is_some());
    put(&mut c, "big", &[7], 1, 15);
    assert_eq!(c.lookup("big").unwrap().brotli_body, vec![7]);
    assert_eq!(c.cap_bytes(), 50);
    c.restore(Row {
        url: "r".to_string(),
        etag: "x".to_string(),
        brotli_body: vec![1; 100],
        fetched_at: 1,
        last_used: 99,
        max_age: 5,
    });
    assert_eq!(c.list()[0].url, "r");
    assert_eq!(c.list()[0].size, 100);
}

#[test]
fn seconds_that_are_left() {
    let at = |secs, nanos| Moment { secs, nanos };
    assert_eq!(remaining_secs(100, 10, at(100, 0)), 10);
    assert_eq!(remaining_secs(100, 10, at(100, 1)), 9);
    assert_eq!(remaining_secs(100, 10, at(110, 0)), 0);
    assert_eq!(remaining_secs(100, 10, at(110, 1)), 0);
    assert_eq!(remaining_secs(100, 10, at(99, 0)), 0);
}

// Names and addresses

fn loopback_allowlist() -> HostAllowlist {
    HostAllowlist::new(IpAddr::V4([127, 0, 0, 1]), vec![])
}

fn unspecified_allowlist() -> HostAllowlist {
    HostAllowlist::new(IpAddr::V4([0, 0, 0, 0]), vec![])
}

fn specific_lan_allowlist() -> HostAllowlist {
    HostAllowlist::new(IpAddr::V4([192, 168, 1, 10]), vec![])
}

#[test]
fn loopback_hosts_always_allowed() {
    for wl in [loopback_allowlist(), unspecified_allowlist(), specific_lan_allowlist()] {
        assert!(wl.contains_host_header("127.0.0.1"));
        assert!(wl.contains_host_header("127.0.0.1:8080"));
        assert!(wl.contains_host_header("[::1]:8080"));
        assert!(wl.contains_host_header("localhost"));
        assert!(wl.contains_host_header("localhost:8080"));
        assert!(wl.contains_host_header("LocalHost:9"));
    }
}

#[test]
fn arbitrary_hostnames_rejected_by_default() {
    let wl = loopback_allowlist();
    assert!(!wl.contains_host_header("evil.com"));
    assert!(!wl.contains_host_header("evil.com:8080"));
    assert!(!wl.contains_host_header("attacker.example.com"));
}

#[test]
fn extra_hostnames_added_via_constructor() {
    let wl = HostAllowlist::new(
        IpAddr::V4([0, 0, 0, 0]),
        vec!["raspberrypi.local".to_string(), "Radio.LAN".to_string()],
    );
    assert!(wl.contains_host_header("raspberrypi.local:8080"));
    assert!(wl.contains_host_header("RASPBERRYPI.LOCAL:8080"));
    assert!(wl.contains_host_header("radio.lan"));
    assert!(!wl.contains_host_header("evil.com:8080"));
}

#[test]
fn loopback_bind_rejects_lan_ip_hosts() {
    let wl = loopback_allowlist();
    assert!(!wl.contains_host_header("192.168.1.10:8080"));
    assert!(!wl.contains_host_header("10.0.0.5"));
    assert!(!wl.contains_host_header("[fc00::1]:8080"));
}

#[test]
fn unspecified_bind_allows_lan_ip_hosts() {
    let wl = unspecified_allowlist();
    assert!(wl.contains_host_header("192.168.1.10:8080"));
    assert!(wl.contains_host_header("10.0.0.5"));
    assert!(wl.contains_host_header("172.16.0.1:80"));
    assert!(wl.contains_host_header("169.254.10.5"));
    assert!(wl.contains_host_header("[fc00::1]:8080"));
    assert!(wl.contains_host_header("[fe80::1]:8080"));
}

#[test]
fn unspecified_bind_still_rejects_public_ip_hosts() {
    let wl = unspecified_allowlist();
    assert!(!wl.contains_host_header("8.8.8.8:8080"));
    assert!(!wl.contains_host_header("[2606:4700::1]:8080"));
}

#[test]
fn specific_bind_accepts_only_that_ip() {
    let wl = specific_lan_allowlist();
    assert!(wl.contains_host_header("192.168.1.10:8080"));
    assert!(!wl.contains_host_header("192.168.1.11:8080"));
    assert!(wl.contains_host_header("127.0.0.1:8080"));
}

#[test]
fn dns_rebinding_case_rejected() {
    for wl in [loopback_allowlist(), unspecified_allowlist(), specific_lan_allowlist()] {
        assert!(!wl.contains_host_header("evil.com:8080"));
        assert!(!wl.contains_host_header("attacker.local"));
    }
}

#[test]
fn origin_authority_matches_host() {
    assert!(origin_matches_host("http://127.0.0.1:8080", "127.0.0.1:8080"));
    assert!(origin_matches_host("https://raspberrypi.local", "raspberrypi.local"));
    assert!(!origin_matches_host("http://evil.com", "127.0.0.1:8080"));
    assert!(!origin_matches_host("127.0.0.1:8080", "127.0.0.1:8080"));
}

#[test]
fn the_guard_lets_its_own_pages_in() {
    let wl = loopback_allowlist();
    assert!(security_guard(&wl, Some("localhost:1"), false, None));
    assert!(!security_guard(&wl, None, false, None));
    assert!(!security_guard(&wl, Some("evil.com"), false, None));
    assert!(!security_guard(&wl, Some("localhost:1"), true, None));
    assert!(!security_guard(&wl, Some("localhost:1"), true, Some("http://evil.com")));
    assert!(security_guard(&wl, Some("localhost:1"), true, Some("http://localhost:1")));
    assert_eq!(strip_port_from_host("[::1]:80"), "[::1]");
    assert_eq!(strip_port_from_host("[::1]"), "[::1]");
    assert_eq!(strip_port_from_host("[::1"), "[:");
    assert_eq!(strip_port_from_host("a:80"), "a");
    assert_eq!(strip_port_from_host("a"), "a");
    assert!(is_lan_ip(&parse_ip("172.31.0.1").unwrap()));
    assert!(!is_lan_ip(&parse_ip("172.32.0.1").unwrap()));
    assert!(is_lan_ip(&parse_ip("febf::1").unwrap()));
    assert!(!is_lan_ip(&parse_ip("fec0::1").unwrap()));
}

// Rewriting

#[test]
fn test_rewrite_absolute_url() {
    let html = r#"<a href="https://example.com/page">Link</a>"#;
    let result = rewrite_html(html, "https://example.com").unwrap();
    assert!(result.contains("/browse?url="));
    assert!(result.contains("example.com"));
}

#[test]
fn test_rewrite_relative_url() {
    let html = r#"<a href="/other/page">Link</a>"#;
    let result = rewrite_html(html, "https://example.com/base").unwrap();
    assert!(result.contains("/browse?url="));
    assert!(result.contains("example.com%2Fother%2Fpage"));
}

#[test]
fn test_strip_javascript_url() {
    let html = r#"<a href="javascript:alert(1)">Link</a>"#;
    let result = rewrite_html(html, "https://example.com").unwrap();
    assert!(!result.contains("javascript:"));
}

#[test]
fn test_strip_mailto_url() {
    let html = r#"<a href="mailto:test@example.com">Email</a>"#;
    let result = rewrite_html(html, "https://example.com").unwrap();
    assert!(!result.contains("mailto:"));
}

#[test]
fn test_preserve_fragment() {
    let html = r##"<a href="#section">Link</a>"##;
    let result = rewrite_html(html, "https://example.com").unwrap();
    assert!(result.contains("#section"));
}

#[test]
fn test_rewrite_form_action() {
    let html = r#"<form action="/search"><input name="q"></form>"#;
    let result = rewrite_html(html, "https://example.com").unwrap();
    assert!(result.contains("/browse?url="));
    assert!(result.contains("method=\"POST\""));
}

#[test]
fn test_strip_scripts() {
    let html = r#"<script>alert(1)</script><p>content</p>"#;
    let result = rewrite_html(html, "https://example.com").unwrap();
    assert!(!result.contains("<script>"));
    assert!(result.contains("<p>content</p>"));
}

#[test]
fn test_strip_stylesheet_links() {
    let html = r#"<link rel="stylesheet" href="style.css"><p>content</p>"#;
    let result = rewrite_html(html, "https://example.com").unwrap();
    assert!(!result.contains("stylesheet"));
    assert!(result.contains("<p>content</p>"));
}

#[test]
fn test_resolve_relative_path() {
    let html = r#"<a href="../page">Link</a>"#;
    let result = rewrite_html(html, "https://example.com/dir/subdir/").unwrap();
    assert!(result.contains("/browse?url="));
    assert!(result.contains("example.com%2Fdir%2Fpage"));
}

#[test]
fn test_strip_iframe_and_object() {
    let html = r#"<iframe src="https://evil"></iframe><object data="x"></object><p>ok</p>"#;
    let result = rewrite_html(html, "https://example.com").unwrap();
    assert!(!result.contains("<iframe"));
    assert!(!result.contains("<object"));
    assert!(result.contains("<p>ok</p>"));
}

#[test]
fn test_strip_event_handlers() {
    let html = r#"<p onclick="alert(1)" onerror="bad()">hi</p>"#;
    let result = rewrite_html(html, "https://example.com").unwrap();
    assert!(!result.contains("onclick"));
    assert!(!result.contains("onerror"));
    assert!(result.contains("hi"));
}

#[test]
fn test_preserve_inline_style_and_style_attr() {
    let html = r#"<style>body{color:red}</style><p style="color:blue">x</p>"#;
    let result = rewrite_html(html, "https://example.com").unwrap();
    assert!(result.contains("<style>"));
    assert!(result.contains("style=\"color:blue\""));
    assert!(result.contains("x"));
}

#[test]
fn test_strip_meta_refresh() {
    let html = r#"<meta http-equiv="refresh" content="0;url=https://evil"><p>x</p>"#;
    let result = rewrite_html(html, "https://example.com").unwrap();
    assert!(!result.to_lowercase().contains("refresh"));
    assert!(result.contains("<p>x</p>"));
}

#[test]
fn test_strip_javascript_src() {
    let html = r#"<img src="javascript:alert(1)" alt="x"><p>ok</p>"#;
    let result = rewrite_html(html, "https://example.com").unwrap();
    assert!(!result.to_lowercase().contains("javascript:"));
    assert!(result.contains("<p>ok</p>"));
}

#[test]
fn rewritten_pages_are_exact() {
    let html = r##"<a href=" x y?a=b&amp;c ">1</a><a href="tel:1">2</a><form action="data:x"><p>gone</p></form><form action="f" method="GET"></form><meta http-equiv="Content-Type" content="x"><p ONCLICK="z" id="k">t</p>"##;
    let result = rewrite_html(html, "https://example.com/d/").unwrap();
    assert_eq!(
        result,
        r##"<a href="/browse?url=https%3A%2F%2Fexample.com%2Fd%2Fx%2520y%3Fa%3Db%26amp%3Bc">1</a><a href="#">2</a><form action="/browse?url=https%3A%2F%2Fexample.com%2Fd%2Ff" method="GET"></form><meta http-equiv="Content-Type" content="x"><p id="k">t</p>"##
    );
}

#[test]
fn a_page_of_no_url_is_not_rewritten() {
    match rewrite_html("<p>", "no url") {
        Err(e) => {
            assert!(matches!(e, RewriteError::InvalidUrl(_)));
            assert_eq!(e.message(), "Invalid base URL: relative URL without a base");
        }
        Ok(s) => panic!("{}", s),
    }
    assert_eq!(RewriteError::RewriteFailed("x".to_string()).message(), "Rewrite failed: x");
}

#[test]
fn links_lead_to_the_client() {
    let base = "https://example.com/a/b";
    assert_eq!(
        build_proxy_url(" c d ", base).as_deref(),
        Some("/browse?url=https%3A%2F%2Fexample.com%2Fa%2Fc%2520d")
    );
    assert_eq!(build_proxy_url(" #x ", base).as_deref(), Some("#x"));
    for nowhere in ["", "  ", "javascript:x", "data:x", "mailto:x", "tel:x", "https://["] {
        assert_eq!(build_proxy_url(nowhere, base), None, "{}", nowhere);
    }
}

fn attrs(pairs: &[(&str, &str)]) -> Vec<(String, String)> {
    pairs.iter().map(|(n, v)| (n.to_string(), v.to_string())).collect()
}

#[test]
fn rules_decide_by_attributes() {
    let base = "https://e/";
    match edits(Rule::Link, &attrs(&[("href", "javascript:1")]), base).as_slice() {
        [Edit::Put(n, v)] => assert_eq!((n.as_str(), v.as_str()), ("href", "#")),
        other => panic!("{:?}", other),
    }
    match edits(Rule::Form, &attrs(&[("action", "/x")]), base).as_slice() {
        [Edit::Put(_, a), Edit::Put(m, p)] => {
            assert_eq!(a, "/browse?url=https%3A%2F%2Fe%2Fx");
            assert_eq!((m.as_str(), p.as_str()), ("method", "POST"));
        }
        other => panic!("{:?}", other),
    }
    assert!(matches!(
        edits(Rule::Form, &attrs(&[("action", "")]), base).as_slice(),
        [Edit::Remove]
    ));
    assert!(matches!(edits(Rule::Active, &attrs(&[]), base).as_slice(), [Edit::Remove]));
    assert!(matches!(
        edits(Rule::Meta, &attrs(&[("http-equiv", "ReFresh")]), base).as_slice(),
        [Edit::Remove]
    ));
    assert!(edits(Rule::Meta, &attrs(&[("http-equiv", "x")]), base).is_empty());
    let all = attrs(&[("onload", ""), ("src", " JavaScript:x"), ("href", "y"), ("id", "on")]);
    match edits(Rule::Any, &all, base).as_slice() {
        [Edit::Drop(a), Edit::Drop(b)] => assert_eq!((a.as_str(), b.as_str()), ("onload", "src")),
        other => panic!("{:?}", other),
    }
    assert_eq!(selector(Rule::Any), "*");
    let pairs = handlers();
    assert_eq!(pairs.len(), 5);
    assert_eq!(pairs[0].0, selector(Rule::Link));
    assert_eq!(pairs[4].0, "*");
    assert!(matches!(pairs[4].1, Rule::Any));
}

// Pages

#[test]
fn test_session_error_page_shows_message_and_link() {
    let html = render_session_error_page("test message", true);
    assert!(html.contains("test message"));
    assert!(html.contains("href=\"/connect\""));

    let html_no_link = render_session_error_page("no link message", false);
    assert!(html_no_link.contains("no link message"));
    assert!(!html_no_link.contains("href=\"/connect\""));
}

#[test]
fn test_session_error_page_escapes_html() {
    let html = render_session_error_page("bad <script>alert(1)</script> input", false);
    assert!(!html.contains("<script>"));
    assert!(html.contains("&lt;script&gt;"));
}

#[test]
fn texts_are_escaped() {
    assert_eq!(h("a&<>\"'é"), "a&amp;&lt;&gt;&quot;&#39;é");
    assert_eq!(
        json_for_script("</&\u{2028}\u{2029}>x"),
        "\\u003c/\\u0026\\u2028\\u2029\\u003ex"
    );
}

#[test]
fn pages_hold_what_they_are_given() {
    let page = connect_page("W1\"A", "N<0", "Connected", "status-connected", "[\"<\"]");
    assert!(page.contains("value=\"W1&quot;A\""));
    assert!(page.contains("value=\"N&lt;0\""));
    assert!(page.contains("class=\"status-badge status-connected\">Connected</span>"));
    assert!(page.contains("let ports = [\"\\u003c\"];"));
    assert!(page.contains("updateUI('Connected');"));
    assert!(page.contains("function initPorts() {"));
    assert!(page.ends_with("</html>"));

    let page = configuration_page("h<", 8001, "A", "B", "C", true);
    assert!(page.contains("value=\"h&lt;\""));
    assert!(page.contains("value=\"8001\""));
    assert!(page.contains("id=\"skip-bpq-app\" checked onchange"));
    let page = configuration_page("h", 1, "A", "B", "C", false);
    assert!(page.contains("id=\"skip-bpq-app\"  onchange"));

    let page = error_page("<b>");
    assert!(page.contains("<p class=\"msg msg-error\">&lt;b&gt;</p>"));

    let page = browse_page("<i>x</i>", "https://e/?a&b");
    assert!(page.contains("<i>x</i>"));
    assert!(page.contains("value=\"https://e/?a&amp;b\""));

    let rows = vec![CachePageRow {
        url: "https://<".to_string(),
        size_bytes: 12,
        fetched_at_iso: "F".to_string(),
        last_used_iso: "L".to_string(),
        ttl_remaining_secs: -3,
        etag: "E".to_string(),
    }];
    let page = cache_page(&rows, 12, 100);
    assert!(page.contains("<p>1 entries — 12 / 100 bytes used.</p>"));
    assert!(page.contains("value=\"https://&lt;\""));
    assert!(page.contains("<td>-3s</td>"));
    assert!(page.contains("<td>F</td>"));
}

// Browsing

const URL: &str = "https://example.com/";

fn now() -> Moment {
    Moment { secs: 5000, nanos: 0 }
}

#[test]
fn build_cached_html_response_sets_etag_and_cache_control() {
    match build_cached_html_response("<p>hi</p>".to_string(), "aBcDeFgHiJkLmNoP", 1800) {
        Answer::Kept { body, cache_control, etag } => {
            assert_eq!(body, "<p>hi</p>");
            assert_eq!(etag, "\"aBcDeFgHiJkLmNoP\"");
            assert_eq!(cache_control, "private, max-age=1800");
        }
        other => panic!("{:?}", other),
    }
}

#[test]
fn effective_ttl_clamps_to_config_cap() {
    assert_eq!(effective_ttl_secs(600, 300), 300);
    assert_eq!(effective_ttl_secs(60, 300), 60);
    assert_eq!(effective_ttl_secs(0, 300), 0);
    assert_eq!(effective_ttl_secs(-1, 300), 0);
}

fn page_wire(html: &str, age: i32) -> Vec<u8> {
    page_response(html, None, age, 11).encode()
}

fn browse(cache: &mut Option<Cache>, etag: Option<&str>, nocache: bool, at: Moment) -> BrowseStep {
    handle_browse(true, URL, None, nocache, etag, cache, at)
}

#[test]
fn a_page_is_asked_for_kept_and_shown_again() {
    let mut cache = Some(Cache::open(1_000_000, 600));
    let sent = match browse(&mut cache, None, false, now()) {
        BrowseStep::Send { request, sent } => {
            assert_eq!(request, Request::Get { url: URL.to_string(), if_none_match: None });
            sent
        }
        other => panic!("{:?}", other),
    };
    let wire = page_wire("<p>hello</p>", 100);
    let etag = match dispatch_ax25(Ok(wire), URL, &sent, &mut cache, 600, now()) {
        Answer::Kept { body, cache_control, etag } => {
            assert!(body.contains("<p>hello</p>"));
            assert_eq!(cache_control, "private, max-age=100");
            etag
        }
        other => panic!("{:?}", other),
    };
    let later = Moment { secs: 5040, nanos: 0 };
    match browse(&mut cache, None, false, later) {
        BrowseStep::Reply(Answer::Kept { body, cache_control, .. }) => {
            assert!(body.contains("<p>hello</p>"));
            assert_eq!(cache_control, "private, max-age=60");
        }
        other => panic!("{:?}", other),
    }
    match browse(&mut cache, Some(&unquote(&etag)), false, later) {
        BrowseStep::Reply(Answer::NotModified { etag: e }) => assert_eq!(e, etag),
        other => panic!("{:?}", other),
    }
    assert!(matches!(browse(&mut cache, None, true, later), BrowseStep::Send { .. }));

    let stale = Moment { secs: 5100, nanos: 0 };
    let sent = match browse(&mut cache, None, false, stale) {
        BrowseStep::Send { request, sent } => {
            assert_eq!(
                request,
                Request::Get { url: URL.to_string(), if_none_match: Some(unquote(&etag)) }
            );
            sent
        }
        other => panic!("{:?}", other),
    };
    let confirm = Response {
        status: Status::NotModified,
        etag: unquote(&etag),
        max_age: 100,
        payload: vec![],
    }
    .encode();
    match dispatch_ax25(Ok(confirm), URL, &sent, &mut cache, 600, stale) {
        Answer::Kept { body, cache_control, .. } => {
            assert!(body.contains("<p>hello</p>"));
            assert_eq!(cache_control, "private, max-age=100");
        }
        other => panic!("{:?}", other),
    }
}

fn page_of(answer: Answer) -> String {
    match answer {
        Answer::Page(body) => body,
        other => panic!("{:?}", other),
    }
}

fn dispatched(data: &[u8]) -> String {
    page_of(dispatch_ax25(
        Ok(data.to_vec()),
        URL,
        &Sent::Asked { etag: None },
        &mut None,
        600,
        now(),
    ))
}

#[test]
fn what_comes_back_wrong_is_told() {
    assert!(dispatched(b"noise").contains("Incomplete response header"));
    assert!(dispatched(b"RESPz 1\n").contains("Invalid response header: Invalid response format"));
    assert!(dispatched(b"RESP0 8 - 0\nabc").contains("Incomplete response payload"));
    assert!(dispatched(b"RESP0 4 - 0\n####\n")
        .contains("Base64 decode failed: Invalid response format"));
    assert!(dispatched(b"RESP0 4 - 0\nYWJj\n").contains("Decompression failed: Decompression failed"));
    assert!(dispatched(b"RESP3 0 - 0\n\n")
        .contains("Server sent NotModified but no cache entry is available"));
    let refusal = packet_browser::server::requests::status_response(Status::Blocked, "no <way>");
    assert!(dispatched(&refusal.encode()).contains("no &lt;way&gt;"));
    assert!(read_reply(b"").is_err());

    let page = page_of(answer_failure(&AgwpeError::SessionDied { reason: "r".to_string() }));
    assert!(page.contains("Session lost: r. Please reconnect."));
    let page = page_of(answer_failure(&AgwpeError::NeedsReconsent));
    assert!(page.contains("disclaimer text changed"));
    let page = page_of(answer_failure(&AgwpeError::DisconnectedByOperator));
    assert!(page.contains("Request cancelled by operator disconnect."));
    let page = page_of(answer_failure(&AgwpeError::Timeout));
    assert!(page.contains("Request failed: Timeout"));
}

#[test]
fn each_stage_of_a_page_tells_its_errors() {
    let failed = || Err(CompressionError::DecompressFailed("x".to_string()));
    assert_eq!(
        read_text(failed(), "bad").unwrap_err(),
        "Decompression failed: Decompression failed: x"
    );
    assert_eq!(read_text(Ok(vec![0xff]), "bad").unwrap_err(), "bad");
    assert_eq!(read_text(Ok(b"ok".to_vec()), "bad").unwrap(), "ok");
    let rewritten = Err(RewriteError::RewriteFailed("y".to_string()));
    assert_eq!(
        frame_page(rewritten, URL).unwrap_err(),
        "Failed to rewrite HTML: Rewrite failed: y"
    );
    let page = frame_page(Ok("<i>z</i>".to_string()), URL).unwrap();
    assert_eq!(page, browse_page("<i>z</i>", URL));
    match answer_page(Ok("b".to_string()), "e", 5) {
        Answer::Kept { body, cache_control, etag } => {
            assert_eq!((body.as_str(), etag.as_str()), ("b", "\"e\""));
            assert_eq!(cache_control, "private, max-age=5");
        }
        other => panic!("{:?}", other),
    }
    assert_eq!(page_of(answer_page(Err("m".to_string()), "e", 5)), error_page("m"));
    assert_eq!(page_of(tell(Ok(b"no".to_vec()))), error_page("no"));
    assert_eq!(page_of(tell(Ok(vec![0xff]))), error_page("Invalid UTF-8"));
}

#[test]
fn what_may_not_be_kept_is_not() {
    let mut cache = Some(Cache::open(1_000_000, 600));
    let asked = Sent::Asked { etag: None };
    dispatch_ax25(Ok(page_wire("x", -1)), URL, &asked, &mut cache, 600, now());
    assert!(cache.as_ref().unwrap().rows.is_empty());
    dispatch_ax25(Ok(page_wire("x", 9)), URL, &Sent::Posted, &mut cache, 600, now());
    assert!(cache.as_ref().unwrap().rows.is_empty());
    dispatch_ax25(Ok(page_wire("x", 9)), URL, &asked, &mut cache, 600, now());
    assert_eq!(cache.as_ref().unwrap().rows.len(), 1);
}

#[test]
fn requests_of_a_browser() {
    match handle_browse(false, URL, None, false, None, &mut None, now()) {
        BrowseStep::Reply(Answer::Redirect(to)) => assert_eq!(to, "/connect"),
        other => panic!("{:?}", other),
    }
    match handle_browse(true, URL, Some(b"a=b".to_vec()), true, None, &mut None, now()) {
        BrowseStep::Send { request, sent } => {
            assert_eq!(request, Request::Post { url: URL.to_string(), body: b"a=b".to_vec() });
            assert!(matches!(sent, Sent::Posted));
        }
        other => panic!("{:?}", other),
    }
    assert!(matches!(visit(Some("u".to_string()), false), Visit::Go(_)));
    assert!(matches!(visit(Some("".to_string()), false), Visit::Redirect(_)));
    assert!(matches!(visit(None, true), Visit::Blank(_)));
    assert!(matches!(post_target(None), Visit::Redirect(_)));
    assert!(matches!(post_target(Some("u".to_string())), Visit::Go(_)));
    assert!(wants_no_cache(Some("1")));
    assert!(!wants_no_cache(Some("yes")));
    assert!(!wants_no_cache(None));
    assert_eq!(unquote("\"\"ab\"c\""), "ab\"c");
    assert_eq!(unquote("\""), "");
}

// What the pages ask for

fn defaults() -> TransportDefaults {
    TransportDefaults {
        kind: TransportKind::Ax25,
        vara: VaraParams {
            cmd_host: "127.0.0.1".to_string(),
            cmd_port: 8300,
            data_host: "127.0.0.1".to_string(),
            data_port: 8301,
            mode: VaraMode::Fm,
            bandwidth: VaraBandwidth::VWide,
        },
    }
}

fn connect_request(target: &str, transport: Option<&str>) -> ConnectRequest {
    ConnectRequest {
        target_callsign: target.to_string(),
        port_num: 3,
        transport: transport.map(|s| s.to_string()),
        vara_cmd_host: Some("h".to_string()),
        vara_cmd_port: None,
        vara_data_host: None,
        vara_data_port: Some(9),
        vara_mode: Some("hf".to_string()),
        vara_bandwidth: Some("bw500".to_string()),
    }
}

fn bare_request(transport: Option<&str>) -> ConnectRequest {
    ConnectRequest {
        target_callsign: "N0CALL-8".to_string(),
        port_num: 0,
        transport: transport.map(|s| s.to_string()),
        vara_cmd_host: None,
        vara_cmd_port: None,
        vara_data_host: None,
        vara_data_port: None,
        vara_mode: None,
        vara_bandwidth: None,
    }
}

#[test]
fn post_api_connect_vara_fm_reaches_vara_path() {
    let request = ConnectRequest {
        vara_cmd_host: Some("127.0.0.1".to_string()),
        vara_cmd_port: Some(19999),
        vara_data_host: Some("127.0.0.1".to_string()),
        vara_data_port: Some(20000),
        ..bare_request(Some("vara_fm"))
    };
    match plan_connect(&request, &defaults()) {
        Ok(ConnectPlan::Vara { target_callsign, port_num, vara }) => {
            assert_eq!((target_callsign.as_str(), port_num), ("N0CALL-8", 0));
            assert_eq!((vara.cmd_host.as_str(), vara.cmd_port), ("127.0.0.1", 19999));
            assert_eq!((vara.data_host.as_str(), vara.data_port), ("127.0.0.1", 20000));
        }
        other => panic!("{:?}", other),
    }
    let error = vara_unreachable(&AgwpeError::Timeout).error.unwrap();
    assert!(error.to_lowercase().contains("vara"));
}

#[test]
fn post_api_connect_ax25_does_not_mention_vara() {
    match plan_connect(&bare_request(None), &defaults()) {
        Ok(ConnectPlan::Ax25 { target_callsign, port_num }) => {
            assert_eq!((target_callsign.as_str(), port_num), ("N0CALL-8", 0))
        }
        other => panic!("{:?}", other),
    }
    let failed = connect_outcome(Err(AgwpeError::NotConnected), &ConnectionState::Disconnected);
    assert!(!failed.error.unwrap().to_lowercase().contains("vara"));
}

#[test]
fn post_api_connect_unknown_transport_returns_error() {
    let error = plan_connect(&bare_request(Some("pigeon")), &defaults()).unwrap_err();
    assert!(error.contains("pigeon") || error.to_lowercase().contains("unknown"));
    assert_eq!(error, "Unknown transport: unknown transport: pigeon");
}

#[test]
fn a_request_to_connect_is_planned() {
    match plan_connect(&connect_request("N0CALL-7", Some("vara_fm")), &defaults()) {
        Ok(ConnectPlan::Vara { target_callsign, port_num, vara }) => {
            assert_eq!(target_callsign, "N0CALL-7");
            assert_eq!(port_num, 3);
            assert_eq!((vara.cmd_host.as_str(), vara.cmd_port), ("h", 8300));
            assert_eq!((vara.data_host.as_str(), vara.data_port), ("127.0.0.1", 9));
            assert_eq!(vara.mode, VaraMode::Hf);
            assert_eq!(vara.bandwidth, VaraBandwidth::Bw500);
        }
        other => panic!("{:?}", other),
    }
    let e = AgwpeError::Timeout;
    assert_eq!(vara_unreachable(&e).error.as_deref(), Some("VARA modem connect failed: Timeout"));
    assert!(matches!(
        plan_connect(&connect_request("N0CALL-7", Some("ax25")), &defaults()),
        Ok(ConnectPlan::Ax25 { .. })
    ));
    let e = plan_connect(&connect_request("NOPE", Some("smoke")), &defaults()).unwrap_err();
    assert_eq!(e, "Invalid target callsign format");
}

#[test]
fn pages_are_told_how_it_went() {
    let mut state = AppState::new(FileConfig::default());
    state.set_ports(vec![PortInfo { port_num: 1, description: "p\"".to_string() }]);
    state.set_connection_state(ConnectionState::AgwpeConnected);
    let s = agwpe_status(&state);
    assert!(s.ok && s.error.is_none());
    assert_eq!(s.state, "AGWPE Connected");
    assert_eq!(s.ports.unwrap()[0].description, "p\"");
    let s = agwpe_failed("e");
    assert!(!s.ok && s.ports.is_none());
    assert_eq!((s.state.as_str(), s.error.as_deref()), ("Error", Some("e")));
    assert_eq!(
        modem_target(&state.config).unwrap_err().error.as_deref(),
        Some("My callsign not configured")
    );
    state.config.my_callsign = "W1TEST".to_string();
    let (host, port, call) = modem_target(&state.config).unwrap();
    assert_eq!((host.as_str(), port, call.as_str()), ("127.0.0.1", 8000, "W1TEST"));
    let s = modem_outcome(Ok(()), Err(AgwpeError::Timeout), &state);
    assert_eq!(s.error.as_deref(), Some("Connected but port query failed: Timeout"));
    let s = modem_outcome(Err(AgwpeError::Timeout), Ok(()), &state);
    assert_eq!(s.error.as_deref(), Some("Timeout"));
    assert!(modem_outcome(Ok(()), Ok(()), &state).ok);

    assert_eq!(connection_state_class(&state.connection_state), "status-agwpe-connected");
    assert_eq!(
        ports_json(&state.available_ports),
        "[{\"port_num\":1,\"description\":\"p\\\"\"}]"
    );
    assert_eq!(ports_json(&vec![]), "[]");
    state.set_ports(vec![
        PortInfo { port_num: 0, description: "a".to_string() },
        PortInfo { port_num: 255, description: "b".to_string() },
    ]);
    assert_eq!(
        ports_json(&state.available_ports),
        "[{\"port_num\":0,\"description\":\"a\"},{\"port_num\":255,\"description\":\"b\"}]"
    );

    let r = connect_outcome(Ok(()), &ConnectionState::Connected);
    assert!(r.ok && r.error.is_none());
    assert_eq!(r.state.as_deref(), Some("Connected"));
    let r = connect_outcome(Err(AgwpeError::NotConnected), &ConnectionState::Connected);
    assert_eq!(r.error.as_deref(), Some("Not connected"));
    state.record_agreed_disclaimer("d");
    let r = disconnect_outcome(Err(AgwpeError::Timeout), &mut state);
    assert!(!r.ok);
    assert!(state.last_agreed_disclaimer.is_some());
    let r = disconnect_outcome(Ok(()), &mut state);
    assert_eq!(r.state.as_deref(), Some("Disconnected"));
    assert!(state.last_agreed_disclaimer.is_none());
}

#[test]
fn pages_are_told_of_the_modems() {
    let told = transport_state(&FileConfig::default(), &defaults());
    assert_eq!((told.agwpe_host.as_str(), told.agwpe_port), ("127.0.0.1", 8000));
    assert_eq!(told.transport, "ax25");
    assert_eq!((told.vara_cmd_host.as_str(), told.vara_cmd_port), ("127.0.0.1", 8300));
    assert_eq!((told.vara_data_host.as_str(), told.vara_data_port), ("127.0.0.1", 8301));
    assert_eq!((told.vara_mode.as_str(), told.vara_bandwidth.as_str()), ("fm", "vwide"));
}

#[test]
fn consent_is_noted() {
    let mut state = AppState::new(FileConfig::default());
    assert!(!consent_info(&state.connection_state).awaiting);
    state.set_connection_state(ConnectionState::AwaitingConsent { disclaimer: "d".to_string() });
    let info = consent_info(&state.connection_state);
    assert!(info.awaiting);
    assert_eq!(info.disclaimer.as_deref(), Some("d"));
    note_consent(&mut state, true, false);
    note_consent(&mut state, false, true);
    assert!(state.last_agreed_disclaimer.is_none());
    note_consent(&mut state, true, true);
    assert_eq!(state.last_agreed_disclaimer.as_deref(), Some("d"));
    assert!(consent_outcome(true, true).ok);
    assert_eq!(
        consent_outcome(false, false).error.as_deref(),
        Some("No consent prompt is pending")
    );
    assert_eq!(
        consent_outcome(true, false).error.as_deref(),
        Some("Handshake no longer awaiting consent")
    );
}

#[test]
fn settings_change_where_a_page_says_so() {
    let mut config = FileConfig::default();
    apply_update(
        &mut config,
        ConfigUpdate {
            agwpe_host: None,
            agwpe_port: Some(1),
            my_callsign: Some("A".to_string()),
            target_callsign: None,
            bpq_command: None,
            skip_bpq_app: Some(true),
        },
    );
    assert_eq!((config.agwpe_host.as_str(), config.agwpe_port), ("127.0.0.1", 1));
    assert_eq!((config.my_callsign.as_str(), config.bpq_command.as_str()), ("A", "WEB"));
    assert!(config.skip_bpq_app);
}

#[test]
fn kept_pages_are_listed_with_their_dates() {
    let mut c = Cache::open(1000, 600);
    put(&mut c, "a", &[0; 3], 60, 0);
    put(&mut c, "b", &[0; 4], 60, 86_400);
    let (rows, total) = cache_page_rows(&c, Moment { secs: 86_410, nanos: 5 });
    assert_eq!(total, 7);
    assert_eq!(rows[0].url, "b");
    assert_eq!(rows[0].fetched_at_iso, "1970-01-02T00:00:00Z");
    assert_eq!(rows[0].ttl_remaining_secs, 49);
    assert_eq!(rows[1].last_used_iso, "1970-01-01T00:00:00Z");
    assert_eq!(rows[1].ttl_remaining_secs, 0);
}

#[test]
fn starting() {
    assert_eq!(verbosity(0), Verbosity::Warn);
    assert_eq!(verbosity(1), Verbosity::Info);
    assert_eq!(verbosity(2), Verbosity::Debug);
    assert_eq!(verbosity(9), Verbosity::Trace);
    let e = ClientError::Agwpe(AgwpeError::Timeout);
    assert_eq!(e.message(), "AGWPE error: Timeout");
    let e = ClientError::Config(ConfigError::NoConfigDir);
    assert_eq!(e.message(), "Configuration error: Config directory not found");
    assert_eq!(ClientError::Io("x".to_string()).message(), "IO error: x");

    let bar = "=".repeat(60);
    let none = startup_banner("1.2", "addr", &None);
    assert_eq!(
        none,
        format!("\n{}\n  Packet Browser Client v1.2\n\n  Open http://addr in your browser\n{}\n\n", bar, bar)
    );
    let bound = Bound { ip: IpAddr::V4([192, 168, 0, 2]), shown: "192.168.0.2:8080".to_string() };
    let text = startup_banner("1.2", "addr", &Some(bound));
    assert!(text.contains("Open http://192.168.0.2:8080 in"));
    assert!(text.contains("  WARNING: bound to 192.168.0.2 (non-loopback address).\n"));
    let bound = Bound { ip: IpAddr::V4([127, 0, 0, 1]), shown: "x".to_string() };
    assert!(!startup_banner("1.2", "addr", &Some(bound)).contains("WARNING"));
}
