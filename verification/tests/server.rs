use packet_browser::ip::{parse_ip, IpAddr};
use packet_browser::server::admission::{
    Admission, Connections, MAX_CONNECTIONS, MAX_CONNECTIONS_PER_IP,
};
use packet_browser::server::blocklist::{
    check_announced, init_domain_blocklist, is_domain_blocked, read_hosts_entry, update_blocklist,
    MAX_BLOCKLIST_BYTES,
};
use packet_browser::server::browser::{
    await_driver, browser_paths, capabilities_json, current_proxy_port, extraction_error,
    navigation_error, profile_prefix, required_proxy_port, scrubbed_page, set_proxy_port,
    BrowserError, LaunchStep,
};
use packet_browser::server::config::Config;
use packet_browser::server::filter::{
    judge_resolved, pin_resolved, resolve_and_pin, validate_url, Pin, UrlCheck, UrlError,
};
use packet_browser::server::lines::{
    Arrival, BodyReader, BodyStep, LineReader, LineStep, ReadError, MAX_LINE_LENGTH,
};
use packet_browser::server::logger::{LogEntry, LogStatus, Logger};
use packet_browser::server::login::{classify_preauth_line, Login, LoginStep, PreAuthLine};
use packet_browser::server::origin_cc::{
    leaves_it_to_seconds, parse_cache_control, probe_origin_cc, CcDefaults, OriginDirectives,
    ProbeReply, ProbeStep,
};
use packet_browser::server::proxy::{
    error_response as proxy_error_response, forward_http, handle_connect, is_hop_by_hop,
    origin_path, remove_hop_by_hop, ForwardError,
};
use packet_browser::server::requests::{
    after_fetch, compressed_page, finish_request, holds_page, message_response, next_step,
    page_response, read_body_length, read_head, refuse_url, status_response, FetchEvent,
    FetchStep, ReadOutcome, RequestError, RequestHead, ServeStep,
};
use packet_browser::server::session::{
    idle_too_long, validate_callsign, validate_callsign_with_allowlist, Session, SessionError,
};
use packet_browser::shared::compress::{brotli_decompress, CompressionError};
use packet_browser::shared::protocol::{sanitized_html_etag, Request, Response, Status};

fn vars(pairs: &[(&str, &str)]) -> Vec<(String, String)> {
    pairs.iter().map(|(k, v)| (k.to_string(), v.to_string())).collect()
}

fn text_of(response: &Response) -> String {
    String::from_utf8(brotli_decompress(&response.payload).unwrap()).unwrap()
}

// Settings

#[test]
fn test_config_defaults() {
    let config = Config::from_env(&vars(&[]));

    assert_eq!(config.listen_port, 63004);
    assert_eq!(config.portal_url, "https://www.zeroretries.radio");
    assert_eq!(config.idle_timeout_minutes, 10);
    assert_eq!(config.brotli_quality, 11);
    assert_eq!(
        config.blocked_ranges,
        vec![
            "127.0.0.0/8",
            "10.0.0.0/8",
            "172.16.0.0/12",
            "192.168.0.0/16",
            "169.254.0.0/16"
        ]
    );
    assert!(config.blocklist_urls.is_empty());
    assert_eq!(config.blocklist_refresh_hours, 24);
    assert!(config.blocklist_enabled);
    assert!(config.log_rotate_enabled);
    assert_eq!(config.log_retain_days, 30);
    assert!(!config.syslog_enabled);
    assert_eq!(config.syslog_host, None);
    assert_eq!(config.syslog_port, 514);
}

#[test]
fn test_config_env_override() {
    let config = Config::from_env(&vars(&[
        ("LISTEN_PORT", "8080"),
        ("PORTAL_URL", "http://custom.example.com/"),
        ("IDLE_TIMEOUT_MINUTES", "30"),
        ("BROTLI_QUALITY", "6"),
        ("BLOCKED_RANGES", "192.168.1.0/24, 10.0.0.0/8"),
        ("BLOCKLIST_URLS", "http://example.com/list1, http://example.com/list2"),
        ("BLOCKLIST_REFRESH_HOURS", "48"),
        ("BLOCKLIST_ENABLED", "false"),
        ("LOG_ROTATE_ENABLED", "false"),
        ("LOG_RETAIN_DAYS", "60"),
        ("SYSLOG_ENABLED", "true"),
        ("SYSLOG_HOST", "localhost"),
        ("SYSLOG_PORT", "1514"),
    ]));

    assert_eq!(config.listen_port, 8080);
    assert_eq!(config.portal_url, "http://custom.example.com/");
    assert_eq!(config.idle_timeout_minutes, 30);
    assert_eq!(config.brotli_quality, 6);
    assert_eq!(config.blocked_ranges, vec!["192.168.1.0/24", "10.0.0.0/8"]);
    assert_eq!(
        config.blocklist_urls,
        vec!["http://example.com/list1", "http://example.com/list2"]
    );
    assert_eq!(config.blocklist_refresh_hours, 48);
    assert!(!config.blocklist_enabled);
    assert!(!config.log_rotate_enabled);
    assert_eq!(config.log_retain_days, 60);
    assert!(config.syslog_enabled);
    assert_eq!(config.syslog_host, Some("localhost".to_string()));
    assert_eq!(config.syslog_port, 1514);
}

#[test]
fn test_config_bool_parsing() {
    for yes in ["true", "1", "yes", "on"] {
        let config = Config::from_env(&vars(&[("BLOCKLIST_ENABLED", yes)]));
        assert!(config.blocklist_enabled);
    }
    for no in ["false", "0", "no", "off"] {
        let config = Config::from_env(&vars(&[("BLOCKLIST_ENABLED", no)]));
        assert!(!config.blocklist_enabled);
    }
}

#[test]
fn test_config_invalid_env_values_use_defaults() {
    let config = Config::from_env(&vars(&[
        ("LISTEN_PORT", "not_a_number"),
        ("IDLE_TIMEOUT_MINUTES", "invalid"),
        ("SYSLOG_PORT", "not_a_port"),
        ("BROTLI_QUALITY", "not_a_number"),
    ]));

    assert_eq!(config.listen_port, 63004);
    assert_eq!(config.idle_timeout_minutes, 10);
    assert_eq!(config.syslog_port, 514);
    assert_eq!(config.brotli_quality, 11);
}

#[test]
fn config_words_are_read_in_any_case() {
    let config = Config::from_env(&vars(&[("SYSLOG_ENABLED", "YES"), ("LISTEN_PORT", "70000")]));
    assert!(config.syslog_enabled);
    assert_eq!(config.listen_port, 63004);
}

// Addresses and URLs

#[test]
fn test_blocked_protocols() {
    assert!(matches!(validate_url("file:///etc/passwd", &[]), Err(UrlError::BlockedProtocol(_))));
    assert!(matches!(validate_url("ftp://example.com", &[]), Err(UrlError::BlockedProtocol(_))));
    assert!(matches!(validate_url("gopher://example.com", &[]), Err(UrlError::BlockedProtocol(_))));
    assert!(matches!(
        validate_url("mailto:test@example.com", &[]),
        Err(UrlError::BlockedProtocol(_))
    ));
}

#[test]
fn test_allowed_protocols() {
    assert!(validate_url("http://example.com", &[]).is_ok());
    assert!(validate_url("https://example.com", &[]).is_ok());
    assert!(validate_url("HTTP://EXAMPLE.COM", &[]).is_ok());
}

#[test]
fn test_blocked_localhost() {
    let blocked = vec!["127.0.0.0/8".to_string()];
    assert!(matches!(
        validate_url("http://127.0.0.1/admin", &blocked),
        Err(UrlError::BlockedHost(_))
    ));
    assert!(matches!(
        validate_url("http://localhost/admin", &blocked),
        Err(UrlError::BlockedHost(_))
    ));
}

#[test]
fn test_blocked_private_ranges() {
    let blocked = vec![
        "10.0.0.0/8".to_string(),
        "172.16.0.0/12".to_string(),
        "192.168.0.0/16".to_string(),
    ];
    assert!(validate_url("http://10.0.0.1/", &blocked).is_err());
    assert!(validate_url("http://172.16.0.1/", &blocked).is_err());
    assert!(validate_url("http://192.168.1.1/", &blocked).is_err());
    assert!(validate_url("http://8.8.8.8/", &blocked).is_ok());
}

#[test]
fn test_userinfo_does_not_smuggle_host() {
    let blocked = vec!["127.0.0.0/8".to_string()];
    let result = validate_url("http://example.com@127.0.0.1/admin", &blocked);
    assert!(
        matches!(result, Err(UrlError::BlockedHost(_))),
        "userinfo bypass not closed: {:?}",
        result
    );
}

#[test]
fn test_ipv6_loopback_and_mapped_blocked() {
    let blocked = vec!["127.0.0.0/8".to_string()];
    assert!(validate_url("http://[::1]/", &blocked).is_err());
    assert!(validate_url("http://[::ffff:127.0.0.1]/", &blocked).is_err());
}

#[test]
fn test_ipv6_ula_and_link_local_blocked() {
    assert!(validate_url("http://[fc00::1]/", &[]).is_err());
    assert!(validate_url("http://[fd12:3456:789a::1]/", &[]).is_err());
    assert!(validate_url("http://[fe80::1]/", &[]).is_err());
    assert!(validate_url("http://[2606:4700::1]/", &[]).is_ok());
}

#[test]
fn test_zero_address_blocked_by_default_range() {
    let blocked = vec!["0.0.0.0/8".to_string()];
    assert!(validate_url("http://0.0.0.0/", &blocked).is_err());
}

#[test]
fn a_name_that_passes_is_to_be_looked_up() {
    match validate_url("https://example.com/a?b", &[]) {
        Ok(UrlCheck::Lookup { host, port }) => {
            assert_eq!(host, "example.com");
            assert_eq!(port, 443);
        }
        other => panic!("{:?}", other),
    }
    assert!(matches!(validate_url("http://8.8.8.8/", &[]), Ok(UrlCheck::Allowed)));
    assert!(matches!(validate_url("not a url", &[]), Err(UrlError::InvalidUrl)));
}

fn pinned_address(host: &str) -> Result<IpAddr, UrlError> {
    match resolve_and_pin(host, 443, &[], &init_domain_blocklist())? {
        Pin::Address(ip) => Ok(ip),
        other => panic!("{:?}", other),
    }
}

#[test]
fn resolve_and_pin_returns_ip_for_literal() {
    let ip = pinned_address("8.8.8.8").unwrap();
    assert_eq!(ip, parse_ip("8.8.8.8").unwrap());
}

#[test]
fn resolve_and_pin_rejects_blocked_ip_literal() {
    let blocked = vec!["127.0.0.0/8".to_string()];
    assert!(resolve_and_pin("127.0.0.1", 80, &blocked, &init_domain_blocklist()).is_err());
}

#[test]
fn resolve_and_pin_rejects_localhost_by_name() {
    assert!(resolve_and_pin("localhost", 80, &[], &init_domain_blocklist()).is_err());
}

#[test]
fn resolve_and_pin_handles_bracketed_v6() {
    let ip = resolve_and_pin("[::1]", 80, &[], &init_domain_blocklist());
    assert!(matches!(ip, Err(UrlError::BlockedHost(_))));

    let ip = pinned_address("[2606:4700::1]").unwrap();
    assert_eq!(ip, parse_ip("2606:4700::1").unwrap());
}

#[test]
fn resolve_and_pin_rejects_ipv4_mapped_v6_loopback() {
    let blocked = vec!["127.0.0.0/8".to_string()];
    let result = resolve_and_pin("[::ffff:127.0.0.1]", 80, &blocked, &init_domain_blocklist());
    assert!(matches!(result, Err(UrlError::BlockedHost(_))));
}

#[test]
fn every_address_of_a_name_is_judged() {
    let blocked = vec!["10.0.0.0/8".to_string()];
    let good = parse_ip("93.184.216.34").unwrap();
    let bad = parse_ip("10.1.2.3").unwrap();
    assert_eq!(pin_resolved("a.example", &vec![good], &blocked).unwrap(), good);
    match pin_resolved("a.example", &vec![good, bad], &blocked) {
        Err(e) => assert_eq!(e.message(), "Blocked host: a.example (resolves to 10.1.2.3)"),
        Ok(ip) => panic!("{:?}", ip),
    }
    match pin_resolved("a.example", &vec![], &blocked) {
        Err(e) => assert_eq!(e.message(), "Unresolvable host: a.example"),
        Ok(ip) => panic!("{:?}", ip),
    }
}

#[test]
fn addresses_are_read_and_written() {
    for text in ["0.0.0.0", "255.1.20.9", "::", "::1", "2606:4700::1", "fe80::1:0:0:1", "1:2:3:4:5:6:7:8"] {
        assert_eq!(parse_ip(text).unwrap().to_text(), text);
    }
    assert_eq!(parse_ip("::ffff:1.2.3.4").unwrap().to_text(), "::ffff:1.2.3.4");
    assert_eq!(parse_ip("1:0:0:2:0:0:0:3").unwrap().to_text(), "1:0:0:2::3");
    for text in ["", "1.2.3", "01.2.3.4", "256.1.1.1", "1.2.3.4.5", ":::", "1::2::3", "g::1", "12345::"] {
        assert!(parse_ip(text).is_none(), "{}", text);
    }
}

#[test]
fn default_ranges_block_internal_networks_and_nothing_else() {
    let ranges = Config::from_env(&vars(&[])).blocked_ranges;
    for inside in ["127.9.9.9", "10.255.0.1", "172.16.0.0", "172.31.255.255", "192.168.0.1", "169.254.1.1"] {
        assert!(validate_url(&format!("http://{}/", inside), &ranges).is_err(), "{}", inside);
    }
    for outside in ["126.255.255.255", "11.0.0.0", "172.15.0.1", "172.32.0.0", "192.169.0.0", "169.253.0.0"] {
        assert!(validate_url(&format!("http://{}/", outside), &ranges).is_ok(), "{}", outside);
    }
}

// The blocklist

#[test]
fn hosts_files_list_their_second_word() {
    assert_eq!(read_hosts_entry("0.0.0.0 Ads.Example.com # x"), Some("ads.example.com".to_string()));
    assert_eq!(read_hosts_entry("# 0.0.0.0 ads.example.com"), None);
    assert_eq!(read_hosts_entry("0.0.0.0 localhost"), None);
    assert_eq!(read_hosts_entry("ads.example.com"), None);
    assert_eq!(read_hosts_entry("  "), None);

    let mut list = init_domain_blocklist();
    let body = "0.0.0.0 a.example\n0.0.0.0 b.example\n".to_string();
    assert!(update_blocklist(&mut list, &vec![Ok(body)]).is_ok());
    assert!(is_domain_blocked(&list, "A.Example"));
    assert!(is_domain_blocked(&list, "b.example"));
    assert!(!is_domain_blocked(&list, "c.example"));
    assert!(!is_domain_blocked(&init_domain_blocklist(), "a.example"));
    match resolve_and_pin("A.EXAMPLE", 443, &[], &list) {
        Err(UrlError::BlockedHost(h)) => assert_eq!(h, "a.example"),
        other => panic!("{:?}", other),
    }
}

#[test]
fn a_failed_fetch_leaves_the_list_as_it_was() {
    let mut list = init_domain_blocklist();
    update_blocklist(&mut list, &vec![Ok("0.0.0.0 old.example".to_string())]).unwrap();
    let fetched = vec![
        Ok("0.0.0.0 new.example".to_string()),
        Err("first".to_string()),
        Err("second".to_string()),
    ];
    assert_eq!(update_blocklist(&mut list, &fetched), Err("first".to_string()));
    assert!(is_domain_blocked(&list, "old.example"));
    assert!(!is_domain_blocked(&list, "new.example"));
    update_blocklist(&mut list, &vec![Ok("0.0.0.0 new.example".to_string())]).unwrap();
    assert!(!is_domain_blocked(&list, "old.example"));
    assert!(is_domain_blocked(&list, "new.example"));
    assert_eq!(list.count(), 1);
}

#[test]
fn a_url_is_judged_by_what_its_host_stands_for() {
    let blocked = vec!["10.0.0.0/8".to_string()];
    let good = parse_ip("93.184.216.34").unwrap();
    let bad = parse_ip("10.1.2.3").unwrap();
    assert!(matches!(judge_resolved("a.example", &None, &blocked), Err(UrlError::InvalidUrl)));
    assert!(judge_resolved("a.example", &Some(vec![]), &blocked).is_ok());
    assert!(judge_resolved("a.example", &Some(vec![good]), &blocked).is_ok());
    let e = judge_resolved("a.example", &Some(vec![good, bad]), &blocked).unwrap_err();
    assert_eq!(e.message(), "Blocked host: a.example (resolves to 10.1.2.3)");
}

#[test]
fn only_some_headers_leave_it_to_seconds() {
    assert!(leaves_it_to_seconds("Max-Age=5"));
    assert!(leaves_it_to_seconds("public, s-maxage=5"));
    assert!(!leaves_it_to_seconds("no-cache, max-age=5"));
    assert!(!leaves_it_to_seconds("max-age=x"));
    assert!(!leaves_it_to_seconds(""));
}

#[test]
fn entries_bear_a_time() {
    let entry = LogEntry::new("A".to_string(), "u".to_string(), LogStatus::Success, None);
    let ts = entry.ts.as_bytes();
    assert!(ts.len() >= 20 && ts[4] == b'-' && ts[10] == b'T' && ts[16] == b':');
    assert_eq!(*ts.last().unwrap(), b'Z');
}

#[test]
fn hosts_files_that_are_announced_too_large_are_refused() {
    let most = MAX_BLOCKLIST_BYTES as u64;
    assert!(check_announced("u", most).is_ok());
    let e = check_announced("u", most + 1).unwrap_err();
    assert_eq!(e, format!("Blocklist u announced {} bytes, exceeds limit {}", most + 1, most));
}

// Callsigns and sessions

#[test]
fn test_valid_callsigns() {
    assert!(validate_callsign("W1ABC").is_ok());
    assert!(validate_callsign("VE3XYZ").is_ok());
    assert!(validate_callsign("KU0HN").is_ok());
    assert!(validate_callsign("G4ABC").is_ok());
    assert!(validate_callsign("JA1ABC").is_ok());
}

#[test]
fn test_invalid_callsigns() {
    assert!(validate_callsign("").is_err());
    assert!(validate_callsign("123").is_err());
    assert!(validate_callsign("ABCDEF").is_err());
    assert!(validate_callsign("W").is_err());
}

#[test]
fn test_callsign_ssid_stripped() {
    assert_eq!(validate_callsign("W1ABC-1").unwrap(), "W1ABC");
    assert_eq!(validate_callsign("KU0HN-15").unwrap(), "KU0HN");
}

#[test]
fn test_session_creation() {
    let session = Session::new("W1ABC".to_string());
    assert_eq!(session.callsign, "W1ABC");
    assert!(!session.acknowledged);
    assert!(session.current_url.is_none());
}

#[test]
fn test_session_timeout() {
    let session = Session::new("W1ABC".to_string());
    assert!(!session.is_timed_out(10));
}

#[test]
fn test_allowlist_accepts_non_shape_callsigns() {
    let allow = vec!["DEMOUSR".to_string(), "TESTOP".to_string()];
    assert_eq!(validate_callsign_with_allowlist("DEMOUSR", &allow).unwrap(), "DEMOUSR");
    assert_eq!(validate_callsign_with_allowlist("demousr", &allow).unwrap(), "DEMOUSR");
    assert_eq!(validate_callsign_with_allowlist("DEMOUSR-3", &allow).unwrap(), "DEMOUSR");
    assert!(validate_callsign_with_allowlist("HELLO", &allow).is_err());
}

#[test]
fn test_allowlist_does_not_break_shape_validation() {
    assert_eq!(validate_callsign_with_allowlist("W1TEST", &[]).unwrap(), "W1TEST");
    let allow = vec!["DEMOUSR".to_string()];
    assert_eq!(validate_callsign_with_allowlist("VE3XYZ", &allow).unwrap(), "VE3XYZ");
}

#[test]
fn session_edges() {
    assert_eq!(validate_callsign("w1abc").unwrap(), "W1ABC");
    assert_eq!(validate_callsign("ABC1ABCD").unwrap(), "ABC1ABCD");
    assert!(validate_callsign("ABCD1A").is_err());
    assert!(validate_callsign("W1ABC1").is_err());
    assert_eq!(SessionError::InvalidCallsign.message(), "Invalid callsign format");
    assert!(!idle_too_long(600, 10));
    assert!(idle_too_long(601, 10));
    let mut session = Session::new("W1ABC".to_string());
    session.acknowledge();
    session.visit("https://a");
    assert!(session.acknowledged);
    assert_eq!(session.current_url.as_deref(), Some("https://a"));
}

// The log

#[test]
fn test_log_entry_serialization() {
    let entry = LogEntry::new(
        "W1ABC".to_string(),
        "https://example.com".to_string(),
        LogStatus::Success,
        None,
    );

    let json = entry.to_json();
    assert!(json.contains("\"call\":\"W1ABC\""));
    assert!(json.contains("\"url\":\"https://example.com\""));
    assert!(json.contains("\"status\":\"ok\""));
}

#[test]
fn test_log_entry_with_reason() {
    let entry = LogEntry::new(
        "W1ABC".to_string(),
        "https://blocked.com".to_string(),
        LogStatus::Blocked,
        Some("dns_filter".to_string()),
    );

    let json = entry.to_json();
    assert!(json.contains("\"status\":\"blocked\""));
    assert!(json.contains("\"reason\":\"dns_filter\""));
}

#[test]
fn a_log_line_is_one_json_object() {
    let entry = LogEntry {
        ts: "2026-03-19T14:32:45Z".to_string(),
        call: "W1\"\\\n\r\t\u{8}\u{c}\u{1}\u{1f}\u{7f}é".to_string(),
        url: "u".to_string(),
        status: LogStatus::Error,
        reason: Some("r".to_string()),
    };
    let line = Logger::new("/var/log/x").line(&entry);
    assert_eq!(
        line,
        "{\"ts\":\"2026-03-19T14:32:45Z\",\"call\":\"W1\\\"\\\\\\n\\r\\t\\b\\f\\u0001\\u001f\u{7f}é\",\"url\":\"u\",\"status\":\"error\",\"reason\":\"r\"}\n"
    );
    let value: serde_json::Value = serde_json::from_str(&line).unwrap();
    assert_eq!(value["call"].as_str().unwrap(), entry.call);
    assert_eq!(LogStatus::Agreed.to_text(), "agreed");
    assert_eq!(Logger::new("/var/log/x").log_path, "/var/log/x");
}

#[test]
fn log_entries_carry_the_time() {
    let entry = LogEntry::new("A".to_string(), "B".to_string(), LogStatus::Agreed, None);
    assert!(entry.ts.ends_with('Z'));
    assert_eq!(&entry.ts[4..5], "-");
    assert_eq!(&entry.ts[10..11], "T");
}

// How long pages stay fresh

fn defs() -> CcDefaults {
    CcDefaults { default_max_age: 3600, max_max_age: 2_592_000 }
}

#[test]
fn cc_no_store_gives_negative() {
    assert_eq!(parse_cache_control(Some("no-store"), None, None, &defs()), -1);
}

#[test]
fn cc_private_gives_negative() {
    assert_eq!(parse_cache_control(Some("private, max-age=600"), None, None, &defs()), -1);
}

#[test]
fn cc_no_cache_gives_zero() {
    assert_eq!(parse_cache_control(Some("no-cache"), None, None, &defs()), 0);
}

#[test]
fn cc_max_age_forwarded() {
    assert_eq!(parse_cache_control(Some("max-age=600"), None, None, &defs()), 600);
}

#[test]
fn cc_s_maxage_takes_precedence_over_max_age() {
    assert_eq!(
        parse_cache_control(Some("s-maxage=60, max-age=600"), None, None, &defs()),
        60
    );
}

#[test]
fn cc_max_age_clamped_to_cap() {
    assert_eq!(
        parse_cache_control(Some("max-age=99999999"), None, None, &defs()),
        2_592_000
    );
}

#[test]
fn cc_expires_falls_back_when_no_cc() {
    let out = parse_cache_control(
        None,
        Some("Fri, 06 Nov 2026 08:50:00 GMT"),
        Some("Fri, 06 Nov 2026 08:49:00 GMT"),
        &defs(),
    );
    assert_eq!(out, 60);
}

#[test]
fn cc_missing_everything_gives_default() {
    assert_eq!(parse_cache_control(None, None, None, &defs()), 3600);
}

#[test]
fn cc_malformed_gives_default() {
    assert_eq!(parse_cache_control(Some("bogus!!"), None, None, &defs()), 3600);
}

#[test]
fn cc_expires_in_the_past_gives_default() {
    let out = parse_cache_control(
        None,
        Some("Fri, 06 Nov 2026 08:49:00 GMT"),
        Some("Fri, 06 Nov 2026 08:50:00 GMT"),
        &defs(),
    );
    assert_eq!(out, 3600);
}

#[test]
fn cc_edges() {
    assert_eq!(parse_cache_control(Some("MAX-AGE=5 , No-Cache"), None, None, &defs()), 0);
    assert_eq!(parse_cache_control(Some("max-age=-5"), None, None, &defs()), 0);
    assert_eq!(parse_cache_control(Some("s-maxage=x, max-age=7"), None, None, &defs()), 7);
    assert_eq!(parse_cache_control(Some("max-age=x, max-age=7"), None, None, &defs()), 3600);
    assert_eq!(parse_cache_control(None, Some("nonsense"), Some("nonsense"), &defs()), 3600);
}

fn reply(status: u16, cc: Option<&str>) -> Option<ProbeReply> {
    Some(ProbeReply { status, cc: cc.map(|s| s.to_string()), expires: None, date: None })
}

fn probed(reply: Option<ProbeReply>, again: bool) -> Option<i32> {
    match probe_origin_cc(reply, again, &Config::from_env(&vars(&[]))) {
        ProbeStep::Finish(d) => Some(d.max_age),
        ProbeStep::AskAgain => None,
    }
}

#[test]
fn a_probe_reads_successes_and_asks_again_once() {
    assert_eq!(probed(reply(200, Some("max-age=9")), false), Some(9));
    assert_eq!(probed(reply(301, Some("no-store")), true), Some(-1));
    assert_eq!(probed(reply(404, Some("max-age=9")), false), Some(3600));
    assert_eq!(probed(reply(405, None), false), None);
    assert_eq!(probed(reply(405, None), true), Some(3600));
    assert_eq!(probed(None, false), Some(3600));
}

// Lines and bodies

#[test]
fn read_bounded_line_survives_socket_timeouts_before_first_byte() {
    let mut reader = LineReader::new();
    for _ in 0..6 {
        assert!(reader.room(false).is_ok());
        assert!(matches!(reader.take(Arrival::Stalled(Vec::new())), LineStep::More));
    }
    match reader.take(Arrival::Bytes(b"HELLO\n".to_vec())) {
        LineStep::Line(line) => assert_eq!(line, "HELLO\n"),
        _ => panic!("no line"),
    }
}

#[test]
fn read_bounded_line_returns_timed_out_at_deadline() {
    let reader = LineReader::new();
    let err = reader.room(true).unwrap_err();
    assert!(err.is_timeout());
    assert_eq!(err.message(), "Idle deadline exceeded");
}

#[test]
fn read_bounded_line_reassembles_across_partial_reads() {
    let mut reader = LineReader::new();
    for chunk in ["GET ", "https://exa"] {
        assert!(matches!(reader.take(Arrival::Stalled(chunk.as_bytes().to_vec())), LineStep::More));
    }
    match reader.take(Arrival::Bytes(b"mple.com\n".to_vec())) {
        LineStep::Line(line) => assert_eq!(line, "GET https://example.com\n"),
        _ => panic!("no line"),
    }
}

#[test]
fn read_exact_until_survives_socket_timeouts() {
    let mut reader = BodyReader::new(4);
    for _ in 0..4 {
        assert_eq!(reader.room(false).unwrap(), 4);
        assert_eq!(reader.take(Arrival::Stalled(Vec::new())), BodyStep::More);
    }
    assert_eq!(reader.take(Arrival::Bytes(vec![1u8, 2, 3, 4])), BodyStep::Complete);
    assert_eq!(reader.buf, [1, 2, 3, 4]);
}

#[test]
fn read_exact_until_returns_timed_out_at_deadline() {
    let reader = BodyReader::new(4);
    let err = reader.room(true).unwrap_err();
    assert!(err.is_timeout());
    assert_eq!(err.message(), "Body read deadline exceeded");
}

#[test]
fn line_edges() {
    let mut reader = LineReader::new();
    assert!(matches!(reader.take(Arrival::End), LineStep::Closed));
    assert!(matches!(reader.take(Arrival::Bytes(b"x".to_vec())), LineStep::More));
    assert!(matches!(reader.take(Arrival::End), LineStep::Failed(ReadError::EofMidLine)));

    let mut reader = LineReader::new();
    assert_eq!(reader.room(false).unwrap(), MAX_LINE_LENGTH);
    let long = vec![b'a'; MAX_LINE_LENGTH];
    assert!(matches!(
        reader.take(Arrival::Bytes(long.clone())),
        LineStep::Failed(ReadError::LineTooLong)
    ));
    assert!(matches!(reader.room(false), Err(ReadError::LineTooLong)));
    let mut reader = LineReader::new();
    let mut over = long.clone();
    over.push(b'\n');
    assert!(matches!(
        reader.take(Arrival::Bytes(over)),
        LineStep::Failed(ReadError::LineTooLong)
    ));
    let mut reader = LineReader::new();
    let mut longest = vec![b'a'; MAX_LINE_LENGTH - 1];
    longest.push(b'\n');
    match reader.take(Arrival::Bytes(longest)) {
        LineStep::Line(line) => assert_eq!(line.len(), 1024),
        _ => panic!("the longest line was refused"),
    }
    let mut reader = LineReader::new();
    assert!(matches!(reader.take(Arrival::Stalled(long)), LineStep::More));
    assert!(matches!(reader.room(false), Err(ReadError::LineTooLong)));

    let mut reader = LineReader::new();
    assert!(matches!(
        reader.take(Arrival::Bytes(b"\xff\n".to_vec())),
        LineStep::Failed(ReadError::InvalidUtf8)
    ));
    assert_eq!(ReadError::LineTooLong.message(), "Line exceeded maximum length");
    assert_eq!(ReadError::EofMidLine.message(), "EOF mid-line");
    assert_eq!(ReadError::InvalidUtf8.message(), "Invalid UTF-8 in line");

    let mut body = BodyReader::new(2);
    assert_eq!(body.take(Arrival::Bytes(vec![7])), BodyStep::More);
    assert_eq!(body.take(Arrival::End), BodyStep::Failed(ReadError::ShortBody));
    assert_eq!(ReadError::ShortBody.message(), "Short body");
}

// The handshake

#[test]
fn preauth_classifier_treats_duplicate_callsign_as_skippable() {
    assert_eq!(classify_preauth_line("W1TEST\n", "W1TEST"), PreAuthLine::DuplicateCallsign);
    assert_eq!(classify_preauth_line("  w1test\r\n", "W1TEST"), PreAuthLine::DuplicateCallsign);
}

#[test]
fn preauth_classifier_skips_linbpq_status_lines() {
    assert_eq!(
        classify_preauth_line("*** Disconnected from Stream 10\r\n", "W1TEST"),
        PreAuthLine::LinbpqStatus,
    );
    assert_eq!(
        classify_preauth_line("*** Connected to WEB         \r\n", "W1TEST"),
        PreAuthLine::LinbpqStatus,
    );
}

#[test]
fn preauth_classifier_passes_real_input_through() {
    assert_eq!(classify_preauth_line("AGREE\n", "W1TEST"), PreAuthLine::Candidate);
    assert_eq!(classify_preauth_line("DENY\n", "W1TEST"), PreAuthLine::Candidate);
    assert_eq!(classify_preauth_line("\n", "W1TEST"), PreAuthLine::Candidate);
}

fn awaiting_consent() -> Login {
    let (login, prompt) = Login::start();
    assert_eq!(prompt, "Enter your callsign: ");
    match login.hear(Some(" w1test-3\r\n".to_string()), &[]) {
        LoginStep::Ask { next, say } => {
            assert_eq!(
                say,
                "All activity is logged including your callsign.\nType AGREE to proceed: "
            );
            next
        }
        other => panic!("{:?}", other),
    }
}

#[test]
fn a_station_is_admitted_after_it_agrees() {
    let mut login = awaiting_consent();
    for noise in ["W1TEST\r\n", "*** Connected\r\n"] {
        login = match login.hear(Some(noise.to_string()), &[]) {
            LoginStep::Listen { next } => next,
            other => panic!("{:?}", other),
        };
    }
    match login.hear(Some(" agree\r\n".to_string()), &[]) {
        LoginStep::Admit { callsign, entry } => {
            assert_eq!(callsign, "W1TEST");
            assert_eq!(entry.call, "W1TEST");
            assert_eq!(entry.url, "AGREED");
            assert_eq!(entry.status, LogStatus::Agreed);
            assert_eq!(entry.reason, None);
        }
        other => panic!("{:?}", other),
    }
}

#[test]
fn a_station_that_does_not_agree_leaves() {
    match awaiting_consent().hear(Some("no\n".to_string()), &[]) {
        LoginStep::Leave { say } => {
            assert_eq!(say.as_deref(), Some("Acknowledgment required. Goodbye.\n"))
        }
        other => panic!("{:?}", other),
    }
    match awaiting_consent().hear(None, &[]) {
        LoginStep::Leave { say } => assert_eq!(say, None),
        other => panic!("{:?}", other),
    }
    match Login::start().0.hear(Some("HELLO\n".to_string()), &[]) {
        LoginStep::Leave { say } => {
            assert_eq!(say.as_deref(), Some("Invalid callsign format. Disconnecting.\n"))
        }
        other => panic!("{:?}", other),
    }
}

// Requests

#[test]
fn request_lines_are_read() {
    match read_head("GET https://a IF-NONE-MATCH e\r\n") {
        Ok(RequestHead::Complete(r)) => assert_eq!(
            r,
            Request::Get { url: "https://a".to_string(), if_none_match: Some("e".to_string()) }
        ),
        other => panic!("{:?}", other),
    }
    match read_head("POST https://a\n") {
        Ok(RequestHead::Posting { url }) => assert_eq!(url, "https://a"),
        other => panic!("{:?}", other),
    }
    assert!(matches!(read_head("GET \n"), Err(RequestError::InvalidFormat)));
    assert!(matches!(read_head("HEAD x\n"), Err(RequestError::InvalidFormat)));
    assert_eq!(RequestError::EmptyUrl.message(), "Empty URL");
    assert_eq!(RequestError::InvalidFormat.message(), "Invalid request format");
    assert_eq!(read_body_length(&[0, 16, 0, 0]).unwrap(), 1_048_576);
    let e = read_body_length(&[0, 16, 0, 1]).unwrap_err();
    assert_eq!(e.message(), "Body too large: 1048577 bytes (max 1048576)");
}

#[test]
fn the_server_reads_what_the_client_wrote() {
    let r = Request::Get { url: "https://a/b c".to_string(), if_none_match: None };
    let line = String::from_utf8(r.encode()).unwrap();
    match read_head(&line) {
        Ok(RequestHead::Complete(got)) => assert_eq!(got, r),
        other => panic!("{:?}", other),
    }
}

#[test]
fn refused_urls_are_answered_and_logged() {
    let e = UrlError::BlockedHost("x".to_string());
    let r = refuse_url("W1ABC", "http://x", &e);
    assert_eq!(r.response.status, Status::Blocked);
    assert_eq!(r.response.etag, "-");
    assert_eq!(r.response.max_age, -1);
    assert_eq!(text_of(&r.response), "Blocked host: x");
    let entry = r.entry.unwrap();
    assert_eq!((entry.call.as_str(), entry.url.as_str()), ("W1ABC", "http://x"));
    assert_eq!(entry.status, LogStatus::Blocked);
    assert_eq!(entry.reason.as_deref(), Some("Blocked host: x"));

    let r = refuse_url("W1ABC", "x", &UrlError::InvalidUrl);
    assert_eq!(r.response.status, Status::Failure);
    assert_eq!(text_of(&r.response), "Invalid URL");
    assert_eq!(r.entry.unwrap().status, LogStatus::Error);
}

#[test]
fn a_crashed_browser_is_started_anew() {
    let failed = |e| after_fetch("W1ABC", "u", FetchEvent::Failed(e));
    assert!(matches!(failed(BrowserError::BrowserCrashed), FetchStep::Launch));
    assert!(matches!(after_fetch("W1ABC", "u", FetchEvent::Missing), FetchStep::Launch));
    assert!(matches!(after_fetch("W1ABC", "u", FetchEvent::Launched(true)), FetchStep::Fetch));
    match after_fetch("W1ABC", "u", FetchEvent::Launched(false)) {
        FetchStep::GiveUp(g) => {
            assert_eq!(text_of(&g.response), "Browser unavailable");
            assert!(g.entry.is_none());
        }
        other => panic!("{:?}", other),
    }
    match failed(BrowserError::NavigationFailed("n".to_string())) {
        FetchStep::GiveUp(g) => {
            assert_eq!(text_of(&g.response), "Failed to load page");
            assert_eq!(g.entry.unwrap().reason.as_deref(), Some("Failed to navigate: n"));
        }
        other => panic!("{:?}", other),
    }
    match after_fetch("W1ABC", "u", FetchEvent::Page("p".to_string())) {
        FetchStep::Done(html) => assert_eq!(html, "p"),
        other => panic!("{:?}", other),
    }
}

#[test]
fn pages_go_out_compressed_unless_the_station_has_them() {
    let html = "<p>hello</p>";
    let etag = sanitized_html_etag(html);
    let r = page_response(html, None, 60, 11);
    assert_eq!(r.status, Status::Success);
    assert_eq!(r.etag, etag);
    assert_eq!(r.max_age, 60);
    assert_eq!(text_of(&r), html);
    let r = page_response(html, Some("other"), 60, 5);
    assert_eq!(r.status, Status::Success);
    let r = page_response(html, Some(&etag), 60, 11);
    assert_eq!(r.status, Status::NotModified);
    assert_eq!(r.etag, etag);
    assert!(r.payload.is_empty());
}

#[test]
fn a_finished_request_is_logged_and_noted() {
    let config = Config::from_env(&vars(&[]));
    let mut session = Session::new("W1ABC".to_string());
    let done = finish_request(
        &mut session,
        "https://a",
        "page",
        None,
        Some(OriginDirectives { max_age: 7 }),
        &config,
    );
    assert_eq!(done.response.max_age, 7);
    assert_eq!(done.entry.status, LogStatus::Success);
    assert_eq!(done.entry.call, "W1ABC");
    assert_eq!(session.current_url.as_deref(), Some("https://a"));
    let done = finish_request(&mut session, "https://b", "page", None, None, &config);
    assert_eq!(done.response.max_age, 3600);
}

#[test]
fn what_follows_a_request() {
    let get = Request::Get { url: "u".to_string(), if_none_match: None };
    match next_step(ReadOutcome::Asked(get)) {
        ServeStep::Get { url, if_none_match } => {
            assert_eq!(url, "u");
            assert_eq!(if_none_match, None);
        }
        other => panic!("{:?}", other),
    }
    let post = Request::Post { url: "u".to_string(), body: vec![] };
    match next_step(ReadOutcome::Asked(post)) {
        ServeStep::Answer(r) => {
            assert_eq!(r.status, Status::Failure);
            assert_eq!(text_of(&r), "POST requests are not supported");
        }
        other => panic!("{:?}", other),
    }
    match next_step(ReadOutcome::TimedOut) {
        ServeStep::Close { say } => {
            assert_eq!(say.as_deref(), Some("\nSession timed out due to inactivity.\n"))
        }
        other => panic!("{:?}", other),
    }
    assert!(matches!(next_step(ReadOutcome::Closed), ServeStep::Close { say: None }));
    assert!(matches!(next_step(ReadOutcome::Failed), ServeStep::Close { say: None }));
    assert_eq!(text_of(&status_response(Status::Blocked, "why")), "why");
}

// Connections

#[test]
fn connections_are_limited() {
    let mut c = Connections::new();
    let a = IpAddr::V4([1, 2, 3, 4]);
    for _ in 0..MAX_CONNECTIONS_PER_IP {
        assert_eq!(c.enter(Some(a)), Admission::Admitted);
    }
    assert_eq!(c.enter(Some(a)), Admission::PeerLimit);
    assert_eq!(c.total, 5);
    for _ in 5..MAX_CONNECTIONS {
        assert_eq!(c.enter(None), Admission::Admitted);
    }
    let b = IpAddr::V6([0, 0, 0, 0, 0, 0, 0, 1]);
    assert_eq!(c.enter(Some(b)), Admission::TotalLimit);
    assert_eq!(c.peers.len(), 1);
    c.release(Some(a));
    assert_eq!(c.enter(Some(b)), Admission::Admitted);
    c.release(Some(b));
    assert_eq!(c.peers.len(), 1);
    assert_eq!(c.peers[0].1, 4);
}

// The browser

#[test]
fn the_first_proxy_port_stays() {
    let mut slot = None;
    assert_eq!(current_proxy_port(&slot), None);
    assert_eq!(
        required_proxy_port(&slot).unwrap_err().message(),
        "Failed to launch browser: proxy port not initialized before BrowserInstance::new"
    );
    set_proxy_port(&mut slot, 1000);
    set_proxy_port(&mut slot, 2000);
    assert_eq!(current_proxy_port(&slot), Some(1000));
    assert_eq!(required_proxy_port(&slot).unwrap(), 1000);
}

#[test]
fn browser_errors_are_told_apart() {
    assert!(matches!(navigation_error("x session deleted y", ""), BrowserError::BrowserCrashed));
    assert!(matches!(extraction_error("invalid session id"), BrowserError::BrowserCrashed));
    assert_eq!(navigation_error("", "dbg").message(), "Failed to navigate: dbg");
    assert_eq!(navigation_error("msg", "dbg").message(), "Failed to navigate: msg");
    assert_eq!(extraction_error("msg").message(), "Failed to extract content: msg");
    assert_eq!(
        BrowserError::BrowserCrashed.message(),
        "Browser crashed - please try again"
    );
    assert_eq!(scrubbed_page(Some("<p>".to_string())).unwrap(), "<p>");
    assert_eq!(
        scrubbed_page(Some("__SCRUB_ERROR__why".to_string())).unwrap_err().message(),
        "Failed to extract content: why"
    );
    assert_eq!(
        scrubbed_page(None).unwrap_err().message(),
        "Failed to extract content: No HTML returned"
    );
}

#[test]
fn profiles_have_plain_names() {
    assert_eq!(profile_prefix("W1ABC-7"), "firefox-W1ABC7-");
    assert_eq!(profile_prefix("../é/x"), "firefox-éx-");
}

#[test]
fn the_browser_is_told_of_the_proxy() {
    let json = capabilities_json("/bin/fire\"fox", 4321);
    let v: serde_json::Value = serde_json::from_str(&json).unwrap();
    let o = &v["moz:firefoxOptions"];
    assert_eq!(o["binary"].as_str().unwrap(), "/bin/fire\"fox");
    assert_eq!(o["args"][0].as_str().unwrap(), "-headless");
    let p = &o["prefs"];
    assert_eq!(p["network.proxy.http_port"].as_u64().unwrap(), 4321);
    assert_eq!(p["network.proxy.ssl_port"].as_u64().unwrap(), 4321);
    assert_eq!(p["network.proxy.type"].as_u64().unwrap(), 1);
    assert_eq!(p["network.proxy.http"].as_str().unwrap(), "127.0.0.1");
    assert_eq!(p.as_object().unwrap().len(), 23);

    let paths = browser_paths(&vars(&[("FIREFOX_PATH", "/opt/ff")]));
    assert_eq!(paths.firefox, "/opt/ff");
    assert_eq!(paths.geckodriver, "/bin/geckodriver");
    assert_eq!(paths.libraries, "/lib");
    assert!(matches!(await_driver(true, true), LaunchStep::Ready));
    assert!(matches!(await_driver(false, false), LaunchStep::Wait));
    assert!(matches!(await_driver(false, true), LaunchStep::GiveUp(_)));
}

// The forward proxy

#[test]
fn tunnels_go_to_web_ports_of_allowed_hosts() {
    let list = init_domain_blocklist();
    let blocked = vec!["10.0.0.0/8".to_string()];
    let t = handle_connect(Some("example.com:443"), &blocked, &list).unwrap();
    assert_eq!(t.host, "example.com");
    assert_eq!(t.port, 443);
    assert!(matches!(t.pin, Pin::Lookup { .. }));
    let t = handle_connect(Some("[2606:4700::1]:443"), &blocked, &list).unwrap();
    assert_eq!(t.host, "[2606:4700::1]");
    assert!(matches!(t.pin, Pin::Address(_)));
    let e = handle_connect(Some("example.com:22"), &blocked, &list).unwrap_err();
    assert_eq!(e.message(), "Blocked protocol: CONNECT :22");
    assert!(handle_connect(Some("10.1.1.1:443"), &blocked, &list).is_err());
    for bad in [None, Some("example.com"), Some("example.com:x"), Some("example.com:65536")] {
        assert!(matches!(handle_connect(bad, &blocked, &list), Err(UrlError::InvalidUrl)));
    }
}

#[test]
fn plain_requests_are_forwarded_to_allowed_hosts() {
    let list = init_domain_blocklist();
    let f = forward_http(Some("http"), Some("a.example"), None, &[], &list).unwrap();
    assert_eq!((f.host.as_str(), f.port, f.host_header.as_str()), ("a.example", 80, "a.example"));
    let f = forward_http(Some("http"), Some("a.example"), Some(8080), &[], &list).unwrap();
    assert_eq!(f.host_header, "a.example:8080");
    let bad = forward_http(None, Some("a"), None, &[], &list).unwrap_err();
    assert_eq!(proxy_error_response(&bad), (400, "".to_string()));
    let bad = forward_http(Some("http"), None, None, &[], &list).unwrap_err();
    assert_eq!(proxy_error_response(&bad).0, 400);
    let bad = forward_http(Some("https"), Some("a"), None, &[], &list).unwrap_err();
    assert_eq!(
        proxy_error_response(&bad),
        (403, "packet-browser proxy: Blocked protocol: https\n".to_string())
    );
    let bad = forward_http(Some("http"), Some("[::1]"), None, &[], &list).unwrap_err();
    assert_eq!(
        proxy_error_response(&bad),
        (403, "packet-browser proxy: Blocked host: ::1\n".to_string())
    );
    assert_eq!(proxy_error_response(&ForwardError::Upstream("x".to_string())).0, 502);
    assert_eq!(origin_path(Some("/a?b")), "/a?b");
    assert_eq!(origin_path(None), "/");
}

#[test]
fn headers_for_the_next_hop_stay_behind() {
    assert!(is_hop_by_hop("Proxy-Connection"));
    assert!(is_hop_by_hop("te"));
    assert!(!is_hop_by_hop("accept"));
    let names = vec!["host".to_string(), "Connection".to_string(), "accept".to_string()];
    assert_eq!(remove_hop_by_hop(&names), vec!["host", "accept"]);
}

#[test]
fn answers_go_by_what_compressing_came_to() {
    let failed = || Err(CompressionError::CompressFailed("x".to_string()));
    let r = message_response(Status::Blocked, "no", Ok(vec![1, 2]));
    assert_eq!((r.status, r.etag.as_str(), r.max_age), (Status::Blocked, "-", -1));
    assert_eq!(r.payload, vec![1, 2]);
    assert_eq!(message_response(Status::Failure, "no", failed()).payload, b"no");
    let r = compressed_page(Ok(vec![7]), "e".to_string(), 9);
    assert_eq!((r.status, r.etag.as_str(), r.max_age), (Status::Success, "e", 9));
    assert_eq!(r.payload, vec![7]);
    let r = compressed_page(failed(), "e".to_string(), 9);
    assert_eq!((r.status, r.etag.as_str(), r.max_age), (Status::Failure, "-", -1));
    assert_eq!(brotli_decompress(&r.payload).unwrap(), b"Compression error");
    assert!(holds_page("e", Some("e")));
    assert!(!holds_page("e", Some("f")));
    assert!(!holds_page("e", None));
}
