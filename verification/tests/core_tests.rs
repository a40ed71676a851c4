use loadcore::config::{parse_header, resolve_protocol, HeaderTable, HttpMethod, Protocol};
use loadcore::distribute::{compute_assignments, plan_run, ConfigurationError};
use loadcore::outcome::{
    check_ws_url, http_exchange_result, unsupported_method_result, websocket_result, WsEvent,
};
use loadcore::text::{decimal_string, trim};

#[test]
fn assignments_ten_over_three() {
    let a = compute_assignments(10, 3);
    assert_eq!(a, vec![4, 3, 3]);
    let total: usize = a.iter().sum();
    assert_eq!(total, 10);
}

#[test]
fn assignments_are_fair() {
    for (n, c) in [(1usize, 1usize), (7, 2), (5, 5), (3, 8), (100, 7)] {
        let a = compute_assignments(n, c);
        assert_eq!(a.len(), c);
        let total: usize = a.iter().sum();
        assert_eq!(total, n);
        for x in &a {
            for y in &a {
                assert!(x.abs_diff(*y) <= 1);
            }
        }
    }
}

#[test]
fn zero_work_units_is_a_configuration_error() {
    assert_eq!(plan_run(0, 3), Err(ConfigurationError::ZeroWorkUnits));
}

#[test]
fn zero_workers_is_a_configuration_error() {
    assert_eq!(plan_run(5, 0), Err(ConfigurationError::ZeroWorkers));
}

#[test]
fn plan_accepts_a_positive_configuration() {
    let a = plan_run(4, 2).unwrap();
    assert_eq!(a, vec![2, 2]);
}

#[test]
fn header_splits_at_first_colon() {
    let (k, v) = parse_header("Content-Type: application/json").unwrap();
    assert_eq!(k, "Content-Type");
    assert_eq!(v, "application/json");
}

#[test]
fn header_value_may_hold_colons() {
    let (k, v) = parse_header(" Referer : https://example.com/a ").unwrap();
    assert_eq!(k, "Referer");
    assert_eq!(v, "https://example.com/a");
}

#[test]
fn header_without_colon_is_rejected() {
    let e = parse_header("NoColonHere").unwrap_err();
    assert_eq!(e, "invalid header \"NoColonHere\", expected \"Key:Value\"");
}

#[test]
fn header_with_empty_value_is_accepted() {
    let (k, v) = parse_header("X-Empty:").unwrap();
    assert_eq!(k, "X-Empty");
    assert_eq!(v, "");
}

#[test]
fn methods_resolve_without_regard_to_case() {
    assert_eq!(resolve_protocol("get"), Protocol::Http(HttpMethod::Get));
    assert_eq!(resolve_protocol("GET"), Protocol::Http(HttpMethod::Get));
    assert_eq!(resolve_protocol("Post"), Protocol::Http(HttpMethod::Post));
    assert_eq!(resolve_protocol("put"), Protocol::Http(HttpMethod::Put));
    assert_eq!(resolve_protocol("DELETE"), Protocol::Http(HttpMethod::Delete));
    assert_eq!(resolve_protocol("patch"), Protocol::Http(HttpMethod::Patch));
    assert_eq!(resolve_protocol("head"), Protocol::Http(HttpMethod::Head));
    assert_eq!(resolve_protocol("options"), Protocol::Http(HttpMethod::Options));
    assert_eq!(resolve_protocol("ws"), Protocol::WebSocket);
    assert_eq!(resolve_protocol("WS"), Protocol::WebSocket);
    assert_eq!(resolve_protocol("BREW"), Protocol::Unsupported);
    assert_eq!(resolve_protocol(""), Protocol::Unsupported);
}

#[test]
fn later_header_overwrites_earlier() {
    let pairs = vec![
        ("Accept".to_string(), "text/plain".to_string()),
        ("Host".to_string(), "a.example".to_string()),
        ("Accept".to_string(), "application/json".to_string()),
    ];
    let t = HeaderTable::from_pairs(&pairs);
    assert_eq!(t.len(), 2);
    assert_eq!(t.entries[0].0, "Accept");
    assert_eq!(t.entries[0].1, "application/json");
    assert_eq!(t.entries[1].0, "Host");
    assert_eq!(t.entries[1].1, "a.example");
}

#[test]
fn assemble_resolves_the_protocol_once() {
    let headers = vec![
        ("Accept".to_string(), "*/*".to_string()),
        ("accept".to_string(), "text/html".to_string()),
    ];
    let cfg = loadcore::config::Configuration::assemble(
        "http://example.com/".to_string(),
        "post".to_string(),
        Some("payload".to_string()),
        &headers,
        None,
        None,
        30,
    );
    assert_eq!(cfg.protocol, Protocol::Http(HttpMethod::Post));
    assert_eq!(cfg.method_text, "post");
    // Header names are case-sensitive, so both entries stay.
    assert_eq!(cfg.headers.len(), 2);
    assert_eq!(cfg.timeout_secs, 30);
}

#[test]
fn set_header_overwrites_in_place() {
    let mut t = HeaderTable::new();
    t.set_header("Accept".to_string(), "*/*".to_string());
    t.set_header("Host".to_string(), "a".to_string());
    t.set_header("Accept".to_string(), "text/html".to_string());
    assert_eq!(t.len(), 2);
    assert_eq!(t.entries[0].1, "text/html");
}

#[test]
fn unsupported_method_fails_without_status() {
    let r = unsupported_method_result("BREW", 3);
    assert!(!r.success);
    assert_eq!(r.duration_ms, 3);
    assert_eq!(r.status_code, None);
    assert_eq!(r.error.as_deref(), Some("unsupported HTTP method: BREW"));
}

#[test]
fn http_success_class_is_two_hundred() {
    let r = http_exchange_result(Ok(204), 12);
    assert!(r.success);
    assert_eq!(r.status_code, Some(204));
    assert_eq!(r.error, None);
    let r = http_exchange_result(Ok(199), 12);
    assert!(!r.success);
    let r = http_exchange_result(Ok(300), 12);
    assert!(!r.success);
    assert_eq!(r.status_code, Some(300));
}

#[test]
fn http_error_keeps_status_and_message() {
    let r = http_exchange_result(Ok(500), 8);
    assert!(!r.success);
    assert_eq!(r.status_code, Some(500));
    assert_eq!(r.error.as_deref(), Some("HTTP status: 500"));
}

#[test]
fn transport_failure_has_no_status() {
    let r = http_exchange_result(Err("connection refused".to_string()), 30);
    assert!(!r.success);
    assert_eq!(r.status_code, None);
    assert_eq!(r.error.as_deref(), Some("connection refused"));
}

#[test]
fn websocket_events_classify() {
    let r = websocket_result(WsEvent::Completed, 2000);
    assert!(r.success);
    assert_eq!(r.status_code, None);
    assert_eq!(r.error, None);
    assert!(r.duration_ms >= 2000);

    let r = websocket_result(WsEvent::ConnectFailed("refused".to_string()), 5);
    assert!(!r.success);
    assert_eq!(r.status_code, None);
    assert_eq!(r.error.as_deref(), Some("WebSocket connect failed: refused"));

    let r = websocket_result(WsEvent::SendFailed("broken pipe".to_string()), 7);
    assert!(!r.success);
    assert_eq!(r.error.as_deref(), Some("WebSocket send failed: broken pipe"));
}

#[test]
fn ws_url_is_normalized_before_the_handshake() {
    let u = check_ws_url("WS://EXAMPLE.COM/Path", 1).unwrap();
    assert_eq!(u, "ws://example.com/Path");
}

#[test]
fn malformed_ws_url_is_an_immediate_failure() {
    let r = check_ws_url("not a url", 4).unwrap_err();
    assert!(!r.success);
    assert_eq!(r.status_code, None);
    assert_eq!(r.duration_ms, 4);
    let m = r.error.unwrap();
    assert!(m.starts_with("URL parse error: "));
    assert!(m.len() > "URL parse error: ".len());
}

#[test]
fn decimal_rendering_is_exact() {
    assert_eq!(decimal_string(0), "0");
    assert_eq!(decimal_string(7), "7");
    assert_eq!(decimal_string(12345), "12345");
    assert_eq!(decimal_string(u64::MAX), "18446744073709551615");
}

#[test]
fn trim_strips_surrounding_whitespace() {
    assert_eq!(trim("  a b  "), "a b");
    assert_eq!(trim("\t x\r\n"), "x");
    assert_eq!(trim("   "), "");
    assert_eq!(trim(""), "");
}
