use netbird_loki_exporter::config::{Config, ConfigError, DEFAULT_CHECK_INTERVAL_SECS};
use netbird_loki_exporter::models::Event;
use netbird_loki_exporter::netbird::{is_success, FetchError, NetbirdClient, SourceReply};

fn joined() -> Event {
    Event {
        id: "1".to_string(),
        timestamp: "2023-01-01T00:00:00Z".to_string(),
        activity: "user_joined".to_string(),
        activity_code: "user.join".to_string(),
        initiator_id: Some("init1".to_string()),
        initiator_email: None,
        initiator_name: None,
        target_id: Some("target1".to_string()),
        account_id: Some("acc1".to_string()),
        meta: None,
    }
}

fn reply(status: u16, body: &str, decoded: Option<Vec<Event>>) -> Result<SourceReply, String> {
    Ok(SourceReply { status, body: body.to_string(), decoded })
}

#[test]
fn test_netbird_fetch_events() {
    let mock_events = vec![joined()];
    let client = NetbirdClient::new("http://127.0.0.1:8080".to_string(), "fake_token".to_string());
    assert_eq!(client.events_url(), "http://127.0.0.1:8080/api/events");
    assert_eq!(client.authorization(), "Token fake_token");
    let events = client
        .fetch_events(reply(200, "", Some(mock_events)))
        .expect("Failed to fetch events");

    assert_eq!(events.len(), 1);
    assert_eq!(events[0].id, "1");
    assert_eq!(events[0].activity, "user_joined");
}

#[test]
fn test_config_defaults() {
    let config = Config::from_env(None, None, Some("test_token".to_string()), None).unwrap();
    assert_eq!(config.loki_url, "http://loki:3100");
    assert_eq!(config.netbird_api_token, "test_token");
}

#[test]
fn config_defaults_for_the_rest() {
    let config = Config::from_env(None, None, Some("t".to_string()), None).unwrap();
    assert_eq!(config.netbird_api_url, "https://api.netbird.io");
    assert_eq!(config.check_interval_secs, 10);
    assert_eq!(DEFAULT_CHECK_INTERVAL_SECS, 10);
}

#[test]
fn config_takes_what_is_set() {
    let config = Config::from_env(
        Some("http://sink:9000/".to_string()),
        Some("https://nb.example.com/api//".to_string()),
        Some("secret-token".to_string()),
        Some("45".to_string()),
    )
    .unwrap();
    assert_eq!(config.loki_url, "http://sink:9000/");
    assert_eq!(config.netbird_api_url, "https://nb.example.com/api");
    assert_eq!(config.netbird_api_token, "secret-token");
    assert_eq!(config.check_interval_secs, 45);
}

#[test]
fn config_needs_the_token() {
    let r = Config::from_env(Some("x".to_string()), Some("y".to_string()), None, Some("5".to_string()));
    assert_eq!(r.err(), Some(ConfigError::MissingToken));
    assert_eq!(ConfigError::MissingToken.message(), "NETBIRD_API_TOKEN is required");
}

#[test]
fn unreadable_interval_falls_back_to_the_default() {
    for text in ["", "soon", "-5", "1.5", " 7", "18446744073709551616"] {
        let config =
            Config::from_env(None, None, Some("t".to_string()), Some(text.to_string())).unwrap();
        assert_eq!(config.check_interval_secs, 10, "{:?}", text);
    }
    let config = Config::from_env(None, None, Some("t".to_string()), Some("0".to_string())).unwrap();
    assert_eq!(config.check_interval_secs, 0);
}

#[test]
fn source_base_url_is_normalised() {
    for given in [
        "https://api.netbird.io",
        "https://api.netbird.io/",
        "https://api.netbird.io///",
        "https://api.netbird.io/api",
        "https://api.netbird.io/api/",
        "https://api.netbird.io/api/api",
    ] {
        let client = NetbirdClient::new(given.to_string(), "t".to_string());
        assert_eq!(client.events_url(), "https://api.netbird.io/api/events", "{:?}", given);
    }
    let client = NetbirdClient::new("https://x/apis".to_string(), "t".to_string());
    assert_eq!(client.events_url(), "https://x/apis/api/events");
}

#[test]
fn source_request_headers() {
    let client = NetbirdClient::new("https://x".to_string(), "abc".to_string());
    assert_eq!(client.authorization(), "Token abc");
    assert_eq!(client.accept(), "application/json");
}

#[test]
fn non_success_reply_is_source_unavailable() {
    let client = NetbirdClient::new("https://x".to_string(), "abc".to_string());
    for status in [199u16, 301, 401, 404, 500] {
        let r = client.fetch_events(reply(status, "denied", Some(vec![joined()])));
        assert_eq!(
            r.err(),
            Some(FetchError::SourceUnavailable { status: Some(status), body: "denied".to_string() })
        );
    }
}

#[test]
fn undecodable_body_is_source_malformed() {
    let client = NetbirdClient::new("https://x".to_string(), "abc".to_string());
    let r = client.fetch_events(reply(200, "<html>", None));
    assert_eq!(r.err(), Some(FetchError::SourceMalformed));
}

#[test]
fn no_reply_is_source_unavailable() {
    let client = NetbirdClient::new("https://x".to_string(), "abc".to_string());
    let r = client.fetch_events(Err("dns error".to_string()));
    assert_eq!(
        r.err(),
        Some(FetchError::SourceUnavailable { status: None, body: "dns error".to_string() })
    );
}

#[test]
fn events_come_back_in_the_order_of_the_reply() {
    let client = NetbirdClient::new("https://x".to_string(), "abc".to_string());
    let mut later = joined();
    later.id = "2".to_string();
    later.timestamp = "2022-01-01T00:00:00Z".to_string();
    let decoded = vec![joined(), later.clone(), joined()];
    let events = client.fetch_events(reply(200, "", Some(decoded.clone()))).unwrap();
    assert_eq!(events, decoded);
}

#[test]
fn empty_list_is_a_good_reply() {
    let client = NetbirdClient::new("https://x".to_string(), "abc".to_string());
    let events = client.fetch_events(reply(200, "[]", Some(Vec::new()))).unwrap();
    assert!(events.is_empty());
}

#[test]
fn success_codes() {
    assert!(is_success(200));
    assert!(is_success(204));
    assert!(is_success(299));
    assert!(!is_success(199));
    assert!(!is_success(300));
    assert!(!is_success(0));
    assert!(!is_success(u16::MAX));
}

#[test]
fn fetch_errors_in_words() {
    assert_eq!(
        FetchError::SourceUnavailable { status: Some(401), body: "no".to_string() }.message(),
        "Netbird API Error: 401 - no"
    );
    assert_eq!(
        FetchError::SourceUnavailable { status: None, body: "dns".to_string() }.message(),
        "Failed to send request to Netbird API: dns"
    );
    assert_eq!(FetchError::SourceMalformed.message(), "Failed to parse Netbird API response");
}
