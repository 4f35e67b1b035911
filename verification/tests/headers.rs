use axum::http::{HeaderMap, HeaderName, HeaderValue};
use zenproxy::clients::{
    client_or_error, get_or_create_client, internal_error, invalidate_relay_clients, proxy_or_error,
    RelayClients, CLIENT_MAX_IDLE_PER_HOST, CLIENT_TIMEOUT_SECS,
};
use zenproxy::error::AppError;
use zenproxy::headers::{
    checked_response_headers, proxy_has_header_texts, response_headers, skips_request_header,
    skips_response_header, HEADER_NAME_LIMIT,
};
use zenproxy::proxy::{PoolProxy, ProxyQualityInfo, ProxyStatus};
use zenproxy::request::{
    do_relay, parse_method, relay_with_method, request_or_error, RelayMethod, RequestError,
};
use zenproxy::risk::RiskScore;

fn proxy() -> PoolProxy {
    PoolProxy {
        id: "uuid-1".to_string(),
        subscription_id: "s".to_string(),
        name: "东京 A+1".to_string(),
        proxy_type: "vmess".to_string(),
        server: "h.example".to_string(),
        port: 8443,
        singbox_outbound: serde_json::Value::Null,
        status: ProxyStatus::Valid,
        local_port: Some(10001),
        error_count: 0,
        quality: None,
    }
}

fn with_quality(ip: Option<&str>, country: Option<&str>) -> PoolProxy {
    let mut p = proxy();
    p.quality = Some(ProxyQualityInfo {
        ip_address: ip.map(|s| s.to_string()),
        country: country.map(|s| s.to_string()),
        ip_type: None,
        is_residential: false,
        chatgpt_accessible: false,
        google_accessible: false,
        risk_score: RiskScore { bits: 0 },
        risk_level: "Low".to_string(),
        checked_at: None,
        incomplete_retry_count: 0,
    });
    p
}

fn map(lines: &[(&str, &str)]) -> HeaderMap {
    let mut m = HeaderMap::new();
    for (name, value) in lines {
        m.append(HeaderName::from_bytes(name.as_bytes()).unwrap(), HeaderValue::from_str(value).unwrap());
    }
    m
}

fn values(m: &HeaderMap, name: &str) -> Vec<String> {
    m.get_all(name).iter().map(|v| String::from_utf8(v.as_bytes().to_vec()).unwrap()).collect()
}

#[test]
fn hop_headers_are_known() {
    for name in ["host", "Host", "connection", "TRANSFER-ENCODING"] {
        assert!(skips_request_header(name), "{name}");
    }
    for name in ["authorization", "cookie", "hosts", "te", "upgrade", "keep-alive", ""] {
        assert!(!skips_request_header(name), "{name}");
    }
    for name in [
        "connection",
        "Transfer-Encoding",
        "keep-alive",
        "proxy-authenticate",
        "Proxy-Authorization",
        "te",
        "trailer",
        "Upgrade",
    ] {
        assert!(skips_response_header(name), "{name}");
    }
    for name in ["host", "set-cookie", "content-type", "tea", "trailers"] {
        assert!(!skips_response_header(name), "{name}");
    }
}

#[test]
fn the_response_tells_the_proxy() {
    let r = response_headers(&HeaderMap::new(), &proxy(), Some(3)).unwrap();
    assert_eq!(r.len(), 4);
    assert_eq!(values(&r, "x-proxy-id"), ["uuid-1"]);
    assert_eq!(values(&r, "x-proxy-name"), ["%E4%B8%9C%E4%BA%AC%20A%2B1"]);
    assert_eq!(values(&r, "x-proxy-server"), ["h.example:8443"]);
    assert_eq!(values(&r, "x-proxy-attempt"), ["3"]);
}

#[test]
fn the_attempt_is_told_only_where_there_is_one() {
    let r = response_headers(&HeaderMap::new(), &proxy(), None).unwrap();
    assert_eq!(r.len(), 3);
    assert!(values(&r, "x-proxy-attempt").is_empty());
}

#[test]
fn quality_is_told_where_it_can_be() {
    let r = response_headers(&HeaderMap::new(), &with_quality(Some("5.6.7.8"), Some("US")), None).unwrap();
    assert_eq!(values(&r, "x-proxy-ip"), ["5.6.7.8"]);
    assert_eq!(values(&r, "x-proxy-country"), ["US"]);
    let r = response_headers(&HeaderMap::new(), &with_quality(Some("bad\nip"), Some("日本")), None).unwrap();
    assert!(values(&r, "x-proxy-ip").is_empty());
    assert_eq!(values(&r, "x-proxy-country"), ["日本"]);
    let r = response_headers(&HeaderMap::new(), &with_quality(None, None), None).unwrap();
    assert_eq!(r.len(), 3);
}

#[test]
fn target_headers_are_passed_on() {
    let upstream = map(&[
        ("Content-Type", "text/html"),
        ("Connection", "close"),
        ("Set-Cookie", "a=1"),
        ("Set-Cookie", "b=2"),
        ("X-Proxy-Id", "forged"),
        ("X-Proxy-Id", "forged again"),
        ("X-Proxy-Country", "forged"),
        ("TE", "trailers"),
    ]);
    let r = response_headers(&upstream, &proxy(), None).unwrap();
    assert_eq!(values(&r, "content-type"), ["text/html"]);
    assert!(values(&r, "connection").is_empty());
    assert!(values(&r, "te").is_empty());
    assert_eq!(values(&r, "set-cookie"), ["a=1", "b=2"]);
    assert_eq!(values(&r, "x-proxy-id"), ["uuid-1"]);
    assert_eq!(values(&r, "x-proxy-country"), ["forged"]);
    assert_eq!(r.len(), 7);
}

#[test]
fn repeated_target_headers_keep_all_their_values() {
    let upstream = map(&[("set-cookie", "a=1"), ("vary", "x"), ("set-cookie", "b=2"), ("set-cookie", "a=1")]);
    let r = checked_response_headers(&upstream, &proxy(), None).unwrap();
    assert_eq!(values(&r, "set-cookie"), ["a=1", "b=2", "a=1"]);
    assert_eq!(values(&r, "vary"), ["x"]);
    assert_eq!(r.len(), 7);
}

#[test]
fn some_proxies_cannot_be_told() {
    assert!(proxy_has_header_texts(&proxy()));
    let mut p = proxy();
    p.id = "a\nb".to_string();
    assert!(!proxy_has_header_texts(&p));
    assert!(checked_response_headers(&HeaderMap::new(), &p, None).is_none());
    let mut p = proxy();
    p.server = "a\u{7f}".to_string();
    assert!(!proxy_has_header_texts(&p));
    let mut p = proxy();
    p.name = "a\nb\u{7f}".to_string();
    let r = checked_response_headers(&HeaderMap::new(), &p, Some(1)).unwrap();
    assert_eq!(values(&r, "x-proxy-name"), ["a%0Ab%7F"]);
}

/// As many names as a map holds when they do not collide.
const FULL: usize = 24576;

fn names(n: usize) -> HeaderMap {
    let mut m = HeaderMap::new();
    for i in 0..n {
        m.insert(HeaderName::from_bytes(format!("n{i}").as_bytes()).unwrap(), HeaderValue::from_static("v"));
    }
    m
}

#[test]
fn many_headers_are_passed_on() {
    for n in [HEADER_NAME_LIMIT - 6, HEADER_NAME_LIMIT + 1, FULL - 6] {
        let r = checked_response_headers(&names(n), &with_quality(Some("1"), Some("2")), Some(1)).unwrap();
        assert_eq!(r.keys_len(), n + 6);
    }
}

#[test]
fn more_headers_than_a_map_holds_are_refused() {
    assert!(checked_response_headers(&names(FULL), &proxy(), None).is_none());
    assert!(response_headers(&names(FULL - 2), &proxy(), None).is_none());
}

fn client(port: u16) -> reqwest::Client {
    match get_or_create_client(&mut RelayClients::new(), port) {
        Ok(c) => c,
        Err(e) => panic!("{e:?}"),
    }
}

#[test]
fn methods_read_in_any_case() {
    for (text, method) in [
        ("GET", RelayMethod::Get),
        ("post", RelayMethod::Post),
        ("Put", RelayMethod::Put),
        ("DELETE", RelayMethod::Delete),
        ("pAtCh", RelayMethod::Patch),
        ("head", RelayMethod::Head),
        ("OPTIONS", RelayMethod::Get),
        ("", RelayMethod::Get),
        ("po\u{17f}t", RelayMethod::Post),
        (" POST", RelayMethod::Get),
    ] {
        assert_eq!(parse_method(text), method, "{text:?}");
    }
}

#[test]
fn requests_carry_method_headers_and_body() {
    let user = map(&[
        ("Host", "zen.example"),
        ("Authorization", "Bearer target"),
        ("Cookie", "a=1"),
        ("Cookie", "b=2"),
        ("Connection", "keep-alive"),
        ("Transfer-Encoding", "chunked"),
        ("Content-Type", "application/json"),
    ]);
    let b = do_relay(&client(20001), "http://target.example/x?y=1", "post", &user, b"{\"k\":1}").unwrap();
    let request = b.build().unwrap();
    assert_eq!(request.method().as_str(), "POST");
    assert_eq!(request.url().as_str(), "http://target.example/x?y=1");
    assert_eq!(values(request.headers(), "authorization"), ["Bearer target"]);
    assert_eq!(values(request.headers(), "cookie"), ["a=1", "b=2"]);
    assert_eq!(values(request.headers(), "content-type"), ["application/json"]);
    assert_eq!(request.headers().len(), 4);
    assert_eq!(request.body().unwrap().as_bytes().unwrap(), b"{\"k\":1}");
}

#[test]
fn each_method_is_sent_as_itself() {
    for (method, name) in [
        (RelayMethod::Get, "GET"),
        (RelayMethod::Post, "POST"),
        (RelayMethod::Put, "PUT"),
        (RelayMethod::Delete, "DELETE"),
        (RelayMethod::Patch, "PATCH"),
        (RelayMethod::Head, "HEAD"),
    ] {
        let b = relay_with_method(&client(20001), "http://t/", method, &HeaderMap::new(), b"").unwrap();
        let request = b.build().unwrap();
        assert_eq!(request.method().as_str(), name);
        assert!(request.body().is_none());
        assert!(request.headers().is_empty());
    }
}

#[test]
fn credentials_in_the_url_stand_in_front() {
    let user = map(&[("Authorization", "Bearer target")]);
    let request = do_relay(&client(20001), "http://u:p@t/", "GET", &user, b"").unwrap().build().unwrap();
    assert_eq!(values(request.headers(), "authorization"), ["Basic dTpw", "Bearer target"]);
    assert_eq!(request.url().as_str(), "http://t/");
}

#[test]
fn a_url_that_does_not_parse_is_refused() {
    let cause = client(20001).get("not a url").build().unwrap_err().to_string();
    match do_relay(&client(20001), "not a url", "GET", &names(3), b"x") {
        Err(RequestError::Refused(m)) => assert_eq!(m, cause),
        other => panic!("{other:?}"),
    }
    match request_or_error(client(20001).get("data:,x").build()) {
        Err(RequestError::Refused(_)) => {}
        other => panic!("{other:?}"),
    }
    assert!(request_or_error(client(20001).get("http://t/").build()).is_ok());
}

#[test]
fn many_headers_are_sent_on() {
    for n in [HEADER_NAME_LIMIT - 1, HEADER_NAME_LIMIT + 1, FULL] {
        let b = do_relay(&client(20001), "http://t/", "GET", &names(n), b"").unwrap();
        assert_eq!(b.build().unwrap().headers().keys_len(), n);
    }
}

#[test]
fn more_headers_than_a_request_holds_are_refused() {
    match do_relay(&client(20001), "http://u:p@t/", "GET", &names(FULL), b"") {
        Err(RequestError::TooManyHeaders) => {}
        other => panic!("{other:?}"),
    }
}

#[test]
fn requests_are_sent_with_the_client() {
    let b = do_relay(&client(20033), "http://t/", "GET", &HeaderMap::new(), b"").unwrap();
    let (sender, _) = b.build_split();
    assert!(format!("{sender:?}").contains("127.0.0.1:20033"));
}

#[test]
fn clients_go_through_their_port() {
    let shown = format!("{:?}", client(20017));
    assert!(shown.contains("127.0.0.1:20017"), "{shown}");
    assert!(shown.contains(&format!("{CLIENT_TIMEOUT_SECS}s")), "{shown}");
    assert_eq!(CLIENT_TIMEOUT_SECS, 30);
    assert_eq!(CLIENT_MAX_IDLE_PER_HOST, 10);
    let other = format!("{:?}", client(20018));
    assert!(!other.contains("20017"), "{other}");
}

#[test]
fn clients_are_kept_until_invalidated() {
    let mut clients = RelayClients::new();
    for port in [1u16, 2, 3, 65535] {
        assert!(get_or_create_client(&mut clients, port).is_ok());
        assert!(get_or_create_client(&mut clients, port).is_ok());
    }
    invalidate_relay_clients(&mut clients, &[2, 65535, 9]);
    let shown = format!("{clients:?}");
    assert!(shown.contains("127.0.0.1:2") && shown.contains("127.0.0.1:65535"), "{shown}");
    assert!(!shown.contains("127.0.0.1:1") && !shown.contains("127.0.0.1:3"), "{shown}");
    invalidate_relay_clients(&mut clients, &[]);
    assert!(!format!("{clients:?}").contains("127.0.0.1"));
    match get_or_create_client(&mut clients, 2) {
        Ok(c) => assert!(format!("{c:?}").contains("127.0.0.1:2")),
        Err(e) => panic!("{e:?}"),
    }
}

#[test]
fn causes_stand_behind_headings() {
    match internal_error("Relay failed: ", "no route") {
        AppError::Internal(m) => assert_eq!(m, "Relay failed: no route"),
        other => panic!("{other:?}"),
    }
}

#[test]
fn errors_of_the_http_client_are_told() {
    let cause = reqwest::Proxy::all("http://").unwrap_err().to_string();
    match proxy_or_error(reqwest::Proxy::all("http://")) {
        Err(AppError::Internal(m)) => assert_eq!(m, format!("Proxy config error: {cause}")),
        other => panic!("{:?}", other.is_ok()),
    }
    assert!(proxy_or_error(reqwest::Proxy::all("http://127.0.0.1:1")).is_ok());
    let failing = || reqwest::Client::builder().user_agent("bad\nagent").build();
    let cause = failing().unwrap_err().to_string();
    match client_or_error(failing()) {
        Err(AppError::Internal(m)) => assert_eq!(m, format!("Client build error: {cause}")),
        other => panic!("{:?}", other.is_ok()),
    }
    assert!(client_or_error(reqwest::Client::builder().build()).is_ok());
}
