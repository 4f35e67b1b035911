use std::collections::HashSet;
use zenproxy::error::AppError;
use zenproxy::fetch::{
    fetch_proxies, fetch_response, list_all_proxies, proxy_to_json, FetchQuery, FetchResponse, ProxyListResponse,
    UserProxyListQuery,
};
use zenproxy::pool::ProxyPool;
use zenproxy::proxy::{PoolProxy, ProxyQualityInfo, ProxyStatus};
use zenproxy::risk::RiskScore;

fn proxy(id: &str) -> PoolProxy {
    PoolProxy {
        id: id.to_string(),
        subscription_id: "s1".to_string(),
        name: format!("name {id}"),
        proxy_type: "vmess".to_string(),
        server: "1.2.3.4".to_string(),
        port: 443,
        singbox_outbound: serde_json::Value::Null,
        status: ProxyStatus::Valid,
        local_port: Some(10002),
        error_count: 1,
        quality: Some(ProxyQualityInfo {
            ip_address: Some("5.6.7.8".to_string()),
            country: Some("US".to_string()),
            ip_type: Some("ISP".to_string()),
            is_residential: true,
            chatgpt_accessible: true,
            google_accessible: false,
            risk_score: RiskScore { bits: 0.1f64.to_bits() },
            risk_level: "Low".to_string(),
            checked_at: Some("t".to_string()),
            incomplete_retry_count: 2,
        }),
    }
}

fn query() -> FetchQuery {
    FetchQuery {
        api_key: Some("k".to_string()),
        chatgpt: false,
        google: false,
        residential: false,
        risk_max: None,
        country: None,
        proxy_type: None,
        count: None,
        proxy_id: None,
    }
}

fn list_query() -> UserProxyListQuery {
    UserProxyListQuery {
        api_key: None,
        page: None,
        per_page: None,
        search: None,
        status: None,
        proxy_type: None,
        quality: None,
        sort: None,
        dir: None,
    }
}

fn pool_of(n: usize) -> ProxyPool {
    let mut pool = ProxyPool::new();
    for i in 0..n {
        pool.add(proxy(&format!("p{i}")));
    }
    pool
}

fn ok(r: Result<FetchResponse, AppError>) -> FetchResponse {
    match r {
        Ok(resp) => resp,
        Err(e) => panic!("{e:?}"),
    }
}

fn listed(r: Result<ProxyListResponse, AppError>) -> ProxyListResponse {
    match r {
        Ok(resp) => resp,
        Err(e) => panic!("{e:?}"),
    }
}

#[test]
fn entries_tell_what_clients_may_know() {
    let e = proxy_to_json(&proxy("p0"));
    assert_eq!(e.id, "p0");
    assert_eq!(e.name, "name p0");
    assert_eq!(e.proxy_type, "vmess");
    assert_eq!(e.server, "1.2.3.4");
    assert_eq!((e.port, e.local_port, e.error_count), (443, Some(10002), 1));
    assert_eq!(e.status, "valid");
    let q = e.quality.unwrap();
    assert_eq!(q.ip_address.as_deref(), Some("5.6.7.8"));
    assert_eq!(q.country.as_deref(), Some("US"));
    assert_eq!(q.ip_type.as_deref(), Some("ISP"));
    assert!(q.is_residential && q.chatgpt && !q.google);
    assert_eq!(f64::from_bits(q.risk_score.bits), 0.1);
    assert_eq!(q.risk_level, "Low");
    let mut unchecked = proxy("p1");
    unchecked.quality = None;
    assert!(proxy_to_json(&unchecked).quality.is_none());
}

#[test]
fn one_proxy_is_fetched_by_default() {
    let r = ok(fetch_proxies(Ok(()), &pool_of(5), query()));
    assert_eq!(r.proxies.len(), 1);
    assert_eq!(r.count, Some(1));
    assert_eq!(r.message, None);
}

#[test]
fn several_proxies_are_fetched() {
    let r = ok(fetch_proxies(Ok(()), &pool_of(5), FetchQuery { count: Some(3), ..query() }));
    let ids: HashSet<String> = r.proxies.iter().map(|e| e.id.clone()).collect();
    assert_eq!((r.proxies.len(), ids.len(), r.count), (3, 3, Some(3)));
    let r = ok(fetch_proxies(Ok(()), &pool_of(5), FetchQuery { count: Some(50), ..query() }));
    assert_eq!((r.proxies.len(), r.count), (5, Some(5)));
}

#[test]
fn nothing_to_fetch_is_told() {
    let none = FetchQuery { country: Some("JP".to_string()), ..query() };
    let r = ok(fetch_proxies(Ok(()), &pool_of(5), none));
    assert!(r.proxies.is_empty());
    assert_eq!(r.count, None);
    assert_eq!(r.message.as_deref(), Some("No proxies match the given filters"));
    let r = ok(fetch_proxies(Ok(()), &pool_of(5), FetchQuery { count: Some(0), ..query() }));
    assert_eq!(r.message.as_deref(), Some("No proxies match the given filters"));
    assert_eq!(fetch_response(&Vec::new()).count, None);
}

#[test]
fn every_filter_reaches_the_pool() {
    let pool = pool_of(3);
    let asks = [
        FetchQuery { google: true, ..query() },
        FetchQuery { risk_max: Some(RiskScore { bits: 0.05f64.to_bits() }), ..query() },
        FetchQuery { proxy_type: Some("http".to_string()), ..query() },
    ];
    for ask in asks {
        assert!(ok(fetch_proxies(Ok(()), &pool, ask)).proxies.is_empty());
    }
    let fits = FetchQuery {
        chatgpt: true,
        residential: true,
        risk_max: Some(RiskScore { bits: 0.1f64.to_bits() }),
        country: Some("us".to_string()),
        proxy_type: Some("vmess".to_string()),
        ..query()
    };
    assert_eq!(ok(fetch_proxies(Ok(()), &pool, fits)).proxies.len(), 1);
}

#[test]
fn a_named_proxy_is_fetched_whatever_its_state() {
    let mut pool = pool_of(2);
    pool.set_status("p1", ProxyStatus::Invalid);
    pool.clear_local_port("p1");
    let named = FetchQuery { proxy_id: Some("p1".to_string()), google: true, ..query() };
    let r = ok(fetch_proxies(Ok(()), &pool, named));
    assert_eq!(r.proxies.len(), 1);
    assert_eq!(r.proxies[0].id, "p1");
    assert_eq!(r.proxies[0].status, "invalid");
    assert_eq!((r.count, r.message), (None, None));
}

#[test]
fn a_named_proxy_can_be_missing() {
    let named = FetchQuery { proxy_id: Some("nope".to_string()), ..query() };
    match fetch_proxies(Ok(()), &pool_of(2), named) {
        Err(AppError::NotFound(m)) => assert_eq!(m, "Proxy nope not found"),
        other => panic!("{other:?}"),
    }
}

#[test]
fn clients_who_are_not_let_in_get_their_error() {
    let refused = || AppError::Unauthorized("no key".to_string());
    match fetch_proxies(Err(refused()), &pool_of(2), query()) {
        Err(AppError::Unauthorized(m)) => assert_eq!(m, "no key"),
        other => panic!("{other:?}"),
    }
    match list_all_proxies(Err(refused()), &pool_of(2), list_query()) {
        Err(AppError::Unauthorized(m)) => assert_eq!(m, "no key"),
        other => panic!("{other:?}"),
    }
}

#[test]
fn the_list_answer_has_a_page_and_counts() {
    let mut pool = pool_of(6);
    pool.set_status("p1", ProxyStatus::Invalid);
    pool.set_status("p2", ProxyStatus::Untested);
    let mut plain = proxy("q0");
    plain.quality = None;
    pool.add(plain);
    let ask = UserProxyListQuery {
        status: Some("valid".to_string()),
        per_page: Some(2),
        page: Some(2),
        sort: Some("name".to_string()),
        dir: Some("desc".to_string()),
        ..list_query()
    };
    let r = listed(list_all_proxies(Ok(()), &pool, ask));
    assert_eq!((r.total, r.filtered_total, r.page, r.per_page), (7, 5, 2, 2));
    assert_eq!((r.valid, r.untested, r.invalid), (5, 1, 1));
    assert_eq!((r.quality_checked, r.chatgpt_accessible, r.google_accessible, r.residential), (6, 6, 0, 6));
    let ids: Vec<&str> = r.proxies.iter().map(|e| e.id.as_str()).collect();
    assert_eq!(ids, ["p4", "p3"]);
}

#[test]
fn every_list_condition_reaches_the_pool() {
    let pool = pool_of(4);
    let asks = [
        UserProxyListQuery { search: Some("name p2".to_string()), ..list_query() },
        UserProxyListQuery { proxy_type: Some("http".to_string()), ..list_query() },
        UserProxyListQuery { quality: Some("unchecked".to_string()), ..list_query() },
        list_query(),
    ];
    let totals: Vec<usize> =
        asks.into_iter().map(|q| listed(list_all_proxies(Ok(()), &pool, q)).filtered_total).collect();
    assert_eq!(totals, [1, 0, 0, 4]);
}
