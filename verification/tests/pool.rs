use std::collections::HashMap;
use std::collections::HashSet;
use zenproxy::json::{parse_or_null, parse_retry_count, read_retry_count};
use zenproxy::pool::ProxyPool;
use zenproxy::proxy::{PoolProxy, ProxyQuality, ProxyQualityInfo, ProxyRow, ProxyStatus};
use zenproxy::query::{ProxyFilter, ProxyListQuery};
use zenproxy::risk::RiskScore;
use zenproxy::sample::offer;

fn risk(x: f64) -> RiskScore {
    RiskScore { bits: x.to_bits() }
}

fn proxy(id: &str) -> PoolProxy {
    PoolProxy {
        id: id.to_string(),
        subscription_id: "s1".to_string(),
        name: format!("name {id}"),
        proxy_type: "vmess".to_string(),
        server: "1.2.3.4".to_string(),
        port: 443,
        singbox_outbound: parse_or_null("{\"type\":\"vmess\"}"),
        status: ProxyStatus::Valid,
        local_port: Some(10001),
        error_count: 0,
        quality: None,
    }
}

fn quality(chatgpt: bool, google: bool, residential: bool) -> ProxyQualityInfo {
    ProxyQualityInfo {
        ip_address: None,
        country: None,
        ip_type: None,
        is_residential: residential,
        chatgpt_accessible: chatgpt,
        google_accessible: google,
        risk_score: risk(0.0),
        risk_level: "Low".to_string(),
        checked_at: None,
        incomplete_retry_count: 0,
    }
}

fn pool_of(n: usize) -> ProxyPool {
    let mut pool = ProxyPool::new();
    for i in 0..n {
        pool.add(proxy(&format!("p{i}")));
    }
    pool
}

fn id_set(proxies: &[PoolProxy]) -> HashSet<String> {
    proxies.iter().map(|p| p.id.clone()).collect()
}

#[test]
fn added_proxies_are_found() {
    let mut pool = ProxyPool::new();
    assert_eq!(pool.count(), 0);
    assert!(pool.get("p0").is_none());
    pool.add(proxy("p0"));
    pool.add(proxy("p1"));
    let found = pool.get("p0").unwrap();
    assert_eq!(found.id, "p0");
    assert_eq!(found.name, "name p0");
    assert_eq!(found.singbox_outbound, parse_or_null("{\"type\": \"vmess\"}"));
    assert_eq!(pool.count(), 2);
    let mut other = proxy("p0");
    other.name = "renamed".to_string();
    pool.add(other);
    assert_eq!(pool.count(), 2);
    assert_eq!(pool.get("p0").unwrap().name, "renamed");
    pool.remove("p0");
    pool.remove("absent");
    assert!(pool.get("p0").is_none());
    assert_eq!(pool.get("p1").unwrap().name, "name p1");
    assert_eq!(pool.count(), 1);
}

#[test]
fn all_proxies_are_listed_once() {
    let pool = pool_of(30);
    let all = pool.get_all();
    assert_eq!(all.len(), 30);
    assert_eq!(id_set(&all).len(), 30);
}

#[test]
fn valid_proxies_are_listed_and_counted() {
    let mut pool = pool_of(10);
    pool.set_status("p3", ProxyStatus::Invalid);
    pool.set_status("p4", ProxyStatus::Untested);
    let valid = id_set(&pool.get_valid_proxies());
    assert_eq!(valid.len(), 8);
    assert!(!valid.contains("p3") && !valid.contains("p4"));
    assert_eq!(pool.count_valid(), 8);
}

#[test]
fn validation_counts_errors() {
    let mut pool = pool_of(2);
    pool.set_status("p0", ProxyStatus::Invalid);
    pool.set_status("p0", ProxyStatus::Invalid);
    assert_eq!(pool.get("p0").unwrap().error_count, 2);
    assert_eq!(pool.get("p0").unwrap().status, ProxyStatus::Invalid);
    pool.set_status("p0", ProxyStatus::Untested);
    assert_eq!(pool.get("p0").unwrap().error_count, 2);
    assert_eq!(pool.get("p0").unwrap().status, ProxyStatus::Untested);
    pool.set_status("p0", ProxyStatus::Valid);
    assert_eq!(pool.get("p0").unwrap().error_count, 0);
    assert_eq!(pool.get("p1").unwrap().error_count, 0);
    pool.set_status("absent", ProxyStatus::Valid);
    assert_eq!(pool.count(), 2);
}

#[test]
fn failures_are_counted() {
    let mut pool = pool_of(1);
    pool.increment_error("p0");
    pool.increment_error("p0");
    pool.increment_error("absent");
    assert_eq!(pool.get("p0").unwrap().error_count, 2);
    assert_eq!(pool.get("p0").unwrap().status, ProxyStatus::Valid);
    let mut last = proxy("p1");
    last.error_count = u32::MAX;
    pool.add(last);
    pool.increment_error("p1");
    assert_eq!(pool.get("p1").unwrap().error_count, 0);
}

#[test]
fn local_ports_are_set_and_cleared() {
    let mut pool = pool_of(3);
    pool.set_local_port("p0", 20001);
    assert_eq!(pool.get("p0").unwrap().local_port, Some(20001));
    assert_eq!(pool.get("p1").unwrap().local_port, Some(10001));
    pool.clear_local_port("p1");
    assert_eq!(pool.get("p1").unwrap().local_port, None);
    pool.set_local_port("absent", 1);
    pool.clear_local_port("absent");
    assert_eq!(pool.count(), 3);
    pool.clear_all_local_ports();
    for p in pool.get_all() {
        assert_eq!(p.local_port, None);
    }
    assert!(pool.filter_proxies(&ProxyFilter::default()).is_empty());
    assert!(pool.pick_random(&ProxyFilter::default(), 5).is_empty());
}

#[test]
fn quality_and_config_are_updated() {
    let mut pool = pool_of(2);
    pool.set_quality("p0", quality(true, false, true));
    let q = pool.get("p0").unwrap().quality.unwrap();
    assert!(q.chatgpt_accessible && !q.google_accessible && q.is_residential);
    assert!(pool.get("p1").unwrap().quality.is_none());
    pool.update_proxy_config("p1", "new name", parse_or_null("[1,2]"));
    let p = pool.get("p1").unwrap();
    assert_eq!(p.name, "new name");
    assert_eq!(p.singbox_outbound.to_string(), "[1,2]");
    assert_eq!(p.server, "1.2.3.4");
    pool.set_quality("absent", quality(true, true, true));
    pool.update_proxy_config("absent", "x", parse_or_null("1"));
    assert_eq!(pool.count(), 2);
}

#[test]
fn subscriptions_are_removed() {
    let mut pool = pool_of(4);
    for i in 4..7 {
        let mut p = proxy(&format!("p{i}"));
        p.subscription_id = "s2".to_string();
        pool.add(p);
    }
    pool.remove_by_subscription("s1");
    let left = id_set(&pool.get_all());
    assert_eq!(left, ["p4", "p5", "p6"].iter().map(|s| s.to_string()).collect());
    pool.remove_by_subscription("s1");
    pool.remove_by_subscription("absent");
    assert_eq!(pool.count(), 3);
}

#[test]
fn stats_add_up() {
    let mut pool = pool_of(6);
    pool.set_status("p0", ProxyStatus::Invalid);
    pool.set_status("p1", ProxyStatus::Untested);
    pool.set_status("p2", ProxyStatus::Untested);
    pool.set_quality("p0", quality(true, true, false));
    pool.set_quality("p3", quality(true, false, false));
    pool.set_quality("p4", quality(false, false, true));
    let s = pool.stats();
    assert_eq!((s.total, s.valid, s.untested, s.invalid), (6, 3, 2, 1));
    assert_eq!(s.quality_checked, 3);
    assert_eq!((s.chatgpt_accessible, s.google_accessible, s.residential), (2, 1, 1));
    let none = ProxyPool::new().stats();
    assert_eq!((none.total, none.valid, none.quality_checked), (0, 0, 0));
}

#[test]
fn filters_select_from_the_pool() {
    let mut pool = pool_of(5);
    pool.set_status("p0", ProxyStatus::Invalid);
    pool.clear_local_port("p1");
    pool.set_quality("p2", quality(true, false, false));
    assert_eq!(id_set(&pool.filter_proxies(&ProxyFilter::default())).len(), 3);
    let chatgpt = ProxyFilter { chatgpt: true, ..ProxyFilter::default() };
    assert_eq!(id_set(&pool.filter_proxies(&chatgpt)), HashSet::from(["p2".to_string()]));
}

#[test]
fn random_choices_are_distinct_and_bounded() {
    let mut pool = pool_of(20);
    pool.set_status("p7", ProxyStatus::Invalid);
    let open = ProxyFilter::default();
    for count in [0usize, 1, 2, 10, 19, 20, 1000, usize::MAX] {
        let chosen = pool.pick_random(&open, count);
        assert_eq!(chosen.len(), count.min(19));
        let ids = id_set(&chosen);
        assert_eq!(ids.len(), chosen.len());
        assert!(!ids.contains("p7"));
    }
    assert_eq!(id_set(&pool.pick_random(&open, 19)), id_set(&pool.filter_proxies(&open)));
}

#[test]
fn every_proxy_is_chosen_about_equally_often() {
    let pool = pool_of(8);
    let mut seen: HashMap<String, usize> = HashMap::new();
    for _ in 0..4000 {
        for p in pool.pick_random(&ProxyFilter::default(), 2) {
            *seen.entry(p.id).or_insert(0) += 1;
        }
    }
    assert_eq!(seen.len(), 8);
    for n in seen.values() {
        assert!(*n > 800 && *n < 1200, "{seen:?}");
    }
}

#[test]
fn draws_fill_and_replace() {
    let mut reservoir: Vec<PoolProxy> = Vec::new();
    offer(&mut reservoir, 2, proxy("a"), 0);
    offer(&mut reservoir, 2, proxy("b"), 0);
    offer(&mut reservoir, 2, proxy("c"), 2);
    assert_eq!(reservoir.iter().map(|p| p.id.as_str()).collect::<Vec<_>>(), ["a", "b"]);
    offer(&mut reservoir, 2, proxy("d"), 1);
    assert_eq!(reservoir.iter().map(|p| p.id.as_str()).collect::<Vec<_>>(), ["a", "d"]);
    offer(&mut reservoir, 2, proxy("e"), 0);
    assert_eq!(reservoir.iter().map(|p| p.id.as_str()).collect::<Vec<_>>(), ["e", "d"]);
}

#[test]
fn the_pool_is_listed_in_pages() {
    let mut pool = pool_of(12);
    pool.set_status("p1", ProxyStatus::Invalid);
    let query = ProxyListQuery {
        status: Some("valid".to_string()),
        per_page: Some(4),
        page: Some(2),
        ..ProxyListQuery::default()
    };
    let r = pool.list_proxies(&query);
    assert_eq!((r.total, r.page, r.per_page), (11, 2, 4));
    let ids: Vec<&str> = r.proxies.iter().map(|p| p.id.as_str()).collect();
    assert_eq!(ids, ["p3", "p4", "p5", "p6"]);
}

fn all_pages(pool: &ProxyPool, sort: &str, dir: &str, size: usize) -> Vec<PoolProxy> {
    let ask = |page: usize| ProxyListQuery {
        page: Some(page),
        per_page: Some(size),
        sort: Some(sort.to_string()),
        dir: Some(dir.to_string()),
        ..ProxyListQuery::default()
    };
    let total = pool.count();
    let count = (total + size - 1) / size;
    let mut shown = Vec::new();
    for page in 1..=count {
        let r = pool.list_proxies(&ask(page));
        assert_eq!((r.total, r.page, r.per_page), (total, page, size));
        let expected = if page < count { size } else { total - (count - 1) * size };
        assert_eq!(r.proxies.len(), expected);
        shown.extend(r.proxies);
    }
    assert!(pool.list_proxies(&ask(count + 1)).proxies.is_empty());
    assert!(pool.list_proxies(&ask(usize::MAX)).proxies.is_empty());
    shown
}

#[test]
fn the_pages_of_several_calls_cover_the_pool() {
    let pool = pool_of(23);
    let mut expected: Vec<String> = (0..23).map(|i| format!("name p{i}")).collect();
    expected.sort();
    for size in [1usize, 4, 22, 23, 24] {
        let names: Vec<String> = all_pages(&pool, "name", "asc", size).into_iter().map(|p| p.name).collect();
        assert_eq!(names, expected);
    }
    expected.reverse();
    let names: Vec<String> = all_pages(&pool, "name", "desc", 5).into_iter().map(|p| p.name).collect();
    assert_eq!(names, expected);
    assert!(all_pages(&ProxyPool::new(), "name", "asc", 5).is_empty());
}

#[test]
fn the_pages_of_several_calls_are_in_order_where_proxies_tie() {
    let mut pool = pool_of(20);
    for i in 0..20 {
        for _ in 0..i % 3 {
            pool.increment_error(&format!("p{i}"));
        }
    }
    let shown = all_pages(&pool, "error_count", "desc", 6);
    assert_eq!(shown.len(), 20);
    assert!(shown.windows(2).all(|w| w[0].error_count >= w[1].error_count));
}

fn row(id: &str) -> ProxyRow {
    ProxyRow {
        id: id.to_string(),
        subscription_id: "s".to_string(),
        name: "n".to_string(),
        proxy_type: "trojan".to_string(),
        server: "h".to_string(),
        port: 443,
        config_json: "{\"server_port\": 443}".to_string(),
        is_valid: false,
        local_port: None,
        error_count: 3,
        last_validated: None,
    }
}

fn stored_quality(id: &str, level: &str, extra: Option<&str>) -> ProxyQuality {
    ProxyQuality {
        proxy_id: id.to_string(),
        ip_address: Some("9.9.9.9".to_string()),
        country: Some("JP".to_string()),
        ip_type: None,
        is_residential: true,
        chatgpt_accessible: false,
        google_accessible: true,
        risk_score: risk(0.25),
        risk_level: level.to_string(),
        extra_json: extra.map(|s| s.to_string()),
        checked_at: "2026-03-01".to_string(),
    }
}

#[test]
fn stored_rows_are_loaded() {
    let mut pool = ProxyPool::new();
    pool.add(proxy("kept"));
    let mut valid = row("a");
    valid.is_valid = true;
    valid.last_validated = Some("t".to_string());
    valid.local_port = Some(10002);
    let mut invalid = row("b");
    invalid.last_validated = Some("t".to_string());
    let untested = row("c");
    let qualities = vec![
        stored_quality("a", "old", None),
        stored_quality("a", "new", Some("{\"incomplete_retry_count\": 4}")),
        stored_quality("zz", "unused", None),
    ];
    pool.load_from_db(vec![valid, invalid, untested], qualities);
    assert_eq!(pool.count(), 4);
    let a = pool.get("a").unwrap();
    assert_eq!(a.status, ProxyStatus::Valid);
    assert_eq!((a.port, a.local_port, a.error_count), (443, Some(10002), 3));
    assert_eq!(a.singbox_outbound.to_string(), "{\"server_port\":443}");
    let q = a.quality.unwrap();
    assert_eq!(q.risk_level, "new");
    assert_eq!(q.incomplete_retry_count, 4);
    assert_eq!(q.checked_at.as_deref(), Some("2026-03-01"));
    assert_eq!(pool.get("b").unwrap().status, ProxyStatus::Invalid);
    assert_eq!(pool.get("c").unwrap().status, ProxyStatus::Untested);
    assert!(pool.get("b").unwrap().quality.is_none());
    assert_eq!(pool.get("kept").unwrap().name, "name kept");
}

#[test]
fn loading_again_changes_nothing() {
    let rows = || {
        let mut again = row("a");
        again.name = "later".to_string();
        vec![row("a"), row("b"), again]
    };
    let mut pool = ProxyPool::new();
    pool.load_from_db(rows(), Vec::new());
    assert_eq!(pool.get("a").unwrap().name, "later");
    pool.load_from_db(rows(), Vec::new());
    assert_eq!(pool.count(), 2);
    assert_eq!(pool.get("a").unwrap().name, "later");
    assert_eq!(pool.get("b").unwrap().name, "n");
}

#[test]
fn stored_numbers_keep_their_low_bits() {
    let mut odd = row("a");
    odd.port = 65536 + 80;
    odd.local_port = Some(-1);
    odd.error_count = -1;
    odd.config_json = "not json".to_string();
    let mut pool = ProxyPool::new();
    pool.load_from_db(vec![odd], Vec::new());
    let p = pool.get("a").unwrap();
    assert_eq!((p.port, p.local_port, p.error_count), (80, Some(65535), u32::MAX));
    assert!(p.singbox_outbound.is_null());
}

#[test]
fn retry_counts_read() {
    let read = |s: &str| parse_retry_count(&Some(s.to_string()));
    assert_eq!(parse_retry_count(&None), 0);
    assert_eq!(read("{\"incomplete_retry_count\": 7}"), 7);
    assert_eq!(read("{\"incomplete_retry_count\": 254}"), 254);
    assert_eq!(read("{\"incomplete_retry_count\": 255}"), 255);
    assert_eq!(read("{\"incomplete_retry_count\": 256}"), 255);
    assert_eq!(read("{\"incomplete_retry_count\": 18446744073709551615}"), 255);
    assert_eq!(read("{\"incomplete_retry_count\": -1}"), 0);
    assert_eq!(read("{\"incomplete_retry_count\": 1.5}"), 0);
    assert_eq!(read("{\"incomplete_retry_count\": \"3\"}"), 0);
    assert_eq!(read("{}"), 0);
    assert_eq!(read("[1]"), 0);
    assert_eq!(read("{"), 0);
    assert_eq!(read_retry_count(&parse_or_null("{\"incomplete_retry_count\": 9}")), 9);
}

#[test]
fn what_is_no_document_is_null() {
    assert!(parse_or_null("").is_null());
    assert!(parse_or_null("{]").is_null());
    assert!(parse_or_null("null").is_null());
    assert_eq!(parse_or_null(" {\"a\": [true, 1]} ").to_string(), "{\"a\":[true,1]}");
}

#[test]
fn stored_quality_is_carried_over() {
    let info = ProxyQualityInfo::from(stored_quality("a", "Low", Some("{\"incomplete_retry_count\":300}")));
    assert_eq!(info.ip_address.as_deref(), Some("9.9.9.9"));
    assert_eq!(info.country.as_deref(), Some("JP"));
    assert_eq!(info.ip_type, None);
    assert!(info.is_residential && !info.chatgpt_accessible && info.google_accessible);
    assert_eq!(f64::from_bits(info.risk_score.bits), 0.25);
    assert_eq!(info.risk_level, "Low");
    assert_eq!(info.checked_at.as_deref(), Some("2026-03-01"));
    assert_eq!(info.incomplete_retry_count, 255);
}
