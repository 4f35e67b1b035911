use zenproxy::listing::list_page;
use zenproxy::order::{compare_proxies, parse_descending, parse_sort_field, sort_proxies, SortField};
use zenproxy::proxy::{PoolProxy, ProxyQualityInfo, ProxyStatus};
use zenproxy::query::ProxyListQuery;
use zenproxy::risk::RiskScore;

fn some(s: &str) -> Option<String> {
    Some(s.to_string())
}

fn proxy(id: &str, name: &str) -> PoolProxy {
    PoolProxy {
        id: id.to_string(),
        subscription_id: "s".to_string(),
        name: name.to_string(),
        proxy_type: "vmess".to_string(),
        server: "h".to_string(),
        port: 1,
        singbox_outbound: serde_json::Value::Null,
        status: ProxyStatus::Valid,
        local_port: None,
        error_count: 0,
        quality: None,
    }
}

fn with_quality(mut p: PoolProxy, country: Option<&str>, risk: f64) -> PoolProxy {
    p.quality = Some(ProxyQualityInfo {
        ip_address: None,
        country: country.map(|c| c.to_string()),
        ip_type: None,
        is_residential: false,
        chatgpt_accessible: false,
        google_accessible: false,
        risk_score: RiskScore { bits: risk.to_bits() },
        risk_level: "Low".to_string(),
        checked_at: None,
        incomplete_retry_count: 0,
    });
    p
}

fn ids(proxies: &[PoolProxy]) -> Vec<&str> {
    proxies.iter().map(|p| p.id.as_str()).collect()
}

#[test]
fn sort_fields_read() {
    for (text, field) in [
        ("name", SortField::Name),
        ("type", SortField::Type),
        ("server", SortField::Server),
        ("status", SortField::Status),
        ("is_valid", SortField::Status),
        ("error_count", SortField::ErrorCount),
        ("country", SortField::Country),
        ("risk", SortField::Risk),
        ("other", SortField::Name),
        ("", SortField::Name),
    ] {
        assert_eq!(parse_sort_field(&some(text)), field);
    }
    assert_eq!(parse_sort_field(&None), SortField::Name);
    assert!(parse_descending(&some("desc")));
    assert!(!parse_descending(&some("asc")));
    assert!(!parse_descending(&some("DESC")));
    assert!(!parse_descending(&None));
}

#[test]
fn sorting_by_name_keeps_ties_in_order() {
    let given = || {
        vec![proxy("1", "b"), proxy("2", "a"), proxy("3", "b"), proxy("4", "B"), proxy("5", "a"), proxy("6", "ä")]
    };
    let mut up = given();
    sort_proxies(&mut up, &None, &None);
    assert_eq!(ids(&up), ["4", "2", "5", "1", "3", "6"]);
    let mut down = given();
    sort_proxies(&mut down, &some("name"), &some("desc"));
    assert_eq!(ids(&down), ["6", "1", "3", "2", "5", "4"]);
}

#[test]
fn sorting_by_server_goes_on_to_the_port() {
    let at = |id: &str, server: &str, port: u16| {
        let mut p = proxy(id, "n");
        p.server = server.to_string();
        p.port = port;
        p
    };
    let mut v = vec![at("1", "b", 1), at("2", "a", 443), at("3", "a", 80), at("4", "b", 0)];
    sort_proxies(&mut v, &some("server"), &some("asc"));
    assert_eq!(ids(&v), ["3", "2", "4", "1"]);
}

#[test]
fn sorting_by_status_and_errors() {
    let mut a = proxy("1", "n");
    a.status = ProxyStatus::Invalid;
    a.error_count = 2;
    let mut b = proxy("2", "n");
    b.status = ProxyStatus::Untested;
    b.error_count = 10;
    let c = proxy("3", "n");
    let mut v = vec![a, b, c];
    sort_proxies(&mut v, &some("status"), &None);
    assert_eq!(ids(&v), ["3", "2", "1"]);
    sort_proxies(&mut v, &some("is_valid"), &some("desc"));
    assert_eq!(ids(&v), ["1", "2", "3"]);
    sort_proxies(&mut v, &some("error_count"), &None);
    assert_eq!(ids(&v), ["3", "1", "2"]);
}

#[test]
fn sorting_by_country_puts_unknown_ones_under_zzz() {
    let mut v = vec![
        proxy("1", "n"),
        with_quality(proxy("2", "n"), Some("US"), 0.0),
        with_quality(proxy("3", "n"), None, 0.0),
        with_quality(proxy("4", "n"), Some("zzzz"), 0.0),
        with_quality(proxy("5", "n"), Some("jp"), 0.0),
    ];
    sort_proxies(&mut v, &some("country"), &None);
    assert_eq!(ids(&v), ["2", "5", "1", "3", "4"]);
}

#[test]
fn sorting_by_risk_puts_unchecked_ones_at_two() {
    let mut v = vec![
        proxy("1", "n"),
        with_quality(proxy("2", "n"), None, 0.5),
        with_quality(proxy("3", "n"), None, 2.5),
        with_quality(proxy("4", "n"), None, -0.0),
        with_quality(proxy("5", "n"), None, 0.0),
        with_quality(proxy("6", "n"), None, f64::NAN),
    ];
    sort_proxies(&mut v, &some("risk"), &None);
    assert_eq!(ids(&v), ["4", "5", "2", "1", "3", "6"]);
}

#[test]
fn sorting_by_type() {
    let mut v = vec![proxy("1", "n"), proxy("2", "n"), proxy("3", "n")];
    v[0].proxy_type = "vmess".to_string();
    v[1].proxy_type = "http".to_string();
    v[2].proxy_type = "trojan".to_string();
    sort_proxies(&mut v, &some("type"), &None);
    assert_eq!(ids(&v), ["2", "3", "1"]);
}

#[test]
fn sorting_agrees_with_a_stable_sort() {
    let names: Vec<String> = (0..97u32).map(|i| format!("n{}", (i * 37 + 11) % 13)).collect();
    let mut v: Vec<PoolProxy> =
        names.iter().enumerate().map(|(i, n)| proxy(&i.to_string(), n)).collect();
    let mut expected: Vec<(String, String)> =
        v.iter().map(|p| (p.id.clone(), p.name.clone())).collect();
    expected.sort_by(|a, b| b.1.cmp(&a.1));
    sort_proxies(&mut v, &some("name"), &some("desc"));
    let got: Vec<(String, String)> = v.iter().map(|p| (p.id.clone(), p.name.clone())).collect();
    assert_eq!(got, expected);
    sort_proxies(&mut v, &some("name"), &some("desc"));
    let again: Vec<(String, String)> = v.iter().map(|p| (p.id.clone(), p.name.clone())).collect();
    assert_eq!(again, expected);
}

#[test]
fn direction_turns_the_order() {
    let a = proxy("1", "a");
    let b = proxy("2", "b");
    assert_eq!(compare_proxies(&a, &b, SortField::Name, false), -1);
    assert_eq!(compare_proxies(&a, &b, SortField::Name, true), 1);
    assert_eq!(compare_proxies(&b, &a, SortField::Name, false), 1);
    assert_eq!(compare_proxies(&a, &a, SortField::Name, true), 0);
}

fn many(n: usize) -> Vec<PoolProxy> {
    (0..n).map(|i| proxy(&format!("{i:04}"), &format!("{i:04}"))).collect()
}

fn page(page: Option<usize>, per_page: Option<usize>) -> ProxyListQuery {
    ProxyListQuery { page, per_page, ..ProxyListQuery::default() }
}

#[test]
fn pages_default_to_the_first_fifty() {
    let r = list_page(many(120), &page(None, None));
    assert_eq!((r.total, r.page, r.per_page, r.proxies.len()), (120, 1, 50, 50));
    assert_eq!(r.proxies[0].id, "0000");
    assert_eq!(r.proxies[49].id, "0049");
}

#[test]
fn page_sizes_are_bounded() {
    let r = list_page(many(600), &page(Some(0), Some(0)));
    assert_eq!((r.page, r.per_page, r.proxies.len()), (1, 1, 1));
    let r = list_page(many(600), &page(Some(1), Some(10_000)));
    assert_eq!((r.page, r.per_page, r.proxies.len()), (1, 500, 500));
    let r = list_page(many(600), &page(Some(2), Some(500)));
    assert_eq!(r.proxies.len(), 100);
    assert_eq!(r.proxies[0].id, "0500");
}

#[test]
fn pages_cover_the_listing() {
    for size in [1usize, 3, 7, 10, 23, 24] {
        let mut seen: Vec<String> = Vec::new();
        let mut number = 1;
        loop {
            let r = list_page(many(23), &page(Some(number), Some(size)));
            assert_eq!(r.total, 23);
            assert!(r.proxies.len() <= size);
            if r.proxies.is_empty() {
                break;
            }
            seen.extend(r.proxies.iter().map(|p| p.id.clone()));
            number += 1;
        }
        let expected: Vec<String> = (0..23).map(|i| format!("{i:04}")).collect();
        assert_eq!(seen, expected);
    }
}

#[test]
fn pages_behind_the_last_are_empty() {
    let r = list_page(many(10), &page(Some(3), Some(5)));
    assert_eq!((r.total, r.proxies.len()), (10, 0));
    let r = list_page(many(10), &page(Some(usize::MAX), Some(500)));
    assert_eq!((r.total, r.page, r.proxies.len()), (10, usize::MAX, 0));
    let r = list_page(Vec::new(), &page(None, None));
    assert_eq!((r.total, r.proxies.len()), (0, 0));
}

#[test]
fn pages_show_selected_proxies() {
    let mut all = many(10);
    for (i, p) in all.iter_mut().enumerate() {
        if i % 2 == 0 {
            p.status = ProxyStatus::Invalid;
        }
    }
    let query = ProxyListQuery { status: some("invalid"), sort: some("name"), dir: some("desc"), ..page(None, Some(3)) };
    let r = list_page(all, &query);
    assert_eq!(r.total, 5);
    assert_eq!(ids(&r.proxies), ["0008", "0006", "0004"]);
}

#[test]
fn pages_of_one_walk_are_the_listing_where_proxies_tie() {
    let all = || -> Vec<PoolProxy> {
        (0..11u32).map(|i| proxy(&i.to_string(), if i % 2 == 0 { "even" } else { "odd" })).collect()
    };
    let mut sorted = all();
    sort_proxies(&mut sorted, &None, &None);
    let mut shown: Vec<PoolProxy> = Vec::new();
    for number in 1..=4 {
        shown.extend(list_page(all(), &page(Some(number), Some(3))).proxies);
    }
    assert_eq!(ids(&shown), ids(&sorted));
    assert_eq!(ids(&shown), ["0", "2", "4", "6", "8", "10", "1", "3", "5", "7", "9"]);
}
