use zenproxy::proxy::{PoolProxy, ProxyQualityInfo, ProxyStatus};
use zenproxy::query::{
    deserialize_opt_usize, present_parameter, proxy_matches_filter, proxy_matches_list_query, ProxyFilter,
    ProxyListQuery,
};
use zenproxy::risk::RiskScore;
use zenproxy::text::NumberError;

fn risk(x: f64) -> RiskScore {
    RiskScore { bits: x.to_bits() }
}

fn quality() -> ProxyQualityInfo {
    ProxyQualityInfo {
        ip_address: Some("5.6.7.8".to_string()),
        country: Some("US".to_string()),
        ip_type: Some("ISP".to_string()),
        is_residential: true,
        chatgpt_accessible: true,
        google_accessible: true,
        risk_score: risk(0.1),
        risk_level: "Low".to_string(),
        checked_at: None,
        incomplete_retry_count: 0,
    }
}

fn proxy() -> PoolProxy {
    PoolProxy {
        id: "p1".to_string(),
        subscription_id: "s1".to_string(),
        name: "Tokyo Node".to_string(),
        proxy_type: "vmess".to_string(),
        server: "Example.COM".to_string(),
        port: 443,
        singbox_outbound: serde_json::Value::Null,
        status: ProxyStatus::Valid,
        local_port: Some(10002),
        error_count: 0,
        quality: Some(quality()),
    }
}

fn open() -> ProxyFilter {
    ProxyFilter::default()
}

#[test]
fn status_weights() {
    assert_eq!(ProxyStatus::Valid.sort_weight(), 0);
    assert_eq!(ProxyStatus::Untested.sort_weight(), 1);
    assert_eq!(ProxyStatus::Invalid.sort_weight(), 2);
    assert_eq!(ProxyStatus::Valid.as_str(), "valid");
    assert_eq!(ProxyStatus::Untested.as_str(), "untested");
    assert_eq!(ProxyStatus::Invalid.as_str(), "invalid");
}

#[test]
fn open_filter_passes_usable_proxies() {
    assert!(proxy_matches_filter(&proxy(), &open()));
    let mut p = proxy();
    p.quality = None;
    assert!(proxy_matches_filter(&p, &open()));
}

#[test]
fn unusable_proxies_pass_no_filter() {
    for status in [ProxyStatus::Untested, ProxyStatus::Invalid] {
        let mut p = proxy();
        p.status = status;
        assert!(!proxy_matches_filter(&p, &open()));
    }
    let mut p = proxy();
    p.local_port = None;
    assert!(!proxy_matches_filter(&p, &open()));
}

#[test]
fn unchecked_proxies_fail_quality_conditions() {
    let mut p = proxy();
    p.quality = None;
    assert!(!proxy_matches_filter(&p, &ProxyFilter { chatgpt: true, ..open() }));
    assert!(!proxy_matches_filter(&p, &ProxyFilter { google: true, ..open() }));
    assert!(!proxy_matches_filter(&p, &ProxyFilter { residential: true, ..open() }));
    assert!(!proxy_matches_filter(&p, &ProxyFilter { risk_max: Some(risk(1.0)), ..open() }));
    assert!(!proxy_matches_filter(&p, &ProxyFilter { country: Some("US".to_string()), ..open() }));
}

#[test]
fn each_quality_condition_decides() {
    let asks = [
        ProxyFilter { chatgpt: true, ..open() },
        ProxyFilter { google: true, ..open() },
        ProxyFilter { residential: true, ..open() },
    ];
    for (i, filter) in asks.iter().enumerate() {
        let mut q = quality();
        assert!(proxy_matches_filter(&proxy(), filter));
        match i {
            0 => q.chatgpt_accessible = false,
            1 => q.google_accessible = false,
            _ => q.is_residential = false,
        }
        let mut p = proxy();
        p.quality = Some(q);
        assert!(!proxy_matches_filter(&p, filter));
        assert!(proxy_matches_filter(&p, &open()));
    }
}

#[test]
fn risk_limit_is_inclusive() {
    let at = |max: f64| ProxyFilter { risk_max: Some(risk(max)), ..open() };
    assert!(proxy_matches_filter(&proxy(), &at(0.1)));
    assert!(proxy_matches_filter(&proxy(), &at(1.0)));
    assert!(!proxy_matches_filter(&proxy(), &at(0.09)));
    assert!(!proxy_matches_filter(&proxy(), &at(f64::NAN)));
}

#[test]
fn country_matches_in_any_case() {
    let in_country = |c: &str| ProxyFilter { country: Some(c.to_string()), ..open() };
    assert!(proxy_matches_filter(&proxy(), &in_country("US")));
    assert!(proxy_matches_filter(&proxy(), &in_country("us")));
    assert!(!proxy_matches_filter(&proxy(), &in_country("JP")));
    assert!(!proxy_matches_filter(&proxy(), &in_country("")));
    let mut q = quality();
    q.country = None;
    let mut p = proxy();
    p.quality = Some(q);
    assert!(!proxy_matches_filter(&p, &in_country("US")));
}

#[test]
fn type_matches_exactly() {
    let of_type = |t: &str| ProxyFilter { proxy_type: Some(t.to_string()), ..open() };
    assert!(proxy_matches_filter(&proxy(), &of_type("vmess")));
    assert!(!proxy_matches_filter(&proxy(), &of_type("VMess")));
    assert!(!proxy_matches_filter(&proxy(), &of_type("")));
}

#[test]
fn count_and_id_have_no_part_in_the_filter() {
    let f = ProxyFilter { count: Some(0), proxy_id: Some("other".to_string()), ..open() };
    assert!(proxy_matches_filter(&proxy(), &f));
}

fn searching(s: &str) -> ProxyListQuery {
    ProxyListQuery { search: Some(s.to_string()), ..ProxyListQuery::default() }
}

#[test]
fn search_looks_at_name_server_and_address() {
    assert!(proxy_matches_list_query(&proxy(), &searching("tokyo")));
    assert!(proxy_matches_list_query(&proxy(), &searching("  EXAMPLE.com ")));
    assert!(proxy_matches_list_query(&proxy(), &searching("6.7")));
    assert!(!proxy_matches_list_query(&proxy(), &searching("vmess")));
    assert!(!proxy_matches_list_query(&proxy(), &searching("p1")));
    let mut p = proxy();
    p.quality = None;
    assert!(!proxy_matches_list_query(&p, &searching("6.7")));
}

#[test]
fn blank_search_finds_all() {
    for s in ["", " ", "\t\u{3000}"] {
        assert!(proxy_matches_list_query(&proxy(), &searching(s)));
    }
}

#[test]
fn status_condition_names_the_status() {
    let with = |s: &str| ProxyListQuery { status: Some(s.to_string()), ..ProxyListQuery::default() };
    for (name, status) in [
        ("valid", ProxyStatus::Valid),
        ("untested", ProxyStatus::Untested),
        ("invalid", ProxyStatus::Invalid),
    ] {
        let mut p = proxy();
        p.status = status;
        for asked in ["valid", "untested", "invalid", "Valid", "", "other"] {
            assert_eq!(proxy_matches_list_query(&p, &with(asked)), asked == name);
        }
    }
}

#[test]
fn empty_type_condition_is_none() {
    let with = |t: &str| ProxyListQuery { proxy_type: Some(t.to_string()), ..ProxyListQuery::default() };
    assert!(proxy_matches_list_query(&proxy(), &with("")));
    assert!(proxy_matches_list_query(&proxy(), &with("vmess")));
    assert!(!proxy_matches_list_query(&proxy(), &with("trojan")));
}

#[test]
fn quality_condition_names_a_quality() {
    let with = |q: &str| ProxyListQuery { quality: Some(q.to_string()), ..ProxyListQuery::default() };
    let mut unchecked = proxy();
    unchecked.quality = None;
    for (asked, checked_fits, unchecked_fits) in [
        ("chatgpt", true, false),
        ("google", true, false),
        ("residential", true, false),
        ("unchecked", false, true),
        ("anything", true, true),
        ("", true, true),
    ] {
        assert_eq!(proxy_matches_list_query(&proxy(), &with(asked)), checked_fits, "{asked}");
        assert_eq!(proxy_matches_list_query(&unchecked, &with(asked)), unchecked_fits, "{asked}");
    }
}

#[test]
fn number_parameters_read() {
    let read = |s: &str| deserialize_opt_usize(Some(s.to_string()));
    assert_eq!(deserialize_opt_usize(None), Ok(None));
    assert_eq!(read(""), Ok(None));
    assert_eq!(read("  "), Ok(None));
    assert_eq!(read(" 25 "), Ok(Some(25)));
    assert_eq!(read("0"), Ok(Some(0)));
    assert_eq!(read("-1"), Err(NumberError::InvalidDigit));
    assert_eq!(read("2x"), Err(NumberError::InvalidDigit));
    assert_eq!(read("99999999999999999999999"), Err(NumberError::TooLarge));
}

#[test]
fn blank_parameters_are_absent() {
    assert_eq!(present_parameter(None), None);
    assert_eq!(present_parameter(Some(" \t")), None);
    assert_eq!(present_parameter(Some(" 0.5 ")), Some("0.5"));
}
