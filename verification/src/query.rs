//! What clients ask of the pool, and which proxies fit.

use crate::proxy::{PoolProxy, ProxyStatus, ProxyView, QualityView};
use crate::risk::RiskScore;
use crate::text::{
    ascii_lower, contains_text, found_at, has_text, is_space, law_trimming_is_final, opt_text, parse_usize,
    parsed_number, same_ignoring_ascii_case, same_text, to_ascii_lower, trim_text, trimmed, NumberError,
};
use vstd::prelude::*;
use vstd::string::*;

verus! {

/// Which proxies a client can be given.
#[derive(Debug)]
pub struct ProxyFilter {
    pub chatgpt: bool,
    pub google: bool,
    pub residential: bool,
    pub risk_max: Option<RiskScore>,
    pub country: Option<String>,
    pub proxy_type: Option<String>,
    pub count: Option<usize>,
    pub proxy_id: Option<String>,
}

/// [`ProxyFilter`] with its texts as sequences of characters.
pub struct FilterView {
    pub chatgpt: bool,
    pub google: bool,
    pub residential: bool,
    pub risk_max: Option<RiskScore>,
    pub country: Option<Seq<char>>,
    pub proxy_type: Option<Seq<char>>,
    pub count: Option<usize>,
    pub proxy_id: Option<Seq<char>>,
}

impl View for ProxyFilter {
    type V = FilterView;

    open spec fn view(&self) -> FilterView {
        FilterView {
            chatgpt: self.chatgpt,
            google: self.google,
            residential: self.residential,
            risk_max: self.risk_max,
            country: opt_text(self.country),
            proxy_type: opt_text(self.proxy_type),
            count: self.count,
            proxy_id: opt_text(self.proxy_id),
        }
    }
}

impl Default for ProxyFilter {
    /// The filter that every valid proxy with a local port passes.
    fn default() -> (r: Self)
        ensures
            r@ == (FilterView {
                chatgpt: false,
                google: false,
                residential: false,
                risk_max: None,
                country: None,
                proxy_type: None,
                count: None,
                proxy_id: None,
            }),
    {
        ProxyFilter {
            chatgpt: false,
            google: false,
            residential: false,
            risk_max: None,
            country: None,
            proxy_type: None,
            count: None,
            proxy_id: None,
        }
    }
}

/// Whether a quality check names a country, up to ASCII case.
pub open spec fn in_country(q: QualityView, country: Seq<char>) -> bool {
    match q.country {
        Some(c) => ascii_lower(c) == ascii_lower(country),
        None => false,
    }
}

/// Whether a proxy can be given to a client who asks with `f`: it is valid, has a local port,
/// and meets every condition that the filter sets. Conditions on quality fail where quality was
/// never checked.
pub open spec fn matches_filter(p: ProxyView, f: FilterView) -> bool {
    &&& p.status == ProxyStatus::Valid
    &&& p.local_port is Some
    &&& f.proxy_type matches Some(t) ==> p.proxy_type == t
    &&& f.chatgpt ==> (p.quality matches Some(q) && q.chatgpt_accessible)
    &&& f.google ==> (p.quality matches Some(q) && q.google_accessible)
    &&& f.residential ==> (p.quality matches Some(q) && q.is_residential)
    &&& f.risk_max matches Some(max) ==> (p.quality matches Some(q) && q.risk_score.at_most(max))
    &&& f.country matches Some(c) ==> (p.quality matches Some(q) && in_country(q, c))
}

/// Decides [`matches_filter`].
pub fn proxy_matches_filter(proxy: &PoolProxy, filter: &ProxyFilter) -> (r: bool)
    ensures
        r == matches_filter(proxy@, filter@),
{
    if proxy.status != ProxyStatus::Valid || proxy.local_port.is_none() {
        return false;
    }
    if let Some(proxy_type) = &filter.proxy_type {
        if !same_text(proxy.proxy_type.as_str(), proxy_type.as_str()) {
            return false;
        }
    }
    match &proxy.quality {
        None => {
            !filter.chatgpt && !filter.google && !filter.residential && filter.risk_max.is_none()
                && filter.country.is_none()
        },
        Some(q) => {
            if filter.chatgpt && !q.chatgpt_accessible {
                return false;
            }
            if filter.google && !q.google_accessible {
                return false;
            }
            if filter.residential && !q.is_residential {
                return false;
            }
            if let Some(max) = filter.risk_max {
                if !q.risk_score.le(max) {
                    return false;
                }
            }
            if let Some(country) = &filter.country {
                return match &q.country {
                    Some(c) => same_ignoring_ascii_case(c.as_str(), country.as_str()),
                    None => false,
                };
            }
            true
        },
    }
}

/// How a client lists the pool: which page, which proxies, in which order.
#[derive(Debug)]
pub struct ProxyListQuery {
    pub page: Option<usize>,
    pub per_page: Option<usize>,
    pub search: Option<String>,
    pub status: Option<String>,
    pub proxy_type: Option<String>,
    pub quality: Option<String>,
    pub sort: Option<String>,
    pub dir: Option<String>,
}

/// [`ProxyListQuery`] with its texts as sequences of characters.
pub struct ListQueryView {
    pub page: Option<usize>,
    pub per_page: Option<usize>,
    pub search: Option<Seq<char>>,
    pub status: Option<Seq<char>>,
    pub proxy_type: Option<Seq<char>>,
    pub quality: Option<Seq<char>>,
    pub sort: Option<Seq<char>>,
    pub dir: Option<Seq<char>>,
}

impl View for ProxyListQuery {
    type V = ListQueryView;

    open spec fn view(&self) -> ListQueryView {
        ListQueryView {
            page: self.page,
            per_page: self.per_page,
            search: opt_text(self.search),
            status: opt_text(self.status),
            proxy_type: opt_text(self.proxy_type),
            quality: opt_text(self.quality),
            sort: opt_text(self.sort),
            dir: opt_text(self.dir),
        }
    }
}

impl Default for ProxyListQuery {
    /// The query that lists the whole pool, from its first page on.
    fn default() -> (r: Self)
        ensures
            r@ == (ListQueryView {
                page: None,
                per_page: None,
                search: None,
                status: None,
                proxy_type: None,
                quality: None,
                sort: None,
                dir: None,
            }),
    {
        ProxyListQuery {
            page: None,
            per_page: None,
            search: None,
            status: None,
            proxy_type: None,
            quality: None,
            sort: None,
            dir: None,
        }
    }
}

/// What a search looks for: the searched text without surrounding white space, in ASCII lower
/// case.
pub open spec fn search_needle(search: Seq<char>) -> Seq<char> {
    ascii_lower(trimmed(search))
}

/// Whether a search finds a proxy: in its name, its server or its outgoing address, up to ASCII
/// case. A blank search finds every proxy.
pub open spec fn found_by(p: ProxyView, search: Seq<char>) -> bool {
    let needle = search_needle(search);
    ||| needle.len() == 0
    ||| contains_text(ascii_lower(p.name), needle)
    ||| contains_text(ascii_lower(p.server), needle)
    ||| p.quality matches Some(q) && q.ip_address matches Some(ip) && contains_text(
        ascii_lower(ip),
        needle,
    )
}

/// Whether a proxy passes the quality condition of a list query. A condition that is not known
/// is no condition.
pub open spec fn quality_fits(p: ProxyView, quality: Option<Seq<char>>) -> bool {
    if quality == Some("chatgpt"@) {
        p.quality matches Some(q) && q.chatgpt_accessible
    } else if quality == Some("google"@) {
        p.quality matches Some(q) && q.google_accessible
    } else if quality == Some("residential"@) {
        p.quality matches Some(q) && q.is_residential
    } else if quality == Some("unchecked"@) {
        p.quality is None
    } else {
        true
    }
}

/// Whether a list query selects a proxy.
pub open spec fn matches_list_query(p: ProxyView, query: ListQueryView) -> bool {
    &&& query.search matches Some(s) ==> found_by(p, s)
    &&& query.status matches Some(s) ==> p.status.name() == s
    &&& query.proxy_type matches Some(t) ==> t.len() == 0 || p.proxy_type == t
    &&& quality_fits(p, query.quality)
}

/// Decides [`found_by`].
pub fn proxy_found_by(proxy: &PoolProxy, search: &str) -> (r: bool)
    ensures
        r == found_by(proxy@, search@),
{
    let needle: Vec<char> = to_ascii_lower(trim_text(search));
    if needle.len() == 0 {
        return true;
    }
    if has_text(&to_ascii_lower(proxy.name.as_str()), &needle) {
        return true;
    }
    if has_text(&to_ascii_lower(proxy.server.as_str()), &needle) {
        return true;
    }
    match &proxy.quality {
        Some(q) => match &q.ip_address {
            Some(ip) => has_text(&to_ascii_lower(ip.as_str()), &needle),
            None => false,
        },
        None => false,
    }
}

/// Decides [`quality_fits`].
pub fn proxy_quality_fits(proxy: &PoolProxy, quality: &Option<String>) -> (r: bool)
    ensures
        r == quality_fits(proxy@, opt_text(*quality)),
{
    let wanted: &str = match quality {
        Some(w) => w.as_str(),
        None => return true,
    };
    if same_text(wanted, "chatgpt") {
        match &proxy.quality {
            Some(q) => q.chatgpt_accessible,
            None => false,
        }
    } else if same_text(wanted, "google") {
        match &proxy.quality {
            Some(q) => q.google_accessible,
            None => false,
        }
    } else if same_text(wanted, "residential") {
        match &proxy.quality {
            Some(q) => q.is_residential,
            None => false,
        }
    } else if same_text(wanted, "unchecked") {
        proxy.quality.is_none()
    } else {
        true
    }
}

/// Decides [`matches_list_query`].
pub fn proxy_matches_list_query(proxy: &PoolProxy, query: &ProxyListQuery) -> (r: bool)
    ensures
        r == matches_list_query(proxy@, query@),
{
    if let Some(search) = &query.search {
        if !proxy_found_by(proxy, search.as_str()) {
            return false;
        }
    }
    if let Some(status) = &query.status {
        if !same_text(proxy.status.as_str(), status.as_str()) {
            return false;
        }
    }
    if let Some(proxy_type) = &query.proxy_type {
        if !proxy_type.as_str().is_empty() && !same_text(
            proxy.proxy_type.as_str(),
            proxy_type.as_str(),
        ) {
            return false;
        }
    }
    proxy_quality_fits(proxy, &query.quality)
}

/// What is left of a query parameter without surrounding white space, if anything is.
pub open spec fn parameter_text(value: Option<Seq<char>>) -> Option<Seq<char>> {
    match value {
        Some(v) if trimmed(v).len() > 0 => Some(trimmed(v)),
        _ => None,
    }
}

/// The text of a query parameter; a blank one counts as absent.
pub fn present_parameter(value: Option<&str>) -> (r: Option<&str>)
    ensures
        match r {
            Some(t) => value is Some && parameter_text(Some(value->0@)) == Some(t@),
            None => value is Some ==> parameter_text(Some(value->0@)) is None,
        },
{
    match value {
        Some(v) => {
            let t: &str = trim_text(v);
            if t.is_empty() {
                None
            } else {
                Some(t)
            }
        },
        None => None,
    }
}

/// Reads a query parameter that is a number. A blank one counts as absent.
pub fn deserialize_opt_usize(value: Option<String>) -> (r: Result<Option<usize>, NumberError>)
    ensures
        match parameter_text(opt_text(value)) {
            None => r == Ok::<Option<usize>, NumberError>(None),
            Some(t) => match parsed_number(t, usize::MAX as nat) {
                Ok(n) => r == Ok::<Option<usize>, NumberError>(Some(n as usize)),
                Err(e) => r == Err::<Option<usize>, NumberError>(e),
            },
        },
{
    let text: Option<&str> = match &value {
        Some(v) => present_parameter(Some(v.as_str())),
        None => None,
    };
    match text {
        Some(t) => match parse_usize(t) {
            Ok(n) => Ok(Some(n)),
            Err(e) => Err(e),
        },
        None => Ok(None),
    }
}

/// Whatever a client asks, it is only given valid proxies that have a local port.
pub proof fn law_given_proxies_are_usable(p: ProxyView, f: FilterView)
    requires
        matches_filter(p, f),
    ensures
        p.status == ProxyStatus::Valid,
        p.local_port is Some,
{
}

/// A filter that sets no condition is passed by every valid proxy with a local port.
pub proof fn law_open_filter_passes_usable(p: ProxyView, f: FilterView)
    requires
        !f.chatgpt,
        !f.google,
        !f.residential,
        f.risk_max is None,
        f.country is None,
        f.proxy_type is None,
    ensures
        matches_filter(p, f) <==> p.status == ProxyStatus::Valid && p.local_port is Some,
{
}

/// A proxy whose quality was never checked passes no filter that asks for quality.
pub proof fn law_unchecked_proxies_fail_quality_filters(p: ProxyView, f: FilterView)
    requires
        p.quality is None,
        f.chatgpt || f.google || f.residential || f.risk_max is Some || f.country is Some,
    ensures
        !matches_filter(p, f),
{
}

/// The count and the proxy that a client names have no part in the filter.
pub proof fn law_filter_ignores_count_and_id(
    p: ProxyView,
    f: FilterView,
    count: Option<usize>,
    proxy_id: Option<Seq<char>>,
)
    ensures
        matches_filter(p, FilterView { count, proxy_id, ..f }) == matches_filter(p, f),
{
}

/// Countries that differ only in ASCII case are the same to a filter.
pub proof fn law_country_case_is_ignored(
    p: ProxyView,
    f: FilterView,
    first: Seq<char>,
    second: Seq<char>,
)
    requires
        ascii_lower(first) == ascii_lower(second),
    ensures
        matches_filter(p, FilterView { country: Some(first), ..f }) == matches_filter(
            p,
            FilterView { country: Some(second), ..f },
        ),
{
}

/// A risk limit that is not a number lets no proxy pass, and neither does a risk score that is
/// not a number.
pub proof fn law_nan_risk_fails(p: ProxyView, f: FilterView, max: RiskScore)
    requires
        f.risk_max == Some(max),
        max.is_nan() || (p.quality matches Some(q) && q.risk_score.is_nan()),
    ensures
        !matches_filter(p, f),
{
}

/// A blank search finds every proxy.
pub proof fn law_blank_search_finds_all(p: ProxyView, search: Seq<char>)
    requires
        forall|i: int| 0 <= i < search.len() ==> is_space(#[trigger] search[i]),
    ensures
        found_by(p, search),
{
    lemma_blank(search);
}

/// Nothing is left of white space that is trimmed.
proof fn lemma_blank(s: Seq<char>)
    requires
        forall|i: int| 0 <= i < s.len() ==> is_space(#[trigger] s[i]),
    ensures
        trimmed(s).len() == 0,
    decreases s.len(),
{
    if s.len() > 0 {
        assert(is_space(s[0]));
        let rest = s.drop_first();
        assert forall|i: int| 0 <= i < rest.len() implies is_space(#[trigger] rest[i]) by {
            assert(rest[i] == s[i + 1]);
        }
        lemma_blank(rest);
    }
}

/// White space around a search does not matter.
pub proof fn law_search_ignores_outer_space(p: ProxyView, search: Seq<char>)
    ensures
        found_by(p, search) == found_by(p, trimmed(search)),
{
    law_trimming_is_final(search);
}

/// ASCII case does not matter to a search.
pub proof fn law_search_ignores_case(p: ProxyView, first: Seq<char>, second: Seq<char>)
    requires
        ascii_lower(trimmed(first)) == ascii_lower(trimmed(second)),
    ensures
        found_by(p, first) == found_by(p, second),
{
}

/// A search for the name of a proxy, or for its server, finds it.
pub proof fn law_search_finds_by_name_and_server(p: ProxyView, search: Seq<char>)
    requires
        trimmed(search) == p.name || trimmed(search) == p.server,
    ensures
        found_by(p, search),
{
    let hay = ascii_lower(trimmed(search));
    assert(hay.subrange(0, hay.len() as int) =~= hay);
    assert(found_at(hay, 0, hay));
}

/// The default list query selects every proxy.
pub proof fn law_open_query_selects_all(p: ProxyView, query: ListQueryView)
    requires
        query.search is None,
        query.status is None,
        query.proxy_type is None,
        query.quality is None,
    ensures
        matches_list_query(p, query),
{
}

/// The statuses that a query can name part the pool: each proxy has one of them.
pub proof fn law_status_names_are_distinct(a: ProxyStatus, b: ProxyStatus)
    ensures
        a.name() == b.name() <==> a == b,
{
    reveal_strlit("untested");
    reveal_strlit("valid");
    reveal_strlit("invalid");
    assert("untested"@.len() == 8 && "valid"@.len() == 5 && "invalid"@.len() == 7);
}

} // verus!
