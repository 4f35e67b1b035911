//! The answers of the fetch and list endpoints.

use crate::error::{AppError, ErrorView};
use crate::listing::{answers_list_query, ProxyListResult};
use crate::pool::{
    chatgpt_accessible_pred, count_where, google_accessible_pred, invalid_pred, is_choice, is_random_choice,
    quality_checked_pred, residential_pred, untested_pred, valid_pred, ProxyPool, ProxyPoolStats,
};
use crate::proxy::{copy_text, views, PoolProxy, ProxyView};
use crate::query::{matches_filter, matches_list_query, FilterView, ListQueryView, ProxyFilter, ProxyListQuery};
use crate::risk::RiskScore;
use crate::store::enumerates;
use crate::text::opt_text;
use vstd::prelude::*;
use vstd::string::*;

verus! {

/// What a client asks of the fetch endpoint.
#[derive(Debug)]
pub struct FetchQuery {
    pub api_key: Option<String>,
    pub chatgpt: bool,
    pub google: bool,
    pub residential: bool,
    pub risk_max: Option<RiskScore>,
    pub country: Option<String>,
    pub proxy_type: Option<String>,
    pub count: Option<usize>,
    pub proxy_id: Option<String>,
}

/// The filter in a fetch query.
pub open spec fn fetch_filter(query: FetchQuery) -> FilterView {
    FilterView {
        chatgpt: query.chatgpt,
        google: query.google,
        residential: query.residential,
        risk_max: query.risk_max,
        country: opt_text(query.country),
        proxy_type: opt_text(query.proxy_type),
        count: query.count,
        proxy_id: opt_text(query.proxy_id),
    }
}

/// How many proxies a fetch query asks for; one where it does not say.
pub open spec fn fetch_count(query: FetchQuery) -> nat {
    match query.count {
        Some(n) => n as nat,
        None => 1,
    }
}

/// What a client is told of the quality of a proxy.
#[derive(Debug)]
pub struct QualityEntry {
    pub ip_address: Option<String>,
    pub country: Option<String>,
    pub ip_type: Option<String>,
    pub is_residential: bool,
    pub chatgpt: bool,
    pub google: bool,
    pub risk_score: RiskScore,
    pub risk_level: String,
}

/// What a client is told of a proxy.
#[derive(Debug)]
pub struct ProxyEntry {
    pub id: String,
    pub name: String,
    pub proxy_type: String,
    pub server: String,
    pub port: u16,
    pub local_port: Option<u16>,
    pub status: String,
    pub error_count: u32,
    pub quality: Option<QualityEntry>,
}

/// [`QualityEntry`] with its texts as sequences of characters.
pub struct QualityEntryView {
    pub ip_address: Option<Seq<char>>,
    pub country: Option<Seq<char>>,
    pub ip_type: Option<Seq<char>>,
    pub is_residential: bool,
    pub chatgpt: bool,
    pub google: bool,
    pub risk_score: RiskScore,
    pub risk_level: Seq<char>,
}

/// [`ProxyEntry`] with its texts as sequences of characters.
pub struct EntryView {
    pub id: Seq<char>,
    pub name: Seq<char>,
    pub proxy_type: Seq<char>,
    pub server: Seq<char>,
    pub port: u16,
    pub local_port: Option<u16>,
    pub status: Seq<char>,
    pub error_count: u32,
    pub quality: Option<QualityEntryView>,
}

impl View for QualityEntry {
    type V = QualityEntryView;

    open spec fn view(&self) -> QualityEntryView {
        QualityEntryView {
            ip_address: opt_text(self.ip_address),
            country: opt_text(self.country),
            ip_type: opt_text(self.ip_type),
            is_residential: self.is_residential,
            chatgpt: self.chatgpt,
            google: self.google,
            risk_score: self.risk_score,
            risk_level: self.risk_level@,
        }
    }
}

impl View for ProxyEntry {
    type V = EntryView;

    open spec fn view(&self) -> EntryView {
        EntryView {
            id: self.id@,
            name: self.name@,
            proxy_type: self.proxy_type@,
            server: self.server@,
            port: self.port,
            local_port: self.local_port,
            status: self.status@,
            error_count: self.error_count,
            quality: match self.quality {
                Some(q) => Some(q@),
                None => None,
            },
        }
    }
}

/// The entry of a proxy. Its subscription, its outbound and when it was checked stay with the
/// server.
pub open spec fn entry_of(p: ProxyView) -> EntryView {
    EntryView {
        id: p.id,
        name: p.name,
        proxy_type: p.proxy_type,
        server: p.server,
        port: p.port,
        local_port: p.local_port,
        status: p.status.name(),
        error_count: p.error_count,
        quality: match p.quality {
            Some(q) => Some(
                QualityEntryView {
                    ip_address: q.ip_address,
                    country: q.country,
                    ip_type: q.ip_type,
                    is_residential: q.is_residential,
                    chatgpt: q.chatgpt_accessible,
                    google: q.google_accessible,
                    risk_score: q.risk_score,
                    risk_level: q.risk_level,
                },
            ),
            None => None,
        },
    }
}

/// The entries of a list of proxies.
pub open spec fn entries_of(s: Seq<ProxyView>) -> Seq<EntryView> {
    s.map_values(|p: ProxyView| entry_of(p))
}

/// The views of a list of entries.
pub open spec fn entry_views(s: Seq<ProxyEntry>) -> Seq<EntryView> {
    s.map_values(|e: ProxyEntry| e@)
}

/// Writes the entry of a proxy.
pub fn proxy_to_json(p: &PoolProxy) -> (r: ProxyEntry)
    ensures
        r@ == entry_of(p@),
{
    ProxyEntry {
        id: p.id.clone(),
        name: p.name.clone(),
        proxy_type: p.proxy_type.clone(),
        server: p.server.clone(),
        port: p.port,
        local_port: p.local_port,
        status: p.status.as_str().to_owned(),
        error_count: p.error_count,
        quality: match &p.quality {
            Some(q) => Some(
                QualityEntry {
                    ip_address: copy_text(&q.ip_address),
                    country: copy_text(&q.country),
                    ip_type: copy_text(&q.ip_type),
                    is_residential: q.is_residential,
                    chatgpt: q.chatgpt_accessible,
                    google: q.google_accessible,
                    risk_score: q.risk_score,
                    risk_level: q.risk_level.clone(),
                },
            ),
            None => None,
        },
    }
}

/// Writes the entries of a list of proxies.
pub fn proxies_to_json(proxies: &Vec<PoolProxy>) -> (r: Vec<ProxyEntry>)
    ensures
        entry_views(r@) == entries_of(views(proxies@)),
{
    let mut out: Vec<ProxyEntry> = Vec::new();
    let ghost all = entries_of(views(proxies@));
    let mut i: usize = 0;
    while i < proxies.len()
        invariant
            i <= proxies@.len(),
            all == entries_of(views(proxies@)),
            entry_views(out@) == all.take(i as int),
        decreases proxies@.len() - i,
    {
        let ghost before = out@;
        out.push(proxy_to_json(&proxies[i]));
        assert(entry_views(out@) =~= entry_views(before).push(all[i as int]));
        i = i + 1;
        assert(entry_views(out@) =~= all.take(i as int));
    }
    assert(all.take(i as int) =~= all);
    out
}

/// The answer of the fetch endpoint. `count` and `message` are left out of the answer where they
/// are absent.
#[derive(Debug)]
pub struct FetchResponse {
    pub proxies: Vec<ProxyEntry>,
    pub count: Option<usize>,
    pub message: Option<String>,
}

/// [`FetchResponse`] with its texts as sequences of characters.
pub struct FetchView {
    pub proxies: Seq<EntryView>,
    pub count: Option<usize>,
    pub message: Option<Seq<char>>,
}

impl View for FetchResponse {
    type V = FetchView;

    open spec fn view(&self) -> FetchView {
        FetchView {
            proxies: entry_views(self.proxies@),
            count: self.count,
            message: opt_text(self.message),
        }
    }
}

/// The answer with the proxies that were chosen: their entries and how many they are, or a
/// message where there are none.
pub open spec fn fetched(chosen: Seq<ProxyView>) -> FetchView {
    if chosen.len() == 0 {
        FetchView {
            proxies: Seq::empty(),
            count: None,
            message: Some("No proxies match the given filters"@),
        }
    } else {
        FetchView { proxies: entries_of(chosen), count: Some(chosen.len() as usize), message: None }
    }
}

/// Answers with the proxies that were chosen.
pub fn fetch_response(chosen: &Vec<PoolProxy>) -> (r: FetchResponse)
    ensures
        r@ == fetched(views(chosen@)),
{
    let proxies: Vec<ProxyEntry> = proxies_to_json(chosen);
    assert(entry_views(proxies@).len() == chosen@.len());
    if proxies.len() == 0 {
        assert(entry_views(proxies@) =~= Seq::empty());
        FetchResponse {
            proxies,
            count: None,
            message: Some("No proxies match the given filters".to_owned()),
        }
    } else {
        let count: usize = proxies.len();
        FetchResponse { proxies, count: Some(count), message: None }
    }
}

/// Whether `r` answers a fetch query of a client who is let in: with the proxy that the query
/// names, or with a random choice of those that pass its filter.
pub open spec fn answers_fetch(
    r: Result<FetchResponse, AppError>,
    m: Map<Seq<char>, ProxyView>,
    query: FetchQuery,
) -> bool {
    match opt_text(query.proxy_id) {
        Some(id) => if m.contains_key(id) {
            r matches Ok(resp) && resp@ == (FetchView {
                proxies: seq![entry_of(m[id])],
                count: None,
                message: None,
            })
        } else {
            r matches Err(e) && e@ == ErrorView::NotFound("Proxy "@ + id + " not found"@)
        },
        None => r matches Ok(resp) && exists|chosen: Seq<ProxyView>|
            {
                &&& #[trigger] is_random_choice(chosen, m, fetch_filter(query), fetch_count(query))
                &&& is_choice(chosen, m, fetch_filter(query), fetch_count(query))
                &&& resp@ == fetched(chosen)
            },
    }
}

/// Answers the fetch endpoint. A client who is not let in gets the error that `auth` carries.
pub fn fetch_proxies(
    auth: Result<(), AppError>,
    pool: &ProxyPool,
    query: FetchQuery,
) -> (r: Result<FetchResponse, AppError>)
    requires
        pool.wf(),
    ensures
        match auth {
            Err(e) => r == Err::<FetchResponse, AppError>(e),
            Ok(_) => answers_fetch(r, pool@, query),
        },
{
    if let Err(e) = auth {
        return Err(e);
    }
    let ghost asked = query;
    let filter = ProxyFilter {
        chatgpt: query.chatgpt,
        google: query.google,
        residential: query.residential,
        risk_max: query.risk_max,
        country: query.country,
        proxy_type: query.proxy_type,
        count: query.count,
        proxy_id: query.proxy_id,
    };
    let count: usize = match filter.count {
        Some(n) => n,
        None => 1,
    };
    if let Some(id) = &filter.proxy_id {
        return match pool.get(id.as_str()) {
            Some(proxy) => {
                let mut proxies: Vec<ProxyEntry> = Vec::new();
                proxies.push(proxy_to_json(&proxy));
                assert(entry_views(proxies@) =~= seq![entry_of(proxy@)]);
                Ok(FetchResponse { proxies, count: None, message: None })
            },
            None => {
                let mut message: String = "Proxy ".to_owned();
                message.append(id.as_str());
                message.append(" not found");
                Err(AppError::NotFound(message))
            },
        };
    }
    let chosen: Vec<PoolProxy> = pool.pick_random(&filter, count);
    assert(filter@ == fetch_filter(asked));
    assert(is_random_choice(
        views(chosen@),
        pool@,
        fetch_filter(asked),
        fetch_count(asked),
    ));
    Ok(fetch_response(&chosen))
}

/// What a client asks of the list endpoint.
#[derive(Debug)]
pub struct UserProxyListQuery {
    pub api_key: Option<String>,
    pub page: Option<usize>,
    pub per_page: Option<usize>,
    pub search: Option<String>,
    pub status: Option<String>,
    pub proxy_type: Option<String>,
    pub quality: Option<String>,
    pub sort: Option<String>,
    pub dir: Option<String>,
}

/// The list query in what a client asks.
pub open spec fn user_list_query(query: UserProxyListQuery) -> ListQueryView {
    ListQueryView {
        page: query.page,
        per_page: query.per_page,
        search: opt_text(query.search),
        status: opt_text(query.status),
        proxy_type: opt_text(query.proxy_type),
        quality: opt_text(query.quality),
        sort: opt_text(query.sort),
        dir: opt_text(query.dir),
    }
}

/// The answer of the list endpoint: a page of the pool, and counts over the whole pool.
#[derive(Debug)]
pub struct ProxyListResponse {
    pub proxies: Vec<ProxyEntry>,
    pub total: usize,
    pub filtered_total: usize,
    pub page: usize,
    pub per_page: usize,
    pub valid: usize,
    pub untested: usize,
    pub invalid: usize,
    pub quality_checked: usize,
    pub chatgpt_accessible: usize,
    pub google_accessible: usize,
    pub residential: usize,
}

/// Writes a page and the counts of the pool as the answer of the list endpoint.
pub fn list_response(stats: ProxyPoolStats, result: ProxyListResult) -> (r: ProxyListResponse)
    ensures
        entry_views(r.proxies@) == entries_of(views(result.proxies@)),
        r.filtered_total == result.total,
        r.page == result.page,
        r.per_page == result.per_page,
        r.total == stats.total,
        r.valid == stats.valid,
        r.untested == stats.untested,
        r.invalid == stats.invalid,
        r.quality_checked == stats.quality_checked,
        r.chatgpt_accessible == stats.chatgpt_accessible,
        r.google_accessible == stats.google_accessible,
        r.residential == stats.residential,
{
    ProxyListResponse {
        proxies: proxies_to_json(&result.proxies),
        total: stats.total,
        filtered_total: result.total,
        page: result.page,
        per_page: result.per_page,
        valid: stats.valid,
        untested: stats.untested,
        invalid: stats.invalid,
        quality_checked: stats.quality_checked,
        chatgpt_accessible: stats.chatgpt_accessible,
        google_accessible: stats.google_accessible,
        residential: stats.residential,
    }
}

/// Whether the page of an answer is what a query over the proxies `all` gives.
pub open spec fn shows_page(
    r: ProxyListResponse,
    all: Seq<ProxyView>,
    query: ListQueryView,
) -> bool {
    exists|page: ProxyListResult|
        {
            &&& #[trigger] answers_list_query(page, all, query)
            &&& r.filtered_total == page.total
            &&& r.page == page.page
            &&& r.per_page == page.per_page
            &&& entry_views(r.proxies@) == entries_of(views(page.proxies@))
        }
}

/// Whether `r` answers a list query of a client who is let in: with the page that it asks for,
/// and the counts of the whole pool.
pub open spec fn answers_list(
    r: ProxyListResponse,
    m: Map<Seq<char>, ProxyView>,
    query: ListQueryView,
) -> bool {
    &&& exists|all: Seq<ProxyView>| #[trigger] enumerates(all, m) && shows_page(r, all, query)
    &&& r.filtered_total == count_where(m, |p: ProxyView| matches_list_query(p, query))
    &&& r.total == m.len()
    &&& r.valid == count_where(m, valid_pred())
    &&& r.untested == count_where(m, untested_pred())
    &&& r.invalid == count_where(m, invalid_pred())
    &&& r.quality_checked == count_where(m, quality_checked_pred())
    &&& r.chatgpt_accessible == count_where(m, chatgpt_accessible_pred())
    &&& r.google_accessible == count_where(m, google_accessible_pred())
    &&& r.residential == count_where(m, residential_pred())
}

/// Answers the list endpoint. A client who is not let in gets the error that `auth` carries.
pub fn list_all_proxies(
    auth: Result<(), AppError>,
    pool: &ProxyPool,
    query: UserProxyListQuery,
) -> (r: Result<ProxyListResponse, AppError>)
    requires
        pool.wf(),
    ensures
        match auth {
            Err(e) => r == Err::<ProxyListResponse, AppError>(e),
            Ok(_) => r matches Ok(resp) && answers_list(resp, pool@, user_list_query(query)),
        },
{
    if let Err(e) = auth {
        return Err(e);
    }
    let ghost asked = user_list_query(query);
    let list_query = ProxyListQuery {
        page: query.page,
        per_page: query.per_page,
        search: query.search,
        status: query.status,
        proxy_type: query.proxy_type,
        quality: query.quality,
        sort: query.sort,
        dir: query.dir,
    };
    assert(list_query@ == asked);
    let stats: ProxyPoolStats = pool.stats();
    let result: ProxyListResult = pool.list_proxies(&list_query);
    let ghost page = result;
    let response: ProxyListResponse = list_response(stats, result);
    proof {
        let all = choose|all: Seq<ProxyView>|
            #[trigger] enumerates(all, pool@) && answers_list_query(page, all, asked);
        assert(answers_list_query(page, all, asked));
        assert(shows_page(response, all, asked));
    }
    Ok(response)
}

/// What is fetched are entries of proxies of the pool that pass the filter, no more of them than
/// were asked for, and the answer says how many they are, or that there are none.
pub proof fn law_fetched_proxies_pass_the_filter(
    resp: FetchResponse,
    m: Map<Seq<char>, ProxyView>,
    query: FetchQuery,
)
    requires
        query.proxy_id is None,
        answers_fetch(Ok(resp), m, query),
    ensures
        resp.proxies@.len() <= fetch_count(query),
        forall|i: int|
            0 <= i < resp.proxies@.len() ==> is_entry_of_passing(
                (#[trigger] resp.proxies@[i])@,
                m,
                fetch_filter(query),
            ),
        resp.proxies@.len() > 0 ==> resp.count == Some(resp.proxies.len()) && resp.message is None,
        resp.proxies@.len() == 0 ==> resp.count is None && opt_text(resp.message) == Some(
            "No proxies match the given filters"@,
        ),
{
    let chosen = choose|chosen: Seq<ProxyView>|
        {
            &&& #[trigger] is_random_choice(chosen, m, fetch_filter(query), fetch_count(query))
            &&& is_choice(chosen, m, fetch_filter(query), fetch_count(query))
            &&& resp@ == fetched(chosen)
        };
    assert(resp@.proxies.len() == resp.proxies.len());
    assert forall|i: int| 0 <= i < resp.proxies@.len() implies is_entry_of_passing(
        (#[trigger] resp.proxies@[i])@,
        m,
        fetch_filter(query),
    ) by {
        assert(m.contains_pair(chosen[i].id, chosen[i]));
        assert(resp@.proxies[i] == entry_of(chosen[i]));
    }
}

/// Whether an entry is that of a proxy of the pool that passes a filter.
pub open spec fn is_entry_of_passing(
    entry: EntryView,
    m: Map<Seq<char>, ProxyView>,
    f: FilterView,
) -> bool {
    exists|p: ProxyView|
        #[trigger] m.contains_pair(p.id, p) && matches_filter(p, f) && entry == entry_of(p)
}

} // verus!
