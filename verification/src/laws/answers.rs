//! What clients are given when they fetch proxies or list them.

use crate::error::{AppError, ErrorView};
use crate::fetch::{
    answers_fetch, answers_list, entries_of, entry_of, entry_views, fetch_count, fetch_filter, fetched,
    shows_page, user_list_query, EntryView, FetchQuery, FetchResponse, ProxyListResponse, UserProxyListQuery,
};
use crate::laws::values::{
    checked_ids, ids_with_status, law_counts_count_what_they_name, law_lower_case_is_case_alone,
    law_lower_case_search_ignores_case, same_but_for_case, stands_in,
};
use crate::listing::{
    answers_list_query, law_page_is_a_stretch, page_number, page_of, page_size, ProxyListResult,
};
use crate::order::{descending, listing_order, sort_field};
use crate::paging::{in_order, lemma_listing_behind_page, selects};
use crate::pool::{
    answers_from, chatgpt_accessible_pred, count_where, google_accessible_pred, invalid_pred, is_choice,
    is_random_choice, keyed_by_id, law_large_choice_takes_all, lemma_count_parts, lists,
    quality_checked_pred, residential_pred, untested_pred, valid_pred,
};
use crate::proxy::{views, ProxyStatus, ProxyView, QualityView};
use crate::query::{matches_filter, matches_list_query, FilterView, ListQueryView};
use crate::risk::RiskScore;
use crate::store::enumerates;
use crate::text::{ascii_lower, lemma_bytes_order_antisymmetric, opt_text, text_order, trimmed};
use vstd::prelude::*;
use vstd::string::*;
use vstd::utf8::encode_utf8;

verus! {

/// An entry tells of a proxy what a client may know, each thing under its own name.
pub proof fn law_entry_tells_of_the_proxy(p: ProxyView)
    ensures
        entry_of(p).id == p.id,
        entry_of(p).name == p.name,
        entry_of(p).proxy_type == p.proxy_type,
        entry_of(p).server == p.server,
        entry_of(p).port == p.port,
        entry_of(p).local_port == p.local_port,
        entry_of(p).error_count == p.error_count,
        entry_of(p).status == "valid"@ <==> p.status == ProxyStatus::Valid,
        entry_of(p).status == "untested"@ <==> p.status == ProxyStatus::Untested,
        entry_of(p).status == "invalid"@ <==> p.status == ProxyStatus::Invalid,
        entry_of(p).quality is Some <==> p.quality is Some,
        p.quality is Some ==> {
            let told = entry_of(p).quality->0;
            let q = p.quality->0;
            &&& told.ip_address == q.ip_address
            &&& told.country == q.country
            &&& told.ip_type == q.ip_type
            &&& told.is_residential == q.is_residential
            &&& told.chatgpt == q.chatgpt_accessible
            &&& told.google == q.google_accessible
            &&& told.risk_score == q.risk_score
            &&& told.risk_level == q.risk_level
        },
{
    lemma_status_names();
}

proof fn lemma_status_names()
    ensures
        "valid"@ != "untested"@,
        "valid"@ != "invalid"@,
        "untested"@ != "invalid"@,
{
    reveal_strlit("untested");
    reveal_strlit("valid");
    reveal_strlit("invalid");
    assert("untested"@.len() == 8 && "valid"@.len() == 5 && "invalid"@.len() == 7);
}

/// The proxies that an answer to a fetch query tells of.
proof fn lemma_chosen(resp: FetchResponse, m: Map<Seq<char>, ProxyView>, query: FetchQuery) -> (chosen:
    Seq<ProxyView>)
    requires
        query.proxy_id is None,
        answers_fetch(Ok(resp), m, query),
    ensures
        is_random_choice(chosen, m, fetch_filter(query), fetch_count(query)),
        is_choice(chosen, m, fetch_filter(query), fetch_count(query)),
        resp.proxies@.len() == chosen.len(),
        forall|i: int|
            0 <= i < chosen.len() ==> (#[trigger] resp.proxies@[i])@ == entry_of(chosen[i]),
        resp@ == fetched(chosen),
{
    let chosen = choose|chosen: Seq<ProxyView>|
        {
            &&& #[trigger] is_random_choice(chosen, m, fetch_filter(query), fetch_count(query))
            &&& is_choice(chosen, m, fetch_filter(query), fetch_count(query))
            &&& resp@ == fetched(chosen)
        };
    let shown = entry_views(resp.proxies@);
    assert(shown == resp@.proxies);
    assert(shown.len() == resp.proxies@.len());
    assert(shown =~= entries_of(chosen));
    assert forall|i: int| 0 <= i < chosen.len() implies (#[trigger] resp.proxies@[i])@ == entry_of(
        chosen[i],
    ) by {
        assert(shown[i] == resp.proxies@[i]@);
        assert(entries_of(chosen)[i] == entry_of(chosen[i]));
    }
    chosen
}

/// Every proxy that is fetched is valid and has a local port, and is what the query asks for:
/// reaches ChatGPT, reaches Google, is residential, has at most the risk, is in the country up to
/// ASCII case, is of the type.
pub proof fn law_fetched_proxies_are_what_was_asked_for(
    resp: FetchResponse,
    m: Map<Seq<char>, ProxyView>,
    query: FetchQuery,
    i: int,
)
    requires
        query.proxy_id is None,
        answers_fetch(Ok(resp), m, query),
        0 <= i < resp.proxies@.len(),
    ensures
        ({
            let e = resp.proxies@[i]@;
            &&& e.status == "valid"@
            &&& e.local_port is Some
            &&& query.chatgpt ==> e.quality is Some && e.quality->0.chatgpt
            &&& query.google ==> e.quality is Some && e.quality->0.google
            &&& query.residential ==> e.quality is Some && e.quality->0.is_residential
            &&& query.risk_max matches Some(max) ==> e.quality is Some
                && e.quality->0.risk_score.at_most(max)
            &&& query.country matches Some(c) ==> e.quality is Some && e.quality->0.country is Some
                && same_but_for_case(e.quality->0.country->0, c@)
            &&& query.proxy_type matches Some(t) ==> e.proxy_type == t@
            &&& m.contains_key(e.id) && e == entry_of(m[e.id])
        }),
{
    let chosen = lemma_chosen(resp, m, query);
    let p = chosen[i];
    assert(resp.proxies@[i]@ == entry_of(p));
    assert(m.contains_pair(p.id, p) && matches_filter(p, fetch_filter(query)));
    law_entry_tells_of_the_proxy(p);
    if query.country is Some {
        law_lower_case_is_case_alone(p.quality->0.country->0, query.country->0@);
    }
}

/// A proxy that is valid, has a local port and is all that the query asks for is fetched, unless as
/// many others are as the query wants: one, where it does not say.
pub proof fn law_fetch_leaves_out_no_proxy_that_fits(
    resp: FetchResponse,
    m: Map<Seq<char>, ProxyView>,
    query: FetchQuery,
    id: Seq<char>,
)
    requires
        keyed_by_id(m),
        query.proxy_id is None,
        answers_fetch(Ok(resp), m, query),
        m.contains_key(id),
        m[id].status == ProxyStatus::Valid,
        m[id].local_port is Some,
        query.chatgpt ==> m[id].quality is Some && m[id].quality->0.chatgpt_accessible,
        query.google ==> m[id].quality is Some && m[id].quality->0.google_accessible,
        query.residential ==> m[id].quality is Some && m[id].quality->0.is_residential,
        query.risk_max matches Some(max) ==> m[id].quality is Some
            && m[id].quality->0.risk_score.at_most(max),
        query.country matches Some(c) ==> m[id].quality is Some && m[id].quality->0.country is Some
            && same_but_for_case(m[id].quality->0.country->0, c@),
        query.proxy_type matches Some(t) ==> m[id].proxy_type == t@,
    ensures
        (exists|i: int| 0 <= i < resp.proxies@.len() && (#[trigger] resp.proxies@[i])@.id == id)
            || resp.proxies@.len() == (match query.count {
            Some(n) => n as nat,
            None => 1nat,
        }),
        query.count != Some(0usize) ==> resp.proxies@.len() > 0,
{
    let chosen = lemma_chosen(resp, m, query);
    let f = fetch_filter(query);
    let pred = |p: ProxyView| matches_filter(p, f);
    if query.country is Some {
        law_lower_case_is_case_alone(m[id].quality->0.country->0, query.country->0@);
    }
    assert(matches_filter(m[id], f));
    let fitting = m.dom().filter(|k: Seq<char>| pred(m[k]));
    assert(fitting.contains(id));
    assert(fitting.finite());
    assert(fitting.len() > 0) by {
        if fitting.len() == 0 {
            vstd::set_lib::lemma_set_empty_equivalency_len(fitting);
        }
    }
    if chosen.len() < fetch_count(query) {
        law_large_choice_takes_all(chosen, m, f, fetch_count(query));
        assert(m.contains_key(id) && pred(m[id]));
        let i = choose|i: int| 0 <= i < chosen.len() && (#[trigger] chosen[i]).id == id;
        assert(resp.proxies@[i]@ == entry_of(chosen[i]));
        assert(resp.proxies@[i]@.id == id);
    }
}

/// A fetch gives at most as many proxies as the query wants, no proxy twice, and says how many it
/// gives, or that there are none.
pub proof fn law_fetch_gives_no_more_than_wanted(
    resp: FetchResponse,
    m: Map<Seq<char>, ProxyView>,
    query: FetchQuery,
)
    requires
        query.proxy_id is None,
        answers_fetch(Ok(resp), m, query),
    ensures
        query.count matches Some(n) ==> resp.proxies@.len() <= n,
        query.count is None ==> resp.proxies@.len() <= 1,
        forall|i: int, j: int|
            0 <= i < j < resp.proxies@.len() ==> (#[trigger] resp.proxies@[i])@.id != (
            #[trigger] resp.proxies@[j])@.id,
        resp.proxies@.len() > 0 ==> resp.count == Some(resp.proxies.len()) && resp.message is None,
        resp.proxies@.len() == 0 ==> resp.count is None && opt_text(resp.message) == Some(
            "No proxies match the given filters"@,
        ),
{
    let chosen = lemma_chosen(resp, m, query);
    assert(resp.proxies.len() == resp.proxies@.len());
    assert forall|i: int, j: int| 0 <= i < j < resp.proxies@.len() implies (
    #[trigger] resp.proxies@[i])@.id != (#[trigger] resp.proxies@[j])@.id by {
        assert(chosen[i].id != chosen[j].id);
    }
}

/// A fetch query that names a proxy gets that proxy alone, whatever else it asks, and an error that
/// says so where the pool does not have it.
pub proof fn law_fetch_by_id_gives_that_proxy(
    r: Result<FetchResponse, AppError>,
    m: Map<Seq<char>, ProxyView>,
    query: FetchQuery,
)
    requires
        keyed_by_id(m),
        query.proxy_id is Some,
        answers_fetch(r, m, query),
    ensures
        m.contains_key(query.proxy_id->0@) ==> {
            &&& r is Ok
            &&& r->Ok_0.proxies@.len() == 1
            &&& r->Ok_0.proxies@[0]@.id == query.proxy_id->0@
            &&& r->Ok_0.proxies@[0]@ == entry_of(m[query.proxy_id->0@])
            &&& r->Ok_0.count is None && r->Ok_0.message is None
        },
        !m.contains_key(query.proxy_id->0@) ==> r is Err && r->Err_0@ == ErrorView::NotFound(
            "Proxy "@ + query.proxy_id->0@ + " not found"@,
        ),
{
    if m.contains_key(query.proxy_id->0@) {
        let shown = entry_views(r->Ok_0.proxies@);
        assert(shown == seq![entry_of(m[query.proxy_id->0@])]);
        assert(shown.len() == r->Ok_0.proxies@.len());
        assert(shown[0] == r->Ok_0.proxies@[0]@);
    }
}

/// A list query that sets nothing but a quality selects the proxies that have it: `chatgpt`,
/// `google` and `residential` those of which a check has found it, `unchecked` those that were never
/// checked, and any other text all.
pub proof fn law_quality_condition_means_that_quality(p: ProxyView, query: ListQueryView)
    requires
        query.search is None,
        query.status is None,
        query.proxy_type is None,
    ensures
        query.quality == Some("chatgpt"@) ==> (matches_list_query(p, query) <==> p.quality is Some
            && p.quality->0.chatgpt_accessible),
        query.quality == Some("google"@) ==> (matches_list_query(p, query) <==> p.quality is Some
            && p.quality->0.google_accessible),
        query.quality == Some("residential"@) ==> (matches_list_query(p, query) <==> p.quality is Some
            && p.quality->0.is_residential),
        query.quality == Some("unchecked"@) ==> (matches_list_query(p, query) <==> p.quality is None),
        query.quality != Some("chatgpt"@) && query.quality != Some("google"@) && query.quality != Some(
            "residential"@,
        ) && query.quality != Some("unchecked"@) ==> matches_list_query(p, query),
{
    reveal_strlit("chatgpt");
    reveal_strlit("google");
    reveal_strlit("residential");
    reveal_strlit("unchecked");
    assert("chatgpt"@.len() == 7 && "google"@.len() == 6 && "residential"@.len() == 11
        && "unchecked"@.len() == 9);
}

/// A list query that sets nothing but a status selects the proxies that have the status of that
/// name, and none where no status has it.
pub proof fn law_status_condition_means_that_status(p: ProxyView, query: ListQueryView)
    requires
        query.search is None,
        query.proxy_type is None,
        query.quality is None,
        query.status is Some,
    ensures
        query.status == Some("valid"@) ==> (matches_list_query(p, query) <==> p.status
            == ProxyStatus::Valid),
        query.status == Some("untested"@) ==> (matches_list_query(p, query) <==> p.status
            == ProxyStatus::Untested),
        query.status == Some("invalid"@) ==> (matches_list_query(p, query) <==> p.status
            == ProxyStatus::Invalid),
        query.status != Some("valid"@) && query.status != Some("untested"@) && query.status != Some(
            "invalid"@,
        ) ==> !matches_list_query(p, query),
{
    lemma_status_names();
}

/// A list query that sets nothing but a type selects the proxies of that type, and all where the
/// type is empty.
pub proof fn law_type_condition_means_that_type(p: ProxyView, query: ListQueryView)
    requires
        query.search is None,
        query.status is None,
        query.quality is None,
        query.proxy_type is Some,
    ensures
        query.proxy_type->0.len() > 0 ==> (matches_list_query(p, query) <==> p.proxy_type
            == query.proxy_type->0),
        query.proxy_type->0.len() == 0 ==> matches_list_query(p, query),
{
}

/// A list query that sets nothing but a search selects the proxies in whose name, server or
/// outgoing address the searched text stands, but for the case of ASCII letters and for white space
/// around the text.
pub proof fn law_search_condition_means_standing_there(p: ProxyView, query: ListQueryView)
    requires
        query.status is None,
        query.proxy_type is None,
        query.quality is None,
        query.search is Some,
    ensures
        ({
            let part = trimmed(query.search->0);
            matches_list_query(p, query) <==> part.len() == 0 || stands_in(p.name, part) || stands_in(
                p.server,
                part,
            ) || (p.quality is Some && p.quality->0.ip_address is Some && stands_in(
                p.quality->0.ip_address->0,
                part,
            ))
        }),
{
    let part = trimmed(query.search->0);
    assert(ascii_lower(part).len() == part.len());
    law_lower_case_search_ignores_case(p.name, part);
    law_lower_case_search_ignores_case(p.server, part);
    if p.quality is Some && p.quality->0.ip_address is Some {
        law_lower_case_search_ignores_case(p.quality->0.ip_address->0, part);
    }
}

/// A list query selects the proxies that each of its conditions would select alone.
pub proof fn law_conditions_combine(p: ProxyView, query: ListQueryView)
    ensures
        ({
            let open = ListQueryView {
                search: None,
                status: None,
                proxy_type: None,
                quality: None,
                ..query
            };
            matches_list_query(p, query) <==> {
                &&& matches_list_query(p, ListQueryView { search: query.search, ..open })
                &&& matches_list_query(p, ListQueryView { status: query.status, ..open })
                &&& matches_list_query(p, ListQueryView { proxy_type: query.proxy_type, ..open })
                &&& matches_list_query(p, ListQueryView { quality: query.quality, ..open })
            }
        }),
{
    reveal_strlit("chatgpt");
    reveal_strlit("google");
    reveal_strlit("residential");
    reveal_strlit("unchecked");
}

/// A filter is passed exactly by the valid proxies with a local port that are all it asks for.
pub proof fn law_filter_is_passed_by_what_it_asks_for(p: ProxyView, f: FilterView)
    ensures
        matches_filter(p, f) <==> {
            &&& p.status == ProxyStatus::Valid
            &&& p.local_port is Some
            &&& f.chatgpt ==> p.quality is Some && p.quality->0.chatgpt_accessible
            &&& f.google ==> p.quality is Some && p.quality->0.google_accessible
            &&& f.residential ==> p.quality is Some && p.quality->0.is_residential
            &&& f.risk_max is Some ==> p.quality is Some && p.quality->0.risk_score.at_most(
                f.risk_max->0,
            )
            &&& f.country is Some ==> p.quality is Some && p.quality->0.country is Some
                && same_but_for_case(p.quality->0.country->0, f.country->0)
            &&& f.proxy_type is Some ==> p.proxy_type == f.proxy_type->0
        },
{
    if f.country is Some && p.quality is Some && p.quality->0.country is Some {
        law_lower_case_is_case_alone(p.quality->0.country->0, f.country->0);
    }
}

/// Whether a proxy is what a client's list query asks for.
pub open spec fn is_asked_for(p: ProxyView, query: UserProxyListQuery) -> bool {
    &&& query.status is Some ==> {
        ||| query.status->0@ == "valid"@ && p.status == ProxyStatus::Valid
        ||| query.status->0@ == "untested"@ && p.status == ProxyStatus::Untested
        ||| query.status->0@ == "invalid"@ && p.status == ProxyStatus::Invalid
    }
    &&& query.proxy_type is Some ==> query.proxy_type->0@.len() == 0 || p.proxy_type
        == query.proxy_type->0@
    &&& query.quality is Some && query.quality->0@ == "chatgpt"@ ==> p.quality is Some
        && p.quality->0.chatgpt_accessible
    &&& query.quality is Some && query.quality->0@ == "google"@ ==> p.quality is Some
        && p.quality->0.google_accessible
    &&& query.quality is Some && query.quality->0@ == "residential"@ ==> p.quality is Some
        && p.quality->0.is_residential
    &&& query.quality is Some && query.quality->0@ == "unchecked"@ ==> p.quality is None
    &&& query.search is Some ==> {
        let part = trimmed(query.search->0@);
        ||| part.len() == 0
        ||| stands_in(p.name, part)
        ||| stands_in(p.server, part)
        ||| p.quality is Some && p.quality->0.ip_address is Some && stands_in(
            p.quality->0.ip_address->0,
            part,
        )
    }
}

/// A list query selects exactly the proxies that it asks for.
pub proof fn law_list_query_selects_what_is_asked_for(p: ProxyView, query: UserProxyListQuery)
    ensures
        matches_list_query(p, user_list_query(query)) <==> is_asked_for(p, query),
{
    let q = user_list_query(query);
    let open = ListQueryView { search: None, status: None, proxy_type: None, quality: None, ..q };
    law_conditions_combine(p, q);
    law_quality_condition_means_that_quality(p, ListQueryView { quality: q.quality, ..open });
    if q.search is Some {
        law_search_condition_means_standing_there(p, ListQueryView { search: q.search, ..open });
    }
    if q.status is Some {
        law_status_condition_means_that_status(p, ListQueryView { status: q.status, ..open });
    }
    if q.proxy_type is Some {
        law_type_condition_means_that_type(p, ListQueryView { proxy_type: q.proxy_type, ..open });
    }
}

/// A listing says how many proxies of the pool are what the query asks for, and counts the whole
/// pool whatever the query asks for: how many proxies have each status, were checked, and were
/// found to reach ChatGPT, to reach Google and to be residential.
pub proof fn law_listing_counts_what_it_says(
    r: ProxyListResponse,
    m: Map<Seq<char>, ProxyView>,
    query: UserProxyListQuery,
)
    requires
        answers_list(r, m, user_list_query(query)),
    ensures
        r.filtered_total == m.dom().filter(|k: Seq<char>| is_asked_for(m[k], query)).len(),
        r.total == m.dom().len(),
        r.valid == ids_with_status(m, ProxyStatus::Valid).len(),
        r.untested == ids_with_status(m, ProxyStatus::Untested).len(),
        r.invalid == ids_with_status(m, ProxyStatus::Invalid).len(),
        r.quality_checked == checked_ids(m, |q: QualityView| true).len(),
        r.chatgpt_accessible == checked_ids(m, |q: QualityView| q.chatgpt_accessible).len(),
        r.google_accessible == checked_ids(m, |q: QualityView| q.google_accessible).len(),
        r.residential == checked_ids(m, |q: QualityView| q.is_residential).len(),
{
    law_counts_count_what_they_name(m);
    let found = |p: ProxyView| matches_list_query(p, user_list_query(query));
    assert(m.dom().filter(|k: Seq<char>| found(m[k])) =~= m.dom().filter(
        |k: Seq<char>| is_asked_for(m[k], query),
    )) by {
        assert forall|k: Seq<char>| found(m[k]) == #[trigger] is_asked_for(m[k], query) by {
            law_list_query_selects_what_is_asked_for(m[k], query);
        }
    }
}

/// The country that an entry is sorted under: its own, or `zzz`.
pub open spec fn country_shown(e: EntryView) -> Seq<char> {
    if e.quality is Some && e.quality->0.country is Some {
        e.quality->0.country->0
    } else {
        "zzz"@
    }
}

/// The risk that an entry is sorted under: its own, or two.
pub open spec fn risk_shown(e: EntryView) -> RiskScore {
    if e.quality is Some {
        e.quality->0.risk_score
    } else {
        RiskScore { bits: 0x4000_0000_0000_0000 }
    }
}

/// Whether `first` may stand before `second` in ascending order by what `sort` names.
pub open spec fn may_precede(first: EntryView, second: EntryView, sort: Option<Seq<char>>) -> bool {
    if sort == Some("type"@) {
        text_order(first.proxy_type, second.proxy_type) <= 0
    } else if sort == Some("server"@) {
        ||| text_order(first.server, second.server) < 0
        ||| first.server == second.server && first.port <= second.port
    } else if sort == Some("status"@) || sort == Some("is_valid"@) {
        first.status == "valid"@ || second.status == "invalid"@ || first.status == second.status
    } else if sort == Some("error_count"@) {
        first.error_count <= second.error_count
    } else if sort == Some("country"@) {
        text_order(country_shown(first), country_shown(second)) <= 0
    } else if sort == Some("risk"@) {
        risk_shown(first).total_rank() <= risk_shown(second).total_rank()
    } else {
        text_order(first.name, second.name) <= 0
    }
}

/// Two proxies stand in the order of a listing exactly where their entries may stand so by what
/// `sort` names, the other way round where `dir` is `desc`.
pub proof fn law_listing_order_is_by_what_sort_names(
    a: ProxyView,
    b: ProxyView,
    sort: Option<Seq<char>>,
    dir: Option<Seq<char>>,
)
    ensures
        dir != Some("desc"@) ==> (listing_order(a, b, sort_field(sort), descending(dir)) <= 0
            <==> may_precede(entry_of(a), entry_of(b), sort)),
        dir == Some("desc"@) ==> (listing_order(a, b, sort_field(sort), descending(dir)) <= 0
            <==> may_precede(entry_of(b), entry_of(a), sort)),
{
    reveal_strlit("type");
    reveal_strlit("server");
    reveal_strlit("status");
    reveal_strlit("is_valid");
    reveal_strlit("error_count");
    reveal_strlit("country");
    reveal_strlit("risk");
    assert("type"@.len() == 4 && "server"@.len() == 6 && "status"@.len() == 6 && "is_valid"@.len() == 8
        && "error_count"@.len() == 11 && "country"@.len() == 7 && "risk"@.len() == 4);
    assert("type"@[0] != "risk"@[0] && "server"@[1] != "status"@[1]);
    lemma_status_names();
    lemma_text_pair(a.name, b.name);
    lemma_text_pair(a.proxy_type, b.proxy_type);
    lemma_text_pair(a.server, b.server);
    lemma_text_pair(country_shown(entry_of(a)), country_shown(entry_of(b)));
    let none = Seq::<u8>::empty();
    lemma_bytes_order_antisymmetric(none, none);
}

proof fn lemma_text_pair(a: Seq<char>, b: Seq<char>)
    ensures
        text_order(a, b) == -text_order(b, a),
        -1 <= text_order(a, b) <= 1,
        text_order(a, b) == 0 <==> a == b,
{
    lemma_bytes_order_antisymmetric(encode_utf8(a), encode_utf8(b));
    vstd::utf8::encode_utf8_decode_utf8(a);
    vstd::utf8::encode_utf8_decode_utf8(b);
}

/// The page behind an answer to a list query, and the listing that it is cut from.
proof fn lemma_page_behind(
    r: ProxyListResponse,
    m: Map<Seq<char>, ProxyView>,
    query: ListQueryView,
) -> (sorted: Seq<ProxyView>)
    requires
        keyed_by_id(m),
        answers_list(r, m, query),
    ensures
        lists(sorted, m, selects(query)),
        in_order(sorted, sort_field(query.sort), descending(query.dir)),
        sorted.len() == r.filtered_total,
        r.page == page_number(query),
        r.per_page == page_size(query),
        r.proxies@.len() == page_of(sorted, page_number(query), page_size(query)).len(),
        forall|j: int|
            0 <= j < r.proxies@.len() ==> (page_number(query) - 1) * page_size(query) + j < sorted.len()
                && (#[trigger] r.proxies@[j])@ == entry_of(
                sorted[(page_number(query) - 1) * page_size(query) + j],
            ),
{
    let all = choose|all: Seq<ProxyView>|
        #[trigger] enumerates(all, m) && shows_page(r, all, query);
    let page = choose|page: ProxyListResult|
        {
            &&& #[trigger] answers_list_query(page, all, query)
            &&& r.filtered_total == page.total
            &&& r.page == page.page
            &&& r.per_page == page.per_page
            &&& entry_views(r.proxies@) == entries_of(views(page.proxies@))
        };
    assert(answers_from(page, m, query));
    let sorted = lemma_listing_behind_page(page, m, query);
    let start = (page_number(query) - 1) * page_size(query);
    law_page_is_a_stretch(sorted, page_number(query), page_size(query));
    let shown = page_of(sorted, page_number(query), page_size(query));
    assert(entry_views(r.proxies@).len() == r.proxies@.len());
    assert(entries_of(shown).len() == shown.len());
    assert forall|j: int| 0 <= j < r.proxies@.len() implies start + j < sorted.len() && (
    #[trigger] r.proxies@[j])@ == entry_of(sorted[start + j]) by {
        assert(entry_views(r.proxies@)[j] == r.proxies@[j]@);
        assert(entries_of(shown)[j] == entry_of(shown[j]));
    }
    sorted
}

/// Every proxy that is listed is one of the pool and is what the client's query asks for.
pub proof fn law_listed_proxies_are_what_was_asked_for(
    r: ProxyListResponse,
    m: Map<Seq<char>, ProxyView>,
    query: UserProxyListQuery,
    j: int,
)
    requires
        keyed_by_id(m),
        answers_list(r, m, user_list_query(query)),
        0 <= j < r.proxies@.len(),
    ensures
        ({
            let e = r.proxies@[j]@;
            &&& m.contains_key(e.id) && e == entry_of(m[e.id])
            &&& query.status matches Some(s) ==> e.status == s@
            &&& query.proxy_type matches Some(t) ==> t@.len() == 0 || e.proxy_type == t@
            &&& opt_text(query.quality) == Some("chatgpt"@) ==> e.quality is Some
                && e.quality->0.chatgpt
            &&& opt_text(query.quality) == Some("google"@) ==> e.quality is Some
                && e.quality->0.google
            &&& opt_text(query.quality) == Some("residential"@) ==> e.quality is Some
                && e.quality->0.is_residential
            &&& opt_text(query.quality) == Some("unchecked"@) ==> e.quality is None
            &&& query.search matches Some(s) ==> {
                let part = trimmed(s@);
                ||| part.len() == 0
                ||| stands_in(e.name, part)
                ||| stands_in(e.server, part)
                ||| e.quality is Some && e.quality->0.ip_address is Some && stands_in(
                    e.quality->0.ip_address->0,
                    part,
                )
            }
        }),
{
    let q = user_list_query(query);
    let sorted = lemma_page_behind(r, m, q);
    let p = sorted[(page_number(q) - 1) * page_size(q) + j];
    assert(r.proxies@[j]@ == entry_of(p));
    assert((page_number(q) - 1) * page_size(q) >= 0) by (nonlinear_arith)
        requires
            page_number(q) >= 1,
            page_size(q) >= 1,
    ;
    assert(m.contains_pair(p.id, p) && selects(q)(p));
    law_entry_tells_of_the_proxy(p);
    lemma_status_names();
    let open = ListQueryView { search: None, status: None, proxy_type: None, quality: None, ..q };
    law_conditions_combine(p, q);
    law_quality_condition_means_that_quality(p, ListQueryView { quality: q.quality, ..open });
    if q.search is Some {
        law_search_condition_means_standing_there(p, ListQueryView { search: q.search, ..open });
    }
    if q.status is Some {
        law_status_condition_means_that_status(p, ListQueryView { status: q.status, ..open });
    }
}

/// The proxies of a page stand in the order that the client's query asks for: by what `sort` names,
/// ascending, or descending where `dir` is `desc`.
pub proof fn law_listed_proxies_are_in_the_asked_order(
    r: ProxyListResponse,
    m: Map<Seq<char>, ProxyView>,
    query: UserProxyListQuery,
    i: int,
    j: int,
)
    requires
        keyed_by_id(m),
        answers_list(r, m, user_list_query(query)),
        0 <= i < j < r.proxies@.len(),
    ensures
        opt_text(query.dir) != Some("desc"@) ==> may_precede(
            r.proxies@[i]@,
            r.proxies@[j]@,
            opt_text(query.sort),
        ),
        opt_text(query.dir) == Some("desc"@) ==> may_precede(
            r.proxies@[j]@,
            r.proxies@[i]@,
            opt_text(query.sort),
        ),
{
    let q = user_list_query(query);
    let sorted = lemma_page_behind(r, m, q);
    let start = (page_number(q) - 1) * page_size(q);
    assert(start >= 0) by (nonlinear_arith)
        requires
            start == (page_number(q) - 1) * page_size(q),
            page_number(q) >= 1,
            page_size(q) >= 1,
    ;
    assert(r.proxies@[i]@ == entry_of(sorted[start + i]));
    assert(r.proxies@[j]@ == entry_of(sorted[start + j]));
    assert(listing_order(
        sorted[start + i],
        sorted[start + j],
        sort_field(q.sort),
        descending(q.dir),
    ) <= 0);
    law_listing_order_is_by_what_sort_names(sorted[start + i], sorted[start + j], q.sort, q.dir);
}

/// A listing shows the page that the client asks for, or the first, with as many proxies as it asks
/// for, from 1 to 500, or with 50, as far as there are so many behind the pages before.
pub proof fn law_listing_shows_the_asked_page(
    r: ProxyListResponse,
    m: Map<Seq<char>, ProxyView>,
    query: UserProxyListQuery,
)
    requires
        keyed_by_id(m),
        answers_list(r, m, user_list_query(query)),
    ensures
        query.page is None ==> r.page == 1,
        query.page matches Some(n) ==> (n >= 1 ==> r.page == n) && (n == 0 ==> r.page == 1),
        query.per_page is None ==> r.per_page == 50,
        query.per_page matches Some(n) ==> (1 <= n <= 500 ==> r.per_page == n) && (n == 0
            ==> r.per_page == 1) && (n > 500 ==> r.per_page == 500),
        ({
            let before = (r.page - 1) * r.per_page;
            &&& before >= r.filtered_total ==> r.proxies@.len() == 0
            &&& before < r.filtered_total && r.filtered_total - before <= r.per_page
                ==> r.proxies@.len() == r.filtered_total - before
            &&& before < r.filtered_total && r.filtered_total - before > r.per_page
                ==> r.proxies@.len() == r.per_page
        }),
{
    let q = user_list_query(query);
    let sorted = lemma_page_behind(r, m, q);
    assert((page_number(q) - 1) * page_size(q) >= 0) by (nonlinear_arith)
        requires
            page_number(q) >= 1,
            page_size(q) >= 1,
    ;
}

/// Conditions that agree on every proxy count alike.
proof fn lemma_same_count(
    m: Map<Seq<char>, ProxyView>,
    one: spec_fn(ProxyView) -> bool,
    other: spec_fn(ProxyView) -> bool,
)
    requires
        forall|p: ProxyView| #[trigger] one(p) == other(p),
    ensures
        count_where(m, one) == count_where(m, other),
{
    assert(m.dom().filter(|k: Seq<char>| one(m[k])) =~= m.dom().filter(
        |k: Seq<char>| other(m[k]),
    )) by {
        assert forall|k: Seq<char>| one(m[k]) == other(m[k]) by {}
    }
}

/// The counts of a listing answer the queries for what they count: alone, `quality=chatgpt` finds
/// as many proxies as are counted to reach ChatGPT, and so for `google` and `residential`;
/// `quality=unchecked` finds those that are not counted as checked; `status=valid` and the other
/// statuses find as many as are counted; and a query without conditions finds all.
pub proof fn law_counts_are_what_queries_find(
    r: ProxyListResponse,
    m: Map<Seq<char>, ProxyView>,
    query: UserProxyListQuery,
)
    requires
        keyed_by_id(m),
        answers_list(r, m, user_list_query(query)),
        query.search is None,
        query.proxy_type is None,
    ensures
        query.status is None && opt_text(query.quality) == Some("chatgpt"@) ==> r.filtered_total
            == r.chatgpt_accessible,
        query.status is None && opt_text(query.quality) == Some("google"@) ==> r.filtered_total
            == r.google_accessible,
        query.status is None && opt_text(query.quality) == Some("residential"@) ==> r.filtered_total
            == r.residential,
        query.status is None && opt_text(query.quality) == Some("unchecked"@) ==> r.filtered_total
            == r.total - r.quality_checked,
        query.status is None && query.quality is None ==> r.filtered_total == r.total,
        query.quality is None && opt_text(query.status) == Some("valid"@) ==> r.filtered_total
            == r.valid,
        query.quality is None && opt_text(query.status) == Some("untested"@) ==> r.filtered_total
            == r.untested,
        query.quality is None && opt_text(query.status) == Some("invalid"@) ==> r.filtered_total
            == r.invalid,
{
    let q = user_list_query(query);
    let found = |p: ProxyView| matches_list_query(p, q);
    let all = |p: ProxyView| true;
    let unchecked = |p: ProxyView| p.quality is None;
    assert(m.dom().filter(|k: Seq<char>| all(m[k])) =~= m.dom());
    if query.status is None {
        assert forall|p: ProxyView| true implies {
            &&& q.quality == Some("chatgpt"@) ==> #[trigger] found(p)
                == chatgpt_accessible_pred()(p)
            &&& q.quality == Some("google"@) ==> found(p) == google_accessible_pred()(p)
            &&& q.quality == Some("residential"@) ==> found(p) == residential_pred()(p)
            &&& q.quality == Some("unchecked"@) ==> found(p) == unchecked(p)
            &&& q.quality is None ==> found(p)
        } by {
            law_quality_condition_means_that_quality(p, q);
        }
        if q.quality == Some("chatgpt"@) {
            lemma_same_count(m, found, chatgpt_accessible_pred());
        } else if q.quality == Some("google"@) {
            lemma_same_count(m, found, google_accessible_pred());
        } else if q.quality == Some("residential"@) {
            lemma_same_count(m, found, residential_pred());
        } else if q.quality == Some("unchecked"@) {
            lemma_same_count(m, found, unchecked);
            lemma_count_parts(m, all, unchecked, quality_checked_pred());
        } else if q.quality is None {
            lemma_same_count(m, found, all);
        }
    } else if query.quality is None {
        assert forall|p: ProxyView| true implies {
            &&& q.status == Some("valid"@) ==> #[trigger] found(p) == valid_pred()(p)
            &&& q.status == Some("untested"@) ==> found(p) == untested_pred()(p)
            &&& q.status == Some("invalid"@) ==> found(p) == invalid_pred()(p)
        } by {
            law_status_condition_means_that_status(p, q);
        }
        if q.status == Some("valid"@) {
            lemma_same_count(m, found, valid_pred());
        } else if q.status == Some("untested"@) {
            lemma_same_count(m, found, untested_pred());
        } else if q.status == Some("invalid"@) {
            lemma_same_count(m, found, invalid_pred());
        }
    }
    lemma_status_names();
    reveal_strlit("chatgpt");
    reveal_strlit("google");
    reveal_strlit("residential");
    reveal_strlit("unchecked");
    assert("chatgpt"@.len() == 7 && "google"@.len() == 6 && "residential"@.len() == 11
        && "unchecked"@.len() == 9);
}

} // verus!
