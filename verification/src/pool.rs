//! The proxy pool.

use crate::json::{document_or_null, json_view, parse_or_null};
use crate::listing::{answers_list_query, list_page, ProxyListResult};
use crate::proxy::{
    latest_quality, proxy_from_row, quality_of, row_proxy, views, PoolProxy, ProxyQuality,
    ProxyQualityInfo, ProxyRow, ProxyStatus, ProxyView,
};
use crate::query::{
    matches_filter, matches_list_query, proxy_matches_filter, FilterView, ListQueryView, ProxyFilter,
    ProxyListQuery,
};
use crate::sample::{
    fair_draws, law_large_sample_takes_all, law_sample_has_distinct_members, offer, sampled,
};
use crate::store::{
    enumerates, lists_keys, new_store, pool_contents, random_below, store_get, store_insert, store_len,
    store_remove, store_replace, store_values,
};
use crate::text::same_text;
use dashmap::DashMap;
use vstd::hash_map::StringHashMap;
use vstd::prelude::*;

verus! {

/// The proxies that the server knows, by their ids.
pub struct ProxyPool {
    proxies: DashMap<String, PoolProxy>,
}

impl View for ProxyPool {
    type V = Map<Seq<char>, ProxyView>;

    closed spec fn view(&self) -> Map<Seq<char>, ProxyView> {
        pool_contents(self.proxies)
    }
}

/// Whether a map holds finitely many proxies, each under its own id.
pub open spec fn keyed_by_id(m: Map<Seq<char>, ProxyView>) -> bool {
    &&& m.dom().finite()
    &&& forall|k: Seq<char>| #[trigger] m.contains_key(k) ==> m[k].id == k
}

/// Whether `s` lists the proxies of `m` that meet `pred`, each once, in some order.
pub open spec fn lists(
    s: Seq<ProxyView>,
    m: Map<Seq<char>, ProxyView>,
    pred: spec_fn(ProxyView) -> bool,
) -> bool {
    &&& forall|i: int|
        0 <= i < s.len() ==> m.contains_pair((#[trigger] s[i]).id, s[i]) && pred(s[i])
    &&& forall|i: int, j: int|
        0 <= i < j < s.len() ==> (#[trigger] s[i]).id != (#[trigger] s[j]).id
    &&& forall|k: Seq<char>|
        #[trigger] m.contains_key(k) && pred(m[k]) ==> exists|i: int|
            0 <= i < s.len() && (#[trigger] s[i]).id == k
}

/// How many proxies of `m` meet `pred`.
pub open spec fn count_where(
    m: Map<Seq<char>, ProxyView>,
    pred: spec_fn(ProxyView) -> bool,
) -> nat {
    m.dom().filter(|k: Seq<char>| pred(m[k])).len()
}

/// `m` with `p` in the place of the proxy `id`; `m` itself if it has no such proxy.
pub open spec fn replaced(
    m: Map<Seq<char>, ProxyView>,
    id: Seq<char>,
    p: ProxyView,
) -> Map<Seq<char>, ProxyView> {
    if m.contains_key(id) {
        m.insert(id, p)
    } else {
        m
    }
}

/// Whether `after` is `m` but for the proxy `id`: it has the same ids, and every other proxy is as it
/// was.
pub open spec fn differs_only_at(
    m: Map<Seq<char>, ProxyView>,
    after: Map<Seq<char>, ProxyView>,
    id: Seq<char>,
) -> bool {
    &&& after.dom() =~= m.dom()
    &&& forall|k: Seq<char>| #[trigger] m.contains_key(k) && k != id ==> after[k] == m[k]
}

/// One more error. The count starts over behind the largest `u32`.
pub open spec fn one_more(count: u32) -> u32 {
    if count == u32::MAX {
        0
    } else {
        (count + 1) as u32
    }
}

/// A proxy whose validation has given `status`: success clears the errors, failure adds one.
pub open spec fn with_status(p: ProxyView, status: ProxyStatus) -> ProxyView {
    ProxyView {
        status,
        error_count: match status {
            ProxyStatus::Valid => 0,
            ProxyStatus::Invalid => one_more(p.error_count),
            ProxyStatus::Untested => p.error_count,
        },
        ..p
    }
}

/// `p` without a local port.
pub open spec fn without_port(p: ProxyView) -> ProxyView {
    ProxyView { local_port: None, ..p }
}

/// `m` without the proxies of a subscription.
pub open spec fn without_subscription(
    m: Map<Seq<char>, ProxyView>,
    sub_id: Seq<char>,
) -> Map<Seq<char>, ProxyView> {
    m.restrict(Set::new(|k: Seq<char>| m[k].subscription_id != sub_id))
}

/// The proxies of an enumeration that meet `pred` are listed by it.
pub(crate) proof fn lemma_filter_lists(
    all: Seq<ProxyView>,
    m: Map<Seq<char>, ProxyView>,
    pred: spec_fn(ProxyView) -> bool,
)
    requires
        enumerates(all, m),
        keyed_by_id(m),
    ensures
        lists(all.filter(pred), m, pred),
{
    broadcast use vstd::seq_lib::group_filter_ensures;

    let keys = choose|keys: Seq<Seq<char>>|
        #[trigger] lists_keys(keys, m) && all == keys.map_values(|k: Seq<char>| m[k]);
    assert forall|i: int| 0 <= i < all.len() implies m.contains_pair((#[trigger] all[i]).id, all[i])
        && all[i].id == keys[i] by {
        assert(keys.to_set().contains(keys[i]));
        assert(m.contains_key(keys[i]));
    }
    assert forall|k: Seq<char>| #[trigger] m.contains_key(k) && pred(m[k]) implies exists|i: int|
        0 <= i < all.filter(pred).len() && (#[trigger] all.filter(pred)[i]).id == k by {
        assert(keys.to_set().contains(k));
        let i = choose|i: int| 0 <= i < keys.len() && keys[i] == k;
        assert(all[i] == m[k]);
        assert(all.filter(pred).contains(all[i]));
        let j = choose|j: int| 0 <= j < all.filter(pred).len() && all.filter(pred)[j] == all[i];
        assert(all.filter(pred)[j].id == k);
    }
    lemma_filter_distinct(all, pred);
    assert forall|i: int| 0 <= i < all.filter(pred).len() implies m.contains_pair(
        (#[trigger] all.filter(pred)[i]).id,
        all.filter(pred)[i],
    ) && pred(all.filter(pred)[i]) by {
        all.lemma_filter_contains_rev(pred, all.filter(pred)[i]);
    }
}

/// Leaving out proxies keeps ids distinct.
proof fn lemma_filter_distinct(s: Seq<ProxyView>, pred: spec_fn(ProxyView) -> bool)
    requires
        forall|i: int, j: int|
            0 <= i < j < s.len() ==> (#[trigger] s[i]).id != (#[trigger] s[j]).id,
    ensures
        forall|i: int, j: int|
            0 <= i < j < s.filter(pred).len() ==> (#[trigger] s.filter(pred)[i]).id != (
            #[trigger] s.filter(pred)[j]).id,
    decreases s.len(),
{
    broadcast use vstd::seq_lib::group_filter_ensures;

    reveal(Seq::filter);
    if s.len() > 0 {
        let front = s.drop_last();
        lemma_filter_distinct(front, pred);
        assert forall|i: int| 0 <= i < front.filter(pred).len() implies (#[trigger] front.filter(
            pred,
        )[i]).id != s.last().id by {
            front.lemma_filter_contains_rev(pred, front.filter(pred)[i]);
            let k = choose|k: int| 0 <= k < front.len() && front[k] == front.filter(pred)[i];
            assert(s[k] == front[k]);
        }
    }
}

/// A listing is as long as the number of proxies that meet its condition.
pub(crate) proof fn lemma_lists_len(
    s: Seq<ProxyView>,
    m: Map<Seq<char>, ProxyView>,
    pred: spec_fn(ProxyView) -> bool,
)
    requires
        lists(s, m, pred),
    ensures
        s.len() == count_where(m, pred),
        m.dom().filter(|k: Seq<char>| pred(m[k])).finite(),
{
    let ids = s.map_values(|p: ProxyView| p.id);
    let chosen = m.dom().filter(|k: Seq<char>| pred(m[k]));
    assert(ids.no_duplicates()) by {
        assert forall|i: int, j: int| 0 <= i < ids.len() && 0 <= j < ids.len() && i != j implies ids[i]
            != ids[j] by {
            if i < j {
                assert(s[i].id != s[j].id);
            } else {
                assert(s[j].id != s[i].id);
            }
        }
    }
    assert(ids.to_set() =~= chosen) by {
        assert forall|k: Seq<char>| chosen.contains(k) implies ids.to_set().contains(k) by {
            assert(m.contains_key(k) && pred(m[k]));
            let i = choose|i: int| 0 <= i < s.len() && (#[trigger] s[i]).id == k;
            assert(ids[i] == k);
        }
        assert forall|k: Seq<char>| ids.to_set().contains(k) implies chosen.contains(k) by {
            let i = choose|i: int| 0 <= i < ids.len() && ids[i] == k;
            assert(m.contains_pair(s[i].id, s[i]));
        }
    }
    ids.unique_seq_to_set();
    vstd::seq_lib::seq_to_set_is_finite(ids);
}

/// Counts of the proxies in the pool.
#[derive(Debug)]
pub struct ProxyPoolStats {
    pub total: usize,
    pub valid: usize,
    pub untested: usize,
    pub invalid: usize,
    pub quality_checked: usize,
    pub chatgpt_accessible: usize,
    pub google_accessible: usize,
    pub residential: usize,
}

impl Default for ProxyPoolStats {
    /// The counts of an empty pool.
    fn default() -> (r: Self)
        ensures
            r == (ProxyPoolStats {
                total: 0,
                valid: 0,
                untested: 0,
                invalid: 0,
                quality_checked: 0,
                chatgpt_accessible: 0,
                google_accessible: 0,
                residential: 0,
            }),
    {
        ProxyPoolStats {
            total: 0,
            valid: 0,
            untested: 0,
            invalid: 0,
            quality_checked: 0,
            chatgpt_accessible: 0,
            google_accessible: 0,
            residential: 0,
        }
    }
}

/// Whether a proxy is valid.
pub open spec fn valid_pred() -> spec_fn(ProxyView) -> bool {
    |p: ProxyView| p.status == ProxyStatus::Valid
}

/// Whether a proxy was never validated.
pub open spec fn untested_pred() -> spec_fn(ProxyView) -> bool {
    |p: ProxyView| p.status == ProxyStatus::Untested
}

/// Whether a proxy failed validation.
pub open spec fn invalid_pred() -> spec_fn(ProxyView) -> bool {
    |p: ProxyView| p.status == ProxyStatus::Invalid
}

/// Whether the quality of a proxy was checked.
pub open spec fn quality_checked_pred() -> spec_fn(ProxyView) -> bool {
    |p: ProxyView| p.quality is Some
}

/// Whether ChatGPT is known to be reached through a proxy.
pub open spec fn chatgpt_accessible_pred() -> spec_fn(ProxyView) -> bool {
    |p: ProxyView| p.quality matches Some(q) && q.chatgpt_accessible
}

/// Whether Google is known to be reached through a proxy.
pub open spec fn google_accessible_pred() -> spec_fn(ProxyView) -> bool {
    |p: ProxyView| p.quality matches Some(q) && q.google_accessible
}

/// Whether a proxy is known to have a residential address.
pub open spec fn residential_pred() -> spec_fn(ProxyView) -> bool {
    |p: ProxyView| p.quality matches Some(q) && q.is_residential
}

/// Counting in a listing of the whole pool is counting in the pool.
proof fn lemma_count_in_listing(
    s: Seq<ProxyView>,
    m: Map<Seq<char>, ProxyView>,
    pred: spec_fn(ProxyView) -> bool,
)
    requires
        keyed_by_id(m),
        lists(s, m, |p: ProxyView| true),
    ensures
        s.filter(pred).len() == count_where(m, pred),
{
    let keys = s.map_values(|p: ProxyView| p.id);
    assert(keys.no_duplicates()) by {
        assert forall|i: int, j: int| 0 <= i < keys.len() && 0 <= j < keys.len() && i != j implies keys[i]
            != keys[j] by {
            if i < j {
                assert(s[i].id != s[j].id);
            } else {
                assert(s[j].id != s[i].id);
            }
        }
    }
    assert(keys.to_set() =~= m.dom()) by {
        assert forall|k: Seq<char>| m.dom().contains(k) implies keys.to_set().contains(k) by {
            assert(m.contains_key(k));
            let i = choose|i: int| 0 <= i < s.len() && (#[trigger] s[i]).id == k;
            assert(keys[i] == k);
        }
        assert forall|k: Seq<char>| keys.to_set().contains(k) implies m.dom().contains(k) by {
            let i = choose|i: int| 0 <= i < keys.len() && keys[i] == k;
            assert(m.contains_pair(s[i].id, s[i]));
        }
    }
    assert(s =~= keys.map_values(|k: Seq<char>| m[k])) by {
        assert forall|i: int| 0 <= i < s.len() implies s[i] == keys.map_values(
            |k: Seq<char>| m[k],
        )[i] by {
            assert(m.contains_pair(s[i].id, s[i]));
        }
    }
    assert(lists_keys(keys, m));
    lemma_filter_lists(s, m, pred);
    lemma_lists_len(s.filter(pred), m, pred);
}

/// The proxies of `all` that pass a filter.
pub open spec fn passing(all: Seq<ProxyView>, f: FilterView) -> Seq<ProxyView> {
    all.filter(|p: ProxyView| matches_filter(p, f))
}

/// Whether `r` is the answer to a list query over the proxies of `m`, taken in some order.
pub open spec fn answers_from(
    r: ProxyListResult,
    m: Map<Seq<char>, ProxyView>,
    query: ListQueryView,
) -> bool {
    exists|all: Seq<ProxyView>| #[trigger] enumerates(all, m) && answers_list_query(r, all, query)
}

/// Whether `all` is the pool in some order, and `draws` has a draw for each proxy of it that
/// passes a filter.
pub open spec fn drawn_from(
    all: Seq<ProxyView>,
    draws: Seq<int>,
    m: Map<Seq<char>, ProxyView>,
    f: FilterView,
) -> bool {
    enumerates(all, m) && fair_draws(draws, passing(all, f).len())
}

/// Whether `s` is a choice of `count` proxies of `m` that pass a filter, or of all of them if
/// there are fewer, without repetition.
pub open spec fn is_choice(
    s: Seq<ProxyView>,
    m: Map<Seq<char>, ProxyView>,
    f: FilterView,
    count: nat,
) -> bool {
    let passing = count_where(m, |p: ProxyView| matches_filter(p, f));
    &&& s.len() == if passing < count {
        passing
    } else {
        count
    }
    &&& forall|i: int|
        0 <= i < s.len() ==> m.contains_pair((#[trigger] s[i]).id, s[i]) && matches_filter(s[i], f)
    &&& forall|i: int, j: int|
        0 <= i < j < s.len() ==> (#[trigger] s[i]).id != (#[trigger] s[j]).id
}

/// Whether `s` is the sample of `count` proxies that some draws make of the proxies of `m` that
/// pass a filter, taken in some order.
pub open spec fn is_random_choice(
    s: Seq<ProxyView>,
    m: Map<Seq<char>, ProxyView>,
    f: FilterView,
    count: nat,
) -> bool {
    exists|all: Seq<ProxyView>, draws: Seq<int>|
        #[trigger] drawn_from(all, draws, m, f) && s == sampled(passing(all, f), count, draws)
}

/// Draws for later proxies do not change what the earlier ones have made.
proof fn lemma_more_draws(s: Seq<ProxyView>, count: nat, draws: Seq<int>, draw: int)
    requires
        draws.len() >= s.len(),
    ensures
        sampled(s, count, draws.push(draw)) == sampled(s, count, draws),
    decreases s.len(),
{
    if s.len() > 0 {
        lemma_more_draws(s.drop_last(), count, draws, draw);
    }
}

/// Whatever is drawn, a sample is a choice without repetition.
proof fn lemma_sample_is_choice(
    all: Seq<ProxyView>,
    draws: Seq<int>,
    m: Map<Seq<char>, ProxyView>,
    f: FilterView,
    count: nat,
)
    requires
        keyed_by_id(m),
        enumerates(all, m),
    ensures
        is_choice(sampled(passing(all, f), count, draws), m, f, count),
{
    let pred = |p: ProxyView| matches_filter(p, f);
    let s = passing(all, f);
    let out = sampled(s, count, draws);
    lemma_filter_lists(all, m, pred);
    lemma_lists_len(s, m, pred);
    let at = law_sample_has_distinct_members(s, count, draws);
    assert forall|i: int| 0 <= i < out.len() implies m.contains_pair((#[trigger] out[i]).id, out[i])
        && matches_filter(out[i], f) by {
        assert(out[i] == s[at[i]]);
    }
    assert forall|i: int, j: int| 0 <= i < j < out.len() implies (#[trigger] out[i]).id != (
    #[trigger] out[j]).id by {
        assert(out[i] == s[at[i]] && out[j] == s[at[j]]);
        if at[i] < at[j] {
            assert(s[at[i]].id != s[at[j]].id);
        } else {
            assert(s[at[j]].id != s[at[i]].id);
        }
    }
}

/// The proxy that a stored row and the stored quality checks stand for.
pub open spec fn stored_proxy(row: ProxyRow, qualities: Seq<ProxyQuality>) -> ProxyView {
    row_proxy(
        row,
        document_or_null(row.config_json@),
        quality_of(latest_quality(qualities, row.id@)),
    )
}

/// `m` with the stored proxies put in, one after the other.
pub open spec fn loaded(
    m: Map<Seq<char>, ProxyView>,
    rows: Seq<ProxyRow>,
    qualities: Seq<ProxyQuality>,
) -> Map<Seq<char>, ProxyView>
    decreases rows.len(),
{
    if rows.len() == 0 {
        m
    } else {
        loaded(m, rows.drop_last(), qualities).insert(
            rows.last().id@,
            stored_proxy(rows.last(), qualities),
        )
    }
}

/// Whether `by_id` holds the last quality check of each proxy that has one.
spec fn latest_by_id(by_id: Map<Seq<char>, ProxyQuality>, qualities: Seq<ProxyQuality>) -> bool {
    forall|id: Seq<char>|
        latest_quality(qualities, id) == if #[trigger] by_id.contains_key(id) {
            Some(by_id[id])
        } else {
            None
        }
}

/// The last quality check of each proxy that has one.
fn index_qualities(qualities: &Vec<ProxyQuality>) -> (r: StringHashMap<ProxyQuality>)
    ensures
        latest_by_id(r@, qualities@),
{
    let mut by_id: StringHashMap<ProxyQuality> = StringHashMap::new();
    let mut i: usize = 0;
    while i < qualities.len()
        invariant
            i <= qualities@.len(),
            latest_by_id(by_id@, qualities@.take(i as int)),
        decreases qualities@.len() - i,
    {
        let ghost before = by_id@;
        by_id.insert(qualities[i].proxy_id.clone(), qualities[i].clone());
        assert(qualities@.take(i + 1).drop_last() =~= qualities@.take(i as int));
        assert forall|id: Seq<char>|
            latest_quality(qualities@.take(i + 1), id) == if #[trigger] by_id@.contains_key(id) {
                Some(by_id@[id])
            } else {
                None
            } by {
            assert(before.contains_key(id) || !before.contains_key(id));
        }
        i = i + 1;
    }
    assert(qualities@.take(i as int) =~= qualities@);
    by_id
}

impl ProxyPool {
    /// Whether the pool holds finitely many proxies, each under its own id.
    pub open spec fn wf(&self) -> bool {
        keyed_by_id(self@)
    }

    /// An empty pool.
    pub fn new() -> (r: Self)
        ensures
            r.wf(),
            r@ == Map::<Seq<char>, ProxyView>::empty(),
    {
        let pool = ProxyPool { proxies: new_store() };
        assert(pool@ =~= Map::<Seq<char>, ProxyView>::empty());
        pool
    }

    /// Puts a proxy into the pool, in the place of one with its id.
    pub fn add(&mut self, proxy: PoolProxy)
        requires
            old(self).wf(),
        ensures
            final(self).wf(),
            final(self)@ == old(self)@.insert(proxy@.id, proxy@),
    {
        let id: String = proxy.id.clone();
        store_insert(&mut self.proxies, id, proxy);
    }

    /// Takes a proxy out of the pool.
    pub fn remove(&mut self, id: &str)
        requires
            old(self).wf(),
        ensures
            final(self).wf(),
            final(self)@ == old(self)@.remove(id@),
    {
        store_remove(&mut self.proxies, id);
    }

    /// A copy of the proxy `id`.
    pub fn get(&self, id: &str) -> (r: Option<PoolProxy>)
        ensures
            match r {
                Some(p) => self@.contains_pair(id@, p@),
                None => !self@.contains_key(id@),
            },
    {
        store_get(&self.proxies, id)
    }

    /// Copies of all proxies, in no particular order.
    pub fn get_all(&self) -> (r: Vec<PoolProxy>)
        requires
            self.wf(),
        ensures
            lists(views(r@), self@, |p: ProxyView| true),
            r@.len() == self@.len(),
    {
        let all: Vec<PoolProxy> = store_values(&self.proxies);
        proof {
            let pred = |p: ProxyView| true;
            lemma_filter_lists(views(all@), self@, pred);
            lemma_filter_all(views(all@), pred);
            lemma_lists_len(views(all@), self@, pred);
            assert(self@.dom().filter(|k: Seq<char>| pred(self@[k])) =~= self@.dom());
        }
        all
    }

    /// Copies of the valid proxies, in no particular order.
    pub fn get_valid_proxies(&self) -> (r: Vec<PoolProxy>)
        requires
            self.wf(),
        ensures
            lists(views(r@), self@, valid_pred()),
    {
        let all: Vec<PoolProxy> = store_values(&self.proxies);
        let ghost s = views(all@);
        let ghost pred = valid_pred();
        let mut out: Vec<PoolProxy> = Vec::new();
        assert(views(out@) =~= s.take(0).filter(pred)) by {
            reveal(Seq::filter);
        }
        for proxy in it: all
            invariant
                s == views(it.seq()),
                pred == valid_pred(),
                views(out@) == s.take(it.index() as int).filter(pred),
        {
            proof {
                lemma_filter_step(s, it.index() as int, pred);
            }
            let ghost before = out@;
            if proxy.status == ProxyStatus::Valid {
                out.push(proxy);
                assert(views(out@) =~= views(before).push(proxy@));
            }
        }
        proof {
            assert(s.take(s.len() as int) =~= s);
            lemma_filter_lists(s, self@, pred);
        }
        out
    }

    /// Copies of the proxies that pass a filter, in no particular order.
    pub fn filter_proxies(&self, filter: &ProxyFilter) -> (r: Vec<PoolProxy>)
        requires
            self.wf(),
        ensures
            lists(views(r@), self@, |p: ProxyView| matches_filter(p, filter@)),
    {
        let all: Vec<PoolProxy> = store_values(&self.proxies);
        let ghost s = views(all@);
        let ghost pred = |p: ProxyView| matches_filter(p, filter@);
        let mut out: Vec<PoolProxy> = Vec::new();
        assert(views(out@) =~= s.take(0).filter(pred)) by {
            reveal(Seq::filter);
        }
        for proxy in it: all
            invariant
                s == views(it.seq()),
                pred == (|p: ProxyView| matches_filter(p, filter@)),
                views(out@) == s.take(it.index() as int).filter(pred),
        {
            proof {
                lemma_filter_step(s, it.index() as int, pred);
            }
            let ghost before = out@;
            if proxy_matches_filter(&proxy, filter) {
                out.push(proxy);
                assert(views(out@) =~= views(before).push(proxy@));
            }
        }
        proof {
            assert(s.take(s.len() as int) =~= s);
            lemma_filter_lists(s, self@, pred);
        }
        out
    }

    /// Records what validation has found of a proxy.
    pub fn set_status(&mut self, id: &str, status: ProxyStatus)
        requires
            old(self).wf(),
        ensures
            final(self).wf(),
            final(self)@ == replaced(old(self)@, id@, with_status(old(self)@[id@], status)),
            differs_only_at(old(self)@, final(self)@, id@),
            old(self)@.contains_key(id@) ==> final(self)@[id@] == (ProxyView {
                status: final(self)@[id@].status,
                error_count: final(self)@[id@].error_count,
                ..old(self)@[id@]
            }),
            old(self)@.contains_key(id@) ==> final(self)@[id@].status == status,
            old(self)@.contains_key(id@) && status == ProxyStatus::Valid
                ==> final(self)@[id@].error_count == 0,
            old(self)@.contains_key(id@) && status == ProxyStatus::Untested
                ==> final(self)@[id@].error_count == old(self)@[id@].error_count,
            old(self)@.contains_key(id@) && status == ProxyStatus::Invalid
                && old(self)@[id@].error_count < u32::MAX ==> final(self)@[id@].error_count
                == old(self)@[id@].error_count + 1,
    {
        if let Some(found) = store_get(&self.proxies, id) {
            let mut proxy: PoolProxy = found;
            proxy.status = status;
            match status {
                ProxyStatus::Valid => {
                    proxy.error_count = 0;
                },
                ProxyStatus::Invalid => {
                    proxy.error_count = proxy.error_count.wrapping_add(1);
                },
                ProxyStatus::Untested => {},
            }
            store_replace(&mut self.proxies, id, proxy);
        }
    }

    /// Records the local port that a proxy is reached through.
    pub fn set_local_port(&mut self, id: &str, port: u16)
        requires
            old(self).wf(),
        ensures
            final(self).wf(),
            final(self)@ == replaced(
                old(self)@,
                id@,
                ProxyView { local_port: Some(port), ..old(self)@[id@] },
            ),
            differs_only_at(old(self)@, final(self)@, id@),
            old(self)@.contains_key(id@) ==> final(self)@[id@] == (ProxyView {
                local_port: final(self)@[id@].local_port,
                ..old(self)@[id@]
            }),
            old(self)@.contains_key(id@) ==> final(self)@[id@].local_port == Some(port),
    {
        if let Some(found) = store_get(&self.proxies, id) {
            let mut proxy: PoolProxy = found;
            proxy.local_port = Some(port);
            store_replace(&mut self.proxies, id, proxy);
        }
    }

    /// Records that a proxy has no local port.
    pub fn clear_local_port(&mut self, id: &str)
        requires
            old(self).wf(),
        ensures
            final(self).wf(),
            final(self)@ == replaced(
                old(self)@,
                id@,
                ProxyView { local_port: None, ..old(self)@[id@] },
            ),
            differs_only_at(old(self)@, final(self)@, id@),
            old(self)@.contains_key(id@) ==> final(self)@[id@] == (ProxyView {
                local_port: final(self)@[id@].local_port,
                ..old(self)@[id@]
            }),
            old(self)@.contains_key(id@) ==> final(self)@[id@].local_port is None,
    {
        if let Some(found) = store_get(&self.proxies, id) {
            let mut proxy: PoolProxy = found;
            proxy.local_port = None;
            store_replace(&mut self.proxies, id, proxy);
        }
    }

    /// Records what a quality check has found of a proxy.
    pub fn set_quality(&mut self, id: &str, quality: ProxyQualityInfo)
        requires
            old(self).wf(),
        ensures
            final(self).wf(),
            final(self)@ == replaced(
                old(self)@,
                id@,
                ProxyView { quality: Some(quality@), ..old(self)@[id@] },
            ),
            differs_only_at(old(self)@, final(self)@, id@),
            old(self)@.contains_key(id@) ==> final(self)@[id@] == (ProxyView {
                quality: final(self)@[id@].quality,
                ..old(self)@[id@]
            }),
            old(self)@.contains_key(id@) ==> final(self)@[id@].quality == Some(quality@),
    {
        if let Some(found) = store_get(&self.proxies, id) {
            let mut proxy: PoolProxy = found;
            proxy.quality = Some(quality);
            store_replace(&mut self.proxies, id, proxy);
        }
    }

    /// Gives a proxy another name and another outbound.
    pub fn update_proxy_config(
        &mut self,
        id: &str,
        name: &str,
        singbox_outbound: serde_json::Value,
    )
        requires
            old(self).wf(),
        ensures
            final(self).wf(),
            final(self)@ == replaced(
                old(self)@,
                id@,
                ProxyView {
                    name: name@,
                    singbox_outbound: json_view(singbox_outbound),
                    ..old(self)@[id@]
                },
            ),
            differs_only_at(old(self)@, final(self)@, id@),
            old(self)@.contains_key(id@) ==> final(self)@[id@] == (ProxyView {
                name: final(self)@[id@].name,
                singbox_outbound: final(self)@[id@].singbox_outbound,
                ..old(self)@[id@]
            }),
            old(self)@.contains_key(id@) ==> final(self)@[id@].name == name@,
            old(self)@.contains_key(id@) ==> final(self)@[id@].singbox_outbound == json_view(
                singbox_outbound,
            ),
    {
        if let Some(found) = store_get(&self.proxies, id) {
            let mut proxy: PoolProxy = found;
            proxy.name = name.to_owned();
            proxy.singbox_outbound = singbox_outbound;
            store_replace(&mut self.proxies, id, proxy);
        }
    }

    /// Counts one more failure of a proxy.
    pub fn increment_error(&mut self, id: &str)
        requires
            old(self).wf(),
        ensures
            final(self).wf(),
            final(self)@ == replaced(
                old(self)@,
                id@,
                ProxyView { error_count: one_more(old(self)@[id@].error_count), ..old(self)@[id@] },
            ),
            differs_only_at(old(self)@, final(self)@, id@),
            old(self)@.contains_key(id@) ==> final(self)@[id@] == (ProxyView {
                error_count: final(self)@[id@].error_count,
                ..old(self)@[id@]
            }),
            old(self)@.contains_key(id@) && old(self)@[id@].error_count < u32::MAX
                ==> final(self)@[id@].error_count == old(self)@[id@].error_count + 1,
    {
        if let Some(found) = store_get(&self.proxies, id) {
            let mut proxy: PoolProxy = found;
            proxy.error_count = proxy.error_count.wrapping_add(1);
            store_replace(&mut self.proxies, id, proxy);
        }
    }

    /// How many proxies the pool holds.
    pub fn count(&self) -> (r: usize)
        ensures
            r == self@.len(),
    {
        store_len(&self.proxies)
    }

    /// Records that no proxy has a local port.
    pub fn clear_all_local_ports(&mut self)
        requires
            old(self).wf(),
        ensures
            final(self).wf(),
            final(self)@ == old(self)@.map_values(|p: ProxyView| without_port(p)),
            final(self)@.dom() == old(self)@.dom(),
            forall|k: Seq<char>| #[trigger]
                old(self)@.contains_key(k) ==> final(self)@[k] == (ProxyView {
                    local_port: None,
                    ..old(self)@[k]
                }),
    {
        let ghost m = self@;
        let all: Vec<PoolProxy> = self.get_all();
        let ghost s = views(all@);
        let mut i: usize = 0;
        while i < all.len()
            invariant
                i <= all@.len(),
                s == views(all@),
                keyed_by_id(m),
                lists(s, m, |p: ProxyView| true),
                self@.dom() == m.dom(),
                forall|j: int|
                    0 <= j < i ==> self@[(#[trigger] s[j]).id] == without_port(m[s[j].id]),
                forall|j: int| i <= j < s.len() ==> self@[(#[trigger] s[j]).id] == m[s[j].id],
            decreases all@.len() - i,
        {
            assert(s[i as int] == all@[i as int]@);
            assert(m.contains_pair(s[i as int].id, s[i as int]));
            let mut proxy: PoolProxy = all[i].clone();
            proxy.local_port = None;
            store_replace(&mut self.proxies, all[i].id.as_str(), proxy);
            i = i + 1;
            assert(self@.dom() =~= m.dom());
        }
        assert forall|k: Seq<char>| #[trigger] m.contains_key(k) implies self@[k] == without_port(
            m[k],
        ) by {
            let j = choose|j: int| 0 <= j < s.len() && (#[trigger] s[j]).id == k;
            assert(self@[s[j].id] == without_port(m[s[j].id]));
        }
        assert(self@ =~= m.map_values(|p: ProxyView| without_port(p)));
    }

    /// Takes the proxies of a subscription out of the pool.
    pub fn remove_by_subscription(&mut self, sub_id: &str)
        requires
            old(self).wf(),
        ensures
            final(self).wf(),
            final(self)@ == without_subscription(old(self)@, sub_id@),
            forall|k: Seq<char>| #[trigger]
                final(self)@.contains_key(k) <==> old(self)@.contains_key(k)
                    && old(self)@[k].subscription_id != sub_id@,
            forall|k: Seq<char>| #[trigger]
                final(self)@.contains_key(k) ==> final(self)@[k] == old(self)@[k],
    {
        let ghost m = self@;
        let all: Vec<PoolProxy> = self.get_all();
        let ghost s = views(all@);
        let mut i: usize = 0;
        while i < all.len()
            invariant
                i <= all@.len(),
                s == views(all@),
                keyed_by_id(m),
                lists(s, m, |p: ProxyView| true),
                self@.dom().finite(),
                forall|k: Seq<char>| #[trigger]
                    self@.contains_key(k) ==> m.contains_key(k) && self@[k] == m[k],
                forall|j: int|
                    0 <= j < i ==> (self@.contains_key((#[trigger] s[j]).id)
                        <==> s[j].subscription_id != sub_id@),
                forall|j: int| i <= j < s.len() ==> self@.contains_key((#[trigger] s[j]).id),
            decreases all@.len() - i,
        {
            assert(s[i as int] == all@[i as int]@);
            if same_text(all[i].subscription_id.as_str(), sub_id) {
                store_remove(&mut self.proxies, all[i].id.as_str());
            }
            i = i + 1;
        }
        assert forall|k: Seq<char>| #[trigger] m.contains_key(k) implies (self@.contains_key(k)
            <==> m[k].subscription_id != sub_id@) by {
            let j = choose|j: int| 0 <= j < s.len() && (#[trigger] s[j]).id == k;
            assert(m.contains_pair(s[j].id, s[j]));
        }
        assert(self@ =~= without_subscription(m, sub_id@));
    }

    /// How many proxies are valid.
    pub fn count_valid(&self) -> (r: usize)
        requires
            self.wf(),
        ensures
            r == count_where(self@, valid_pred()),
    {
        let valid: Vec<PoolProxy> = self.get_valid_proxies();
        proof {
            lemma_lists_len(views(valid@), self@, valid_pred());
        }
        valid.len()
    }

    /// Counts the proxies by status and by what quality checks have found.
    pub fn stats(&self) -> (r: ProxyPoolStats)
        requires
            self.wf(),
        ensures
            r.total == self@.len(),
            r.valid == count_where(self@, valid_pred()),
            r.untested == count_where(self@, untested_pred()),
            r.invalid == count_where(self@, invalid_pred()),
            r.quality_checked == count_where(self@, quality_checked_pred()),
            r.chatgpt_accessible == count_where(self@, chatgpt_accessible_pred()),
            r.google_accessible == count_where(self@, google_accessible_pred()),
            r.residential == count_where(self@, residential_pred()),
    {
        let all: Vec<PoolProxy> = self.get_all();
        let ghost s = views(all@);
        let mut stats: ProxyPoolStats = ProxyPoolStats::default();
        proof {
            reveal(Seq::filter);
        }
        let mut i: usize = 0;
        while i < all.len()
            invariant
                i <= all@.len(),
                s == views(all@),
                stats.total == i,
                stats.valid == s.take(i as int).filter(valid_pred()).len(),
                stats.valid <= i,
                stats.untested == s.take(i as int).filter(untested_pred()).len(),
                stats.untested <= i,
                stats.invalid == s.take(i as int).filter(invalid_pred()).len(),
                stats.invalid <= i,
                stats.quality_checked == s.take(i as int).filter(quality_checked_pred()).len(),
                stats.quality_checked <= i,
                stats.chatgpt_accessible == s.take(i as int).filter(chatgpt_accessible_pred()).len(),
                stats.chatgpt_accessible <= i,
                stats.google_accessible == s.take(i as int).filter(google_accessible_pred()).len(),
                stats.google_accessible <= i,
                stats.residential == s.take(i as int).filter(residential_pred()).len(),
                stats.residential <= i,
            decreases all@.len() - i,
        {
            proof {
                lemma_filter_step(s, i as int, valid_pred());
                lemma_filter_step(s, i as int, untested_pred());
                lemma_filter_step(s, i as int, invalid_pred());
                lemma_filter_step(s, i as int, quality_checked_pred());
                lemma_filter_step(s, i as int, chatgpt_accessible_pred());
                lemma_filter_step(s, i as int, google_accessible_pred());
                lemma_filter_step(s, i as int, residential_pred());
            }
            stats.total = stats.total + 1;
            let proxy: &PoolProxy = &all[i];
            match proxy.status {
                ProxyStatus::Valid => {
                    stats.valid = stats.valid + 1;
                },
                ProxyStatus::Untested => {
                    stats.untested = stats.untested + 1;
                },
                ProxyStatus::Invalid => {
                    stats.invalid = stats.invalid + 1;
                },
            }
            if let Some(q) = &proxy.quality {
                stats.quality_checked = stats.quality_checked + 1;
                if q.chatgpt_accessible {
                    stats.chatgpt_accessible = stats.chatgpt_accessible + 1;
                }
                if q.google_accessible {
                    stats.google_accessible = stats.google_accessible + 1;
                }
                if q.is_residential {
                    stats.residential = stats.residential + 1;
                }
            }
            i = i + 1;
        }
        proof {
            assert(s.take(s.len() as int) =~= s);
            lemma_count_in_listing(s, self@, valid_pred());
            lemma_count_in_listing(s, self@, untested_pred());
            lemma_count_in_listing(s, self@, invalid_pred());
            lemma_count_in_listing(s, self@, quality_checked_pred());
            lemma_count_in_listing(s, self@, chatgpt_accessible_pred());
            lemma_count_in_listing(s, self@, google_accessible_pred());
            lemma_count_in_listing(s, self@, residential_pred());
        }
        stats
    }

    /// A random choice of `count` proxies that pass a filter, or all of them if there are fewer.
    pub fn pick_random(&self, filter: &ProxyFilter, count: usize) -> (r: Vec<PoolProxy>)
        requires
            self.wf(),
        ensures
            is_random_choice(views(r@), self@, filter@, count as nat),
            is_choice(views(r@), self@, filter@, count as nat),
    {
        let all: Vec<PoolProxy> = store_values(&self.proxies);
        let ghost s = views(all@);
        let ghost pred = |p: ProxyView| matches_filter(p, filter@);
        let ghost mut draws: Seq<int> = Seq::empty();
        let mut reservoir: Vec<PoolProxy> = Vec::new();
        let mut seen: usize = 0;
        assert(views(reservoir@) =~= Seq::empty());
        assert(s.take(0).filter(pred).len() == 0) by {
            reveal(Seq::filter);
        }
        let mut i: usize = 0;
        while i < all.len()
            invariant
                i <= all@.len(),
                s == views(all@),
                pred == (|p: ProxyView| matches_filter(p, filter@)),
                seen <= i,
                seen == s.take(i as int).filter(pred).len(),
                fair_draws(draws, seen as nat),
                views(reservoir@) == sampled(s.take(i as int).filter(pred), count as nat, draws),
            decreases all@.len() - i,
        {
            let ghost front = s.take(i as int).filter(pred);
            proof {
                lemma_filter_step(s, i as int, pred);
            }
            if proxy_matches_filter(&all[i], filter) {
                seen = seen + 1;
                let draw: usize = if count == 0 || reservoir.len() < count {
                    0
                } else {
                    random_below(seen)
                };
                let ghost before = draws;
                proof {
                    draws = draws.push(draw as int);
                    let next = front.push(s[i as int]);
                    assert(next.drop_last() =~= front);
                    lemma_more_draws(front, count as nat, before, draw as int);
                }
                offer(&mut reservoir, count, all[i].clone(), draw);
            }
            i = i + 1;
        }
        proof {
            assert(s.take(s.len() as int) =~= s);
            assert(passing(s, filter@) == s.filter(pred));
            assert(drawn_from(s, draws, self@, filter@));
            lemma_sample_is_choice(s, draws, self@, filter@, count as nat);
        }
        reservoir
    }

    /// A page of the pool.
    pub fn list_proxies(&self, query: &ProxyListQuery) -> (r: ProxyListResult)
        requires
            self.wf(),
        ensures
            answers_from(r, self@, query@),
            r.total == count_where(self@, |p: ProxyView| matches_list_query(p, query@)),
    {
        let all: Vec<PoolProxy> = store_values(&self.proxies);
        proof {
            let pred = |p: ProxyView| matches_list_query(p, query@);
            assert(enumerates(views(all@), self@));
            lemma_filter_lists(views(all@), self@, pred);
            lemma_lists_len(views(all@).filter(pred), self@, pred);
        }
        list_page(all, query)
    }

    /// Puts stored proxies into the pool, each with the last of its stored quality checks.
    pub fn load_from_db(&mut self, rows: Vec<ProxyRow>, qualities: Vec<ProxyQuality>)
        requires
            old(self).wf(),
        ensures
            final(self).wf(),
            final(self)@ == loaded(old(self)@, rows@, qualities@),
    {
        let by_id: StringHashMap<ProxyQuality> = index_qualities(&qualities);
        let ghost m = self@;
        let ghost stored = rows@;
        assert(stored.take(0) =~= Seq::empty());
        for row in it: rows
            invariant
                stored == it.seq(),
                latest_by_id(by_id@, qualities@),
                keyed_by_id(self@),
                self@ == loaded(m, stored.take(it.index() as int), qualities@),
        {
            let ghost k = it.index() as int;
            assert(stored.take(k + 1).drop_last() =~= stored.take(k));
            let quality: Option<ProxyQualityInfo> = match by_id.get(row.id.as_str()) {
                Some(q) => Some(ProxyQualityInfo::from(q.clone())),
                None => None,
            };
            let outbound: serde_json::Value = parse_or_null(row.config_json.as_str());
            let id: String = row.id.clone();
            let proxy: PoolProxy = proxy_from_row(row, outbound, quality);
            store_insert(&mut self.proxies, id, proxy);
        }
        assert(stored.take(stored.len() as int) =~= stored);
    }
}

/// What one more proxy adds to those that meet a condition.
proof fn lemma_filter_step(s: Seq<ProxyView>, k: int, pred: spec_fn(ProxyView) -> bool)
    requires
        0 <= k < s.len(),
    ensures
        s.take(k + 1).filter(pred) == if pred(s[k]) {
            s.take(k).filter(pred).push(s[k])
        } else {
            s.take(k).filter(pred)
        },
{
    reveal(Seq::filter);
    assert(s.take(k + 1).drop_last() =~= s.take(k));
}

/// A condition that everything meets leaves nothing out.
proof fn lemma_filter_all(s: Seq<ProxyView>, pred: spec_fn(ProxyView) -> bool)
    requires
        forall|p: ProxyView| #[trigger] pred(p),
    ensures
        s.filter(pred) == s,
    decreases s.len(),
{
    reveal(Seq::filter);
    if s.len() > 0 {
        lemma_filter_all(s.drop_last(), pred);
        assert(pred(s.last()));
        assert(s.drop_last().push(s.last()) =~= s);
    }
}

/// Counting by two conditions that exclude each other is counting by either of them.
pub(crate) proof fn lemma_count_parts(
    m: Map<Seq<char>, ProxyView>,
    either: spec_fn(ProxyView) -> bool,
    one: spec_fn(ProxyView) -> bool,
    other: spec_fn(ProxyView) -> bool,
)
    requires
        m.dom().finite(),
        forall|p: ProxyView| #[trigger] either(p) == (one(p) || other(p)),
        forall|p: ProxyView| !(#[trigger] one(p) && other(p)),
    ensures
        count_where(m, either) == count_where(m, one) + count_where(m, other),
{
    let a = m.dom().filter(|k: Seq<char>| one(m[k]));
    let b = m.dom().filter(|k: Seq<char>| other(m[k]));
    let both = m.dom().filter(|k: Seq<char>| either(m[k]));
    assert(both =~= a + b) by {
        assert forall|k: Seq<char>| both.contains(k) == (a + b).contains(k) by {
            assert(either(m[k]) == (one(m[k]) || other(m[k])));
        }
    }
    assert(a.disjoint(b)) by {
        assert forall|k: Seq<char>| !(a.contains(k) && b.contains(k)) by {
            assert(!(one(m[k]) && other(m[k])));
        }
    }
    vstd::set_lib::lemma_set_disjoint_lens(a, b);
}

/// Fewer proxies meet a stricter condition.
proof fn lemma_count_fewer(
    m: Map<Seq<char>, ProxyView>,
    strict: spec_fn(ProxyView) -> bool,
    loose: spec_fn(ProxyView) -> bool,
)
    requires
        m.dom().finite(),
        forall|p: ProxyView| #[trigger] strict(p) ==> loose(p),
    ensures
        count_where(m, strict) <= count_where(m, loose),
        count_where(m, loose) <= m.len(),
{
    let a = m.dom().filter(|k: Seq<char>| strict(m[k]));
    let b = m.dom().filter(|k: Seq<char>| loose(m[k]));
    assert(a.subset_of(b));
    vstd::set_lib::lemma_len_subset(a, b);
    vstd::set_lib::lemma_len_subset(b, m.dom());
}

/// The counts of a pool fit together: every proxy is valid, untested or invalid, and what quality
/// checks have found is counted among the proxies that were checked.
pub proof fn law_counts_fit_together(m: Map<Seq<char>, ProxyView>)
    requires
        m.dom().finite(),
    ensures
        m.len() == count_where(m, valid_pred()) + count_where(m, untested_pred()) + count_where(
            m,
            invalid_pred(),
        ),
        count_where(m, quality_checked_pred()) <= m.len(),
        count_where(m, chatgpt_accessible_pred()) <= count_where(m, quality_checked_pred()),
        count_where(m, google_accessible_pred()) <= count_where(m, quality_checked_pred()),
        count_where(m, residential_pred()) <= count_where(m, quality_checked_pred()),
{
    let all = |p: ProxyView| true;
    let tested = |p: ProxyView| p.status != ProxyStatus::Untested;
    assert(m.dom().filter(|k: Seq<char>| all(m[k])) =~= m.dom());
    lemma_count_parts(m, all, tested, untested_pred());
    lemma_count_parts(m, tested, valid_pred(), invalid_pred());
    lemma_count_fewer(m, chatgpt_accessible_pred(), quality_checked_pred());
    lemma_count_fewer(m, google_accessible_pred(), quality_checked_pred());
    lemma_count_fewer(m, residential_pred(), quality_checked_pred());
}

/// A proxy that was added is found under its id, no other proxy is touched, and taking it out
/// again leaves the pool without it.
pub proof fn law_added_proxy_is_found(m: Map<Seq<char>, ProxyView>, p: ProxyView)
    requires
        keyed_by_id(m),
    ensures
        keyed_by_id(m.insert(p.id, p)),
        m.insert(p.id, p).contains_pair(p.id, p),
        forall|k: Seq<char>| #[trigger]
            m.contains_key(k) && k != p.id ==> m.insert(p.id, p).contains_pair(k, m[k]),
        m.insert(p.id, p).remove(p.id) == m.remove(p.id),
        !m.contains_key(p.id) ==> m.insert(p.id, p).remove(p.id) == m,
{
    assert(m.insert(p.id, p).remove(p.id) =~= m.remove(p.id));
    if !m.contains_key(p.id) {
        assert(m.remove(p.id) =~= m);
    }
}

/// Changing a proxy neither adds nor loses one, leaves the others as they were, and does nothing
/// where the pool has no such proxy.
pub proof fn law_change_touches_one_proxy(
    m: Map<Seq<char>, ProxyView>,
    id: Seq<char>,
    p: ProxyView,
)
    requires
        keyed_by_id(m),
        p.id == id,
    ensures
        keyed_by_id(replaced(m, id, p)),
        replaced(m, id, p).dom() == m.dom(),
        m.contains_key(id) ==> replaced(m, id, p)[id] == p,
        !m.contains_key(id) ==> replaced(m, id, p) == m,
        forall|k: Seq<char>| #[trigger]
            m.contains_key(k) && k != id ==> replaced(m, id, p)[k] == m[k],
{
    assert(replaced(m, id, p).dom() =~= m.dom());
}

/// Validation clears the errors of a proxy where it succeeds, counts one more where it fails,
/// and has no say in anything else. Validating once more with success changes nothing.
pub proof fn law_validation_keeps_the_rest(p: ProxyView, status: ProxyStatus)
    ensures
        with_status(p, status).status == status,
        with_status(p, ProxyStatus::Valid).error_count == 0,
        p.error_count < u32::MAX ==> with_status(p, ProxyStatus::Invalid).error_count
            == p.error_count + 1,
        with_status(p, ProxyStatus::Untested).error_count == p.error_count,
        with_status(p, status) == (ProxyView {
            status,
            error_count: with_status(p, status).error_count,
            ..p
        }),
        with_status(with_status(p, ProxyStatus::Valid), ProxyStatus::Valid) == with_status(
            p,
            ProxyStatus::Valid,
        ),
{
}

/// Removing a subscription leaves exactly the proxies of the others, and removing it again
/// changes nothing.
pub proof fn law_removed_subscription_is_gone(m: Map<Seq<char>, ProxyView>, sub_id: Seq<char>)
    ensures
        forall|k: Seq<char>| #[trigger]
            without_subscription(m, sub_id).contains_key(k) <==> m.contains_key(k)
                && m[k].subscription_id != sub_id,
        forall|k: Seq<char>| #[trigger]
            without_subscription(m, sub_id).contains_key(k) ==> without_subscription(m, sub_id)[k]
                == m[k],
        without_subscription(without_subscription(m, sub_id), sub_id) == without_subscription(
            m,
            sub_id,
        ),
{
    assert(without_subscription(without_subscription(m, sub_id), sub_id) =~= without_subscription(
        m,
        sub_id,
    ));
}

/// Once all local ports are cleared, no filter lets any proxy pass.
pub proof fn law_no_port_no_choice(m: Map<Seq<char>, ProxyView>, f: FilterView)
    ensures
        count_where(
            m.map_values(|p: ProxyView| without_port(p)),
            |p: ProxyView| matches_filter(p, f),
        ) == 0,
{
    let cleared = m.map_values(|p: ProxyView| without_port(p));
    let pred = |p: ProxyView| matches_filter(p, f);
    assert(cleared.dom().filter(|k: Seq<char>| pred(cleared[k])) =~= Set::empty());
}

/// A choice that has room for all takes every proxy that passes the filter.
pub proof fn law_large_choice_takes_all(
    s: Seq<ProxyView>,
    m: Map<Seq<char>, ProxyView>,
    f: FilterView,
    count: nat,
)
    requires
        keyed_by_id(m),
        is_random_choice(s, m, f, count),
        count >= count_where(m, |p: ProxyView| matches_filter(p, f)),
    ensures
        lists(s, m, |p: ProxyView| matches_filter(p, f)),
{
    let pred = |p: ProxyView| matches_filter(p, f);
    let (all, draws) = choose|all: Seq<ProxyView>, draws: Seq<int>|
        #[trigger] drawn_from(all, draws, m, f) && s == sampled(passing(all, f), count, draws);
    lemma_filter_lists(all, m, pred);
    lemma_lists_len(passing(all, f), m, pred);
    law_large_sample_takes_all(passing(all, f), count, draws);
}

/// A choice is made of proxies of the pool that pass the filter, without repetition, as many as
/// were asked for or as there are. This holds whatever is drawn.
pub proof fn law_random_choice_is_a_choice(
    s: Seq<ProxyView>,
    m: Map<Seq<char>, ProxyView>,
    f: FilterView,
    count: nat,
)
    requires
        keyed_by_id(m),
        is_random_choice(s, m, f, count),
    ensures
        is_choice(s, m, f, count),
{
    let (all, draws) = choose|all: Seq<ProxyView>, draws: Seq<int>|
        #[trigger] drawn_from(all, draws, m, f) && s == sampled(passing(all, f), count, draws);
    lemma_sample_is_choice(all, draws, m, f, count);
}

/// Whether a stored proxy has the id.
pub open spec fn has_row(rows: Seq<ProxyRow>, id: Seq<char>) -> bool {
    exists|i: int| 0 <= i < rows.len() && (#[trigger] rows[i]).id@ == id
}

/// The last stored proxy with an id.
pub open spec fn last_row(rows: Seq<ProxyRow>, id: Seq<char>) -> ProxyRow
    decreases rows.len(),
{
    if rows.len() == 0 || rows.last().id@ == id {
        rows.last()
    } else {
        last_row(rows.drop_last(), id)
    }
}

/// Loading puts in the last stored proxy of each id, and leaves every other proxy of the pool as
/// it was.
pub proof fn law_loading_takes_last_rows(
    m: Map<Seq<char>, ProxyView>,
    rows: Seq<ProxyRow>,
    qualities: Seq<ProxyQuality>,
)
    ensures
        forall|id: Seq<char>| #[trigger]
            loaded(m, rows, qualities).contains_key(id) <==> has_row(rows, id) || m.contains_key(
                id,
            ),
        forall|id: Seq<char>| #[trigger]
            loaded(m, rows, qualities).contains_key(id) ==> loaded(m, rows, qualities)[id]
                == if has_row(rows, id) {
                stored_proxy(last_row(rows, id), qualities)
            } else {
                m[id]
            },
    decreases rows.len(),
{
    if rows.len() > 0 {
        let front = rows.drop_last();
        law_loading_takes_last_rows(m, front, qualities);
        let last = rows.last().id@;
        assert forall|id: Seq<char>| #[trigger] has_row(rows, id) == (has_row(front, id) || id
            == last) by {
            if has_row(rows, id) {
                let i = choose|i: int| 0 <= i < rows.len() && (#[trigger] rows[i]).id@ == id;
                if i < front.len() {
                    assert(front[i].id@ == id);
                }
            }
            if has_row(front, id) {
                let i = choose|i: int| 0 <= i < front.len() && (#[trigger] front[i]).id@ == id;
                assert(rows[i].id@ == id);
            }
            if id == last {
                assert(rows[rows.len() - 1].id@ == id);
            }
        }
        assert forall|id: Seq<char>| #[trigger]
            loaded(m, rows, qualities).contains_key(id) <==> has_row(rows, id) || m.contains_key(
                id,
            ) by {
            assert(loaded(m, front, qualities).contains_key(id) || !loaded(
                m,
                front,
                qualities,
            ).contains_key(id));
        }
        assert forall|id: Seq<char>| #[trigger]
            loaded(m, rows, qualities).contains_key(id) implies loaded(m, rows, qualities)[id]
            == if has_row(rows, id) {
            stored_proxy(last_row(rows, id), qualities)
        } else {
            m[id]
        } by {
            if id != last {
                assert(loaded(m, front, qualities).contains_key(id));
            }
        }
    } else {
        assert forall|id: Seq<char>| !has_row(rows, id) by {}
    }
}

/// Loading the same rows again changes nothing.
pub proof fn law_loading_twice_is_loading_once(
    m: Map<Seq<char>, ProxyView>,
    rows: Seq<ProxyRow>,
    qualities: Seq<ProxyQuality>,
)
    ensures
        loaded(loaded(m, rows, qualities), rows, qualities) == loaded(m, rows, qualities),
{
    let once = loaded(m, rows, qualities);
    let twice = loaded(once, rows, qualities);
    law_loading_takes_last_rows(m, rows, qualities);
    law_loading_takes_last_rows(once, rows, qualities);
    assert forall|id: Seq<char>| once.contains_key(id) == twice.contains_key(id) by {}
    assert forall|id: Seq<char>| once.contains_key(id) implies once[id] == twice[id] by {
        assert(twice.contains_key(id));
    }
    assert(twice =~= once);
}

/// A stored proxy is valid if it is marked so, invalid if it has been validated and is not marked
/// so, and untested if it never was validated.
pub proof fn law_stored_status(row: ProxyRow, qualities: Seq<ProxyQuality>)
    ensures
        stored_proxy(row, qualities).status == ProxyStatus::Valid <==> row.is_valid,
        stored_proxy(row, qualities).status == ProxyStatus::Invalid <==> !row.is_valid
            && row.last_validated is Some,
        stored_proxy(row, qualities).status == ProxyStatus::Untested <==> !row.is_valid
            && row.last_validated is None,
{
}

} // verus!
