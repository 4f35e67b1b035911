//! Pages of the pool.

use crate::order::{
    arranged, descending, is_sorted_listing, law_sorted_listing_is_unique, sort_field, sort_proxies, sorts,
};
use crate::proxy::{views, PoolProxy, ProxyView};
use crate::query::{matches_list_query, proxy_matches_list_query, ListQueryView, ProxyListQuery};
use vstd::prelude::*;

verus! {

/// One page of a listing.
#[derive(Debug)]
pub struct ProxyListResult {
    pub proxies: Vec<PoolProxy>,
    pub total: usize,
    pub page: usize,
    pub per_page: usize,
}

/// How many proxies a page holds where the query does not say.
pub const DEFAULT_PER_PAGE: usize = 50;

/// How many proxies a page holds at most.
pub const MAX_PER_PAGE: usize = 500;

/// The page that a query asks for, counted from one.
pub open spec fn page_number(query: ListQueryView) -> int {
    match query.page {
        Some(p) => if p < 1 {
            1
        } else {
            p as int
        },
        None => 1,
    }
}

/// How many proxies a page holds.
pub open spec fn page_size(query: ListQueryView) -> int {
    match query.per_page {
        Some(n) => if n < 1 {
            1
        } else if n > MAX_PER_PAGE {
            MAX_PER_PAGE as int
        } else {
            n as int
        },
        None => DEFAULT_PER_PAGE as int,
    }
}

/// The part of `s` that is on a page of the given number and size. Behind the last page there is
/// nothing.
pub open spec fn page_of(s: Seq<ProxyView>, page: int, size: int) -> Seq<ProxyView> {
    let start = (page - 1) * size;
    if start >= s.len() {
        Seq::empty()
    } else if start + size >= s.len() {
        s.skip(start)
    } else {
        s.subrange(start, start + size)
    }
}

/// The proxies of `all` that a query selects.
pub open spec fn selected(all: Seq<ProxyView>, query: ListQueryView) -> Seq<ProxyView> {
    all.filter(|p: ProxyView| matches_list_query(p, query))
}

/// Whether `r` is the answer to a query over the proxies `all`: how many it selects, and the
/// page of them that it asks for, sorted as it asks.
pub open spec fn answers_list_query(
    r: ProxyListResult,
    all: Seq<ProxyView>,
    query: ListQueryView,
) -> bool {
    &&& r.total == selected(all, query).len()
    &&& r.page == page_number(query)
    &&& r.per_page == page_size(query)
    &&& exists|sorted: Seq<ProxyView>|
        #[trigger] is_sorted_listing(
            selected(all, query),
            sorted,
            sort_field(query.sort),
            descending(query.dir),
        ) && views(r.proxies@) == page_of(sorted, page_number(query), page_size(query))
}

/// Answers a list query over the given proxies.
pub fn list_page(all: Vec<PoolProxy>, query: &ProxyListQuery) -> (r: ProxyListResult)
    ensures
        answers_list_query(r, views(all@), query@),
{
    let ghost s = views(all@);
    let ghost pred = |p: ProxyView| matches_list_query(p, query@);
    let mut matched: Vec<PoolProxy> = Vec::new();
    assert(views(matched@) =~= s.take(0).filter(pred)) by {
        reveal(Seq::filter);
    }
    for proxy in it: all
        invariant
            s == views(it.seq()),
            pred == (|p: ProxyView| matches_list_query(p, query@)),
            views(matched@) == s.take(it.index() as int).filter(pred),
    {
        let ghost k = it.index() as int;
        proof {
            reveal(Seq::filter);
            assert(s.take(k + 1).drop_last() =~= s.take(k));
        }
        let ghost before = matched@;
        if proxy_matches_list_query(&proxy, query) {
            matched.push(proxy);
            assert(views(matched@) =~= views(before).push(proxy@));
        }
    }
    assert(s.take(s.len() as int) =~= s);
    assert(views(matched@) == selected(s, query@));
    let total: usize = matched.len();
    sort_proxies(&mut matched, &query.sort, &query.dir);
    let ghost sorted = views(matched@);
    assert(sorted.len() == total);
    let page: usize = match query.page {
        Some(p) => if p < 1 {
            1
        } else {
            p
        },
        None => 1,
    };
    let per_page: usize = match query.per_page {
        Some(n) => if n < 1 {
            1
        } else if n > MAX_PER_PAGE {
            MAX_PER_PAGE
        } else {
            n
        },
        None => DEFAULT_PER_PAGE,
    };
    let proxies: Vec<PoolProxy> = match (page - 1).checked_mul(per_page) {
        None => Vec::new(),
        Some(start) => if start >= total {
            Vec::new()
        } else {
            let mut rest: Vec<PoolProxy> = matched.split_off(start);
            let ghost behind = rest@;
            assert(views(behind) =~= sorted.skip(start as int));
            rest.truncate(per_page);
            assert(views(rest@) =~= page_of(sorted, page as int, per_page as int));
            rest
        },
    };
    assert(views(proxies@) =~= page_of(sorted, page as int, per_page as int));
    ProxyListResult { proxies, total, page, per_page }
}

/// A query names a page from one on, and a page holds at least one proxy and at most
/// [`MAX_PER_PAGE`]; a query that does not say asks for the first page of [`DEFAULT_PER_PAGE`].
pub proof fn law_page_bounds(query: ListQueryView)
    ensures
        page_number(query) >= 1,
        1 <= page_size(query) <= 500,
        query.page is None ==> page_number(query) == 1,
        query.per_page is None ==> page_size(query) == 50,
        query.page matches Some(p) ==> p >= 1 ==> page_number(query) == p,
        query.per_page matches Some(n) ==> 1 <= n <= 500 ==> page_size(query) == n,
{
}

/// No page is longer than its size, and each of its places holds the proxy that many places
/// behind the start of the page.
pub proof fn law_page_is_a_stretch(s: Seq<ProxyView>, page: int, size: int)
    requires
        page >= 1,
        size >= 1,
    ensures
        page_of(s, page, size).len() <= size,
        forall|j: int|
            0 <= j < page_of(s, page, size).len() ==> (page - 1) * size + j < s.len()
                && #[trigger] page_of(s, page, size)[j] == s[(page - 1) * size + j],
{
    assert((page - 1) * size >= 0) by (nonlinear_arith)
        requires
            page >= 1,
            size >= 1,
    ;
}

/// Every proxy of a listing is on exactly one page, at one place of it.
pub proof fn law_pages_cover_the_listing(s: Seq<ProxyView>, size: int, i: int)
    requires
        size >= 1,
        0 <= i < s.len(),
    ensures
        i / size + 1 >= 1,
        0 <= i % size < page_of(s, i / size + 1, size).len(),
        page_of(s, i / size + 1, size)[i % size] == s[i],
        forall|page: int, j: int|
            page >= 1 && 0 <= j < page_of(s, page, size).len() && #[trigger] ((page - 1) * size + j)
                == i ==> page == i / size + 1 && j == i % size,
{
    vstd::arithmetic::div_mod::lemma_fundamental_div_mod(i, size);
    vstd::arithmetic::div_mod::lemma_mod_bound(i, size);
    vstd::arithmetic::div_mod::lemma_div_pos_is_pos(i, size);
    let start = (i / size) * size;
    assert(start == size * (i / size)) by (nonlinear_arith)
        requires
            start == (i / size) * size,
    ;
    assert(start >= 0);
    assert forall|page: int, j: int|
        page >= 1 && 0 <= j < page_of(s, page, size).len() && #[trigger] ((page - 1) * size + j)
            == i implies page == i / size + 1 && j == i % size by {
        law_page_is_a_stretch(s, page, size);
        vstd::arithmetic::div_mod::lemma_fundamental_div_mod_converse(i, size, page - 1, j);
    }
}

/// A page shows only proxies of the pool that its query selects.
pub proof fn law_page_shows_selected_proxies(
    r: ProxyListResult,
    all: Seq<ProxyView>,
    query: ListQueryView,
)
    requires
        answers_list_query(r, all, query),
    ensures
        forall|j: int|
            0 <= j < r.proxies@.len() ==> all.contains((#[trigger] r.proxies@[j])@)
                && matches_list_query(r.proxies@[j]@, query),
        r.proxies@.len() <= r.per_page,
        r.proxies@.len() <= r.total,
{
    let sorted = choose|sorted: Seq<ProxyView>|
        #[trigger] is_sorted_listing(
            selected(all, query),
            sorted,
            sort_field(query.sort),
            descending(query.dir),
        ) && views(r.proxies@) == page_of(sorted, page_number(query), page_size(query));
    let chosen = selected(all, query);
    let perm = choose|perm: Seq<int>|
        #[trigger] sorts(perm, chosen, sort_field(query.sort), descending(query.dir)) && sorted
            == arranged(chosen, perm);
    let page = page_number(query);
    let size = page_size(query);
    let shown = page_of(sorted, page, size);
    law_page_is_a_stretch(sorted, page, size);
    assert(shown.len() == r.proxies@.len());
    assert((page - 1) * size >= 0) by (nonlinear_arith)
        requires
            page >= 1,
            size >= 1,
    ;
    assert forall|j: int| 0 <= j < r.proxies@.len() implies all.contains((#[trigger] r.proxies@[j])@)
        && matches_list_query(r.proxies@[j]@, query) by {
        assert(views(r.proxies@)[j] == shown[j]);
        let i = (page - 1) * size + j;
        assert(shown[j] == sorted[i]);
        assert(sorted[i] == chosen[perm[i]]);
        all.lemma_filter_contains_rev(|p: ProxyView| matches_list_query(p, query), chosen[perm[i]]);
    }
}

/// Over the same proxies in the same order, a query has one answer.
pub proof fn law_answer_is_unique(
    first: ProxyListResult,
    second: ProxyListResult,
    all: Seq<ProxyView>,
    query: ListQueryView,
)
    requires
        answers_list_query(first, all, query),
        answers_list_query(second, all, query),
    ensures
        views(first.proxies@) == views(second.proxies@),
        first.total == second.total,
        first.page == second.page,
        first.per_page == second.per_page,
{
    let chosen = selected(all, query);
    let field = sort_field(query.sort);
    let desc = descending(query.dir);
    let one = choose|sorted: Seq<ProxyView>|
        #[trigger] is_sorted_listing(chosen, sorted, field, desc) && views(first.proxies@) == page_of(
            sorted,
            page_number(query),
            page_size(query),
        );
    let other = choose|sorted: Seq<ProxyView>|
        #[trigger] is_sorted_listing(chosen, sorted, field, desc) && views(second.proxies@)
            == page_of(sorted, page_number(query), page_size(query));
    law_sorted_listing_is_unique(chosen, one, other, field, desc);
}

} // verus!
