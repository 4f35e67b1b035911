//! How the pages of several calls fit together while the pool does not change.

use crate::listing::{
    answers_list_query, law_page_is_a_stretch, page_number, page_of, page_size, selected, ProxyListResult,
};
use crate::order::{
    arranged, descending, is_sorted_listing, law_sorted_listing_is_in_order, law_sorted_listing_is_unique,
    lemma_covers, lemma_listing_order_antisymmetric, lemma_listing_order_transitive, listing_order,
    sort_field, sorts, SortField,
};
use crate::pool::{answers_from, count_where, keyed_by_id, lemma_filter_lists, lemma_lists_len, lists};
use crate::proxy::{views, ProxyView};
use crate::query::{matches_list_query, ListQueryView};
use crate::store::enumerates;
use vstd::prelude::*;

verus! {

/// A query for another page.
pub open spec fn on_page(query: ListQueryView, page: int) -> ListQueryView {
    ListQueryView { page: Some(page as usize), ..query }
}

/// Whether a query selects a proxy.
pub open spec fn selects(query: ListQueryView) -> spec_fn(ProxyView) -> bool {
    |p: ProxyView| matches_list_query(p, query)
}

/// How many pages of a size it takes to show `total` proxies.
pub open spec fn page_count(total: int, size: int) -> int {
    (total + size - 1) / size
}

/// How many of `total` proxies are on the page with `i` pages before it.
pub open spec fn page_length(i: int, size: int, total: int) -> int {
    let rest = total - i * size;
    if rest < 0 {
        0
    } else if rest < size {
        rest
    } else {
        size
    }
}

/// The proxies of several pages, one page after the other.
pub open spec fn together(pages: Seq<ProxyListResult>) -> Seq<ProxyView>
    decreases pages.len(),
{
    if pages.len() == 0 {
        Seq::empty()
    } else {
        together(pages.drop_last()) + views(pages.last().proxies@)
    }
}

/// Whether `pages` are the answers of calls for the first pages of a query, one after the other,
/// while the pool is `m`. Each call may walk the pool in an order of its own.
pub open spec fn are_pages(
    pages: Seq<ProxyListResult>,
    m: Map<Seq<char>, ProxyView>,
    query: ListQueryView,
) -> bool {
    forall|i: int| 0 <= i < pages.len() ==> answers_from(#[trigger] pages[i], m, on_page(query, i + 1))
}

/// Whether no two of the selected proxies tie.
pub open spec fn no_ties(m: Map<Seq<char>, ProxyView>, query: ListQueryView) -> bool {
    forall|a: Seq<char>, b: Seq<char>|
        #![trigger m.contains_key(a), m.contains_key(b)]
        m.contains_key(a) && m.contains_key(b) && a != b && matches_list_query(m[a], query)
            && matches_list_query(m[b], query) ==> listing_order(
            m[a],
            m[b],
            sort_field(query.sort),
            descending(query.dir),
        ) != 0
}

/// Whether no proxy of `s` stands behind one that it comes before.
pub open spec fn in_order(s: Seq<ProxyView>, field: SortField, desc: bool) -> bool {
    forall|i: int, j: int|
        0 <= i < j < s.len() ==> listing_order(#[trigger] s[i], #[trigger] s[j], field, desc) <= 0
}

/// Where the pages of a listing begin.
proof fn lemma_starts(n: int, size: int, total: int)
    requires
        size >= 1,
        total >= 0,
    ensures
        0 <= page_count(total, size) <= total,
        n <= page_count(total, size) ==> (n - 1) * size < total,
        n >= page_count(total, size) ==> n * size >= total,
{
    let count = page_count(total, size);
    vstd::arithmetic::div_mod::lemma_fundamental_div_mod(total + size - 1, size);
    vstd::arithmetic::div_mod::lemma_mod_bound(total + size - 1, size);
    let rest = (total + size - 1) % size;
    assert(size * count + rest == total + size - 1);
    assert(0 <= count <= total) by (nonlinear_arith)
        requires
            size * count + rest == total + size - 1,
            0 <= rest < size,
            size >= 1,
            total >= 0,
    ;
    if n <= count {
        assert((n - 1) * size < total) by (nonlinear_arith)
            requires
                size * count + rest == total + size - 1,
                0 <= rest < size,
                n <= count,
        ;
    }
    if n >= count {
        assert(n * size >= total) by (nonlinear_arith)
            requires
                size * count + rest == total + size - 1,
                0 <= rest < size,
                n >= count,
        ;
    }
}

/// How long a page is.
proof fn lemma_page_length(s: Seq<ProxyView>, i: int, size: int)
    requires
        i >= 0,
        size >= 1,
    ensures
        page_of(s, i + 1, size).len() == page_length(i, size, s.len() as int),
{
    assert(i * size >= 0) by (nonlinear_arith)
        requires
            i >= 0,
            size >= 1,
    ;
}

/// Whether the proxy at `t` of pages that are put together is on the page where it should be.
spec fn stands_on_page(pages: Seq<ProxyListResult>, size: int, t: int) -> bool {
    let i = t / size;
    let j = t % size;
    &&& 0 <= i < pages.len()
    &&& 0 <= j < pages[i].proxies@.len()
    &&& together(pages)[t] == pages[i].proxies@[j]@
}

/// What stands where when pages are put together.
proof fn lemma_together(pages: Seq<ProxyListResult>, size: int, total: int)
    requires
        size >= 1,
        total >= 0,
        pages.len() > 0 ==> (pages.len() - 1) * size < total,
        forall|i: int|
            0 <= i < pages.len() ==> (#[trigger] pages[i]).proxies@.len() == page_length(
                i,
                size,
                total,
            ),
    ensures
        together(pages).len() == if pages.len() * size < total {
            pages.len() * size
        } else {
            total
        },
        forall|t: int|
            0 <= t < together(pages).len() ==> #[trigger] stands_on_page(pages, size, t),
    decreases pages.len(),
{
    if pages.len() == 0 {
        assert(0 * size == 0);
    } else {
        let front = pages.drop_last();
        let n = pages.len() - 1;
        assert(n * size == (n - 1) * size + size) by (nonlinear_arith);
        assert((n + 1) * size == n * size + size) by (nonlinear_arith);
        assert forall|i: int| 0 <= i < front.len() implies (#[trigger] front[i]).proxies@.len()
            == page_length(i, size, total) by {
            assert(front[i] == pages[i]);
        }
        lemma_together(front, size, total);
        assert(together(front).len() == n * size);
        let last = views(pages.last().proxies@);
        assert(pages[n] == pages.last());
        assert(last.len() == page_length(n, size, total));
        assert forall|t: int| 0 <= t < together(pages).len() implies #[trigger] stands_on_page(
            pages,
            size,
            t,
        ) by {
            if t < n * size {
                assert(stands_on_page(front, size, t));
                assert(together(pages)[t] == together(front)[t]);
                assert(front[t / size] == pages[t / size]);
            } else {
                let j = t - n * size;
                assert(together(pages)[t] == last[j]);
                vstd::arithmetic::div_mod::lemma_fundamental_div_mod_converse(t, size, n, j);
            }
        }
    }
}

/// The listing that a page is cut from, in whatever order the pool was walked.
pub(crate) proof fn lemma_listing_behind_page(
    r: ProxyListResult,
    m: Map<Seq<char>, ProxyView>,
    query: ListQueryView,
) -> (sorted: Seq<ProxyView>)
    requires
        keyed_by_id(m),
        answers_from(r, m, query),
    ensures
        lists(sorted, m, selects(query)),
        in_order(sorted, sort_field(query.sort), descending(query.dir)),
        sorted.len() == count_where(m, selects(query)),
        r.total == sorted.len(),
        views(r.proxies@) == page_of(sorted, page_number(query), page_size(query)),
{
    let field = sort_field(query.sort);
    let desc = descending(query.dir);
    let pred = selects(query);
    let all = choose|all: Seq<ProxyView>|
        #[trigger] enumerates(all, m) && answers_list_query(r, all, query);
    let chosen = selected(all, query);
    lemma_filter_lists(all, m, pred);
    lemma_lists_len(chosen, m, pred);
    let sorted = choose|sorted: Seq<ProxyView>|
        #[trigger] is_sorted_listing(chosen, sorted, field, desc) && views(r.proxies@) == page_of(
            sorted,
            page_number(query),
            page_size(query),
        );
    law_sorted_listing_is_in_order(chosen, sorted, field, desc);
    let perm = choose|perm: Seq<int>|
        #[trigger] sorts(perm, chosen, field, desc) && sorted == arranged(chosen, perm);
    assert(perm.no_duplicates()) by {
        assert forall|i: int, j: int|
            0 <= i < perm.len() && 0 <= j < perm.len() && i != j implies perm[i] != perm[j] by {
            if i > j {
                assert(perm[j] != perm[i]);
            }
        }
    }
    lemma_covers(perm, chosen.len() as int);
    assert forall|i: int| 0 <= i < sorted.len() implies m.contains_pair(
        (#[trigger] sorted[i]).id,
        sorted[i],
    ) && pred(sorted[i]) by {
        assert(sorted[i] == chosen[perm[i]]);
    }
    assert forall|i: int, j: int| 0 <= i < j < sorted.len() implies (#[trigger] sorted[i]).id != (
    #[trigger] sorted[j]).id by {
        assert(sorted[i] == chosen[perm[i]] && sorted[j] == chosen[perm[j]]);
        if perm[i] < perm[j] {
            assert(chosen[perm[i]].id != chosen[perm[j]].id);
        } else {
            assert(chosen[perm[j]].id != chosen[perm[i]].id);
        }
    }
    assert forall|k: Seq<char>| #[trigger] m.contains_key(k) && pred(m[k]) implies exists|i: int|
        0 <= i < sorted.len() && (#[trigger] sorted[i]).id == k by {
        let c = choose|c: int| 0 <= c < chosen.len() && (#[trigger] chosen[c]).id == k;
        assert(perm.contains(c));
        let i = choose|i: int| 0 <= i < perm.len() && perm[i] == c;
        assert(sorted[i].id == k);
    }
    sorted
}

/// Where a listing has at `k` what comes before what another has there, the other has each of its
/// first proxies at an earlier place.
proof fn lemma_earlier_place(
    a: Seq<ProxyView>,
    b: Seq<ProxyView>,
    m: Map<Seq<char>, ProxyView>,
    pred: spec_fn(ProxyView) -> bool,
    field: SortField,
    desc: bool,
    k: int,
    i: int,
) -> (j: int)
    requires
        lists(a, m, pred),
        lists(b, m, pred),
        in_order(a, field, desc),
        in_order(b, field, desc),
        0 <= i <= k < a.len(),
        a.len() == b.len(),
        listing_order(a[k], b[k], field, desc) < 0,
    ensures
        0 <= j < k,
        b[j].id == a[i].id,
{
    assert(m.contains_pair(a[i].id, a[i]) && pred(a[i]));
    let j = choose|j: int| 0 <= j < b.len() && (#[trigger] b[j]).id == a[i].id;
    assert(m.contains_pair(b[j].id, b[j]));
    if j >= k {
        lemma_listing_order_antisymmetric(a[k], a[k], field, desc);
        lemma_listing_order_antisymmetric(b[k], b[k], field, desc);
        lemma_listing_order_antisymmetric(a[i], a[i], field, desc);
        assert(listing_order(a[i], a[k], field, desc) <= 0);
        assert(listing_order(b[k], b[j], field, desc) <= 0);
        lemma_listing_order_transitive(a[i], a[k], b[k], field, desc);
        lemma_listing_order_transitive(a[i], b[k], b[j], field, desc);
    }
    j
}

/// The ids of the first proxies of a listing are distinct.
proof fn lemma_distinct_ids(
    s: Seq<ProxyView>,
    m: Map<Seq<char>, ProxyView>,
    pred: spec_fn(ProxyView) -> bool,
    n: int,
)
    requires
        lists(s, m, pred),
        0 <= n <= s.len(),
    ensures
        s.take(n).map_values(|p: ProxyView| p.id).no_duplicates(),
{
    let ids = s.take(n).map_values(|p: ProxyView| p.id);
    assert forall|i: int, j: int|
        0 <= i < ids.len() && 0 <= j < ids.len() && i != j implies ids[i] != ids[j] by {
        if i < j {
            assert(s[i].id != s[j].id);
        } else {
            assert(s[j].id != s[i].id);
        }
    }
}

/// In two listings of the same proxies, none of the first comes before the one that stands at its
/// place in the second.
proof fn lemma_not_before(
    a: Seq<ProxyView>,
    b: Seq<ProxyView>,
    m: Map<Seq<char>, ProxyView>,
    pred: spec_fn(ProxyView) -> bool,
    field: SortField,
    desc: bool,
    k: int,
)
    requires
        lists(a, m, pred),
        lists(b, m, pred),
        in_order(a, field, desc),
        in_order(b, field, desc),
        0 <= k < a.len(),
        a.len() == b.len(),
    ensures
        listing_order(a[k], b[k], field, desc) >= 0,
{
    if listing_order(a[k], b[k], field, desc) < 0 {
        let ids = a.take(k + 1).map_values(|p: ProxyView| p.id);
        let others = b.take(k).map_values(|p: ProxyView| p.id);
        lemma_distinct_ids(a, m, pred, k + 1);
        lemma_distinct_ids(b, m, pred, k);
        assert forall|id: Seq<char>| ids.to_set().contains(id) implies others.to_set().contains(
            id,
        ) by {
            let i = choose|i: int| 0 <= i < ids.len() && ids[i] == id;
            let j = lemma_earlier_place(a, b, m, pred, field, desc, k, i);
            assert(others[j] == id);
        }
        assert(ids.to_set().subset_of(others.to_set()));
        ids.unique_seq_to_set();
        others.unique_seq_to_set();
        vstd::seq_lib::seq_to_set_is_finite(others);
        vstd::set_lib::lemma_len_subset(ids.to_set(), others.to_set());
    }
}

/// What two listings of the same proxies have at one place ties.
proof fn lemma_places_tie(
    a: Seq<ProxyView>,
    b: Seq<ProxyView>,
    m: Map<Seq<char>, ProxyView>,
    pred: spec_fn(ProxyView) -> bool,
    field: SortField,
    desc: bool,
    k: int,
)
    requires
        lists(a, m, pred),
        lists(b, m, pred),
        in_order(a, field, desc),
        in_order(b, field, desc),
        0 <= k < a.len(),
        a.len() == b.len(),
    ensures
        listing_order(a[k], b[k], field, desc) == 0,
{
    lemma_not_before(a, b, m, pred, field, desc, k);
    lemma_not_before(b, a, m, pred, field, desc, k);
    lemma_listing_order_antisymmetric(a[k], b[k], field, desc);
}

/// Asking for another page changes neither what is selected nor how it is sorted.
proof fn lemma_on_page(query: ListQueryView, page: int)
    requires
        1 <= page <= usize::MAX,
    ensures
        selects(on_page(query, page)) == selects(query),
        page_number(on_page(query, page)) == page,
        page_size(on_page(query, page)) == page_size(query),
{
    let other = on_page(query, page);
    assert forall|p: ProxyView| matches_list_query(p, other) == matches_list_query(p, query) by {}
    assert(selects(other) =~= selects(query));
}

/// The listing that one of several pages is cut from, and what of it is on the page.
proof fn lemma_one_of_pages(
    r: ProxyListResult,
    m: Map<Seq<char>, ProxyView>,
    query: ListQueryView,
    i: int,
) -> (sorted: Seq<ProxyView>)
    requires
        keyed_by_id(m),
        0 <= i < usize::MAX,
        answers_from(r, m, on_page(query, i + 1)),
    ensures
        lists(sorted, m, selects(query)),
        in_order(sorted, sort_field(query.sort), descending(query.dir)),
        sorted.len() == count_where(m, selects(query)),
        r.total == sorted.len(),
        r.page == i + 1,
        r.per_page == page_size(query),
        r.proxies@.len() == page_length(i, page_size(query), sorted.len() as int),
        forall|j: int|
            0 <= j < r.proxies@.len() ==> i * page_size(query) + j < sorted.len()
                && (#[trigger] r.proxies@[j])@ == sorted[i * page_size(query) + j],
{
    let size = page_size(query);
    lemma_on_page(query, i + 1);
    let sorted = lemma_listing_behind_page(r, m, on_page(query, i + 1));
    lemma_page_length(sorted, i, size);
    law_page_is_a_stretch(sorted, i + 1, size);
    let shown = page_of(sorted, i + 1, size);
    assert(shown.len() == r.proxies@.len());
    assert forall|j: int| 0 <= j < r.proxies@.len() implies i * size + j < sorted.len() && (
    #[trigger] r.proxies@[j])@ == sorted[i * size + j] by {
        assert(views(r.proxies@)[j] == shown[j]);
        assert((i + 1 - 1) * size + j == i * size + j);
    }
    sorted
}

/// While the pool does not change, the pages of several calls have the same total and the same
/// size, every page but the last is full, and there is nothing behind the last. This holds in
/// whatever order each call walks the pool.
pub proof fn law_every_page_has_its_length(
    r: ProxyListResult,
    m: Map<Seq<char>, ProxyView>,
    query: ListQueryView,
    page: int,
)
    requires
        keyed_by_id(m),
        1 <= page <= usize::MAX,
        answers_from(r, m, on_page(query, page)),
    ensures
        r.total == count_where(m, selects(query)),
        r.page == page,
        r.per_page == page_size(query),
        page < page_count(r.total as int, r.per_page as int) ==> r.proxies@.len() == r.per_page,
        page == page_count(r.total as int, r.per_page as int) ==> r.proxies@.len() == r.total - (page
            - 1) * r.per_page && r.proxies@.len() > 0,
        page > page_count(r.total as int, r.per_page as int) ==> r.proxies@.len() == 0,
{
    let size = page_size(query);
    let sorted = lemma_one_of_pages(r, m, query, page - 1);
    let total = sorted.len() as int;
    lemma_starts(page, size, total);
    lemma_starts(page + 1, size, total);
    lemma_starts(page - 1, size, total);
    assert((page + 1 - 1) * size == (page - 1) * size + size) by (nonlinear_arith);
    assert(page * size == (page - 1) * size + size) by (nonlinear_arith);
}

/// A query has no more pages than can be counted.
proof fn lemma_few_pages(
    pages: Seq<ProxyListResult>,
    m: Map<Seq<char>, ProxyView>,
    query: ListQueryView,
)
    requires
        keyed_by_id(m),
        are_pages(pages, m, query),
        pages.len() == page_count(count_where(m, selects(query)) as int, page_size(query)),
    ensures
        pages.len() <= usize::MAX,
{
    lemma_starts(0, page_size(query), count_where(m, selects(query)) as int);
    if pages.len() > 0 {
        let sorted = lemma_one_of_pages(pages[0], m, query, 0);
    }
}

/// What stands where when all pages of a query are put together.
proof fn lemma_all_together(
    pages: Seq<ProxyListResult>,
    m: Map<Seq<char>, ProxyView>,
    query: ListQueryView,
)
    requires
        keyed_by_id(m),
        are_pages(pages, m, query),
        pages.len() == page_count(count_where(m, selects(query)) as int, page_size(query)),
        pages.len() <= usize::MAX,
    ensures
        together(pages).len() == count_where(m, selects(query)),
        forall|t: int|
            0 <= t < together(pages).len() ==> #[trigger] stands_on_page(
                pages,
                page_size(query),
                t,
            ),
{
    let size = page_size(query);
    let total = count_where(m, selects(query)) as int;
    lemma_starts(pages.len() as int, size, total);
    assert forall|i: int| 0 <= i < pages.len() implies (#[trigger] pages[i]).proxies@.len()
        == page_length(i, size, total) by {
        let sorted = lemma_one_of_pages(pages[i], m, query, i);
    }
    lemma_together(pages, size, total);
}

/// What stands at a place of all pages is what the listing behind its page has there.
proof fn lemma_place(
    pages: Seq<ProxyListResult>,
    m: Map<Seq<char>, ProxyView>,
    query: ListQueryView,
    t: int,
) -> (sorted: Seq<ProxyView>)
    requires
        keyed_by_id(m),
        are_pages(pages, m, query),
        pages.len() == page_count(count_where(m, selects(query)) as int, page_size(query)),
        pages.len() <= usize::MAX,
        0 <= t < together(pages).len(),
    ensures
        lists(sorted, m, selects(query)),
        in_order(sorted, sort_field(query.sort), descending(query.dir)),
        sorted.len() == together(pages).len(),
        together(pages)[t] == sorted[t],
{
    let size = page_size(query);
    lemma_all_together(pages, m, query);
    let i = t / size;
    let j = t % size;
    assert(stands_on_page(pages, size, t));
    let sorted = lemma_one_of_pages(pages[i], m, query, i);
    vstd::arithmetic::div_mod::lemma_fundamental_div_mod(t, size);
    assert(i * size == size * i) by (nonlinear_arith);
    assert(pages[i].proxies@[j]@ == sorted[i * size + j]);
    sorted
}

/// While the pool does not change, all pages of a query put together are as many proxies as it
/// selects, each of them selected and of the pool, and in the order that it asks for, across the
/// borders of the pages too. This holds in whatever order each call walks the pool.
pub proof fn law_pages_of_several_calls_are_in_order(
    pages: Seq<ProxyListResult>,
    m: Map<Seq<char>, ProxyView>,
    query: ListQueryView,
)
    requires
        keyed_by_id(m),
        are_pages(pages, m, query),
        pages.len() == page_count(count_where(m, selects(query)) as int, page_size(query)),
    ensures
        together(pages).len() == count_where(m, selects(query)),
        forall|t: int|
            0 <= t < together(pages).len() ==> m.contains_pair(
                (#[trigger] together(pages)[t]).id,
                together(pages)[t],
            ) && matches_list_query(together(pages)[t], query),
        forall|s: int, t: int|
            0 <= s < t < together(pages).len() ==> listing_order(
                #[trigger] together(pages)[s],
                #[trigger] together(pages)[t],
                sort_field(query.sort),
                descending(query.dir),
            ) <= 0,
{
    let field = sort_field(query.sort);
    let desc = descending(query.dir);
    let shown = together(pages);
    lemma_few_pages(pages, m, query);
    lemma_all_together(pages, m, query);
    assert forall|t: int| 0 <= t < shown.len() implies m.contains_pair(
        (#[trigger] shown[t]).id,
        shown[t],
    ) && matches_list_query(shown[t], query) by {
        let sorted = lemma_place(pages, m, query, t);
        assert(m.contains_pair(sorted[t].id, sorted[t]) && selects(query)(sorted[t]));
    }
    assert forall|s: int, t: int| 0 <= s < t < shown.len() implies listing_order(
        #[trigger] shown[s],
        #[trigger] shown[t],
        field,
        desc,
    ) <= 0 by {
        let first = lemma_place(pages, m, query, s);
        let second = lemma_place(pages, m, query, t);
        lemma_places_tie(first, second, m, selects(query), field, desc, s);
        assert(listing_order(second[s], second[t], field, desc) <= 0);
        lemma_listing_order_transitive(first[s], second[s], second[t], field, desc);
    }
}

/// While the pool does not change and no two selected proxies tie, all pages of a query put
/// together hold every selected proxy exactly once and nothing else. This holds in whatever order
/// each call walks the pool.
pub proof fn law_pages_of_several_calls_cover_the_selection(
    pages: Seq<ProxyListResult>,
    m: Map<Seq<char>, ProxyView>,
    query: ListQueryView,
)
    requires
        keyed_by_id(m),
        are_pages(pages, m, query),
        pages.len() == page_count(count_where(m, selects(query)) as int, page_size(query)),
        no_ties(m, query),
    ensures
        lists(together(pages), m, selects(query)),
        forall|s: int, t: int|
            0 <= s < t < together(pages).len() ==> listing_order(
                #[trigger] together(pages)[s],
                #[trigger] together(pages)[t],
                sort_field(query.sort),
                descending(query.dir),
            ) < 0,
{
    let field = sort_field(query.sort);
    let desc = descending(query.dir);
    let pred = selects(query);
    let shown = together(pages);
    lemma_few_pages(pages, m, query);
    lemma_all_together(pages, m, query);
    law_pages_of_several_calls_are_in_order(pages, m, query);
    if shown.len() == 0 {
        let none = m.dom().filter(|k: Seq<char>| pred(m[k]));
        assert(none.len() == 0);
        assert forall|k: Seq<char>| !(#[trigger] m.contains_key(k) && pred(m[k])) by {
            if m.contains_key(k) && pred(m[k]) {
                assert(none.contains(k));
            }
        }
    } else {
        let listing = lemma_place(pages, m, query, 0);
        assert forall|t: int| 0 <= t < shown.len() implies shown[t] == listing[t] by {
            let other = lemma_place(pages, m, query, t);
            lemma_places_tie(other, listing, m, pred, field, desc, t);
            assert(m.contains_pair(other[t].id, other[t]) && pred(other[t]));
            assert(m.contains_pair(listing[t].id, listing[t]) && pred(listing[t]));
            assert(m.contains_key(other[t].id) && m.contains_key(listing[t].id));
        }
        assert(shown =~= listing);
    }
    assert forall|s: int, t: int| 0 <= s < t < shown.len() implies listing_order(
        #[trigger] shown[s],
        #[trigger] shown[t],
        field,
        desc,
    ) < 0 by {
        assert(shown[s].id != shown[t].id);
        assert(m.contains_pair(shown[s].id, shown[s]) && m.contains_pair(shown[t].id, shown[t]));
        assert(m.contains_key(shown[s].id) && m.contains_key(shown[t].id));
    }
}

/// Where calls walk the same proxies in the same order, all pages of a query put together are the
/// sorted listing, whether proxies tie or not.
pub proof fn law_pages_of_one_walk_are_the_listing(
    pages: Seq<ProxyListResult>,
    all: Seq<ProxyView>,
    query: ListQueryView,
)
    requires
        forall|i: int|
            0 <= i < pages.len() ==> answers_list_query(
                #[trigger] pages[i],
                all,
                on_page(query, i + 1),
            ),
        pages.len() == page_count(selected(all, query).len() as int, page_size(query)),
    ensures
        is_sorted_listing(
            selected(all, query),
            together(pages),
            sort_field(query.sort),
            descending(query.dir),
        ),
{
    let field = sort_field(query.sort);
    let desc = descending(query.dir);
    let size = page_size(query);
    let chosen = selected(all, query);
    let total = chosen.len() as int;
    lemma_starts(pages.len() as int, size, total);
    if pages.len() == 0 {
        assert(0 * size == 0);
        let none = Seq::<int>::empty();
        assert(sorts(none, chosen, field, desc));
        assert(together(pages) =~= arranged(chosen, none));
    } else {
        lemma_on_page(query, 1);
        assert(selected(all, on_page(query, 1)) == selected(all, query));
        assert(pages[0].total == total);
        let listing = lemma_listing_of_walk(pages[0], all, query, 0);
        assert forall|i: int| 0 <= i < pages.len() implies (#[trigger] pages[i]).proxies@.len()
            == page_length(i, size, total) && views(pages[i].proxies@) == page_of(
            listing,
            i + 1,
            size,
        ) by {
            let other = lemma_listing_of_walk(pages[i], all, query, i);
            law_sorted_listing_is_unique(chosen, listing, other, field, desc);
            lemma_page_length(other, i, size);
            assert(views(pages[i].proxies@).len() == pages[i].proxies@.len());
        }
        lemma_together(pages, size, total);
        assert forall|t: int| 0 <= t < together(pages).len() implies together(pages)[t]
            == listing[t] by {
            let i = t / size;
            let j = t % size;
            assert(stands_on_page(pages, size, t));
            assert(views(pages[i].proxies@)[j] == pages[i].proxies@[j]@);
            law_page_is_a_stretch(listing, i + 1, size);
            vstd::arithmetic::div_mod::lemma_fundamental_div_mod(t, size);
            assert((i + 1 - 1) * size == size * i) by (nonlinear_arith);
            assert(page_of(listing, i + 1, size)[j] == listing[(i + 1 - 1) * size + j]);
        }
        assert(together(pages) =~= listing);
    }
}

/// The listing that a page of a given walk is cut from.
proof fn lemma_listing_of_walk(
    r: ProxyListResult,
    all: Seq<ProxyView>,
    query: ListQueryView,
    i: int,
) -> (sorted: Seq<ProxyView>)
    requires
        0 <= i < usize::MAX,
        answers_list_query(r, all, on_page(query, i + 1)),
    ensures
        is_sorted_listing(
            selected(all, query),
            sorted,
            sort_field(query.sort),
            descending(query.dir),
        ),
        sorted.len() == selected(all, query).len(),
        views(r.proxies@) == page_of(sorted, i + 1, page_size(query)),
{
    lemma_on_page(query, i + 1);
    assert(selected(all, on_page(query, i + 1)) == selected(all, query));
    choose|sorted: Seq<ProxyView>|
        #[trigger] is_sorted_listing(
            selected(all, query),
            sorted,
            sort_field(query.sort),
            descending(query.dir),
        ) && views(r.proxies@) == page_of(sorted, i + 1, page_size(query))
}

} // verus!
