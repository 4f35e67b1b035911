//! The orders in which the pool can be listed.

use crate::proxy::{views, PoolProxy, ProxyView};
use crate::risk::{RiskScore, TWO_BITS};
use crate::text::{
    bytes_order, compare_text, lemma_bytes_order_antisymmetric, lemma_bytes_order_transitive, opt_text,
    same_text,
};
use vstd::prelude::*;
use vstd::utf8::encode_utf8;

verus! {

/// What a listing is sorted by.
#[derive(Debug, Clone, Copy, PartialEq, Eq, Structural)]
pub enum SortField {
    Name,
    Type,
    Server,
    Status,
    ErrorCount,
    Country,
    Risk,
}

/// What the `sort` parameter asks for. Without one, or with one that is not known, the listing
/// is sorted by name.
pub open spec fn sort_field(sort: Option<Seq<char>>) -> SortField {
    match sort {
        Some(s) => if s == "type"@ {
            SortField::Type
        } else if s == "server"@ {
            SortField::Server
        } else if s == "is_valid"@ || s == "status"@ {
            SortField::Status
        } else if s == "error_count"@ {
            SortField::ErrorCount
        } else if s == "country"@ {
            SortField::Country
        } else if s == "risk"@ {
            SortField::Risk
        } else {
            SortField::Name
        },
        None => SortField::Name,
    }
}

/// Reads the `sort` parameter.
pub fn parse_sort_field(sort: &Option<String>) -> (r: SortField)
    ensures
        r == sort_field(opt_text(*sort)),
{
    let s: &str = match sort {
        Some(s) => s.as_str(),
        None => return SortField::Name,
    };
    if same_text(s, "type") {
        SortField::Type
    } else if same_text(s, "server") {
        SortField::Server
    } else if same_text(s, "is_valid") || same_text(s, "status") {
        SortField::Status
    } else if same_text(s, "error_count") {
        SortField::ErrorCount
    } else if same_text(s, "country") {
        SortField::Country
    } else if same_text(s, "risk") {
        SortField::Risk
    } else {
        SortField::Name
    }
}

/// Whether the `dir` parameter asks for the descending order.
pub open spec fn descending(dir: Option<Seq<char>>) -> bool {
    dir == Some("desc"@)
}

/// Reads the `dir` parameter.
pub fn parse_descending(dir: &Option<String>) -> (r: bool)
    ensures
        r == descending(opt_text(*dir)),
{
    match dir {
        Some(d) => same_text(d.as_str(), "desc"),
        None => false,
    }
}

/// The country that a proxy is sorted under; one without a country goes under `zzz`.
pub open spec fn country_key(p: ProxyView) -> Seq<char> {
    match p.quality {
        Some(q) => match q.country {
            Some(c) => c,
            None => "zzz"@,
        },
        None => "zzz"@,
    }
}

/// The risk that a proxy is sorted under; one that was never checked goes under two.
pub open spec fn risk_key(p: ProxyView) -> RiskScore {
    match p.quality {
        Some(q) => q.risk_score,
        None => RiskScore { bits: TWO_BITS },
    }
}

/// What a proxy is sorted by: a text, as its UTF-8 bytes, and then a number.
pub open spec fn sort_key(p: ProxyView, field: SortField) -> (Seq<u8>, int) {
    match field {
        SortField::Name => (encode_utf8(p.name), 0),
        SortField::Type => (encode_utf8(p.proxy_type), 0),
        SortField::Server => (encode_utf8(p.server), p.port as int),
        SortField::Status => (Seq::empty(), p.status.weight() as int),
        SortField::ErrorCount => (Seq::empty(), p.error_count as int),
        SortField::Country => (encode_utf8(country_key(p)), 0),
        SortField::Risk => (Seq::empty(), risk_key(p).total_rank()),
    }
}

/// The order of two numbers.
pub open spec fn number_order(a: int, b: int) -> int {
    if a < b {
        -1
    } else if a > b {
        1
    } else {
        0
    }
}

/// The order of sort keys: by text, and by number where the texts are the same.
pub open spec fn key_order(a: (Seq<u8>, int), b: (Seq<u8>, int)) -> int {
    if bytes_order(a.0, b.0) != 0 {
        bytes_order(a.0, b.0)
    } else {
        number_order(a.1, b.1)
    }
}

/// The order of two proxies in a listing: negative, zero or positive as `a` comes before, ties
/// with or comes after `b`.
pub open spec fn listing_order(a: ProxyView, b: ProxyView, field: SortField, desc: bool) -> int {
    let order = key_order(sort_key(a, field), sort_key(b, field));
    if desc {
        -order
    } else {
        order
    }
}

/// Whether the proxy at `i` comes before the one at `j` when `s` is sorted. Proxies that tie
/// keep the order that they have in `s`.
pub open spec fn comes_before(
    s: Seq<ProxyView>,
    i: int,
    j: int,
    field: SortField,
    desc: bool,
) -> bool {
    let order = listing_order(s[i], s[j], field, desc);
    order < 0 || (order == 0 && i < j)
}

/// Whether `perm` puts the positions of `s` in sorted order: each position occurs once, and
/// earlier ones come before later ones.
pub open spec fn sorts(perm: Seq<int>, s: Seq<ProxyView>, field: SortField, desc: bool) -> bool {
    &&& perm.len() == s.len()
    &&& forall|k: int| 0 <= k < perm.len() ==> 0 <= #[trigger] perm[k] < s.len()
    &&& forall|k: int, l: int|
        0 <= k < l < perm.len() ==> #[trigger] perm[k] != #[trigger] perm[l] && comes_before(
            s,
            perm[k],
            perm[l],
            field,
            desc,
        )
}

/// The proxies of `s` at the positions `perm`.
pub open spec fn arranged(s: Seq<ProxyView>, perm: Seq<int>) -> Seq<ProxyView> {
    perm.map_values(|i: int| s[i])
}

/// Whether `out` is `s` in sorted order.
pub open spec fn is_sorted_listing(
    s: Seq<ProxyView>,
    out: Seq<ProxyView>,
    field: SortField,
    desc: bool,
) -> bool {
    exists|perm: Seq<int>| #[trigger] sorts(perm, s, field, desc) && out == arranged(s, perm)
}

/// Swapping two proxies turns the sign of their order.
pub proof fn lemma_listing_order_antisymmetric(
    a: ProxyView,
    b: ProxyView,
    field: SortField,
    desc: bool,
)
    ensures
        listing_order(a, b, field, desc) == -listing_order(b, a, field, desc),
        -1 <= listing_order(a, b, field, desc) <= 1,
{
    lemma_bytes_order_antisymmetric(sort_key(a, field).0, sort_key(b, field).0);
}

/// The order of a listing is transitive.
pub proof fn lemma_listing_order_transitive(
    a: ProxyView,
    b: ProxyView,
    c: ProxyView,
    field: SortField,
    desc: bool,
)
    requires
        listing_order(a, b, field, desc) <= 0,
        listing_order(b, c, field, desc) <= 0,
    ensures
        listing_order(a, c, field, desc) <= 0,
        listing_order(a, b, field, desc) < 0 || listing_order(b, c, field, desc) < 0
            ==> listing_order(a, c, field, desc) < 0,
{
    let ka = sort_key(a, field);
    let kb = sort_key(b, field);
    let kc = sort_key(c, field);
    lemma_bytes_order_antisymmetric(ka.0, kb.0);
    lemma_bytes_order_antisymmetric(kb.0, kc.0);
    lemma_bytes_order_antisymmetric(ka.0, kc.0);
    if desc {
        lemma_bytes_order_transitive(kc.0, kb.0, ka.0);
    } else {
        lemma_bytes_order_transitive(ka.0, kb.0, kc.0);
    }
}

/// Compares two numbers.
fn compare_numbers(a: u64, b: u64) -> (r: i8)
    ensures
        r == number_order(a as int, b as int),
{
    if a < b {
        -1
    } else if a > b {
        1
    } else {
        0
    }
}

/// The country that a proxy is sorted under.
fn country_text(p: &PoolProxy) -> (r: &str)
    ensures
        r@ == country_key(p@),
{
    match &p.quality {
        Some(q) => match &q.country {
            Some(c) => c.as_str(),
            None => "zzz",
        },
        None => "zzz",
    }
}

/// The risk that a proxy is sorted under.
fn risk_of(p: &PoolProxy) -> (r: RiskScore)
    ensures
        r == risk_key(p@),
{
    match &p.quality {
        Some(q) => q.risk_score,
        None => RiskScore { bits: TWO_BITS },
    }
}

/// Compares two proxies as a listing orders them.
pub fn compare_proxies(a: &PoolProxy, b: &PoolProxy, field: SortField, desc: bool) -> (r: i8)
    ensures
        r == listing_order(a@, b@, field, desc),
{
    proof {
        let ka = sort_key(a@, field);
        let kb = sort_key(b@, field);
        lemma_bytes_order_antisymmetric(ka.0, kb.0);
        if field == SortField::Status || field == SortField::ErrorCount || field == SortField::Risk {
            assert(ka.0 =~= kb.0);
        }
    }
    let order: i8 = match field {
        SortField::Name => compare_text(a.name.as_str(), b.name.as_str()),
        SortField::Type => compare_text(a.proxy_type.as_str(), b.proxy_type.as_str()),
        SortField::Server => {
            let by_server: i8 = compare_text(a.server.as_str(), b.server.as_str());
            if by_server != 0 {
                by_server
            } else {
                compare_numbers(a.port as u64, b.port as u64)
            }
        },
        SortField::Status => compare_numbers(
            a.status.sort_weight() as u64,
            b.status.sort_weight() as u64,
        ),
        SortField::ErrorCount => compare_numbers(a.error_count as u64, b.error_count as u64),
        SortField::Country => compare_text(country_text(a), country_text(b)),
        SortField::Risk => risk_of(a).total_compare(risk_of(b)),
    };
    if desc {
        -order
    } else {
        order
    }
}

/// Whether positions stand in sorted order, with each of them from `from` up to `to`.
spec fn is_run(run: Seq<usize>, s: Seq<ProxyView>, from: int, to: int, field: SortField, desc: bool) -> bool {
    &&& forall|k: int| 0 <= k < run.len() ==> from <= #[trigger] run[k] < to
    &&& forall|k: int, l: int|
        0 <= k < l < run.len() ==> #[trigger] run[k] != #[trigger] run[l] && comes_before(
            s,
            run[k] as int,
            run[l] as int,
            field,
            desc,
        )
}

proof fn lemma_comes_before_transitive(
    s: Seq<ProxyView>,
    i: int,
    j: int,
    k: int,
    field: SortField,
    desc: bool,
)
    requires
        comes_before(s, i, j, field, desc),
        comes_before(s, j, k, field, desc),
    ensures
        comes_before(s, i, k, field, desc),
{
    lemma_listing_order_transitive(s[i], s[j], s[k], field, desc);
}

/// Takes the next position of one of two runs into a merged run.
proof fn lemma_take_next(
    out: Seq<usize>,
    taken: Seq<usize>,
    i: int,
    other: Seq<usize>,
    j: int,
    s: Seq<ProxyView>,
    from: int,
    to: int,
    field: SortField,
    desc: bool,
)
    requires
        is_run(out, s, from, to, field, desc),
        is_run(taken, s, from, to, field, desc),
        is_run(other, s, from, to, field, desc),
        0 <= i < taken.len(),
        0 <= j <= other.len(),
        forall|a: int, b: int|
            0 <= a < out.len() && i <= b < taken.len() ==> #[trigger] out[a] != #[trigger] taken[b]
                && comes_before(s, out[a] as int, taken[b] as int, field, desc),
        forall|a: int, b: int|
            0 <= a < out.len() && j <= b < other.len() ==> #[trigger] out[a] != #[trigger] other[b]
                && comes_before(s, out[a] as int, other[b] as int, field, desc),
        forall|a: int, b: int|
            0 <= a < taken.len() && 0 <= b < other.len() ==> #[trigger] taken[a]
                != #[trigger] other[b],
        j < other.len() ==> comes_before(s, taken[i] as int, other[j] as int, field, desc),
    ensures
        is_run(out.push(taken[i]), s, from, to, field, desc),
        forall|a: int, b: int|
            0 <= a < out.push(taken[i]).len() && i + 1 <= b < taken.len()
                ==> #[trigger] out.push(taken[i])[a] != #[trigger] taken[b] && comes_before(
                s,
                out.push(taken[i])[a] as int,
                taken[b] as int,
                field,
                desc,
            ),
        forall|a: int, b: int|
            0 <= a < out.push(taken[i]).len() && j <= b < other.len()
                ==> #[trigger] out.push(taken[i])[a] != #[trigger] other[b] && comes_before(
                s,
                out.push(taken[i])[a] as int,
                other[b] as int,
                field,
                desc,
            ),
{
    let next = out.push(taken[i]);
    assert forall|a: int, b: int| 0 <= a < next.len() && j <= b < other.len() implies #[trigger] next[a]
        != #[trigger] other[b] && comes_before(s, next[a] as int, other[b] as int, field, desc) by {
        if a == out.len() {
            if b > j {
                lemma_comes_before_transitive(
                    s,
                    taken[i] as int,
                    other[j] as int,
                    other[b] as int,
                    field,
                    desc,
                );
            }
        }
    }
}

/// Merges two runs into one.
fn merge_runs(
    proxies: &Vec<PoolProxy>,
    left: &Vec<usize>,
    right: &Vec<usize>,
    field: SortField,
    desc: bool,
    Ghost(from): Ghost<int>,
    Ghost(mid): Ghost<int>,
    Ghost(to): Ghost<int>,
) -> (r: Vec<usize>)
    requires
        0 <= from <= mid <= to <= proxies@.len(),
        is_run(left@, views(proxies@), from, mid, field, desc),
        is_run(right@, views(proxies@), mid, to, field, desc),
        left@.len() == mid - from,
        right@.len() == to - mid,
    ensures
        is_run(r@, views(proxies@), from, to, field, desc),
        r@.len() == to - from,
{
    let ghost s = views(proxies@);
    let mut out: Vec<usize> = Vec::new();
    let mut i: usize = 0;
    let mut j: usize = 0;
    while i < left.len() || j < right.len()
        invariant
            s == views(proxies@),
            0 <= from <= mid <= to <= proxies@.len(),
            is_run(left@, s, from, mid, field, desc),
            is_run(right@, s, mid, to, field, desc),
            is_run(out@, s, from, to, field, desc),
            i <= left@.len(),
            j <= right@.len(),
            out@.len() == i + j,
            forall|a: int, b: int|
                0 <= a < out@.len() && i <= b < left@.len() ==> #[trigger] out@[a]
                    != #[trigger] left@[b] && comes_before(
                    s,
                    out@[a] as int,
                    left@[b] as int,
                    field,
                    desc,
                ),
            forall|a: int, b: int|
                0 <= a < out@.len() && j <= b < right@.len() ==> #[trigger] out@[a]
                    != #[trigger] right@[b] && comes_before(
                    s,
                    out@[a] as int,
                    right@[b] as int,
                    field,
                    desc,
                ),
        decreases left@.len() - i + right@.len() - j,
    {
        assert(is_run(left@, s, from, to, field, desc));
        assert(is_run(right@, s, from, to, field, desc));
        let take_left: bool = if i >= left.len() {
            false
        } else if j >= right.len() {
            true
        } else {
            let order: i8 = compare_proxies(&proxies[left[i]], &proxies[right[j]], field, desc);
            proof {
                lemma_listing_order_antisymmetric(
                    s[left@[i as int] as int],
                    s[right@[j as int] as int],
                    field,
                    desc,
                );
            }
            order <= 0
        };
        if take_left {
            proof {
                lemma_take_next(
                    out@, left@, i as int, right@, j as int, s, from, to, field, desc,
                );
            }
            out.push(left[i]);
            i = i + 1;
        } else {
            proof {
                lemma_take_next(
                    out@, right@, j as int, left@, i as int, s, from, to, field, desc,
                );
            }
            out.push(right[j]);
            j = j + 1;
        }
    }
    out
}

/// The positions from `from` up to `to`, in sorted order.
fn sort_positions(
    proxies: &Vec<PoolProxy>,
    from: usize,
    to: usize,
    field: SortField,
    desc: bool,
) -> (r: Vec<usize>)
    requires
        from <= to <= proxies@.len(),
    ensures
        is_run(r@, views(proxies@), from as int, to as int, field, desc),
        r@.len() == to - from,
    decreases to - from,
{
    if to - from == 0 {
        return Vec::new();
    }
    if to - from == 1 {
        let mut one: Vec<usize> = Vec::new();
        one.push(from);
        return one;
    }
    let mid: usize = from + (to - from) / 2;
    let left: Vec<usize> = sort_positions(proxies, from, mid, field, desc);
    let right: Vec<usize> = sort_positions(proxies, mid, to, field, desc);
    merge_runs(
        proxies,
        &left,
        &right,
        field,
        desc,
        Ghost(from as int),
        Ghost(mid as int),
        Ghost(to as int),
    )
}

/// Sorts proxies by the `sort` and `dir` parameters of a query. Proxies that tie keep their
/// order.
pub fn sort_proxies(proxies: &mut Vec<PoolProxy>, sort: &Option<String>, dir: &Option<String>)
    ensures
        is_sorted_listing(
            views(old(proxies)@),
            views(final(proxies)@),
            sort_field(opt_text(*sort)),
            descending(opt_text(*dir)),
        ),
{
    let field: SortField = parse_sort_field(sort);
    let desc: bool = parse_descending(dir);
    let n: usize = proxies.len();
    let run: Vec<usize> = sort_positions(proxies, 0, n, field, desc);
    let ghost s = views(proxies@);
    let ghost perm = run@.map_values(|i: usize| i as int);
    let mut sorted: Vec<PoolProxy> = Vec::new();
    let mut k: usize = 0;
    while k < run.len()
        invariant
            k <= run@.len(),
            s == views(proxies@),
            forall|l: int| 0 <= l < run@.len() ==> 0 <= #[trigger] run@[l] < proxies@.len(),
            perm == run@.map_values(|i: usize| i as int),
            views(sorted@) == arranged(s, perm).take(k as int),
        decreases run@.len() - k,
    {
        let ghost before = sorted@;
        sorted.push(proxies[run[k]].clone());
        assert(views(sorted@) =~= views(before).push(s[run@[k as int] as int]));
        k = k + 1;
        assert(views(sorted@) =~= arranged(s, perm).take(k as int));
    }
    assert(arranged(s, perm).take(k as int) =~= arranged(s, perm));
    assert(sorts(perm, s, field, desc));
    *proxies = sorted;
}

/// Distinct positions of `s`, as many as there are, are all of its positions.
pub(crate) proof fn lemma_covers(perm: Seq<int>, n: int)
    requires
        perm.len() == n,
        forall|k: int| 0 <= k < perm.len() ==> 0 <= #[trigger] perm[k] < n,
        perm.no_duplicates(),
    ensures
        forall|i: int| 0 <= i < n ==> #[trigger] perm.contains(i),
{
    let all = vstd::set_lib::set_int_range(0, n);
    vstd::set_lib::lemma_int_range(0, n);
    perm.unique_seq_to_set();
    assert(perm.to_set().subset_of(all));
    vstd::set_lib::lemma_subset_equality(perm.to_set(), all);
    assert forall|i: int| 0 <= i < n implies #[trigger] perm.contains(i) by {
        assert(all.contains(i));
        assert(perm.to_set().contains(i));
    }
}

/// A sorted order has no place for another choice.
proof fn lemma_sorted_order_unique(
    first: Seq<int>,
    second: Seq<int>,
    s: Seq<ProxyView>,
    field: SortField,
    desc: bool,
)
    requires
        sorts(first, s, field, desc),
        sorts(second, s, field, desc),
    ensures
        first == second,
{
    assert(first.no_duplicates()) by {
        assert forall|i: int, j: int|
            0 <= i < first.len() && 0 <= j < first.len() && i != j implies first[i] != first[j] by {
            if i > j {
                assert(first[j] != first[i]);
            }
        }
    }
    assert(second.no_duplicates()) by {
        assert forall|i: int, j: int|
            0 <= i < second.len() && 0 <= j < second.len() && i != j implies second[i]
            != second[j] by {
            if i > j {
                assert(second[j] != second[i]);
            }
        }
    }
    lemma_covers(first, s.len() as int);
    lemma_covers(second, s.len() as int);
    lemma_agree_up_to(first, second, s, field, desc, first.len() as int);
    assert(first =~= second);
}

/// Two sorted orders agree on their first `n` places.
proof fn lemma_agree_up_to(
    first: Seq<int>,
    second: Seq<int>,
    s: Seq<ProxyView>,
    field: SortField,
    desc: bool,
    n: int,
)
    requires
        sorts(first, s, field, desc),
        sorts(second, s, field, desc),
        forall|i: int| 0 <= i < s.len() ==> #[trigger] first.contains(i),
        forall|i: int| 0 <= i < s.len() ==> #[trigger] second.contains(i),
        0 <= n <= first.len(),
    ensures
        forall|k: int| 0 <= k < n ==> first[k] == second[k],
    decreases n,
{
    if n > 0 {
        let k = n - 1;
        lemma_agree_up_to(first, second, s, field, desc, k);
        assert(second.contains(first[k]));
        let a = choose|a: int| 0 <= a < second.len() && second[a] == first[k];
        assert(first.contains(second[k]));
        let b = choose|b: int| 0 <= b < first.len() && first[b] == second[k];
        if a < k {
            assert(first[a] == second[a]);
            assert(first[a] != first[k]);
        } else if b < k {
            assert(first[b] == second[b]);
            assert(second[b] != second[k]);
        } else if a > k {
            assert(b > k) by {
                if b == k {
                    assert(second[k] != second[a]);
                }
            }
            assert(comes_before(s, second[k], second[a], field, desc));
            assert(comes_before(s, first[k], first[b], field, desc));
            assert(first[k] != first[b]);
            lemma_listing_order_antisymmetric(s[first[k]], s[first[b]], field, desc);
        }
    }
}

/// What a listing looks like is decided by the proxies, the order in which they came, and what
/// it is sorted by.
pub proof fn law_sorted_listing_is_unique(
    s: Seq<ProxyView>,
    first: Seq<ProxyView>,
    second: Seq<ProxyView>,
    field: SortField,
    desc: bool,
)
    requires
        is_sorted_listing(s, first, field, desc),
        is_sorted_listing(s, second, field, desc),
    ensures
        first == second,
{
    let p = choose|perm: Seq<int>|
        #[trigger] sorts(perm, s, field, desc) && first == arranged(s, perm);
    let q = choose|perm: Seq<int>|
        #[trigger] sorts(perm, s, field, desc) && second == arranged(s, perm);
    lemma_sorted_order_unique(p, q, s, field, desc);
}

/// In a sorted listing no proxy stands behind one that it comes before.
pub proof fn law_sorted_listing_is_in_order(
    s: Seq<ProxyView>,
    out: Seq<ProxyView>,
    field: SortField,
    desc: bool,
)
    requires
        is_sorted_listing(s, out, field, desc),
    ensures
        forall|i: int, j: int|
            0 <= i < j < out.len() ==> listing_order(
                #[trigger] out[i],
                #[trigger] out[j],
                field,
                desc,
            ) <= 0,
{
    let perm = choose|perm: Seq<int>|
        #[trigger] sorts(perm, s, field, desc) && out == arranged(s, perm);
    assert forall|i: int, j: int| 0 <= i < j < out.len() implies listing_order(
        #[trigger] out[i],
        #[trigger] out[j],
        field,
        desc,
    ) <= 0 by {
        assert(comes_before(s, perm[i], perm[j], field, desc));
    }
}

/// Sorting neither loses nor repeats nor invents a proxy.
pub proof fn law_sorted_listing_keeps_proxies(
    s: Seq<ProxyView>,
    out: Seq<ProxyView>,
    field: SortField,
    desc: bool,
)
    requires
        is_sorted_listing(s, out, field, desc),
    ensures
        out.len() == s.len(),
        out.to_multiset() == s.to_multiset(),
{
    let perm = choose|perm: Seq<int>|
        #[trigger] sorts(perm, s, field, desc) && out == arranged(s, perm);
    assert(perm.no_duplicates()) by {
        assert forall|i: int, j: int|
            0 <= i < perm.len() && 0 <= j < perm.len() && i != j implies perm[i] != perm[j] by {
            if i > j {
                assert(perm[j] != perm[i]);
            }
        }
    }
    lemma_arranged_multiset(s, perm);
}

/// Taking the elements of `s` at all its positions, each once, gives the same elements.
proof fn lemma_arranged_multiset(s: Seq<ProxyView>, perm: Seq<int>)
    requires
        perm.len() == s.len(),
        perm.no_duplicates(),
        forall|k: int| 0 <= k < perm.len() ==> 0 <= #[trigger] perm[k] < s.len(),
    ensures
        arranged(s, perm).to_multiset() == s.to_multiset(),
    decreases s.len(),
{
    broadcast use vstd::seq_lib::group_to_multiset_ensures;

    if s.len() == 0 {
        assert(arranged(s, perm) =~= s);
    } else {
        let n = s.len() - 1;
        lemma_covers(perm, s.len() as int);
        assert(perm.contains(n));
        let at = choose|at: int| 0 <= at < perm.len() && perm[at] == n;
        let rest = perm.remove(at);
        let front = s.drop_last();
        assert forall|k: int| 0 <= k < rest.len() implies 0 <= #[trigger] rest[k] < front.len() by {
            if k < at {
                assert(rest[k] == perm[k]);
                assert(perm[k] != perm[at]);
            } else {
                assert(rest[k] == perm[k + 1]);
                assert(perm[k + 1] != perm[at]);
            }
        }
        assert(rest.no_duplicates()) by {
            assert forall|i: int, j: int|
                0 <= i < rest.len() && 0 <= j < rest.len() && i != j implies rest[i] != rest[j] by {
                let pi = if i < at {
                    i
                } else {
                    i + 1
                };
                let pj = if j < at {
                    j
                } else {
                    j + 1
                };
                assert(rest[i] == perm[pi] && rest[j] == perm[pj]);
            }
        }
        lemma_arranged_multiset(front, rest);
        assert(arranged(front, rest) =~= arranged(s, perm).remove(at));
        assert(s =~= front.push(s.last()));
        assert(arranged(s, perm)[at] == s.last());
        let out = arranged(s, perm);
        assert(out =~= out.remove(at).insert(at, s.last()));
        assert(out.to_multiset() =~= front.to_multiset().insert(s.last()));
    }
}

/// Sorting a listing once more leaves it as it is.
pub proof fn law_sorting_twice_is_sorting_once(
    s: Seq<ProxyView>,
    once: Seq<ProxyView>,
    twice: Seq<ProxyView>,
    field: SortField,
    desc: bool,
)
    requires
        is_sorted_listing(s, once, field, desc),
        is_sorted_listing(once, twice, field, desc),
    ensures
        twice == once,
{
    law_sorted_listing_is_in_order(s, once, field, desc);
    let here = Seq::new(once.len(), |k: int| k);
    assert(sorts(here, once, field, desc));
    assert(arranged(once, here) =~= once);
    law_sorted_listing_is_unique(once, once, twice, field, desc);
}

/// Asking for the other direction turns the order of any two proxies around.
pub proof fn law_direction_turns_order(a: ProxyView, b: ProxyView, field: SortField)
    ensures
        listing_order(a, b, field, true) == listing_order(b, a, field, false),
{
    lemma_listing_order_antisymmetric(a, b, field, false);
}

} // verus!
