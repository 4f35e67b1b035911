//! Why sampling is fair: over all draws, every proxy is chosen equally often.

use crate::proxy::ProxyView;
use crate::sample::{fair_draws, sampled};
use vstd::prelude::*;
use vstd::relations::injective_on;

verus! {

/// The positions, out of the first `n`, that draws choose into a sample of `count`.
pub open spec fn picked(n: nat, count: nat, draws: Seq<int>) -> Seq<int>
    decreases n,
{
    if n == 0 {
        Seq::empty()
    } else {
        let before = picked((n - 1) as nat, count, draws);
        let draw = draws[n - 1];
        if before.len() < count {
            before.push(n - 1)
        } else if 0 <= draw < before.len() {
            before.update(draw, n - 1)
        } else {
            before
        }
    }
}

/// A sample holds the proxies at the positions that are picked.
pub proof fn law_sample_is_picked_by_position(s: Seq<ProxyView>, count: nat, draws: Seq<int>)
    ensures
        sampled(s, count, draws) == picked(s.len(), count, draws).map_values(|i: int| s[i]),
    decreases s.len(),
{
    lemma_picked(s.len(), count, draws);
    if s.len() > 0 {
        let front = s.drop_last();
        law_sample_is_picked_by_position(front, count, draws);
        lemma_picked(front.len(), count, draws);
        let at = picked(front.len(), count, draws);
        assert(at.map_values(|i: int| front[i]) =~= at.map_values(|i: int| s[i]));
    }
    assert(sampled(s, count, draws) =~= picked(s.len(), count, draws).map_values(|i: int| s[i]));
}

/// Picked positions are distinct, below `n`, and as many as there is room for.
proof fn lemma_picked(n: nat, count: nat, draws: Seq<int>)
    ensures
        picked(n, count, draws).len() == if n < count {
            n
        } else {
            count
        },
        picked(n, count, draws).no_duplicates(),
        forall|k: int|
            0 <= k < picked(n, count, draws).len() ==> 0 <= #[trigger] picked(n, count, draws)[k] < n,
    decreases n,
{
    if n > 0 {
        lemma_picked((n - 1) as nat, count, draws);
    }
}

/// What is picked out of the first `n` positions depends on the first `n` draws alone.
proof fn lemma_picked_from_prefix(n: nat, count: nat, first: Seq<int>, second: Seq<int>)
    requires
        n <= first.len(),
        n <= second.len(),
        forall|j: int| 0 <= j < n ==> first[j] == second[j],
    ensures
        picked(n, count, first) == picked(n, count, second),
    decreases n,
{
    if n > 0 {
        lemma_picked_from_prefix((n - 1) as nat, count, first, second);
    }
}

/// Where there is room for all, every position is picked.
proof fn lemma_all_picked(n: nat, count: nat, draws: Seq<int>, i: int)
    requires
        n <= count,
        0 <= i < n,
    ensures
        picked(n, count, draws)[i] == i,
        picked(n, count, draws).contains(i),
    decreases n,
{
    lemma_picked(n, count, draws);
    lemma_picked((n - 1) as nat, count, draws);
    if i < n - 1 {
        lemma_all_picked((n - 1) as nat, count, draws, i);
    }
    assert(picked(n, count, draws)[i] == i);
}

/// All draws for `n` proxies.
pub open spec fn all_draws(n: nat) -> Set<Seq<int>> {
    Set::new(|draws: Seq<int>| fair_draws(draws, n))
}

/// The draws for `n` proxies that choose the one at `i` into a sample of `count`.
pub open spec fn draws_choosing(n: nat, count: nat, i: int) -> Set<Seq<int>> {
    all_draws(n).filter(|draws: Seq<int>| picked(n, count, draws).contains(i))
}

/// The draws of `a` with one more draw below `k` behind each.
spec fn extended(a: Set<Seq<int>>, k: nat) -> Set<Seq<int>> {
    Set::new(|y: Seq<int>| y.len() > 0 && a.contains(y.drop_last()) && 0 <= y.last() < k)
}

/// One more draw below `k` makes `k` times as many.
proof fn lemma_extended_size(a: Set<Seq<int>>, k: nat)
    requires
        a.finite(),
    ensures
        extended(a, k).finite(),
        extended(a, k).len() == a.len() * k,
    decreases k,
{
    if k == 0 {
        assert(extended(a, k) =~= Set::empty());
        assert(a.len() * 0 == 0) by (nonlinear_arith);
    } else {
        let last = k - 1;
        let fewer = extended(a, last as nat);
        let f = |x: Seq<int>| x.push(last);
        let ends = a.map(f);
        lemma_extended_size(a, last as nat);
        assert(injective_on(f, a)) by {
            assert forall|x: Seq<int>, y: Seq<int>|
                a.contains(x) && a.contains(y) && #[trigger] f(x) == #[trigger] f(y) implies x
                == y by {
                assert(f(x).drop_last() =~= x);
                assert(f(y).drop_last() =~= y);
            }
        }
        vstd::set_lib::lemma_map_size(a, ends, f);
        assert(extended(a, k) =~= fewer + ends) by {
            assert forall|y: Seq<int>| extended(a, k).contains(y) implies (fewer + ends).contains(
                y,
            ) by {
                if y.last() == last {
                    assert(f(y.drop_last()) =~= y);
                    assert(ends.contains(y));
                }
            }
            assert forall|y: Seq<int>| (fewer + ends).contains(y) implies extended(a, k).contains(
                y,
            ) by {
                if ends.contains(y) {
                    let x = choose|x: Seq<int>| a.contains(x) && f(x) == y;
                    assert(y.drop_last() =~= x);
                }
            }
        }
        assert(fewer.disjoint(ends)) by {
            assert forall|y: Seq<int>| !(fewer.contains(y) && ends.contains(y)) by {
                if ends.contains(y) {
                    let x = choose|x: Seq<int>| a.contains(x) && f(x) == y;
                    assert(y.last() == last);
                }
            }
        }
        vstd::set_lib::lemma_set_disjoint_lens(fewer, ends);
        assert(a.len() * last + a.len() == a.len() * k) by (nonlinear_arith)
            requires
                last == k - 1,
        ;
    }
}

/// The draws for one more proxy are those for the others with one more draw behind.
proof fn lemma_all_draws_step(n: nat)
    ensures
        all_draws(n + 1) == extended(all_draws(n), n + 1),
{
    assert forall|y: Seq<int>| fair_draws(y, n + 1) implies fair_draws(y.drop_last(), n) && 0
        <= y.last() < n + 1 by {
        assert forall|i: int| 0 <= i < n implies 0 <= #[trigger] y.drop_last()[i] <= i by {
            assert(y.drop_last()[i] == y[i]);
        }
        assert(y.last() == y[n as int]);
    }
    assert forall|y: Seq<int>|
        y.len() > 0 && fair_draws(y.drop_last(), n) && 0 <= y.last() < n + 1 implies fair_draws(
        y,
        n + 1,
    ) by {
        assert forall|i: int| 0 <= i < n + 1 implies 0 <= #[trigger] y[i] <= i by {
            if i < n {
                assert(y.drop_last()[i] == y[i]);
            }
        }
    }
    assert(all_draws(n + 1) =~= extended(all_draws(n), n + 1));
}

/// There are finitely many draws, and at least one.
proof fn lemma_all_draws_size(n: nat)
    ensures
        all_draws(n).finite(),
        all_draws(n).len() > 0,
    decreases n,
{
    if n == 0 {
        let none = Seq::<int>::empty();
        assert(all_draws(0) =~= set![none]) by {
            assert forall|d: Seq<int>| fair_draws(d, 0) implies d == none by {
                assert(d =~= none);
            }
        }
    } else {
        let m = (n - 1) as nat;
        lemma_all_draws_size(m);
        lemma_all_draws_step(m);
        lemma_extended_size(all_draws(m), n);
        assert(all_draws(m).len() * n > 0) by (nonlinear_arith)
            requires
                all_draws(m).len() > 0,
                n > 0,
        ;
    }
}

/// The place at which a position is picked.
spec fn place_of(n: nat, count: nat, draws: Seq<int>, i: int) -> int {
    choose|k: int| 0 <= k < picked(n, count, draws).len() && picked(n, count, draws)[k] == i
}

/// A full sample with the position `i` keeps it with all but one of the next draws.
proof fn lemma_kept(n: nat, count: nat, i: int)
    requires
        1 <= count <= n,
        0 <= i < n,
    ensures
        draws_choosing(n + 1, count, i).len() == draws_choosing(n, count, i).len() * n,
        draws_choosing(n, count, i).finite(),
{
    let had = draws_choosing(n, count, i);
    let has = draws_choosing(n + 1, count, i);
    lemma_all_draws_size(n);
    lemma_all_draws_step(n);
    vstd::set_lib::lemma_len_subset(had, all_draws(n));
    let all = extended(had, n + 1);
    lemma_extended_size(had, n + 1);
    let f = |x: Seq<int>| x.push(place_of(n, count, x, i));
    let lost = had.map(f);
    assert(injective_on(f, had)) by {
        assert forall|x: Seq<int>, y: Seq<int>|
            had.contains(x) && had.contains(y) && #[trigger] f(x) == #[trigger] f(y) implies x
            == y by {
            assert(f(x).drop_last() =~= x);
            assert(f(y).drop_last() =~= y);
        }
    }
    vstd::set_lib::lemma_map_size(had, lost, f);
    assert forall|y: Seq<int>| all_draws(n + 1).contains(y) implies (has.contains(y)
        <==> all.contains(y) && !lost.contains(y)) by {
        let x = y.drop_last();
        assert(extended(all_draws(n), n + 1).contains(y));
        lemma_picked(n, count, x);
        lemma_picked_from_prefix(n, count, x, y);
        let before = picked(n, count, x);
        let after = picked(n + 1, count, y);
        let draw = y[n as int];
        assert(draw == y.last());
        assert(after == if 0 <= draw < before.len() {
            before.update(draw, n as int)
        } else {
            before
        });
        if had.contains(x) {
            let at = place_of(n, count, x, i);
            assert(before.contains(i));
            assert(0 <= at < before.len() && before[at] == i);
            if draw == at {
                assert(f(x) =~= y);
                assert(lost.contains(y));
                assert(!after.contains(i)) by {
                    if after.contains(i) {
                        let k = choose|k: int| 0 <= k < after.len() && after[k] == i;
                        assert(k != at);
                        assert(before[k] == i);
                    }
                }
            } else {
                assert(after[at] == i);
                assert(after.contains(i));
                assert(!lost.contains(y)) by {
                    if lost.contains(y) {
                        let z = choose|z: Seq<int>| had.contains(z) && f(z) == y;
                        assert(y.drop_last() =~= z);
                    }
                }
            }
        } else {
            assert(!before.contains(i));
            assert(!after.contains(i)) by {
                if after.contains(i) {
                    let k = choose|k: int| 0 <= k < after.len() && after[k] == i;
                    assert(before[k] == i);
                }
            }
        }
    }
    assert(all.subset_of(all_draws(n + 1)));
    assert(lost.subset_of(all)) by {
        assert forall|y: Seq<int>| lost.contains(y) implies all.contains(y) by {
            let x = choose|x: Seq<int>| had.contains(x) && f(x) == y;
            assert(y.drop_last() =~= x);
            lemma_picked(n, count, x);
            assert(picked(n, count, x).contains(i));
        }
    }
    assert(has =~= all.difference(lost));
    vstd::set_lib::lemma_set_difference_len(all, lost);
    assert(all.intersect(lost) =~= lost);
    assert(had.len() * (n + 1) - had.len() == had.len() * n) by (nonlinear_arith);
}

/// The newest position gets into a full sample with `count` of its draws.
proof fn lemma_joined(n: nat, count: nat)
    requires
        1 <= count <= n,
    ensures
        draws_choosing(n + 1, count, n as int).len() == all_draws(n).len() * count,
{
    let has = draws_choosing(n + 1, count, n as int);
    lemma_all_draws_size(n);
    lemma_all_draws_step(n);
    lemma_extended_size(all_draws(n), count);
    assert forall|y: Seq<int>| all_draws(n + 1).contains(y) implies (has.contains(y) <==> y.last()
        < count) by {
        let x = y.drop_last();
        assert(extended(all_draws(n), n + 1).contains(y));
        lemma_picked(n, count, x);
        lemma_picked_from_prefix(n, count, x, y);
        let before = picked(n, count, x);
        let after = picked(n + 1, count, y);
        let draw = y[n as int];
        assert(draw == y.last());
        if draw < count {
            assert(after[draw] == n);
            assert(after.contains(n as int));
        } else {
            assert(after == before);
        }
    }
    assert(extended(all_draws(n), count).subset_of(all_draws(n + 1)));
    assert(has =~= extended(all_draws(n), count));
}

/// Sampling is fair: of all draws for `n` proxies, the share that chooses a given one into a
/// sample of `count` is `count` out of `n`, whichever proxy it is.
pub proof fn law_every_proxy_is_equally_likely(n: nat, count: nat, i: int)
    requires
        1 <= count <= n,
        0 <= i < n,
    ensures
        all_draws(n).finite(),
        all_draws(n).len() > 0,
        draws_choosing(n, count, i).len() * n == all_draws(n).len() * count,
    decreases n,
{
    lemma_all_draws_size(n);
    if n == count {
        assert(draws_choosing(n, count, i) =~= all_draws(n)) by {
            assert forall|d: Seq<int>| all_draws(n).contains(d) implies picked(n, count, d).contains(
                i,
            ) by {
                lemma_all_picked(n, count, d, i);
            }
        }
    } else {
        let m = (n - 1) as nat;
        let draws = all_draws(m).len();
        lemma_all_draws_size(m);
        lemma_all_draws_step(m);
        lemma_extended_size(all_draws(m), n);
        assert(all_draws(n).len() == draws * n);
        if i < m {
            law_every_proxy_is_equally_likely(m, count, i);
            lemma_kept(m, count, i);
            let had = draws_choosing(m, count, i).len();
            assert((had * m) * n == (draws * n) * count) by (nonlinear_arith)
                requires
                    had * m == draws * count,
            ;
        } else {
            lemma_joined(m, count);
            assert((draws * count) * n == (draws * n) * count) by (nonlinear_arith);
        }
    }
}

} // verus!
