//! Reservoir sampling: a random choice of a given size, made in one pass.

use crate::proxy::{views, PoolProxy, ProxyView};
use vstd::prelude::*;

verus! {

/// The reservoir after one more proxy. While there is room the proxy goes in; then it takes the
/// place that was drawn, if the reservoir has it.
pub open spec fn offered(
    reservoir: Seq<ProxyView>,
    count: nat,
    p: ProxyView,
    draw: int,
) -> Seq<ProxyView> {
    if reservoir.len() < count {
        reservoir.push(p)
    } else if 0 <= draw < reservoir.len() {
        reservoir.update(draw, p)
    } else {
        reservoir
    }
}

/// The choice of `count` proxies of `s` that the draws make; the draw at `i` goes with the proxy
/// at `i`.
pub open spec fn sampled(s: Seq<ProxyView>, count: nat, draws: Seq<int>) -> Seq<ProxyView>
    decreases s.len(),
{
    if s.len() == 0 {
        Seq::empty()
    } else {
        offered(sampled(s.drop_last(), count, draws), count, s.last(), draws[s.len() - 1])
    }
}

/// Whether each draw for a proxy is below the number of proxies up to it.
pub open spec fn fair_draws(draws: Seq<int>, n: nat) -> bool {
    &&& draws.len() == n
    &&& forall|i: int| 0 <= i < n ==> 0 <= #[trigger] draws[i] <= i
}

/// The proxies of `s` at the positions `at`, which are distinct.
pub open spec fn picked_at(s: Seq<ProxyView>, out: Seq<ProxyView>, at: Seq<int>) -> bool {
    &&& at.len() == out.len()
    &&& at.no_duplicates()
    &&& forall|i: int| 0 <= i < at.len() ==> 0 <= #[trigger] at[i] < s.len() && out[i] == s[at[i]]
}

/// A choice of `count` proxies has `count` members, or all there are, and takes each of them
/// from a position of its own. This holds whatever is drawn.
pub proof fn law_sample_has_distinct_members(s: Seq<ProxyView>, count: nat, draws: Seq<int>) -> (at:
    Seq<int>)
    ensures
        sampled(s, count, draws).len() == if s.len() < count {
            s.len()
        } else {
            count
        },
        picked_at(s, sampled(s, count, draws), at),
    decreases s.len(),
{
    if s.len() == 0 {
        Seq::empty()
    } else {
        let front = s.drop_last();
        let before = law_sample_has_distinct_members(front, count, draws);
        let kept = sampled(front, count, draws);
        let draw = draws[s.len() - 1];
        let last = s.len() - 1;
        assert forall|i: int| 0 <= i < before.len() implies before[i] != last && kept[i]
            == s[before[i]] by {
            assert(0 <= before[i] < front.len());
        }
        if kept.len() < count {
            before.push(last)
        } else if 0 <= draw < kept.len() {
            before.update(draw, last)
        } else {
            before
        }
    }
}

/// Where there is room for all, the choice is everything, in order.
pub proof fn law_large_sample_takes_all(s: Seq<ProxyView>, count: nat, draws: Seq<int>)
    requires
        s.len() <= count,
    ensures
        sampled(s, count, draws) == s,
    decreases s.len(),
{
    if s.len() > 0 {
        law_large_sample_takes_all(s.drop_last(), count, draws);
        assert(s.drop_last().push(s.last()) =~= s);
    } else {
        assert(s =~= Seq::empty());
    }
}

/// A later draw decides whether a proxy is in a full choice: one below the size puts it at the
/// drawn place and leaves the rest, and any other leaves the choice as it was.
pub proof fn law_draw_replaces_one_member(
    s: Seq<ProxyView>,
    p: ProxyView,
    count: nat,
    draws: Seq<int>,
)
    requires
        s.len() >= count,
        fair_draws(draws, s.len() + 1),
    ensures
        ({
            let before = sampled(s, count, draws);
            let after = sampled(s.push(p), count, draws);
            let draw = draws[s.len() as int];
            &&& draw < count ==> after == before.update(draw, p)
            &&& draw >= count ==> after == before
        }),
{
    assert(s.push(p).drop_last() =~= s);
    let at = law_sample_has_distinct_members(s, count, draws);
}

/// Draws that leave a full reservoir as it is, but for the proxy at `i`, which gets the first
/// place.
spec fn draws_for(n: nat, i: int) -> Seq<int> {
    Seq::new(
        n,
        |j: int|
            if j == i {
                0
            } else {
                j
            },
    )
}

/// With those draws the proxy at `i` is in the choice from then on.
proof fn lemma_draws_for(s: Seq<ProxyView>, count: nat, i: int, n: nat)
    requires
        count >= 1,
        0 <= i < n,
        s.len() <= n,
    ensures
        i < s.len() ==> sampled(s, count, draws_for(n, i)).contains(s[i]),
        sampled(s, count, draws_for(n, i)).len() == if s.len() < count {
            s.len()
        } else {
            count
        },
        i < s.len() ==> sampled(s, count, draws_for(n, i))[if i < count {
            i
        } else {
            0
        }] == s[i],
    decreases s.len(),
{
    if s.len() > 0 {
        let front = s.drop_last();
        lemma_draws_for(front, count, i, n);
        let kept = sampled(front, count, draws_for(n, i));
        let out = sampled(s, count, draws_for(n, i));
        assert(draws_for(n, i)[s.len() - 1] == if s.len() - 1 == i {
            0
        } else {
            s.len() - 1
        });
        if i < s.len() {
            let at = if i < count {
                i
            } else {
                0
            };
            assert(out[at] == s[i]);
        }
    }
}

/// Every proxy can be chosen: some draws put it into the choice.
pub proof fn law_every_proxy_can_be_chosen(s: Seq<ProxyView>, count: nat, i: int) -> (draws: Seq<
    int,
>)
    requires
        count >= 1,
        0 <= i < s.len(),
    ensures
        fair_draws(draws, s.len()),
        sampled(s, count, draws).contains(s[i]),
{
    lemma_draws_for(s, count, i, s.len());
    draws_for(s.len(), i)
}

/// Offers one more proxy to a reservoir of `count` places, with the place that was drawn for it.
pub fn offer(reservoir: &mut Vec<PoolProxy>, count: usize, proxy: PoolProxy, draw: usize)
    ensures
        views(final(reservoir)@) == offered(
            views(old(reservoir)@),
            count as nat,
            proxy@,
            draw as int,
        ),
{
    let ghost before = reservoir@;
    if reservoir.len() < count {
        reservoir.push(proxy);
        assert(views(reservoir@) =~= views(before).push(proxy@));
    } else if draw < reservoir.len() {
        reservoir.set(draw, proxy);
        assert(views(reservoir@) =~= views(before).update(draw as int, proxy@));
    }
}

} // verus!
