//! Laws of bid resolution: properties that relate whole resolutions,
//! proved once and for all over the mathematical model.
use vstd::prelude::*;

use crate::Bid;
use crate::Sale;
use crate::model::allocation;
use crate::model::lemma_allocation_all_fit;
use crate::model::lemma_allocation_prefix;
use crate::model::lemma_sort_desc_amount_lb;
use crate::model::lemma_sort_desc_len;
use crate::model::lemma_sort_desc_sorted;
use crate::model::lemma_sort_desc_total;
use crate::model::single_price_post;
use crate::model::sort_desc;
use crate::model::sorted_desc;
use crate::model::total_quantity;

verus! {

/// Under the single-price rule all sales of one resolution share one
/// amount: the clearing price, which is the amount of the last-accepted —
/// and lowest-priced — winning bid.
pub proof fn lemma_uniform_clearing_price(
    reserve: int,
    lots: nat,
    bids: Seq<Bid>,
    sales: Seq<Sale>,
)
    requires
        single_price_post(reserve, lots, bids, sales),
        sales.len() > 0,
    ensures
        forall|k1: int, k2: int|
            0 <= k1 < sales.len() && 0 <= k2 < sales.len() ==> sales[k1].amount
                == sales[k2].amount,
        forall|k: int| 0 <= k < sales.len() ==> (#[trigger] sales[k]).amount == allocation(
            sort_desc(bids),
            reserve,
            lots,
        ).last().0.amount,
        forall|k: int| 0 <= k < sales.len() ==> (#[trigger] sales[k]).amount <= allocation(
            sort_desc(bids),
            reserve,
            lots,
        )[k].0.amount,
{
    let sd = sort_desc(bids);
    let a = allocation(sd, reserve, lots);
    lemma_sort_desc_sorted(bids);
    lemma_allocation_prefix(sd, reserve, lots);
    assert forall|k: int| 0 <= k < sales.len() implies (#[trigger] sales[k]).amount
        <= a[k].0.amount by {
        assert(a[k].0 == sd[k]);
        assert(a.last().0 == sd[a.len() - 1]);
        assert(sd[k].amount >= sd[a.len() - 1].amount);
    }
}

/// When the supply covers the total demand and every bid clears the
/// reserve, every bid wins in full: the allocation awards each sorted bid
/// exactly its requested quantity, and no partial fill occurs.
pub proof fn lemma_full_supply_fills_every_bid(bids: Seq<Bid>, reserve: int, lots: nat)
    requires
        total_quantity(bids) <= lots,
        forall|k: int| 0 <= k < bids.len() ==> (#[trigger] bids[k]).amount >= reserve,
    ensures
        allocation(sort_desc(bids), reserve, lots).len() == bids.len(),
        forall|k: int|
            0 <= k < bids.len() ==> #[trigger] allocation(sort_desc(bids), reserve, lots)[k]
                == (sort_desc(bids)[k], sort_desc(bids)[k].quantity as nat),
{
    let sd = sort_desc(bids);
    lemma_sort_desc_len(bids);
    lemma_sort_desc_total(bids);
    lemma_sort_desc_amount_lb(bids, reserve);
    lemma_allocation_all_fit(sd, reserve, lots);
    assert forall|k: int| 0 <= k < bids.len() implies #[trigger] allocation(sd, reserve, lots)[k]
        == (sd[k], sd[k].quantity as nat) by {
        assert(allocation(sd, reserve, lots)[k].0 == sd[k]);
        assert(allocation(sd, reserve, lots)[k].1 == sd[k].quantity as nat);
    }
}

/// When the second bid of the descending order asks for more than the
/// supply left after the first, the scan stops there: at most one partial
/// fill comes out of that second bid, and no later bid is considered, even
/// one that would fit on its own.
pub proof fn lemma_partial_fill_stops_scan(s: Seq<Bid>, reserve: int, lots: nat)
    requires
        sorted_desc(s),
        s.len() >= 2,
        s[0].amount >= reserve,
        s[0].quantity <= lots,
        s[1].quantity > lots - s[0].quantity,
    ensures
        allocation(s, reserve, lots).len() <= 2,
        allocation(s, reserve, lots)[0] == (s[0], s[0].quantity as nat),
        allocation(s, reserve, lots).len() == 2 ==> allocation(s, reserve, lots)[1] == (
            s[1],
            (lots - s[0].quantity) as nat,
        ) && allocation(s, reserve, lots)[1].1 < s[1].quantity,
{
    let a = allocation(s, reserve, lots);
    let rem: nat = (lots - s[0].quantity) as nat;
    let tail = allocation(s.drop_first(), reserve, rem);
    assert(a == seq![(s[0], s[0].quantity as nat)] + tail);
    assert(s.drop_first().len() == s.len() - 1);
    assert(s.drop_first()[0] == s[1]);
    if s[1].amount < reserve {
        assert(tail.len() == 0);
    } else if rem > 0 {
        assert(tail == seq![(s[1], rem)]);
        assert(a[1] == tail[0]);
    } else {
        assert(tail.len() == 0);
    }
    assert(a[0] == (s[0], s[0].quantity as nat));
}

} // verus!
