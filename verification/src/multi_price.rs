//! Module containing the multi price (pay-as-bid) auction algorithm.
use vstd::prelude::*;

use crate::Auction;
use crate::Bids;
use crate::Sale;
use crate::Sales;
use crate::model::allocation;
use crate::model::lemma_allocation_quantity;
use crate::model::lemma_allocation_reserve;
use crate::model::lemma_sales_total_matches;
use crate::model::lemma_sort_desc_len;
use crate::model::multi_price_post;
use crate::model::pay_as_bid_priced;
use crate::model::sales_cover_allocation;
use crate::model::total_sale_quantity;
use crate::single_price::select_winners;
use crate::sorting::sort_bids_desc;

verus! {

/// Resolves bids into sales using the multi price algorithm.
///
/// Allocation proceeds exactly as under the single price rule — bids
/// ordered by amount, highest first, lots granted greedily down to the
/// reserve price, at most one partial fill — but each winner pays its own
/// bid's amount instead of a uniform clearing price.
///
/// # Arguments
/// * `auction` - The auction to resolve bids for.
/// * `bids` - The bids to resolve.
///
/// # Returns
/// A list of sales for the bids, in the order the winners were accepted.
#[verifier::loop_isolation(false)]
pub fn multi_price(auction: &Auction, bids: Bids) -> (sales: Sales)
    ensures
        multi_price_post(auction.reserve_price as int, auction.lots as nat, bids@, sales@),
        total_sale_quantity(sales@) <= auction.lots,
        forall|k: int| 0 <= k < sales@.len() ==> (#[trigger] sales@[k]).amount
            >= auction.reserve_price,
        bids@.len() == 0 ==> sales@.len() == 0,
{
    let ghost res = auction.reserve_price as int;
    let sorted = sort_bids_desc(bids);
    let winners = select_winners(auction.reserve_price, auction.lots, &sorted);
    let ghost ga = allocation(sorted@, res, auction.lots as nat);
    proof {
        lemma_sort_desc_len(bids@);
        lemma_allocation_quantity(sorted@, res, auction.lots as nat);
        lemma_allocation_reserve(sorted@, res, auction.lots as nat);
    }
    let mut sales: Vec<Sale> = Vec::new();
    let mut k: usize = 0;
    while k < winners.len()
        invariant
            k <= winners@.len(),
            sales@.len() == k,
            forall|t: int| 0 <= t < k ==> {
                &&& (#[trigger] sales@[t]).bidder_id == winners@[t].id
                &&& sales@[t].amount == winners@[t].amount
                &&& sales@[t].quantity == winners@[t].quantity
            },
        decreases winners@.len() - k,
    {
        let w = winners[k];
        sales.push(Sale::new(w.id, w.amount, w.quantity));
        k = k + 1;
    }
    proof {
        assert(sales_cover_allocation(ga, sales@));
        assert(pay_as_bid_priced(ga, sales@));
        lemma_sales_total_matches(ga, sales@);
    }
    sales
}

} // verus!
