//! Module containing the single price auction algorithm.
use vstd::prelude::*;

use crate::Auction;
use crate::Bid;
use crate::Bids;
use crate::Sale;
use crate::Sales;
use crate::model::allocation;
use crate::model::lemma_allocation_quantity;
use crate::model::lemma_allocation_reserve;
use crate::model::lemma_sales_total_matches;
use crate::model::lemma_sort_desc_len;
use crate::model::lemma_winners_match_push;
use crate::model::sales_cover_allocation;
use crate::model::single_price_post;
use crate::model::sort_desc;
use crate::model::total_sale_quantity;
use crate::model::uniformly_priced;
use crate::model::winners_match;
use crate::sorting::sort_bids_desc;

verus! {

/// Walk the descending bid list and pick the winning bids: full fills while
/// the supply lasts, then at most one partial fill, stopping at the reserve
/// price. A partially filled winner is a newly constructed bid with the
/// same amount and the leftover quantity.
pub(crate) fn select_winners(reserve_price: i64, lots: usize, sorted: &Bids) -> (winners: Bids)
    ensures
        winners_match(allocation(sorted@, reserve_price as int, lots as nat), winners@),
{
    let ghost res = reserve_price as int;
    let ghost ga = allocation(sorted@, res, lots as nat);
    let mut remaining: usize = lots;
    let mut winners: Vec<Bid> = Vec::new();
    let mut i: usize = 0;
    proof {
        assert(sorted@.subrange(0, sorted@.len() as int) =~= sorted@);
        assert(ga.subrange(0, 0) =~= Seq::<(Bid, nat)>::empty());
        assert(ga.subrange(0, 0) + allocation(sorted@, res, lots as nat) =~= ga);
    }
    loop
        invariant_except_break
            res == reserve_price as int,
            ga == allocation(sorted@, res, lots as nat),
            i <= sorted@.len(),
            winners@.len() == i,
            winners_match(ga.subrange(0, i as int), winners@),
            ga == ga.subrange(0, i as int) + allocation(
                sorted@.subrange(i as int, sorted@.len() as int),
                res,
                remaining as nat,
            ),
        ensures
            winners_match(ga, winners@),
        decreases sorted@.len() - i,
    {
        let ghost rest = sorted@.subrange(i as int, sorted@.len() as int);
        let ghost arest = allocation(rest, res, remaining as nat);
        if i == sorted.len() {
            proof {
                assert(arest =~= Seq::<(Bid, nat)>::empty());
                assert(ga =~= ga.subrange(0, i as int));
            }
            break;
        }
        let b = sorted[i];
        proof {
            assert(rest.len() > 0);
            assert(rest[0] == b);
        }
        if b.amount < reserve_price {
            proof {
                assert(arest =~= Seq::<(Bid, nat)>::empty());
                assert(ga =~= ga.subrange(0, i as int));
            }
            break;
        }
        if b.quantity <= remaining {
            proof {
                assert(arest == seq![(b, b.quantity as nat)] + allocation(
                    rest.drop_first(),
                    res,
                    (remaining - b.quantity) as nat,
                ));
                assert(ga.subrange(0, i as int).len() == i);
                assert(ga[i as int] == arest[0]);
                assert(arest[0] == (b, b.quantity as nat));
                assert(ga.subrange(0, i as int + 1) =~= ga.subrange(0, i as int).push(
                    ga[i as int],
                ));
                lemma_winners_match_push(ga.subrange(0, i as int), winners@, ga[i as int], b);
                assert(rest.drop_first() =~= sorted@.subrange(i as int + 1, sorted@.len() as int));
                assert(ga =~= ga.subrange(0, i as int + 1) + allocation(
                    sorted@.subrange(i as int + 1, sorted@.len() as int),
                    res,
                    (remaining - b.quantity) as nat,
                ));
            }
            winners.push(b);
            remaining = remaining - b.quantity;
            i = i + 1;
        } else if remaining > 0 {
            let nb = Bid::new(b.amount, remaining);
            proof {
                assert(arest == seq![(b, remaining as nat)]);
                assert(ga.subrange(0, i as int).len() == i);
                assert(ga[i as int] == arest[0]);
                assert(arest[0] == (b, remaining as nat));
                assert(ga =~= ga.subrange(0, i as int).push(ga[i as int]));
                lemma_winners_match_push(ga.subrange(0, i as int), winners@, ga[i as int], nb);
            }
            winners.push(nb);
            break;
        } else {
            proof {
                assert(arest =~= Seq::<(Bid, nat)>::empty());
                assert(ga =~= ga.subrange(0, i as int));
            }
            break;
        }
    }
    winners
}

/// Resolves bids into sales using the single price algorithm.
///
/// The bids are ordered by amount, highest first; lots are granted down
/// that order until the supply or the reserve price cuts the scan off; and
/// every winner is charged the amount of the last (lowest-priced) winning
/// bid, the uniform clearing price.
///
/// # Arguments
/// * `auction` - The auction to resolve bids for.
/// * `bids` - The bids to resolve.
///
/// # Returns
/// A list of sales for the bids, in the order the winners were accepted.
#[verifier::loop_isolation(false)]
pub fn single_price(auction: &Auction, bids: Bids) -> (sales: Sales)
    ensures
        single_price_post(auction.reserve_price as int, auction.lots as nat, bids@, sales@),
        total_sale_quantity(sales@) <= auction.lots,
        forall|k: int| 0 <= k < sales@.len() ==> (#[trigger] sales@[k]).amount
            >= auction.reserve_price,
        forall|k1: int, k2: int|
            0 <= k1 < sales@.len() && 0 <= k2 < sales@.len() ==> sales@[k1].amount
                == sales@[k2].amount,
        bids@.len() == 0 ==> sales@.len() == 0,
{
    let ghost res = auction.reserve_price as int;
    let sorted = sort_bids_desc(bids);
    let winners = select_winners(auction.reserve_price, auction.lots, &sorted);
    let ghost ga = allocation(sorted@, res, auction.lots as nat);
    proof {
        lemma_sort_desc_len(bids@);
        lemma_allocation_quantity(sorted@, res, auction.lots as nat);
        lemma_allocation_reserve(sorted@, res, auction.lots as nat);
    }
    if winners.len() == 0 {
        let sales: Vec<Sale> = Vec::new();
        proof {
            lemma_sales_total_matches(ga, sales@);
        }
        return sales;
    }
    let clearing = winners[winners.len() - 1].amount;
    proof {
        assert(clearing == ga.last().0.amount);
    }
    let mut sales: Vec<Sale> = Vec::new();
    let mut k: usize = 0;
    while k < winners.len()
        invariant
            k <= winners@.len(),
            sales@.len() == k,
            forall|t: int| 0 <= t < k ==> {
                &&& (#[trigger] sales@[t]).bidder_id == winners@[t].id
                &&& sales@[t].amount == clearing
                &&& sales@[t].quantity == winners@[t].quantity
            },
        decreases winners@.len() - k,
    {
        let w = winners[k];
        sales.push(Sale::new(w.id, clearing, w.quantity));
        k = k + 1;
    }
    proof {
        assert(sales_cover_allocation(ga, sales@));
        assert(uniformly_priced(ga, sales@));
        lemma_sales_total_matches(ga, sales@);
    }
    sales
}

} // verus!
