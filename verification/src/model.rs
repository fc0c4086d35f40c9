//! The mathematical model of bid resolution.
//!
//! Resolution is specified in two steps: a stable descending sort of the
//! bids by amount (`sort_desc`), followed by a greedy allocation walk
//! (`allocation`) that awards lots to the highest bids first, cuts the scan
//! off at the reserve price, and fills the last winner partially when the
//! remaining supply runs short of its request.
use vstd::prelude::*;

use crate::Bid;
use crate::Sale;

verus! {

/// The amounts of `s` are non-increasing: highest-priced bids first.
pub open spec fn sorted_desc(s: Seq<Bid>) -> bool {
    forall|i: int, j: int| 0 <= i <= j < s.len() ==> s[i].amount >= s[j].amount
}

/// Insert `b` into the already-sorted `s`, after every bid whose amount is
/// at least `b.amount`. Equal-amount bids therefore keep their input order.
pub open spec fn insert_desc(s: Seq<Bid>, b: Bid) -> Seq<Bid>
    decreases s.len(),
{
    if s.len() == 0 {
        seq![b]
    } else if s.last().amount >= b.amount {
        s.push(b)
    } else {
        insert_desc(s.drop_last(), b).push(s.last())
    }
}

/// The stable descending sort of `s` by amount: insert each bid in turn,
/// left to right, behind the bids already placed at its amount.
pub open spec fn sort_desc(s: Seq<Bid>) -> Seq<Bid>
    decreases s.len(),
{
    if s.len() == 0 {
        Seq::empty()
    } else {
        insert_desc(sort_desc(s.drop_last()), s.last())
    }
}

/// One allocation entry: the bid that won, and the number of lots awarded
/// to it (less than its request only for a final partial fill).
pub open spec fn allocation(bids: Seq<Bid>, reserve: int, remaining: nat) -> Seq<(Bid, nat)>
    decreases bids.len(),
{
    if bids.len() == 0 {
        Seq::empty()
    } else {
        let b = bids[0];
        if b.amount < reserve {
            Seq::empty()
        } else if b.quantity <= remaining {
            seq![(b, b.quantity as nat)]
                + allocation(bids.drop_first(), reserve, (remaining - b.quantity) as nat)
        } else if remaining > 0 {
            seq![(b, remaining)]
        } else {
            Seq::empty()
        }
    }
}

/// The total number of units requested by a sequence of bids.
pub open spec fn total_quantity(s: Seq<Bid>) -> nat
    decreases s.len(),
{
    if s.len() == 0 {
        0
    } else {
        s[0].quantity as nat + total_quantity(s.drop_first())
    }
}

/// The total number of units awarded by a sequence of sales.
pub open spec fn total_sale_quantity(s: Seq<Sale>) -> nat
    decreases s.len(),
{
    if s.len() == 0 {
        0
    } else {
        s[0].quantity as nat + total_sale_quantity(s.drop_first())
    }
}

/// The winning bids `ws` realize the allocation `alloc`: same length, and
/// entry by entry the same amount and awarded quantity. A fully filled
/// winner keeps the identifier of its originating bid; a partially filled
/// winner is a newly constructed bid, so its identifier is unconstrained.
pub open spec fn winners_match(alloc: Seq<(Bid, nat)>, ws: Seq<Bid>) -> bool {
    &&& ws.len() == alloc.len()
    &&& forall|k: int| 0 <= k < alloc.len() ==> {
        &&& (#[trigger] ws[k]).amount == alloc[k].0.amount
        &&& ws[k].quantity == alloc[k].1
        &&& (alloc[k].1 == alloc[k].0.quantity ==> ws[k].id == alloc[k].0.id)
    }
}

/// The sales settle the allocation entry by entry: same length, same
/// awarded quantities, and each fully filled winner's sale carries the
/// identifier of its originating bid. Pricing is stated separately.
pub open spec fn sales_cover_allocation(alloc: Seq<(Bid, nat)>, sales: Seq<Sale>) -> bool {
    &&& sales.len() == alloc.len()
    &&& forall|k: int| 0 <= k < alloc.len() ==> {
        &&& (#[trigger] sales[k]).quantity == alloc[k].1
        &&& (alloc[k].1 == alloc[k].0.quantity ==> sales[k].bidder_id == alloc[k].0.id)
    }
}

/// Uniform pricing: every sale is charged the clearing price, the amount
/// of the last (lowest-priced) winning bid.
pub open spec fn uniformly_priced(alloc: Seq<(Bid, nat)>, sales: Seq<Sale>) -> bool {
    forall|k: int| 0 <= k < sales.len() ==> (#[trigger] sales[k]).amount == alloc.last().0.amount
}

/// Pay-as-bid pricing: every sale is charged its own bid's amount.
pub open spec fn pay_as_bid_priced(alloc: Seq<(Bid, nat)>, sales: Seq<Sale>) -> bool {
    forall|k: int| 0 <= k < sales.len() ==> (#[trigger] sales[k]).amount == alloc[k].0.amount
}

/// The total number of units awarded by an allocation.
pub open spec fn allocated_quantity(a: Seq<(Bid, nat)>) -> nat
    decreases a.len(),
{
    if a.len() == 0 {
        0
    } else {
        a[0].1 + allocated_quantity(a.drop_first())
    }
}

/// What resolving `bids` under the single-price strategy returns.
pub open spec fn single_price_post(reserve: int, lots: nat, bids: Seq<Bid>, sales: Seq<Sale>) -> bool {
    &&& sales_cover_allocation(allocation(sort_desc(bids), reserve, lots), sales)
    &&& uniformly_priced(allocation(sort_desc(bids), reserve, lots), sales)
}

/// What resolving `bids` under the multi-price strategy returns.
pub open spec fn multi_price_post(reserve: int, lots: nat, bids: Seq<Bid>, sales: Seq<Sale>) -> bool {
    &&& sales_cover_allocation(allocation(sort_desc(bids), reserve, lots), sales)
    &&& pay_as_bid_priced(allocation(sort_desc(bids), reserve, lots), sales)
}

pub proof fn lemma_insert_desc_len(s: Seq<Bid>, b: Bid)
    ensures
        insert_desc(s, b).len() == s.len() + 1,
    decreases s.len(),
{
    if s.len() == 0 {
    } else if s.last().amount >= b.amount {
    } else {
        lemma_insert_desc_len(s.drop_last(), b);
    }
}

pub proof fn lemma_sort_desc_len(s: Seq<Bid>)
    ensures
        sort_desc(s).len() == s.len(),
    decreases s.len(),
{
    if s.len() == 0 {
    } else {
        lemma_sort_desc_len(s.drop_last());
        lemma_insert_desc_len(sort_desc(s.drop_last()), s.last());
    }
}

/// Inserting a bid priced at least `m` into bids all priced at least `m`
/// keeps every amount at least `m`.
pub proof fn lemma_insert_desc_amount_lb(s: Seq<Bid>, b: Bid, m: int)
    requires
        forall|k: int| 0 <= k < s.len() ==> s[k].amount >= m,
        b.amount >= m,
    ensures
        forall|k: int| 0 <= k < insert_desc(s, b).len() ==> insert_desc(s, b)[k].amount >= m,
    decreases s.len(),
{
    if s.len() == 0 {
    } else if s.last().amount >= b.amount {
        assert forall|k: int| 0 <= k < insert_desc(s, b).len() implies insert_desc(s, b)[k].amount
            >= m by {
            if k < s.len() {
                assert(insert_desc(s, b)[k] == s[k]);
            } else {
                assert(insert_desc(s, b)[k] == b);
            }
        }
    } else {
        let t = insert_desc(s.drop_last(), b);
        lemma_insert_desc_amount_lb(s.drop_last(), b, m);
        lemma_insert_desc_len(s.drop_last(), b);
        assert forall|k: int| 0 <= k < insert_desc(s, b).len() implies insert_desc(s, b)[k].amount
            >= m by {
            if k < t.len() {
                assert(insert_desc(s, b)[k] == t[k]);
            } else {
                assert(insert_desc(s, b)[k] == s.last());
            }
        }
    }
}

pub proof fn lemma_insert_desc_sorted(s: Seq<Bid>, b: Bid)
    requires
        sorted_desc(s),
    ensures
        sorted_desc(insert_desc(s, b)),
    decreases s.len(),
{
    if s.len() == 0 {
    } else if s.last().amount >= b.amount {
        let r = s.push(b);
        assert forall|i: int, j: int| 0 <= i <= j < r.len() implies r[i].amount >= r[j].amount by {
            if j < s.len() {
                assert(r[i] == s[i] && r[j] == s[j]);
            } else {
                assert(r[j] == b);
                if i < s.len() {
                    assert(s[i].amount >= s[s.len() - 1].amount);
                }
            }
        }
    } else {
        let t = insert_desc(s.drop_last(), b);
        assert(forall|k: int| 0 <= k < s.drop_last().len() ==> s.drop_last()[k].amount
            >= s.last().amount);
        lemma_insert_desc_sorted(s.drop_last(), b);
        lemma_insert_desc_amount_lb(s.drop_last(), b, s.last().amount as int);
        lemma_insert_desc_len(s.drop_last(), b);
        let r = t.push(s.last());
        assert forall|i: int, j: int| 0 <= i <= j < r.len() implies r[i].amount >= r[j].amount by {
            if j < t.len() {
                assert(r[i] == t[i] && r[j] == t[j]);
            } else {
                assert(r[j] == s.last());
                if i < t.len() {
                    assert(t[i].amount >= s.last().amount);
                }
            }
        }
    }
}

pub proof fn lemma_sort_desc_sorted(s: Seq<Bid>)
    ensures
        sorted_desc(sort_desc(s)),
    decreases s.len(),
{
    if s.len() == 0 {
    } else {
        lemma_sort_desc_sorted(s.drop_last());
        lemma_insert_desc_sorted(sort_desc(s.drop_last()), s.last());
    }
}

pub proof fn lemma_total_quantity_push(s: Seq<Bid>, b: Bid)
    ensures
        total_quantity(s.push(b)) == total_quantity(s) + b.quantity,
    decreases s.len(),
{
    if s.len() == 0 {
        assert(s.push(b)[0] == b);
        assert(s.push(b).drop_first() =~= Seq::<Bid>::empty());
        assert(total_quantity(s.push(b)) == s.push(b)[0].quantity as nat + total_quantity(
            s.push(b).drop_first(),
        ));
        assert(total_quantity(Seq::<Bid>::empty()) == 0);
    } else {
        assert(s.push(b)[0] == s[0]);
        assert(s.push(b).drop_first() =~= s.drop_first().push(b));
        lemma_total_quantity_push(s.drop_first(), b);
        assert(total_quantity(s.push(b)) == s.push(b)[0].quantity as nat + total_quantity(
            s.push(b).drop_first(),
        ));
        assert(total_quantity(s) == s[0].quantity as nat + total_quantity(s.drop_first()));
    }
}

pub proof fn lemma_insert_desc_total(s: Seq<Bid>, b: Bid)
    ensures
        total_quantity(insert_desc(s, b)) == total_quantity(s) + b.quantity,
    decreases s.len(),
{
    if s.len() == 0 {
        assert(insert_desc(s, b) =~= Seq::<Bid>::empty().push(b));
        lemma_total_quantity_push(Seq::<Bid>::empty(), b);
    } else if s.last().amount >= b.amount {
        lemma_total_quantity_push(s, b);
    } else {
        lemma_insert_desc_total(s.drop_last(), b);
        lemma_total_quantity_push(insert_desc(s.drop_last(), b), s.last());
        lemma_total_quantity_push(s.drop_last(), s.last());
        assert(s.drop_last().push(s.last()) =~= s);
    }
}

/// Sorting neither adds nor loses demand: the total requested quantity is
/// unchanged.
pub proof fn lemma_sort_desc_total(s: Seq<Bid>)
    ensures
        total_quantity(sort_desc(s)) == total_quantity(s),
    decreases s.len(),
{
    if s.len() == 0 {
    } else {
        lemma_sort_desc_total(s.drop_last());
        lemma_insert_desc_total(sort_desc(s.drop_last()), s.last());
        lemma_total_quantity_push(s.drop_last(), s.last());
        assert(s.drop_last().push(s.last()) =~= s);
    }
}

/// Sorting keeps any lower bound on the amounts.
pub proof fn lemma_sort_desc_amount_lb(s: Seq<Bid>, m: int)
    requires
        forall|k: int| 0 <= k < s.len() ==> s[k].amount >= m,
    ensures
        forall|k: int| 0 <= k < sort_desc(s).len() ==> sort_desc(s)[k].amount >= m,
    decreases s.len(),
{
    if s.len() == 0 {
    } else {
        assert(forall|k: int| 0 <= k < s.drop_last().len() ==> s.drop_last()[k].amount >= m);
        lemma_sort_desc_amount_lb(s.drop_last(), m);
        lemma_insert_desc_amount_lb(sort_desc(s.drop_last()), s.last(), m);
    }
}

/// The allocation walks a prefix of the bid sequence: entry `k` originates
/// from bid `k`.
pub proof fn lemma_allocation_prefix(s: Seq<Bid>, reserve: int, remaining: nat)
    ensures
        allocation(s, reserve, remaining).len() <= s.len(),
        forall|k: int| 0 <= k < allocation(s, reserve, remaining).len() ==> allocation(
            s,
            reserve,
            remaining,
        )[k].0 == s[k],
    decreases s.len(),
{
    if s.len() == 0 {
    } else {
        let b = s[0];
        let a = allocation(s, reserve, remaining);
        if b.amount < reserve {
        } else if b.quantity <= remaining {
            let tail = allocation(s.drop_first(), reserve, (remaining - b.quantity) as nat);
            lemma_allocation_prefix(s.drop_first(), reserve, (remaining - b.quantity) as nat);
            assert forall|k: int| 0 <= k < a.len() implies a[k].0 == s[k] by {
                if k == 0 {
                } else {
                    assert(a[k] == tail[k - 1]);
                    assert(s.drop_first()[k - 1] == s[k]);
                }
            }
        } else {
        }
    }
}

/// No allocation hands out more than the remaining supply.
pub proof fn lemma_allocation_quantity(s: Seq<Bid>, reserve: int, remaining: nat)
    ensures
        allocated_quantity(allocation(s, reserve, remaining)) <= remaining,
    decreases s.len(),
{
    if s.len() == 0 {
    } else {
        let b = s[0];
        let a = allocation(s, reserve, remaining);
        if b.amount < reserve {
        } else if b.quantity <= remaining {
            let tail = allocation(s.drop_first(), reserve, (remaining - b.quantity) as nat);
            lemma_allocation_quantity(s.drop_first(), reserve, (remaining - b.quantity) as nat);
            assert(a[0].1 == b.quantity as nat);
            assert(a.drop_first() =~= tail);
            assert(allocated_quantity(a) == a[0].1 + allocated_quantity(a.drop_first()));
            assert(allocated_quantity(tail) <= remaining - b.quantity);
        } else if remaining > 0 {
            assert(a.drop_first() =~= Seq::<(Bid, nat)>::empty());
            assert(allocated_quantity(a) == a[0].1 + allocated_quantity(a.drop_first()));
            assert(allocated_quantity(Seq::<(Bid, nat)>::empty()) == 0);
        } else {
        }
    }
}

/// Every allocated bid cleared the reserve price.
pub proof fn lemma_allocation_reserve(s: Seq<Bid>, reserve: int, remaining: nat)
    ensures
        forall|k: int| 0 <= k < allocation(s, reserve, remaining).len() ==> allocation(
            s,
            reserve,
            remaining,
        )[k].0.amount >= reserve,
    decreases s.len(),
{
    if s.len() == 0 {
    } else {
        let b = s[0];
        let a = allocation(s, reserve, remaining);
        if b.amount < reserve {
        } else if b.quantity <= remaining {
            let tail = allocation(s.drop_first(), reserve, (remaining - b.quantity) as nat);
            lemma_allocation_reserve(s.drop_first(), reserve, (remaining - b.quantity) as nat);
            assert forall|k: int| 0 <= k < a.len() implies a[k].0.amount >= reserve by {
                if k > 0 {
                    assert(a[k] == tail[k - 1]);
                }
            }
        } else {
        }
    }
}

/// When supply covers the whole demand and every bid clears the reserve,
/// every bid wins its full requested quantity.
pub proof fn lemma_allocation_all_fit(s: Seq<Bid>, reserve: int, remaining: nat)
    requires
        forall|k: int| 0 <= k < s.len() ==> s[k].amount >= reserve,
        total_quantity(s) <= remaining,
    ensures
        allocation(s, reserve, remaining).len() == s.len(),
        forall|k: int| 0 <= k < s.len() ==> allocation(s, reserve, remaining)[k].0 == s[k]
            && allocation(s, reserve, remaining)[k].1 == s[k].quantity as nat,
    decreases s.len(),
{
    if s.len() == 0 {
    } else {
        let b = s[0];
        let a = allocation(s, reserve, remaining);
        assert(total_quantity(s) == b.quantity + total_quantity(s.drop_first()));
        assert(b.quantity <= remaining);
        let rest: nat = (remaining - b.quantity) as nat;
        let tail = allocation(s.drop_first(), reserve, rest);
        assert(forall|k: int| 0 <= k < s.drop_first().len() ==> s.drop_first()[k].amount
            >= reserve);
        lemma_allocation_all_fit(s.drop_first(), reserve, rest);
        assert forall|k: int| 0 <= k < s.len() implies a[k].0 == s[k] && a[k].1 == s[k].quantity
            as nat by {
            if k > 0 {
                assert(a[k] == tail[k - 1]);
                assert(s.drop_first()[k - 1] == s[k]);
            }
        }
    }
}

/// Appending a winning bid that realizes one more allocation entry extends
/// a match between winners and allocation.
pub proof fn lemma_winners_match_push(alloc: Seq<(Bid, nat)>, ws: Seq<Bid>, entry: (Bid, nat), w: Bid)
    requires
        winners_match(alloc, ws),
        w.amount == entry.0.amount,
        w.quantity == entry.1,
        entry.1 == entry.0.quantity ==> w.id == entry.0.id,
    ensures
        winners_match(alloc.push(entry), ws.push(w)),
{
    assert forall|k: int| 0 <= k < alloc.push(entry).len() implies {
        &&& (#[trigger] ws.push(w)[k]).amount == alloc.push(entry)[k].0.amount
        &&& ws.push(w)[k].quantity == alloc.push(entry)[k].1
        &&& (alloc.push(entry)[k].1 == alloc.push(entry)[k].0.quantity ==> ws.push(w)[k].id
            == alloc.push(entry)[k].0.id)
    } by {
        if k < alloc.len() {
            assert(ws.push(w)[k] == ws[k]);
            assert(alloc.push(entry)[k] == alloc[k]);
        } else {
            assert(ws.push(w)[k] == w);
            assert(alloc.push(entry)[k] == entry);
        }
    }
}

/// Sales whose quantities match the allocation entry by entry award the
/// same total quantity as the allocation.
pub proof fn lemma_sales_total_matches(alloc: Seq<(Bid, nat)>, sales: Seq<Sale>)
    requires
        sales.len() == alloc.len(),
        forall|k: int| 0 <= k < alloc.len() ==> sales[k].quantity == alloc[k].1,
    ensures
        total_sale_quantity(sales) == allocated_quantity(alloc),
    decreases alloc.len(),
{
    if alloc.len() == 0 {
    } else {
        assert(sales[0].quantity == alloc[0].1);
        assert forall|k: int| 0 <= k < alloc.drop_first().len() implies sales.drop_first()[k].quantity
            == alloc.drop_first()[k].1 by {
            assert(sales.drop_first()[k] == sales[k + 1]);
            assert(alloc.drop_first()[k] == alloc[k + 1]);
        }
        lemma_sales_total_matches(alloc.drop_first(), sales.drop_first());
    }
}

} // verus!
