//! A verified stable insertion sort of bids by descending amount.
use vstd::prelude::*;

use crate::Bid;
use crate::Bids;
use crate::model::insert_desc;
use crate::model::lemma_sort_desc_sorted;
use crate::model::sort_desc;
use crate::model::sorted_desc;

verus! {

/// Inserting `b` at position `j` — behind every bid priced at least
/// `b.amount`, ahead of every strictly cheaper one — realizes `insert_desc`.
proof fn lemma_insert_desc_at(s: Seq<Bid>, b: Bid, j: int)
    requires
        sorted_desc(s),
        0 <= j <= s.len(),
        j > 0 ==> s[j - 1].amount >= b.amount,
        forall|k: int| j <= k < s.len() ==> s[k].amount < b.amount,
    ensures
        insert_desc(s, b) == s.insert(j, b),
    decreases s.len(),
{
    if j == s.len() {
        if s.len() == 0 {
            assert(insert_desc(s, b) =~= s.insert(j, b));
        } else {
            assert(s.last().amount >= b.amount);
            assert(s.push(b) =~= s.insert(j, b));
        }
    } else {
        assert(s[s.len() - 1].amount < b.amount);
        assert(sorted_desc(s.drop_last()));
        assert(forall|k: int| j <= k < s.drop_last().len() ==> s.drop_last()[k].amount < b.amount);
        lemma_insert_desc_at(s.drop_last(), b, j);
        assert(insert_desc(s, b) == s.drop_last().insert(j, b).push(s.last()));
        assert(s.drop_last().insert(j, b).push(s.last()) =~= s.insert(j, b));
    }
}

/// Sort the bids by amount, highest first. The sort is stable: bids with
/// equal amounts keep their relative input order.
pub fn sort_bids_desc(bids: Bids) -> (sorted: Bids)
    ensures
        sorted@ == sort_desc(bids@),
        sorted_desc(sorted@),
{
    let mut sorted: Vec<Bid> = Vec::new();
    let mut i: usize = 0;
    proof {
        assert(bids@.subrange(0, 0) =~= Seq::<Bid>::empty());
    }
    while i < bids.len()
        invariant
            i <= bids@.len(),
            sorted@ == sort_desc(bids@.subrange(0, i as int)),
        decreases bids@.len() - i,
    {
        let b = bids[i];
        proof {
            lemma_sort_desc_sorted(bids@.subrange(0, i as int));
        }
        let mut j: usize = sorted.len();
        while j > 0 && sorted[j - 1].amount < b.amount
            invariant
                j <= sorted@.len(),
                forall|k: int| j <= k < sorted@.len() ==> sorted@[k].amount < b.amount,
            decreases j,
        {
            j = j - 1;
        }
        let ghost prev = sorted@;
        sorted.insert(j, b);
        proof {
            lemma_insert_desc_at(prev, b, j as int);
            assert(bids@.subrange(0, i as int + 1).drop_last() =~= bids@.subrange(0, i as int));
            assert(bids@.subrange(0, i as int + 1).last() == b);
            assert(sorted@ == insert_desc(prev, b));
        }
        i = i + 1;
    }
    proof {
        assert(bids@.subrange(0, bids@.len() as int) =~= bids@);
        lemma_sort_desc_sorted(bids@);
    }
    sorted
}

} // verus!
