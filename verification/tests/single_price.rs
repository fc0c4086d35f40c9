use auction::AuctionBuilder;
use auction::Bid;
use auction::Bids;

#[test]
fn single_price_returns_empty_for_no_bids() {
    let bids: Bids = vec![];
    let auction = AuctionBuilder::new().lots(10).build();
    let sales = auction.resolve_bids(bids);
    assert!(sales.is_empty());
}

#[test]
fn single_price_returns_all_bids_with_large_lot() {
    let bids: Bids = vec![Bid::new(10, 1), Bid::new(20, 1)];
    let bids_len = bids.len();
    let auction = AuctionBuilder::new().lots(3).build();
    let sales = auction.resolve_bids(bids);
    assert_eq!(sales.len(), bids_len);
    assert_eq!(sales[0].amount, 10);
}

#[test]
fn single_price_return_some_of_bids_with_small_lot() {
    let bids: Bids = vec![Bid::new(10, 1), Bid::new(20, 1)];
    let auction = AuctionBuilder::new().lots(1).build();
    let sales = auction.resolve_bids(bids);
    assert_eq!(sales.len(), 1);
    assert_eq!(sales[0].amount, 20);
}

#[test]
fn single_price_all_sales_have_same_amount() {
    let bids: Bids = vec![Bid::new(10, 1), Bid::new(20, 1)];
    let auction = AuctionBuilder::new().lots(2).build();
    let sales = auction.resolve_bids(bids);
    assert_eq!(sales.len(), 2);
    assert_eq!(sales[0].amount, 10);
    assert_eq!(sales[1].amount, 10);
}

#[test]
fn single_price_partially_fulfilled() {
    let bids: Bids = vec![Bid::new(10, 2), Bid::new(20, 1)];
    let auction = AuctionBuilder::new().lots(2).build();
    let sales = auction.resolve_bids(bids);
    assert_eq!(sales.len(), 2);
    assert_eq!(sales[0].amount, 10);
    assert_eq!(sales[1].amount, 10);
    assert_eq!(sales[0].quantity, 1);
    assert_eq!(sales[1].quantity, 1);
}

#[test]
fn single_price_reserve_price_applied() {
    let bids: Bids = vec![Bid::new(55, 1), Bid::new(20, 1)];
    let auction = AuctionBuilder::new().lots(2).reserve_price(50).build();
    let sales = auction.resolve_bids(bids);

    assert_eq!(sales.len(), 1);
    assert_eq!(sales[0].amount, 55);
}

#[test]
fn single_price_large_lot_serves_every_bid_at_clearing_price() {
    let bids: Bids = vec![Bid::new(10, 1), Bid::new(20, 1)];
    let auction = AuctionBuilder::new().lots(10).build();
    let sales = auction.resolve_bids(bids);
    assert_eq!(sales.len(), 2);
    assert_eq!(sales[0].amount, 10);
    assert_eq!(sales[1].amount, 10);
    assert_eq!(sales[0].quantity, 1);
    assert_eq!(sales[1].quantity, 1);
}

#[test]
fn single_price_small_lot_winner_gets_full_quantity() {
    let bids: Bids = vec![Bid::new(10, 1), Bid::new(20, 1)];
    let auction = AuctionBuilder::new().lots(1).build();
    let sales = auction.resolve_bids(bids);
    assert_eq!(sales.len(), 1);
    assert_eq!(sales[0].amount, 20);
    assert_eq!(sales[0].quantity, 1);
}

#[test]
fn single_price_reserve_excludes_lower_bid_quantity() {
    let bids: Bids = vec![Bid::new(55, 1), Bid::new(20, 1)];
    let auction = AuctionBuilder::new().lots(2).reserve_price(50).build();
    let sales = auction.resolve_bids(bids);
    assert_eq!(sales.len(), 1);
    assert_eq!(sales[0].quantity, 1);
}

#[test]
fn single_price_bid_exactly_at_reserve_is_eligible() {
    let bids: Bids = vec![Bid::new(50, 1)];
    let auction = AuctionBuilder::new().lots(1).reserve_price(50).build();
    let sales = auction.resolve_bids(bids);
    assert_eq!(sales.len(), 1);
    assert_eq!(sales[0].amount, 50);
}

#[test]
fn single_price_zero_lots_yields_no_sales() {
    let bids: Bids = vec![Bid::new(20, 1)];
    let auction = AuctionBuilder::new().lots(0).build();
    let sales = auction.resolve_bids(bids);
    assert!(sales.is_empty());
}

#[test]
fn single_price_negative_bid_is_below_default_reserve() {
    let bids: Bids = vec![Bid::new(-5, 1), Bid::new(20, 1)];
    let auction = AuctionBuilder::new().lots(10).build();
    let sales = auction.resolve_bids(bids);
    assert_eq!(sales.len(), 1);
    assert_eq!(sales[0].amount, 20);
}

#[test]
fn single_price_full_fill_keeps_bid_identity() {
    let low = Bid::new(10, 1);
    let high = Bid::new(20, 1);
    let low_id = low.id;
    let high_id = high.id;
    let bids: Bids = vec![low, high];
    let auction = AuctionBuilder::new().lots(10).build();
    let sales = auction.resolve_bids(bids);
    assert_eq!(sales.len(), 2);
    assert_eq!(sales[0].bidder_id, high_id);
    assert_eq!(sales[1].bidder_id, low_id);
}
