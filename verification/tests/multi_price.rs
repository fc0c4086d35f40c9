use auction::AuctionBuilder;
use auction::AuctionStrategy;
use auction::Bid;
use auction::Bids;

#[test]
fn multi_price_returns_empty_for_no_bids() {
    let bids: Bids = vec![];
    let auction = AuctionBuilder::new().lots(10).strategy(AuctionStrategy::MultiPrice).build();
    let sales = auction.resolve_bids(bids);
    assert!(sales.is_empty());
}

#[test]
fn multi_price_each_winner_pays_own_amount() {
    let bids: Bids = vec![Bid::new(10, 1), Bid::new(20, 1)];
    let auction = AuctionBuilder::new().lots(3).strategy(AuctionStrategy::MultiPrice).build();
    let sales = auction.resolve_bids(bids);
    assert_eq!(sales.len(), 2);
    assert_eq!(sales[0].amount, 20);
    assert_eq!(sales[1].amount, 10);
}

#[test]
fn multi_price_partial_fill_pays_own_amount() {
    let bids: Bids = vec![Bid::new(10, 2), Bid::new(20, 1)];
    let auction = AuctionBuilder::new().lots(2).strategy(AuctionStrategy::MultiPrice).build();
    let sales = auction.resolve_bids(bids);
    assert_eq!(sales.len(), 2);
    assert_eq!(sales[0].amount, 20);
    assert_eq!(sales[0].quantity, 1);
    assert_eq!(sales[1].amount, 10);
    assert_eq!(sales[1].quantity, 1);
}

#[test]
fn multi_price_reserve_price_applied() {
    let bids: Bids = vec![Bid::new(55, 1), Bid::new(20, 1)];
    let auction = AuctionBuilder::new()
        .lots(2)
        .reserve_price(50)
        .strategy(AuctionStrategy::MultiPrice)
        .build();
    let sales = auction.resolve_bids(bids);
    assert_eq!(sales.len(), 1);
    assert_eq!(sales[0].amount, 55);
}

#[test]
fn multi_price_full_fill_keeps_bid_identity() {
    let bid = Bid::new(20, 2);
    let bid_id = bid.id;
    let bids: Bids = vec![bid];
    let auction = AuctionBuilder::new().lots(5).strategy(AuctionStrategy::MultiPrice).build();
    let sales = auction.resolve_bids(bids);
    assert_eq!(sales.len(), 1);
    assert_eq!(sales[0].bidder_id, bid_id);
    assert_eq!(sales[0].quantity, 2);
}
