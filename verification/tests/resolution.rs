use auction::AuctionBuilder;
use auction::AuctionStrategy;
use auction::Bid;
use auction::Bids;

#[test]
fn builder_applies_defaults() {
    let auction = AuctionBuilder::new().build();
    assert_eq!(auction.lots, 1);
    assert_eq!(auction.reserve_price, 0);
    assert!(matches!(auction.strategy, AuctionStrategy::SinglePrice));
}

#[test]
fn default_builder_starts_with_no_lots() {
    let auction = AuctionBuilder::default().build();
    assert_eq!(auction.lots, 0);
    assert_eq!(auction.reserve_price, 0);
    assert!(matches!(auction.strategy, AuctionStrategy::SinglePrice));
}

#[test]
fn builder_keeps_chosen_values() {
    let auction = AuctionBuilder::new()
        .lots(7)
        .reserve_price(42)
        .strategy(AuctionStrategy::MultiPrice)
        .build();
    assert_eq!(auction.lots, 7);
    assert_eq!(auction.reserve_price, 42);
    assert!(matches!(auction.strategy, AuctionStrategy::MultiPrice));
}

#[test]
fn total_sold_quantity_never_exceeds_lots() {
    let bids: Bids = vec![Bid::new(10, 4), Bid::new(20, 3), Bid::new(30, 2)];
    let auction = AuctionBuilder::new().lots(5).build();
    let sales = auction.resolve_bids(bids);
    let total: usize = sales.iter().map(|sale| sale.quantity).sum();
    assert!(total <= 5);
    assert_eq!(total, 5);
}

#[test]
fn every_sale_clears_the_reserve() {
    let bids: Bids = vec![Bid::new(80, 1), Bid::new(60, 2), Bid::new(40, 3)];
    let auction = AuctionBuilder::new().lots(10).reserve_price(50).build();
    let sales = auction.resolve_bids(bids);
    assert_eq!(sales.len(), 2);
    for sale in &sales {
        assert!(sale.amount >= 50);
    }
}

#[test]
fn full_supply_fills_every_bid_without_partial_fills() {
    let bids: Bids = vec![Bid::new(5, 2), Bid::new(7, 3)];
    let auction = AuctionBuilder::new().lots(10).build();
    let sales = auction.resolve_bids(bids);
    assert_eq!(sales.len(), 2);
    assert_eq!(sales[0].quantity, 3);
    assert_eq!(sales[1].quantity, 2);
    assert_eq!(sales[0].amount, 5);
    assert_eq!(sales[1].amount, 5);
}

#[test]
fn oversized_second_bid_stops_the_scan() {
    let bids: Bids = vec![Bid::new(20, 3), Bid::new(15, 4), Bid::new(10, 1)];
    let auction = AuctionBuilder::new().lots(5).build();
    let sales = auction.resolve_bids(bids);
    assert_eq!(sales.len(), 2);
    assert_eq!(sales[0].quantity, 3);
    assert_eq!(sales[1].quantity, 2);
    assert_eq!(sales[0].amount, 15);
    assert_eq!(sales[1].amount, 15);
}

#[test]
fn no_bid_after_a_partial_fill_is_considered() {
    let bids: Bids = vec![Bid::new(20, 3), Bid::new(15, 4), Bid::new(10, 0)];
    let auction = AuctionBuilder::new().lots(5).build();
    let sales = auction.resolve_bids(bids);
    assert_eq!(sales.len(), 2);
    assert_eq!(sales[0].amount, 15);
    assert_eq!(sales[1].amount, 15);
}

#[test]
fn zero_quantity_bid_that_fits_becomes_zero_quantity_sale() {
    let bids: Bids = vec![Bid::new(30, 0), Bid::new(20, 1)];
    let auction = AuctionBuilder::new().lots(5).build();
    let sales = auction.resolve_bids(bids);
    assert_eq!(sales.len(), 2);
    assert_eq!(sales[0].quantity, 0);
    assert_eq!(sales[1].quantity, 1);
    assert_eq!(sales[0].amount, 20);
    assert_eq!(sales[1].amount, 20);
}

#[test]
fn equal_amount_bids_keep_their_input_order() {
    let first = Bid::new(10, 1);
    let second = Bid::new(10, 2);
    let first_id = first.id;
    let second_id = second.id;
    let bids: Bids = vec![first, second];
    let auction = AuctionBuilder::new().lots(10).build();
    let sales = auction.resolve_bids(bids);
    assert_eq!(sales.len(), 2);
    assert_eq!(sales[0].bidder_id, first_id);
    assert_eq!(sales[0].quantity, 1);
    assert_eq!(sales[1].bidder_id, second_id);
    assert_eq!(sales[1].quantity, 2);
}
