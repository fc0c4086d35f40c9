//! Resolve auctions: turn a quantity-constrained set of bids into sales,
//! under either a uniform clearing price or a pay-as-bid pricing rule.
use vstd::prelude::*;

pub mod model;
pub mod sorting;
pub mod single_price;
pub mod multi_price;
pub mod laws;

verus! {

/// `uuid::Uuid` is opaque to the verifier: bids carry it only as an
/// identity token, and nothing is assumed of its value.
#[verifier::external_type_specification]
#[verifier::external_body]
pub struct ExUuid(uuid::Uuid);

/// Relies on `uuid::Uuid::new_v4`: a freshly generated random identifier.
/// Nothing is promised of its value.
#[verifier::external_body]
fn fresh_id() -> uuid::Uuid {
    uuid::Uuid::new_v4()
}

/// The Bid type.
#[derive(Debug, Clone, Copy)]
pub struct Bid {
    /// The bid's unique identifier.
    pub id: uuid::Uuid,
    /// The bid in cents.
    pub amount: i64,
    /// The amount of desired units being bid on. Typically one.
    pub quantity: usize,
}

impl Bid {
    /// Creates a new bid with a fresh identifier.
    pub fn new(amount: i64, quantity: usize) -> (bid: Self)
        ensures
            bid.amount == amount,
            bid.quantity == quantity,
    {
        let id = fresh_id();
        Self { id, amount, quantity }
    }
}

pub type Bids = Vec<Bid>;

/// The Sale type.
#[derive(Debug, Clone, Copy)]
pub struct Sale {
    /// The identifier of the winning bid this sale settles.
    pub bidder_id: uuid::Uuid,
    /// The price charged per unit, in cents.
    pub amount: i64,
    /// The number of units awarded.
    pub quantity: usize,
}

impl Sale {
    /// Create a new Sale associated with a given Bid.
    pub fn new(bidder_id: uuid::Uuid, amount: i64, quantity: usize) -> (sale: Self)
        ensures
            sale.bidder_id == bidder_id,
            sale.amount == amount,
            sale.quantity == quantity,
    {
        Self { bidder_id, amount, quantity }
    }
}

pub type Sales = Vec<Sale>;

/// Enum representing valid auction strategies.
#[derive(Debug, Clone)]
pub enum AuctionStrategy {
    SinglePrice,
    MultiPrice,
}

/// The auction type.
#[derive(Debug, Clone)]
pub struct Auction {
    pub lots: usize,
    pub reserve_price: i64,
    pub strategy: AuctionStrategy,
}

impl Auction {
    /// Resolve the bids against the given auction, dispatching to the
    /// strategy it was configured with.
    pub fn resolve_bids(&self, bids: Bids) -> (sales: Sales)
        ensures
            self.strategy is SinglePrice ==> model::single_price_post(
                self.reserve_price as int,
                self.lots as nat,
                bids@,
                sales@,
            ),
            self.strategy is MultiPrice ==> model::multi_price_post(
                self.reserve_price as int,
                self.lots as nat,
                bids@,
                sales@,
            ),
            model::total_sale_quantity(sales@) <= self.lots,
            forall|k: int| 0 <= k < sales@.len() ==> (#[trigger] sales@[k]).amount
                >= self.reserve_price,
            bids@.len() == 0 ==> sales@.len() == 0,
    {
        match self.strategy {
            AuctionStrategy::SinglePrice => single_price::single_price(self, bids),
            AuctionStrategy::MultiPrice => multi_price::multi_price(self, bids),
        }
    }
}

/// The AuctionBuilder type. Used to easily create Auctions.
pub struct AuctionBuilder {
    pub lots: usize,
    pub reserve_price: Option<i64>,
    pub strategy: Option<AuctionStrategy>,
}

impl Default for AuctionBuilder {
    fn default() -> (builder: Self)
        ensures
            builder.lots == 0,
            builder.reserve_price is None,
            builder.strategy is None,
    {
        Self { lots: 0, reserve_price: None, strategy: None }
    }
}

impl AuctionBuilder {
    /// Create a new builder.
    pub fn new() -> (builder: Self)
        ensures
            builder.lots == 1,
            builder.reserve_price is None,
            builder.strategy is None,
    {
        Self { lots: 1, reserve_price: None, strategy: None }
    }

    /// Set the number of auction lots.
    pub fn lots(self, lots: usize) -> (builder: Self)
        ensures
            builder.lots == lots,
            builder.reserve_price == self.reserve_price,
            builder.strategy == self.strategy,
    {
        Self { lots, reserve_price: self.reserve_price, strategy: self.strategy }
    }

    /// Set the reserve price of the auction.
    pub fn reserve_price(self, reserve_price: i64) -> (builder: Self)
        ensures
            builder.lots == self.lots,
            builder.reserve_price == Some(reserve_price),
            builder.strategy == self.strategy,
    {
        Self { lots: self.lots, reserve_price: Some(reserve_price), strategy: self.strategy }
    }

    /// Set the strategy of the auction.
    pub fn strategy(self, strategy: AuctionStrategy) -> (builder: Self)
        ensures
            builder.lots == self.lots,
            builder.reserve_price == self.reserve_price,
            builder.strategy == Some(strategy),
    {
        Self { lots: self.lots, reserve_price: self.reserve_price, strategy: Some(strategy) }
    }

    /// Build the auction, applying the defaults (one lot, no reserve,
    /// uniform clearing price) for any field left unset.
    pub fn build(self) -> (auction: Auction)
        ensures
            auction.lots == self.lots,
            auction.reserve_price == (match self.reserve_price {
                Some(price) => price,
                None => 0,
            }),
            auction.strategy == (match self.strategy {
                Some(strategy) => strategy,
                None => AuctionStrategy::SinglePrice,
            }),
    {
        let reserve_price = match self.reserve_price {
            Some(price) => price,
            None => 0,
        };
        let strategy = match self.strategy {
            Some(strategy) => strategy,
            None => AuctionStrategy::SinglePrice,
        };
        Auction { lots: self.lots, reserve_price, strategy }
    }
}

} // verus!
