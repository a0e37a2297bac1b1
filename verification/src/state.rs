use vstd::prelude::*;

use crate::helpers::{purchases_matching, sum_buckets, total_tickets_of, valid_ticket};

verus! {

/// Largest pot amount the engine accepts.  Keeping every pot below
/// `u128::MAX / 100` means `pot * percentage` never overflows a `u128`
/// while the prize buckets are computed.
pub const MAX_POT: u128 = u128::MAX / 100;

/// An amount of one denomination.
#[derive(Debug, PartialEq, Eq)]
pub struct Coin {
    pub denom: String,
    pub amount: u128,
}

impl Clone for Coin {
    fn clone(&self) -> (r: Self)
        ensures
            r == *self,
    {
        Coin { denom: self.denom.clone(), amount: self.amount }
    }
}

/// A span of chain progress, counted in blocks or in seconds.
#[derive(Debug, Clone, Copy, PartialEq, Eq, Structural)]
pub enum Interval {
    Height(u64),
    Time(u64),
}

/// A point of chain progress at which something expires.
#[derive(Debug, Clone, Copy, PartialEq, Eq, Structural)]
pub enum Expiration {
    AtHeight(u64),
    AtTime(u64),
}

/// The chain position at which an operation runs: current block height and
/// current block timestamp in seconds.
#[derive(Debug, Clone, Copy, PartialEq, Eq, Structural)]
pub struct BlockInfo {
    pub height: u64,
    pub time: u64,
}

impl Expiration {
    /// The expiration point has been reached at the given block.
    pub open spec fn spec_is_expired(self, block: BlockInfo) -> bool {
        match self {
            Expiration::AtHeight(h) => block.height >= h,
            Expiration::AtTime(t) => block.time >= t,
        }
    }

    pub fn is_expired(&self, block: &BlockInfo) -> (r: bool)
        ensures
            r == self.spec_is_expired(*block),
    {
        match self {
            Expiration::AtHeight(h) => block.height >= *h,
            Expiration::AtTime(t) => block.time >= *t,
        }
    }
}

/// Adding the interval to the block position stays within `u64`.
pub open spec fn expiration_fits(block: BlockInfo, interval: Interval) -> bool {
    match interval {
        Interval::Height(d) => block.height + d <= u64::MAX,
        Interval::Time(d) => block.time + d <= u64::MAX,
    }
}

/// Where a draw stands in its life.
#[derive(Debug, Clone, Copy, PartialEq, Eq, Structural)]
pub enum Status {
    /// Tickets may be bought until the draw expires.
    Open,
    /// The draw is closed and awaits the oracle's randomness.
    Pending,
    /// The outcome is fixed; winners may claim their prizes.
    Claimable,
}

/// Process-wide settings, mutable only by the owner.
#[derive(Debug, Clone, PartialEq, Eq)]
pub struct Config {
    /// Identity that may update this configuration and receives the
    /// treasury fee.
    pub owner: String,
    /// How long each new draw stays open.
    pub interval: Interval,
    /// Percentage of the rollover kept for the treasury, `0..=100`.
    pub treasury_fee: u8,
    /// Price of one ticket.
    pub ticket_price: Coin,
    /// Identity of the randomness oracle; only it may deliver seeds.
    pub nois_proxy: String,
    /// Share of the pot for each match tier, `0..=100` each, summing to at
    /// most 100.
    pub percentage_per_match: [u8; 6],
    /// Cap on tickets one buyer may hold in one draw.
    pub max_tickets_per_user: u32,
    /// How long a randomness request stays exclusive before it may be
    /// re-issued.
    pub request_timeout: Interval,
}

impl Config {
    /// The configuration invariant: a positive ticket price and sane
    /// percentages.  Established at instantiation and preserved by every
    /// configuration update.
    pub open spec fn wf(self) -> bool {
        &&& self.ticket_price.amount > 0
        &&& self.treasury_fee <= 100
        &&& forall|i: int| 0 <= i < 6 ==> self.percentage_per_match@[i] <= 100
        &&& sum_percentages(self.percentage_per_match@) <= 100
    }
}

/// Sum of a percentage table.
pub open spec fn sum_percentages(p: Seq<u8>) -> int
    decreases p.len(),
{
    if p.len() == 0 {
        0
    } else {
        sum_percentages(p.drop_last()) + p.last()
    }
}

/// One cycle of ticket sales, a single winning number, and the claim window
/// it enables.
#[derive(Debug, Clone, PartialEq, Eq)]
pub struct Draw {
    /// Position in the draw sequence, starting at 1.
    pub id: u64,
    pub status: Status,
    /// Point after which the draw may be closed and no more tickets sell.
    pub end_time: Expiration,
    /// The number tickets are matched against; fixed once at settlement.
    pub winner_number: Option<String>,
    /// Price snapshot taken from the configuration when the draw was
    /// created, so later configuration edits do not reprice an open draw.
    pub ticket_price: Coin,
    /// Everything paid into this draw, plus any rollover it received.
    pub total_prize: Coin,
    pub total_tickets: u64,
    /// Per-match-tier sub-pools of the pot, recomputed on every purchase.
    pub prize_per_match: Option<[u128; 6]>,
    /// How many sold tickets reached each match tier; fixed once at
    /// settlement.
    pub winners_per_match: Option<[u64; 6]>,
}

impl Draw {
    /// A draw just created: open, empty but for the seeded pot, outcome
    /// fields unset.
    pub fn new(
        id: u64,
        end_time: Expiration,
        ticket_price: Coin,
        initial_prize: u128,
        prize_per_match: [u128; 6],
    ) -> (d: Draw)
        ensures
            d == (Draw {
                id,
                status: Status::Open,
                end_time,
                winner_number: None,
                ticket_price: Coin { denom: ticket_price.denom, amount: ticket_price.amount },
                total_prize: Coin { denom: ticket_price.denom, amount: initial_prize },
                total_tickets: 0u64,
                prize_per_match: Some(prize_per_match),
                winners_per_match: None,
            }),
    {
        let denom = ticket_price.denom.clone();
        Draw {
            id,
            status: Status::Open,
            end_time,
            winner_number: None,
            ticket_price,
            total_prize: Coin { denom, amount: initial_prize },
            total_tickets: 0,
            prize_per_match: Some(prize_per_match),
            winners_per_match: None,
        }
    }

    /// The per-draw invariant, independent of the surrounding records.
    pub open spec fn wf(self) -> bool {
        &&& self.ticket_price.amount > 0
        &&& self.total_prize.denom == self.ticket_price.denom
        &&& self.total_prize.amount <= MAX_POT
        &&& self.prize_per_match is Some
        &&& sum_buckets((self.prize_per_match->0)@) <= self.total_prize.amount
        &&& (self.winner_number is Some <==> self.status is Claimable)
        &&& (self.winners_per_match is Some <==> self.status is Claimable)
        &&& (self.winner_number is Some ==> valid_ticket((self.winner_number->0)@))
    }
}

/// One ticket of one buyer held against the winning number.
#[derive(Debug, Clone, PartialEq, Eq)]
pub struct TicketResult {
    pub ticket_number: String,
    pub matches: u8,
}

/// All tickets one buyer holds in one draw, in purchase order.
#[derive(Debug, Clone, PartialEq, Eq)]
pub struct Purchase {
    pub buyer: String,
    pub tickets: Vec<String>,
}

/// The one prize payment made to a buyer for a draw.  Its existence is the
/// sole authority for "already claimed".
#[derive(Debug, Clone, PartialEq, Eq)]
pub struct ClaimRecord {
    pub buyer: String,
    pub prize: Coin,
}

/// A draw together with the records the engine keeps about it.
#[derive(Debug, Clone, PartialEq, Eq)]
pub struct DrawEntry {
    pub draw: Draw,
    /// Ticket records, one entry per buyer, in first-purchase order.
    pub purchases: Vec<Purchase>,
    /// Claim records, one entry per buyer who has been paid.
    pub claims: Vec<ClaimRecord>,
    /// The outstanding randomness request, while the draw is pending.
    pub request: Option<Expiration>,
}

impl DrawEntry {
    /// The invariant tying a draw to its records.
    pub open spec fn wf(self) -> bool {
        &&& self.draw.wf()
        &&& self.draw.total_tickets == total_tickets_of(self.purchases@)
        &&& forall|i: int|
            0 <= i < self.purchases@.len() ==> valid_purchase(#[trigger] self.purchases@[i])
        &&& forall|i: int, j: int|
            0 <= i < j < self.purchases@.len() ==> self.purchases@[i].buyer@
                != self.purchases@[j].buyer@
        &&& forall|i: int, j: int|
            0 <= i < j < self.claims@.len() ==> self.claims@[i].buyer@ != self.claims@[j].buyer@
        &&& (self.request is Some <==> self.draw.status is Pending)
        &&& (!(self.draw.status is Claimable) ==> self.claims@.len() == 0)
        &&& (self.draw.status is Claimable ==> winners_recorded(self))
    }
}

/// Every ticket of the purchase is well-formed.
pub open spec fn valid_purchase(p: Purchase) -> bool {
    forall|j: int| 0 <= j < p.tickets@.len() ==> valid_ticket(#[trigger] p.tickets@[j]@)
}

/// The recorded winner counts are exactly the match-tier counts of the
/// recorded tickets against the recorded winning number.
pub open spec fn winners_recorded(e: DrawEntry) -> bool {
    &&& e.draw.winners_per_match is Some
    &&& e.draw.winner_number is Some
    &&& forall|m: int|
        1 <= m <= 6 ==> #[trigger] (e.draw.winners_per_match->0)@[m - 1]
            == purchases_matching(e.purchases@, (e.draw.winner_number->0)@, m as nat)
}

/// The whole engine state: the configuration and every draw ever created,
/// stored at `draws[i]` for the draw with id `i + 1`.
#[derive(Debug, Clone, PartialEq, Eq)]
pub struct State {
    pub config: Config,
    pub draws: Vec<DrawEntry>,
}

impl State {
    /// Invariants of the configuration and of every stored draw, without
    /// the requirement that the newest draw is open.  This weaker form is
    /// what holds while a successor draw is about to be appended.
    pub open spec fn wf_entries(self) -> bool {
        &&& self.config.wf()
        &&& forall|i: int|
            0 <= i < self.draws@.len() ==> (#[trigger] self.draws@[i]).draw.id == i + 1
        &&& forall|i: int| 0 <= i < self.draws@.len() ==> (#[trigger] self.draws@[i]).wf()
        &&& forall|i: int|
            0 <= i < self.draws@.len() - 1 ==> !((#[trigger] self.draws@[i]).draw.status is Open)
    }

    /// The full state invariant: at least one draw exists and the newest
    /// one is open for purchases.
    pub open spec fn wf(self) -> bool {
        &&& self.wf_entries()
        &&& self.draws@.len() >= 1
        &&& self.draws@.last().draw.status is Open
    }
}

} // verus!
