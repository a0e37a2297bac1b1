use vstd::prelude::*;

use crate::state::{Coin, Interval};

verus! {

/// What a caller supplies with any operation: who sent it and which funds
/// came along.
#[derive(Debug, Clone, PartialEq, Eq)]
pub struct MessageInfo {
    pub sender: String,
    pub funds: Vec<Coin>,
}

/// Everything needed to set the engine up.
#[derive(Debug, Clone, PartialEq, Eq)]
pub struct InstantiateMsg {
    pub treasury_fee: u8,
    pub request_timeout: Interval,
    pub ticket_price: Coin,
    pub draw_interval: Interval,
    pub nois_proxy: String,
    pub max_tickets_per_user: u32,
    pub percentage_per_match: [u8; 6],
}

/// The randomness delivery the oracle hands back: the job it answers and
/// the raw seed, expected to be 32 bytes.
#[derive(Debug, Clone, PartialEq, Eq)]
pub struct NoisCallback {
    pub job_id: String,
    pub randomness: Vec<u8>,
}

/// The mutating operations the engine understands.
#[derive(Debug, Clone, PartialEq, Eq)]
pub enum ExecuteMsg {
    Receive { callback: NoisCallback },
    RequestRandomness { draw_id: u64 },
    BuyTickets { tickets: Vec<String>, draw_id: u64 },
    ClaimPrize { draw_id: u64 },
    UpdateConfig { new_config: UpdateConfigMsg },
}

/// The read-only queries the engine answers.
#[derive(Debug, Clone, PartialEq, Eq)]
pub enum QueryMsg {
    GetDraw { id: u64 },
    GetCurrentDraw {},
    CheckWinner { addr: String, draw_id: u64 },
    GetTickets { addr: String, draw_id: u64 },
    GetConfig {},
}

/// A partial configuration: every present field replaces the current one.
#[derive(Debug, Clone, PartialEq, Eq)]
pub struct UpdateConfigMsg {
    pub treasury_fee: Option<u8>,
    pub ticket_price: Option<Coin>,
    pub interval: Option<Interval>,
    pub request_timeout: Option<Interval>,
    pub nois_proxy: Option<String>,
    pub max_tickets_per_user: Option<u32>,
    pub percentage_per_match: Option<[u8; 6]>,
}

} // verus!
