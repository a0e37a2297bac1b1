use vstd::prelude::*;

verus! {

/// Every way a caller-facing operation can be refused.  All of these are
/// validation failures surfaced verbatim to the caller; none indicates
/// corrupted state, and a refused operation leaves the state untouched.
#[derive(Debug, Clone, Copy, PartialEq, Eq, Structural)]
pub enum ContractError {
    /// The sender is not allowed to perform the operation.
    Unauthorized,
    /// A randomness request for this draw is still outstanding.
    RandomnessAlreadyRequested,
    /// The sent funds do not contain the required denomination.
    InvalidDenom,
    /// The sent funds contain the denomination but not enough of it.
    InvalidAmount,
    /// The purchase would push the buyer past the per-draw ticket cap.
    MaxTicketsPerUserExceeded,
    /// The draw is not open for ticket purchases (wrong status or expired).
    DrawIsNotOpen,
    /// Randomness was delivered for a draw that is not awaiting it.
    DrawIsNotPending,
    /// The draw cannot be closed yet because it has not expired.
    DrawStillOpen,
    /// A ticket is not a string of exactly six decimal digits.
    InvalidTicket,
    /// The delivered randomness is malformed (bad job id or wrong seed size).
    InvalidRandomness,
    /// The buyer has already claimed a prize for this draw.
    PrizeAlreadyClaimed,
    /// The draw has not been settled, so prizes cannot be claimed.
    DrawIsNotClaimable,
    /// The buyer's tickets won nothing, so there is no transfer to make.
    NoPrizeToClaim,
    /// No draw exists under the given id.
    DrawNotFound,
    /// The buyer bought no tickets for this draw.
    NoTicketsFound,
}

} // verus!
