use vstd::prelude::*;

use crate::error::ContractError;
use crate::helpers::{
    bucket_amount, build_expiration_time, calculate_prize_distribution, check_tickets,
    lemma_buckets_le_pot, match_count, spec_expiration_time, total_tickets_of, valid_ticket,
};
use crate::msg::{InstantiateMsg, MessageInfo, NoisCallback, UpdateConfigMsg};
use crate::state::{
    expiration_fits, BlockInfo, ClaimRecord, Coin, Config, Draw, DrawEntry, Expiration, Purchase,
    State, Status, TicketResult, MAX_POT,
};

verus! {

/// A funds transfer the host must perform on the engine's behalf.
#[derive(Debug, Clone, PartialEq, Eq)]
pub struct Payment {
    pub to_address: String,
    pub amount: Coin,
}

/// Some buyer already has a ticket record in these purchases.
pub open spec fn has_purchase(purchases: Seq<Purchase>, buyer: Seq<char>) -> bool {
    exists|k: int| 0 <= k < purchases.len() && (#[trigger] purchases[k]).buyer@ == buyer
}

/// The position of a buyer's ticket record; meaningful when one exists,
/// unique by the state invariant.
pub open spec fn purchase_idx(purchases: Seq<Purchase>, buyer: Seq<char>) -> int {
    choose|k: int| 0 <= k < purchases.len() && (#[trigger] purchases[k]).buyer@ == buyer
}

/// The tickets a buyer holds in these purchases, empty when none.
pub open spec fn tickets_of(purchases: Seq<Purchase>, buyer: Seq<char>) -> Seq<Seq<char>> {
    if has_purchase(purchases, buyer) {
        purchases[purchase_idx(purchases, buyer)].tickets.deep_view()
    } else {
        Seq::empty()
    }
}

/// The buyer has already been paid for this draw.
pub open spec fn has_claim(claims: Seq<ClaimRecord>, buyer: Seq<char>) -> bool {
    exists|k: int| 0 <= k < claims.len() && (#[trigger] claims[k]).buyer@ == buyer
}

/// The tickets a buyer holds in a draw of this state, empty when the draw
/// or the record does not exist.
pub open spec fn recorded_tickets(state: State, draw_id: int, buyer: Seq<char>) -> Seq<Seq<char>> {
    if 1 <= draw_id <= state.draws@.len() {
        tickets_of(state.draws@[draw_id - 1].purchases@, buyer)
    } else {
        Seq::empty()
    }
}

/// Find a buyer's ticket record.
fn find_purchase(purchases: &Vec<Purchase>, buyer: &String) -> (r: Option<usize>)
    ensures
        match r {
            Some(k) => k < purchases@.len() && purchases@[k as int].buyer@ == buyer@,
            None => !has_purchase(purchases@, buyer@),
        },
{
    let mut i: usize = 0;
    while i < purchases.len()
        invariant
            0 <= i <= purchases@.len(),
            forall|j: int| 0 <= j < i ==> (#[trigger] purchases@[j]).buyer@ != buyer@,
        decreases purchases@.len() - i,
    {
        if purchases[i].buyer == *buyer {
            return Some(i);
        }
        i = i + 1;
    }
    None
}

/// Whether the buyer has already been paid for this draw.
fn find_claim(claims: &Vec<ClaimRecord>, buyer: &String) -> (r: bool)
    ensures
        r == has_claim(claims@, buyer@),
{
    let mut i: usize = 0;
    while i < claims.len()
        invariant
            0 <= i <= claims@.len(),
            forall|j: int| 0 <= j < i ==> (#[trigger] claims@[j]).buyer@ != buyer@,
        decreases claims@.len() - i,
    {
        if claims[i].buyer == *buyer {
            return true;
        }
        i = i + 1;
    }
    false
}

/// Copy a ticket list for handing out.
fn clone_tickets(tickets: &Vec<String>) -> (r: Vec<String>)
    ensures
        r.deep_view() == tickets.deep_view(),
        r@.len() == tickets@.len(),
{
    let mut r: Vec<String> = Vec::new();
    let mut i: usize = 0;
    while i < tickets.len()
        invariant
            0 <= i <= tickets@.len(),
            r@.len() == i,
            forall|j: int| 0 <= j < i ==> (#[trigger] r@[j])@ == tickets@[j]@,
        decreases tickets@.len() - i,
    {
        r.push(tickets[i].clone());
        i = i + 1;
    }
    proof {
        assert(r.deep_view() =~= tickets.deep_view());
    }
    r
}

/// Append a fresh open draw after the current draws: the successor of a
/// closed draw, or the very first draw at setup.  The new draw snapshots
/// the current ticket price, starts with the given pot (the rollover it
/// inherits; zero at setup) and has its buckets carved from that pot.
pub fn create_next_draw(state: &mut State, block: &BlockInfo, initial_prize: u128)
    requires
        old(state).wf_entries(),
        old(state).draws@.len() == 0 || !(old(state).draws@.last().draw.status is Open),
        old(state).draws@.len() < u64::MAX,
        initial_prize <= MAX_POT,
        expiration_fits(*block, old(state).config.interval),
    ensures
        final(state).wf(),
        final(state).config == old(state).config,
        final(state).draws@.len() == old(state).draws@.len() + 1,
        forall|i: int|
            0 <= i < old(state).draws@.len() ==> final(state).draws@[i] == old(state).draws@[i],
        ({
            let e = final(state).draws@.last();
            &&& e.draw.id == old(state).draws@.len() + 1
            &&& e.draw.status is Open
            &&& e.draw.end_time == spec_expiration_time(*block, old(state).config.interval)
            &&& e.draw.winner_number is None
            &&& e.draw.ticket_price == old(state).config.ticket_price
            &&& e.draw.total_prize == (Coin {
                denom: old(state).config.ticket_price.denom,
                amount: initial_prize,
            })
            &&& e.draw.total_tickets == 0
            &&& e.draw.prize_per_match is Some
            &&& forall|i: int|
                0 <= i < 6 ==> (e.draw.prize_per_match->0)@[i] == bucket_amount(
                    initial_prize as int,
                    old(state).config.percentage_per_match@[i] as int,
                )
            &&& e.draw.winners_per_match is None
            &&& e.purchases@.len() == 0
            &&& e.claims@.len() == 0
            &&& e.request is None
        }),
{
    let id = state.draws.len() as u64 + 1;
    let end_time = build_expiration_time(block, state.config.interval);
    let prize_per_match = calculate_prize_distribution(
        initial_prize,
        state.config.percentage_per_match,
    );
    let draw = Draw::new(
        id,
        end_time,
        state.config.ticket_price.clone(),
        initial_prize,
        prize_per_match,
    );
    let entry = DrawEntry { draw, purchases: Vec::new(), claims: Vec::new(), request: None };
    state.draws.push(entry);
    proof {
        lemma_buckets_le_pot(
            initial_prize,
            state.config.percentage_per_match@,
            prize_per_match@,
        );
        assert(state.draws@.last().wf());
        assert(state.wf());
    }
}

/// Set the engine up: store the configuration and open the first draw with
/// an empty pot.
pub fn instantiate(msg: InstantiateMsg, info: MessageInfo, block: &BlockInfo) -> (s: State)
    requires
        msg.ticket_price.amount > 0,
        msg.treasury_fee <= 100,
        forall|i: int| 0 <= i < 6 ==> msg.percentage_per_match@[i] <= 100,
        crate::state::sum_percentages(msg.percentage_per_match@) <= 100,
        expiration_fits(*block, msg.draw_interval),
    ensures
        s.wf(),
        s.config == (Config {
            owner: info.sender,
            interval: msg.draw_interval,
            treasury_fee: msg.treasury_fee,
            ticket_price: msg.ticket_price,
            nois_proxy: msg.nois_proxy,
            percentage_per_match: msg.percentage_per_match,
            max_tickets_per_user: msg.max_tickets_per_user,
            request_timeout: msg.request_timeout,
        }),
        s.draws@.len() == 1,
        ({
            let e = s.draws@[0];
            &&& e.draw.id == 1
            &&& e.draw.status is Open
            &&& e.draw.end_time == spec_expiration_time(*block, msg.draw_interval)
            &&& e.draw.winner_number is None
            &&& e.draw.ticket_price == msg.ticket_price
            &&& e.draw.total_prize == (Coin { denom: msg.ticket_price.denom, amount: 0u128 })
            &&& e.draw.total_tickets == 0
            &&& e.draw.prize_per_match is Some
            &&& forall|i: int| 0 <= i < 6 ==> (e.draw.prize_per_match->0)@[i] == 0
            &&& e.draw.winners_per_match is None
            &&& e.purchases@.len() == 0
            &&& e.claims@.len() == 0
            &&& e.request is None
        }),
{
    let config = Config {
        owner: info.sender,
        interval: msg.draw_interval,
        treasury_fee: msg.treasury_fee,
        ticket_price: msg.ticket_price,
        nois_proxy: msg.nois_proxy,
        percentage_per_match: msg.percentage_per_match,
        max_tickets_per_user: msg.max_tickets_per_user,
        request_timeout: msg.request_timeout,
    };
    let mut s = State { config, draws: Vec::new() };
    create_next_draw(&mut s, block, 0);
    s
}

/// Machine-limit side conditions for a purchase: when the purchase would
/// be accepted, the grown pot must stay within the engine's cap and the
/// ticket counter within `u64`.
pub open spec fn purchase_fits(
    state: State,
    block: BlockInfo,
    draw_id: int,
    buyer: Seq<char>,
    n: int,
) -> bool {
    (1 <= draw_id <= state.draws@.len() && ({
        let e = state.draws@[draw_id - 1];
        &&& e.draw.status is Open
        &&& !e.draw.end_time.spec_is_expired(block)
        &&& tickets_of(e.purchases@, buyer).len() + n <= state.config.max_tickets_per_user
    })) ==> ({
        let e = state.draws@[draw_id - 1];
        &&& e.draw.total_prize.amount + e.draw.ticket_price.amount * n <= MAX_POT
        &&& e.draw.total_tickets + n <= u64::MAX
    })
}

/// A placeholder value swapped into the draw list while one entry is
/// edited.
fn blank_entry() -> DrawEntry {
    DrawEntry {
        draw: Draw {
            id: 0,
            status: Status::Open,
            end_time: Expiration::AtHeight(0),
            winner_number: None,
            ticket_price: Coin { denom: String::new(), amount: 1 },
            total_prize: Coin { denom: String::new(), amount: 0 },
            total_tickets: 0,
            prize_per_match: None,
            winners_per_match: None,
        },
        purchases: Vec::new(),
        claims: Vec::new(),
        request: None,
    }
}

/// Record a ticket purchase: the tickets are appended to the buyer's
/// record, the draw's pot grows by the price of the new tickets, and the
/// prize buckets are recomputed from the grown pot.  Funds beyond the
/// required amount are accepted without refund.
#[verifier::loop_isolation(false)]
pub fn buy_tickets(
    state: &mut State,
    block: &BlockInfo,
    info: MessageInfo,
    tickets: Vec<String>,
    draw_id: u64,
) -> (r: Result<(), ContractError>)
    requires
        old(state).wf(),
        purchase_fits(*old(state), *block, draw_id as int, info.sender@, tickets@.len() as int),
    ensures
        final(state).wf(),
        r is Err ==> *final(state) == *old(state),
        match r {
            Err(e) => {
                if !(1 <= draw_id <= old(state).draws@.len()) {
                    e == ContractError::DrawNotFound
                } else {
                    let en = old(state).draws@[draw_id - 1];
                    if !(en.draw.status is Open) || en.draw.end_time.spec_is_expired(*block) {
                        e == ContractError::DrawIsNotOpen
                    } else if tickets_of(en.purchases@, info.sender@).len() + tickets@.len()
                        > old(state).config.max_tickets_per_user {
                        e == ContractError::MaxTicketsPerUserExceeded
                    } else if exists|i: int|
                        0 <= i < tickets@.len() && !valid_ticket(#[trigger] tickets@[i]@) {
                        e == ContractError::InvalidTicket
                    } else {
                        match crate::helpers::find_denom(info.funds@, en.draw.ticket_price.denom@) {
                            None => e == ContractError::InvalidDenom,
                            Some(c) => c.amount < en.draw.ticket_price.amount * tickets@.len() && e
                                == ContractError::InvalidAmount,
                        }
                    }
                }
            },
            Ok(_) => ({
                let k = draw_id - 1;
                let en = old(state).draws@[k];
                let n = tickets@.len();
                &&& 1 <= draw_id <= old(state).draws@.len()
                &&& en.draw.status is Open
                &&& !en.draw.end_time.spec_is_expired(*block)
                &&& tickets_of(en.purchases@, info.sender@).len() + n <= old(
                    state,
                ).config.max_tickets_per_user
                &&& forall|i: int| 0 <= i < n ==> valid_ticket(#[trigger] tickets@[i]@)
                &&& (crate::helpers::find_denom(info.funds@, en.draw.ticket_price.denom@) matches
                    Some(c) && c.amount >= en.draw.ticket_price.amount * n)
                &&& final(state).config == old(state).config
                &&& final(state).draws@.len() == old(state).draws@.len()
                &&& forall|j: int|
                    0 <= j < old(state).draws@.len() && j != k ==> final(state).draws@[j] == old(
                        state,
                    ).draws@[j]
                &&& ({
                    let d = final(state).draws@[k].draw;
                    &&& d.id == en.draw.id
                    &&& d.status == en.draw.status
                    &&& d.end_time == en.draw.end_time
                    &&& d.winner_number == en.draw.winner_number
                    &&& d.ticket_price == en.draw.ticket_price
                    &&& d.winners_per_match == en.draw.winners_per_match
                    &&& d.total_tickets == en.draw.total_tickets + n
                    &&& d.total_prize.denom == en.draw.total_prize.denom
                    &&& d.total_prize.amount == en.draw.total_prize.amount
                        + en.draw.ticket_price.amount * n
                    &&& d.prize_per_match is Some
                    &&& forall|i: int|
                        0 <= i < 6 ==> (d.prize_per_match->0)@[i] == bucket_amount(
                            d.total_prize.amount as int,
                            old(state).config.percentage_per_match@[i] as int,
                        )
                })
                &&& final(state).draws@[k].claims == en.claims
                &&& final(state).draws@[k].request == en.request
                &&& ({
                    let ps = final(state).draws@[k].purchases;
                    if has_purchase(en.purchases@, info.sender@) {
                        let pk = purchase_idx(en.purchases@, info.sender@);
                        &&& ps@.len() == en.purchases@.len()
                        &&& forall|j: int|
                            0 <= j < en.purchases@.len() && j != pk ==> ps@[j] == en.purchases@[j]
                        &&& ps@[pk].buyer == en.purchases@[pk].buyer
                        &&& ps@[pk].tickets@ == en.purchases@[pk].tickets@ + tickets@
                    } else {
                        &&& ps@.len() == en.purchases@.len() + 1
                        &&& forall|j: int|
                            0 <= j < en.purchases@.len() ==> ps@[j] == en.purchases@[j]
                        &&& ps@.last().buyer == info.sender
                        &&& ps@.last().tickets == tickets
                    }
                })
            }),
        },
{
    if draw_id < 1 || draw_id > state.draws.len() as u64 {
        return Err(ContractError::DrawNotFound);
    }
    let idx = (draw_id - 1) as usize;
    let e = &state.draws[idx];
    if !(matches!(e.draw.status, Status::Open)) || e.draw.end_time.is_expired(block) {
        return Err(ContractError::DrawIsNotOpen);
    }
    let opt_k = find_purchase(&e.purchases, &info.sender);
    let existing: usize = match opt_k {
        Some(k) => e.purchases[k].tickets.len(),
        None => 0,
    };
    proof {
        if has_purchase(e.purchases@, info.sender@) {
            let pk = purchase_idx(e.purchases@, info.sender@);
            assert(0 <= pk < e.purchases@.len() && e.purchases@[pk].buyer@ == info.sender@);
            match opt_k {
                Some(k) => {
                    assert(pk == k as int);
                    assert(tickets_of(e.purchases@, info.sender@)
                        == e.purchases@[pk].tickets.deep_view());
                },
                None => {
                    assert(false);
                },
            }
        } else {
            assert(tickets_of(e.purchases@, info.sender@).len() == 0);
        }
        assert(existing == tickets_of(e.purchases@, info.sender@).len());
    }
    if existing as u128 + tickets.len() as u128 > state.config.max_tickets_per_user as u128 {
        return Err(ContractError::MaxTicketsPerUserExceeded);
    }
    let mut vi: usize = 0;
    while vi < tickets.len()
        invariant
            0 <= vi <= tickets@.len(),
            forall|i: int| 0 <= i < vi ==> valid_ticket(#[trigger] tickets@[i]@),
        decreases tickets@.len() - vi,
    {
        if crate::helpers::ensure_ticket_is_valid(&tickets[vi]).is_err() {
            return Err(ContractError::InvalidTicket);
        }
        vi = vi + 1;
    }
    let e = &state.draws[idx];
    let required_amount: u128 = e.draw.ticket_price.amount * (tickets.len() as u128);
    let required = Coin { denom: e.draw.ticket_price.denom.clone(), amount: required_amount };
    match crate::helpers::ensure_is_enough_funds_to_cover_tickets(&required, &info.funds) {
        Err(err) => {
            return Err(err);
        },
        Ok(_) => {},
    }
    // All checks passed: record the purchase as one atomic update.
    let ghost old_entry = state.draws@[idx as int];
    let mut entry = blank_entry();
    state.draws.set_and_swap(idx, &mut entry);
    let n64 = tickets.len() as u64;
    entry.draw.total_tickets = entry.draw.total_tickets + n64;
    entry.draw.total_prize.amount = entry.draw.total_prize.amount + required_amount;
    entry.draw.prize_per_match = Some(
        calculate_prize_distribution(
            entry.draw.total_prize.amount,
            state.config.percentage_per_match,
        ),
    );
    let mut new_tickets = tickets;
    match opt_k {
        Some(k) => {
            let mut p = Purchase { buyer: String::new(), tickets: Vec::new() };
            entry.purchases.set_and_swap(k, &mut p);
            p.tickets.append(&mut new_tickets);
            entry.purchases.set(k, p);
        },
        None => {
            entry.purchases.push(Purchase { buyer: info.sender, tickets: new_tickets });
        },
    }
    state.draws.set(idx, entry);
    proof {
        let fe = state.draws@[idx as int];
        crate::helpers::lemma_buckets_le_pot(
            fe.draw.total_prize.amount,
            state.config.percentage_per_match@,
            (fe.draw.prize_per_match->0)@,
        );
        if has_purchase(old_entry.purchases@, info.sender@) {
            let pk = purchase_idx(old_entry.purchases@, info.sender@);
            crate::helpers::lemma_total_tickets_update(
                old_entry.purchases@,
                pk,
                fe.purchases@[pk],
            );
            assert(fe.purchases@ =~= old_entry.purchases@.update(pk, fe.purchases@[pk]));
            assert(total_tickets_of(fe.purchases@) == total_tickets_of(old_entry.purchases@)
                + tickets@.len());
        } else {
            assert(fe.purchases@.drop_last() =~= old_entry.purchases@);
            assert(total_tickets_of(fe.purchases@) == total_tickets_of(old_entry.purchases@)
                + tickets@.len());
        }
        assert(fe.wf());
        assert forall|j: int| 0 <= j < state.draws@.len() implies (
        #[trigger] state.draws@[j]).wf() by {
            if j != idx as int {
                assert(state.draws@[j] == old(state).draws@[j]);
            }
        }
        assert(state.wf());
    }
    Ok(())
}

/// Close an expired draw and ask the oracle for randomness.  On the first
/// close the draw moves from open to pending and its successor draw is
/// opened; a later call re-issues the request, but only once the previous
/// request has timed out.  Returns the job id under which the oracle must
/// answer: the draw id in decimal.
#[verifier::loop_isolation(false)]
pub fn request_randomness(state: &mut State, block: &BlockInfo, id: u64) -> (r: Result<
    String,
    ContractError,
>)
    requires
        old(state).wf(),
        old(state).draws@.len() < u64::MAX,
        expiration_fits(*block, old(state).config.interval),
        expiration_fits(*block, old(state).config.request_timeout),
    ensures
        final(state).wf(),
        r is Err ==> *final(state) == *old(state),
        match r {
            Err(e) => {
                if !(1 <= id <= old(state).draws@.len()) {
                    e == ContractError::DrawNotFound
                } else {
                    let en = old(state).draws@[id - 1];
                    if !en.draw.end_time.spec_is_expired(*block) {
                        e == ContractError::DrawStillOpen
                    } else if en.draw.status is Claimable {
                        e == ContractError::DrawIsNotOpen
                    } else if en.request matches Some(req) && !req.spec_is_expired(*block) {
                        e == ContractError::RandomnessAlreadyRequested
                    } else {
                        false
                    }
                }
            },
            Ok(job) => ({
                let en = old(state).draws@[id - 1];
                &&& 1 <= id <= old(state).draws@.len()
                &&& en.draw.end_time.spec_is_expired(*block)
                &&& !(en.draw.status is Claimable)
                &&& (en.request is Some ==> (en.request->0).spec_is_expired(*block))
                &&& job@ == crate::digits::dec_digits(id as nat)
                &&& final(state).config == old(state).config
                &&& ({
                    let fe = final(state).draws@[id - 1];
                    &&& fe.draw.status is Pending
                    &&& fe.draw.id == en.draw.id
                    &&& fe.draw.end_time == en.draw.end_time
                    &&& fe.draw.winner_number == en.draw.winner_number
                    &&& fe.draw.winners_per_match == en.draw.winners_per_match
                    &&& fe.draw.ticket_price == en.draw.ticket_price
                    &&& fe.draw.total_prize == en.draw.total_prize
                    &&& fe.draw.total_tickets == en.draw.total_tickets
                    &&& fe.draw.prize_per_match == en.draw.prize_per_match
                    &&& fe.purchases == en.purchases
                    &&& fe.claims == en.claims
                    &&& fe.request == Some(
                        spec_expiration_time(*block, old(state).config.request_timeout),
                    )
                })
                &&& forall|j: int|
                    0 <= j < old(state).draws@.len() && j != id - 1 ==> final(state).draws@[j]
                        == old(state).draws@[j]
                &&& if en.draw.status is Open {
                    &&& final(state).draws@.len() == old(state).draws@.len() + 1
                    &&& ({
                        let succ = final(state).draws@.last();
                        &&& succ.draw.id == old(state).draws@.len() + 1
                        &&& succ.draw.status is Open
                        &&& succ.draw.end_time == spec_expiration_time(
                            *block,
                            old(state).config.interval,
                        )
                        &&& succ.draw.total_prize == (Coin {
                            denom: old(state).config.ticket_price.denom,
                            amount: 0u128,
                        })
                        &&& succ.draw.total_tickets == 0
                        &&& succ.purchases@.len() == 0
                        &&& succ.claims@.len() == 0
                        &&& succ.request is None
                    })
                } else {
                    final(state).draws@.len() == old(state).draws@.len()
                }
            }),
        },
{
    if id < 1 || id > state.draws.len() as u64 {
        return Err(ContractError::DrawNotFound);
    }
    let idx = (id - 1) as usize;
    let e = &state.draws[idx];
    if !e.draw.end_time.is_expired(block) {
        return Err(ContractError::DrawStillOpen);
    }
    if matches!(e.draw.status, Status::Claimable) {
        return Err(ContractError::DrawIsNotOpen);
    }
    match &e.request {
        Some(req) => {
            if !req.is_expired(block) {
                return Err(ContractError::RandomnessAlreadyRequested);
            }
        },
        None => {},
    }
    let was_open = matches!(e.draw.status, Status::Open);
    let timeout = build_expiration_time(block, state.config.request_timeout);
    let mut entry = blank_entry();
    state.draws.set_and_swap(idx, &mut entry);
    if was_open {
        entry.draw.status = Status::Pending;
    }
    entry.request = Some(timeout);
    state.draws.set(idx, entry);
    proof {
        if was_open {
            // Only the newest draw can be open, so closing an open draw
            // closes the newest one.
            assert(idx as int == old(state).draws@.len() - 1);
        }
        assert(state.draws@[idx as int].wf());
        assert forall|j: int| 0 <= j < state.draws@.len() implies (
        #[trigger] state.draws@[j]).wf() by {
            if j != idx as int {
                assert(state.draws@[j] == old(state).draws@[j]);
            }
        }
        assert(state.wf_entries());
    }
    if was_open {
        create_next_draw(state, block, 0);
    }
    let job_id = crate::digits::u64_to_dec_string(id);
    Ok(job_id)
}

/// The settlement computation for one draw: count the winners of each
/// match tier, aggregate the buckets of the tiers nobody won, and carve
/// the treasury's share out of that rollover.  Pure: it reads nothing but
/// its arguments and changes nothing.
#[verifier::loop_isolation(false)]
pub fn raffle(
    purchases: &Vec<Purchase>,
    winning_ticket: &str,
    prize_per_match: [u128; 6],
    treasury_fee: u8,
) -> (r: ([u64; 6], u128, u128))
    requires
        winning_ticket@.len() == 6,
        total_tickets_of(purchases@) <= u64::MAX,
        crate::helpers::sum_buckets(prize_per_match@) <= MAX_POT,
        treasury_fee <= 100,
    ensures
        forall|m: int|
            1 <= m <= 6 ==> r.0@[m - 1] == #[trigger] crate::helpers::purchases_matching(
                purchases@,
                winning_ticket@,
                m as nat,
            ),
        r.1 == crate::helpers::rollover_amount(prize_per_match@, r.0@),
        r.1 <= crate::helpers::sum_buckets(prize_per_match@),
        r.2 == bucket_amount(r.1 as int, treasury_fee as int),
        r.2 <= r.1,
{
    let winners_per_match = crate::helpers::calculate_winner_per_match(purchases, winning_ticket);
    let mut rollover: u128 = 0;
    let mut i: usize = 0;
    proof {
        assert(prize_per_match@.take(0) =~= Seq::<u128>::empty());
    }
    while i < 6
        invariant
            0 <= i <= 6,
            rollover == crate::helpers::rollover_upto(
                prize_per_match@,
                winners_per_match@,
                i as int,
            ),
            rollover <= crate::helpers::sum_buckets(prize_per_match@.take(i as int)),
        decreases 6 - i,
    {
        proof {
            assert(prize_per_match@.take(i as int + 1).drop_last() =~= prize_per_match@.take(
                i as int,
            ));
            assert(prize_per_match@.take(i as int + 1).last() == prize_per_match@[i as int]);
            crate::helpers::lemma_sum_buckets_take_le(prize_per_match@, i as int + 1);
            crate::helpers::lemma_sum_buckets_nonneg(prize_per_match@.take(i as int));
        }
        if winners_per_match[i] == 0 {
            rollover = rollover + prize_per_match[i];
        }
        i = i + 1;
    }
    proof {
        assert(prize_per_match@.take(6) =~= prize_per_match@);
    }
    let fee = crate::helpers::scaled_share(rollover, treasury_fee);
    proof {
        crate::helpers::lemma_bucket_le_pot(rollover as int, treasury_fee as int);
    }
    (winners_per_match, rollover, fee)
}

/// Machine-limit side condition for settlement: when the callback names a
/// pending draw, that draw's pot (which bounds the rollover it can shed)
/// plus its successor's pot must stay within the engine's cap.
pub open spec fn settlement_fits(state: State, callback: NoisCallback) -> bool {
    ({
        &&& crate::digits::all_digits(callback.job_id@)
        &&& callback.job_id@.len() > 0
        &&& 1 <= crate::digits::dec_value(callback.job_id@) <= state.draws@.len()
        &&& state.draws@[crate::digits::dec_value(callback.job_id@) - 1].draw.status is Pending
    }) ==> ({
        let d = crate::digits::dec_value(callback.job_id@);
        state.draws@[d - 1].draw.total_prize.amount + state.draws@[d].draw.total_prize.amount
            <= MAX_POT
    })
}

/// Settle a pending draw with the oracle's randomness: fix the winning
/// number derived from the seed, count and record the winners of each
/// match tier, make the draw claimable, and roll the unwon buckets minus
/// the treasury fee into the successor draw's pot.  Only the configured
/// oracle may deliver, and a draw settles at most once.  Returns the
/// treasury payment the host must make, if the fee is not zero.
#[verifier::loop_isolation(false)]
pub fn receive_randomness(state: &mut State, info: MessageInfo, callback: NoisCallback) -> (r:
    Result<Option<Payment>, ContractError>)
    requires
        old(state).wf(),
        settlement_fits(*old(state), callback),
    ensures
        final(state).wf(),
        r is Err ==> *final(state) == *old(state),
        match r {
            Err(e) => {
                if info.sender@ != old(state).config.nois_proxy@ {
                    e == ContractError::Unauthorized
                } else if !(callback.job_id@.len() > 0 && crate::digits::all_digits(
                    callback.job_id@,
                ) && crate::digits::dec_value(callback.job_id@) <= u64::MAX) {
                    e == ContractError::InvalidRandomness
                } else {
                    let d = crate::digits::dec_value(callback.job_id@);
                    if !(1 <= d <= old(state).draws@.len()) {
                        e == ContractError::DrawNotFound
                    } else if !(old(state).draws@[d - 1].draw.status is Pending) {
                        e == ContractError::DrawIsNotPending
                    } else if callback.randomness@.len() != 32 {
                        e == ContractError::InvalidRandomness
                    } else {
                        false
                    }
                }
            },
            Ok(payment) => ({
                let d = crate::digits::dec_value(callback.job_id@);
                let en = old(state).draws@[d - 1];
                let winner = crate::randomness::winning_number_of_seed(callback.randomness@);
                let buckets = (en.draw.prize_per_match->0)@;
                &&& info.sender@ == old(state).config.nois_proxy@
                &&& callback.job_id@.len() > 0
                &&& crate::digits::all_digits(callback.job_id@)
                &&& 1 <= d <= old(state).draws@.len()
                &&& en.draw.status is Pending
                &&& callback.randomness@.len() == 32
                &&& final(state).config == old(state).config
                &&& final(state).draws@.len() == old(state).draws@.len()
                &&& forall|j: int|
                    0 <= j < old(state).draws@.len() && j != d - 1 && j != d
                        ==> final(state).draws@[j] == old(state).draws@[j]
                &&& ({
                    let fe = final(state).draws@[d - 1];
                    &&& fe.draw.status is Claimable
                    &&& fe.draw.id == en.draw.id
                    &&& fe.draw.end_time == en.draw.end_time
                    &&& fe.draw.ticket_price == en.draw.ticket_price
                    &&& fe.draw.total_prize == en.draw.total_prize
                    &&& fe.draw.total_tickets == en.draw.total_tickets
                    &&& fe.draw.prize_per_match == en.draw.prize_per_match
                    &&& fe.draw.winner_number is Some
                    &&& (fe.draw.winner_number->0)@ == winner
                    &&& fe.draw.winners_per_match is Some
                    &&& forall|m: int|
                        1 <= m <= 6 ==> (fe.draw.winners_per_match->0)@[m - 1]
                            == #[trigger] crate::helpers::purchases_matching(
                            en.purchases@,
                            winner,
                            m as nat,
                        )
                    &&& fe.purchases == en.purchases
                    &&& fe.claims == en.claims
                    &&& fe.request is None
                })
                &&& ({
                    let fe = final(state).draws@[d - 1];
                    let es = old(state).draws@[d];
                    let fs = final(state).draws@[d];
                    let rollover = crate::helpers::rollover_amount(
                        buckets,
                        (fe.draw.winners_per_match->0)@,
                    );
                    let fee = bucket_amount(rollover, old(state).config.treasury_fee as int);
                    &&& fs.draw.id == es.draw.id
                    &&& fs.draw.status == es.draw.status
                    &&& fs.draw.end_time == es.draw.end_time
                    &&& fs.draw.winner_number == es.draw.winner_number
                    &&& fs.draw.winners_per_match == es.draw.winners_per_match
                    &&& fs.draw.ticket_price == es.draw.ticket_price
                    &&& fs.draw.total_tickets == es.draw.total_tickets
                    &&& fs.draw.total_prize.denom == es.draw.total_prize.denom
                    &&& fs.draw.total_prize.amount == es.draw.total_prize.amount + rollover - fee
                    &&& fs.draw.prize_per_match is Some
                    &&& forall|i: int|
                        0 <= i < 6 ==> (fs.draw.prize_per_match->0)@[i] == bucket_amount(
                            fs.draw.total_prize.amount as int,
                            old(state).config.percentage_per_match@[i] as int,
                        )
                    &&& fs.purchases == es.purchases
                    &&& fs.claims == es.claims
                    &&& fs.request == es.request
                    &&& payment == (if fee > 0 {
                        Some(
                            Payment {
                                to_address: old(state).config.owner,
                                amount: Coin {
                                    denom: en.draw.ticket_price.denom,
                                    amount: fee as u128,
                                },
                            },
                        )
                    } else {
                        None
                    })
                })
            }),
        },
{
    if !(info.sender == state.config.nois_proxy) {
        return Err(ContractError::Unauthorized);
    }
    let draw_id = match crate::digits::parse_u64_decimal(callback.job_id.as_str()) {
        None => {
            return Err(ContractError::InvalidRandomness);
        },
        Some(v) => v,
    };
    if draw_id < 1 || draw_id > state.draws.len() as u64 {
        return Err(ContractError::DrawNotFound);
    }
    let idx = (draw_id - 1) as usize;
    if !matches!(state.draws[idx].draw.status, Status::Pending) {
        return Err(ContractError::DrawIsNotPending);
    }
    if callback.randomness.len() != 32 {
        return Err(ContractError::InvalidRandomness);
    }
    let mut seed = [0u8; 32];
    let mut si: usize = 0;
    while si < 32
        invariant
            0 <= si <= 32,
            forall|j: int| 0 <= j < si ==> seed@[j] == callback.randomness@[j],
        decreases 32 - si,
    {
        seed[si] = callback.randomness[si];
        si = si + 1;
    }
    proof {
        assert(seed@ =~= callback.randomness@);
    }
    let winner = crate::randomness::derive_winning_number(&seed);
    let e = &state.draws[idx];
    let buckets = e.draw.prize_per_match.unwrap();
    proof {
        assert(total_tickets_of(e.purchases@) == e.draw.total_tickets);
    }
    let (winners_per_match, rollover, fee) = raffle(
        &e.purchases,
        winner.as_str(),
        buckets,
        state.config.treasury_fee,
    );
    let remainder = rollover - fee;
    // Fix the draw's outcome: this is the single irreversible point.
    let mut entry = blank_entry();
    state.draws.set_and_swap(idx, &mut entry);
    entry.draw.winner_number = Some(winner);
    entry.draw.winners_per_match = Some(winners_per_match);
    entry.draw.status = Status::Claimable;
    entry.request = None;
    state.draws.set(idx, entry);
    // Roll the unwon money, minus the treasury's share, into the successor.
    let sidx = idx + 1;
    proof {
        assert(sidx < state.draws@.len());
    }
    let mut succ = blank_entry();
    state.draws.set_and_swap(sidx, &mut succ);
    succ.draw.total_prize.amount = succ.draw.total_prize.amount + remainder;
    succ.draw.prize_per_match = Some(
        calculate_prize_distribution(
            succ.draw.total_prize.amount,
            state.config.percentage_per_match,
        ),
    );
    state.draws.set(sidx, succ);
    proof {
        crate::helpers::lemma_buckets_le_pot(
            state.draws@[sidx as int].draw.total_prize.amount,
            state.config.percentage_per_match@,
            (state.draws@[sidx as int].draw.prize_per_match->0)@,
        );
        assert(state.draws@[idx as int].wf());
        assert(state.draws@[sidx as int].wf());
        assert forall|j: int| 0 <= j < state.draws@.len() implies (
        #[trigger] state.draws@[j]).wf() by {
            if j != idx as int && j != sidx as int {
                assert(state.draws@[j] == old(state).draws@[j]);
            }
        }
        assert(state.wf());
    }
    let payment = if fee > 0 {
        Some(
            Payment {
                to_address: state.config.owner.clone(),
                amount: Coin {
                    denom: state.draws[idx].draw.ticket_price.denom.clone(),
                    amount: fee,
                },
            },
        )
    } else {
        None
    };
    Ok(payment)
}

/// What a buyer's recorded tickets earn in a settled draw: for each ticket
/// in match tier `m > 0`, that tier's bucket divided evenly among the
/// tier's winners.
pub open spec fn claimable_prize(e: DrawEntry, buyer: Seq<char>) -> int {
    crate::helpers::tickets_prize(
        tickets_of(e.purchases@, buyer),
        (e.draw.winner_number->0)@,
        (e.draw.prize_per_match->0)@,
        (e.draw.winners_per_match->0)@,
    )
}

/// Pay a buyer's winnings for a settled draw, at most once.  The claim
/// record is written before the transfer is handed out, so a repeated
/// claim can never pay twice.  Returns the coin the host must send to the
/// buyer.
#[verifier::loop_isolation(false)]
pub fn claim_prize(state: &mut State, info: MessageInfo, draw_id: u64) -> (r: Result<
    Coin,
    ContractError,
>)
    requires
        old(state).wf(),
    ensures
        final(state).wf(),
        r is Err ==> *final(state) == *old(state),
        match r {
            Err(e) => {
                if !(1 <= draw_id <= old(state).draws@.len()) {
                    e == ContractError::DrawNotFound
                } else {
                    let en = old(state).draws@[draw_id - 1];
                    if !(en.draw.status is Claimable) {
                        e == ContractError::DrawIsNotClaimable
                    } else if has_claim(en.claims@, info.sender@) {
                        e == ContractError::PrizeAlreadyClaimed
                    } else if !has_purchase(en.purchases@, info.sender@) {
                        e == ContractError::NoTicketsFound
                    } else {
                        claimable_prize(en, info.sender@) == 0 && e
                            == ContractError::NoPrizeToClaim
                    }
                }
            },
            Ok(c) => ({
                let en = old(state).draws@[draw_id - 1];
                let prize = claimable_prize(en, info.sender@);
                &&& 1 <= draw_id <= old(state).draws@.len()
                &&& en.draw.status is Claimable
                &&& !has_claim(en.claims@, info.sender@)
                &&& has_purchase(en.purchases@, info.sender@)
                &&& prize > 0
                &&& c.amount == prize
                &&& c.denom == en.draw.ticket_price.denom
                &&& final(state).config == old(state).config
                &&& final(state).draws@.len() == old(state).draws@.len()
                &&& forall|j: int|
                    0 <= j < old(state).draws@.len() && j != draw_id - 1 ==> final(state).draws@[j]
                        == old(state).draws@[j]
                &&& ({
                    let fe = final(state).draws@[draw_id - 1];
                    &&& fe.draw == en.draw
                    &&& fe.purchases == en.purchases
                    &&& fe.request == en.request
                    &&& fe.claims@ == en.claims@.push(
                        ClaimRecord {
                            buyer: info.sender,
                            prize: Coin {
                                denom: en.draw.ticket_price.denom,
                                amount: prize as u128,
                            },
                        },
                    )
                })
            }),
        },
{
    if draw_id < 1 || draw_id > state.draws.len() as u64 {
        return Err(ContractError::DrawNotFound);
    }
    let idx = (draw_id - 1) as usize;
    let e = &state.draws[idx];
    if !matches!(e.draw.status, Status::Claimable) {
        return Err(ContractError::DrawIsNotClaimable);
    }
    if find_claim(&e.claims, &info.sender) {
        return Err(ContractError::PrizeAlreadyClaimed);
    }
    let k = match find_purchase(&e.purchases, &info.sender) {
        None => {
            return Err(ContractError::NoTicketsFound);
        },
        Some(k) => k,
    };
    let ghost ts = tickets_of(e.purchases@, info.sender@);
    proof {
        assert(has_purchase(e.purchases@, info.sender@));
        let pk = purchase_idx(e.purchases@, info.sender@);
        assert(0 <= pk < e.purchases@.len() && e.purchases@[pk].buyer@ == info.sender@);
        assert(pk == k as int);
        assert(ts == e.purchases@[k as int].tickets.deep_view());
    }
    let tickets = clone_tickets(&e.purchases[k].tickets);
    let winner = if let Some(w) = &e.draw.winner_number {
        w.clone()
    } else {
        String::new()
    };
    let ghost winner_view = (e.draw.winner_number->0)@;
    let buckets = e.draw.prize_per_match.unwrap();
    let winners = e.draw.winners_per_match.unwrap();
    let results = check_tickets(tickets, winner);
    proof {
        // Every checked ticket reaches a tier within range, the recorded
        // winner count of its tier covers it, and the total stays within
        // the pot.
        assert forall|i: int| 0 <= i < results@.len() implies (#[trigger] results@[i]).matches
            <= 6 by {
            crate::helpers::lemma_match_count_le(winner_view, ts[i]);
        }
        assert forall|i: int|
            0 <= i < results@.len() && (#[trigger] results@[i]).matches > 0 implies winners@[results@[i].matches
            - 1] >= 1 by {
            let m = results@[i].matches as nat;
            crate::helpers::lemma_tickets_matching_at(ts, winner_view, i);
            crate::helpers::lemma_one_purchase_matching_le(
                e.purchases@,
                winner_view,
                m,
                k as int,
            );
            assert((e.draw.winners_per_match->0)@[m - 1] == crate::helpers::purchases_matching(
                e.purchases@,
                winner_view,
                m,
            ));
        }
        assert forall|kk: int|
            1 <= kk <= 6 implies crate::helpers::tier_count_results(results@, kk)
            <= winners@[kk - 1] by {
            crate::helpers::lemma_tier_count_is_tickets_matching(results@, ts, winner_view, kk);
            crate::helpers::lemma_one_purchase_matching_le(
                e.purchases@,
                winner_view,
                kk as nat,
                k as int,
            );
            assert((e.draw.winners_per_match->0)@[kk - 1] == crate::helpers::purchases_matching(
                e.purchases@,
                winner_view,
                kk as nat,
            ));
        }
        crate::helpers::lemma_prize_sum_le_buckets(results@, buckets@, winners@);
        crate::helpers::lemma_prize_sum_is_tickets_prize(
            results@,
            ts,
            winner_view,
            buckets@,
            winners@,
        );
    }
    let prize = crate::helpers::calculate_tickets_prize(
        results,
        buckets,
        winners,
        e.draw.ticket_price.denom.clone(),
    );
    if prize.amount == 0 {
        return Err(ContractError::NoPrizeToClaim);
    }
    // Write the claim record before the transfer leaves, so a retried
    // claim finds the record and cannot double-pay.
    let record = ClaimRecord { buyer: info.sender, prize: prize.clone() };
    let mut entry = blank_entry();
    state.draws.set_and_swap(idx, &mut entry);
    entry.claims.push(record);
    state.draws.set(idx, entry);
    proof {
        assert(state.draws@[idx as int].wf());
        assert forall|j: int| 0 <= j < state.draws@.len() implies (
        #[trigger] state.draws@[j]).wf() by {
            if j != idx as int {
                assert(state.draws@[j] == old(state).draws@[j]);
            }
        }
        assert(state.wf());
    }
    Ok(prize)
}

/// Replace the configuration fields the owner asks to change; only the
/// owner may do so.
pub fn update_config(state: &mut State, info: MessageInfo, config: UpdateConfigMsg) -> (r: Result<
    (),
    ContractError,
>)
    requires
        old(state).wf(),
        config.ticket_price matches Some(p) ==> p.amount > 0,
        config.treasury_fee matches Some(f) ==> f <= 100,
        config.percentage_per_match matches Some(pcts) ==> (forall|i: int|
            0 <= i < 6 ==> pcts@[i] <= 100) && crate::state::sum_percentages(pcts@) <= 100,
    ensures
        final(state).wf(),
        r is Err ==> *final(state) == *old(state),
        match r {
            Err(e) => e == ContractError::Unauthorized && info.sender@ != old(state).config.owner@,
            Ok(_) => ({
                let oc = old(state).config;
                let fc = final(state).config;
                &&& info.sender@ == old(state).config.owner@
                &&& final(state).draws == old(state).draws
                &&& fc.owner == oc.owner
                &&& fc.interval == (if config.interval is Some {
                    config.interval->0
                } else {
                    oc.interval
                })
                &&& fc.nois_proxy == (if config.nois_proxy is Some {
                    config.nois_proxy->0
                } else {
                    oc.nois_proxy
                })
                &&& fc.request_timeout == (if config.request_timeout is Some {
                    config.request_timeout->0
                } else {
                    oc.request_timeout
                })
                &&& fc.treasury_fee == (if config.treasury_fee is Some {
                    config.treasury_fee->0
                } else {
                    oc.treasury_fee
                })
                &&& fc.percentage_per_match == (if config.percentage_per_match is Some {
                    config.percentage_per_match->0
                } else {
                    oc.percentage_per_match
                })
                &&& fc.ticket_price == (if config.ticket_price is Some {
                    config.ticket_price->0
                } else {
                    oc.ticket_price
                })
                &&& fc.max_tickets_per_user == (if config.max_tickets_per_user is Some {
                    config.max_tickets_per_user->0
                } else {
                    oc.max_tickets_per_user
                })
            }),
        },
{
    if !(info.sender == state.config.owner) {
        return Err(ContractError::Unauthorized);
    }
    if let Some(new_interval) = config.interval {
        state.config.interval = new_interval;
    }
    if let Some(new_nois_proxy) = config.nois_proxy {
        state.config.nois_proxy = new_nois_proxy;
    }
    if let Some(new_request_timeout) = config.request_timeout {
        state.config.request_timeout = new_request_timeout;
    }
    if let Some(new_treasury_fee) = config.treasury_fee {
        state.config.treasury_fee = new_treasury_fee;
    }
    if let Some(new_percentage_per_match) = config.percentage_per_match {
        state.config.percentage_per_match = new_percentage_per_match;
    }
    if let Some(new_ticket_price) = config.ticket_price {
        state.config.ticket_price = new_ticket_price;
    }
    if let Some(new_max_tickets_per_user) = config.max_tickets_per_user {
        state.config.max_tickets_per_user = new_max_tickets_per_user;
    }
    Ok(())
}

/// The job id a close issues names its own draw: `request_randomness`
/// returns the draw id rendered in decimal, and `receive_randomness`
/// reads such a string back to exactly that id, so the oracle's answer
/// under the issued job id settles the draw that was closed.
pub proof fn lemma_job_id_names_its_draw(id: u64)
    ensures
        crate::digits::dec_digits(id as nat).len() > 0,
        crate::digits::all_digits(crate::digits::dec_digits(id as nat)),
        crate::digits::dec_value(crate::digits::dec_digits(id as nat)) == id,
{
    crate::digits::lemma_dec_digits_wf(id as nat);
    crate::digits::lemma_dec_round_trip(id as nat);
}

/// For every draw the outcome fields move together: the winning number
/// and the per-tier winner counts are both unset or both set, and they
/// are set exactly when the draw is claimable.  They are set by the one
/// settlement of the draw; `receive_randomness` refuses every delivery
/// for a draw that is no longer pending, so once set they never change.
pub proof fn lemma_outcome_fields_move_together(s: State, i: int)
    requires
        s.wf(),
        0 <= i < s.draws@.len(),
    ensures
        s.draws@[i].draw.winner_number is Some <==> s.draws@[i].draw.winners_per_match is Some,
        s.draws@[i].draw.winner_number is Some <==> s.draws@[i].draw.status is Claimable,
{
}

/// A recorded claim blocks every later claim by the same buyer: once the
/// record a successful `claim_prize` appends is present, `has_claim`
/// holds for that buyer, and `claim_prize` then returns
/// `PrizeAlreadyClaimed` without touching the state.
pub proof fn lemma_claim_blocks_repeat(claims: Seq<ClaimRecord>, record: ClaimRecord)
    ensures
        has_claim(claims.push(record), record.buyer@),
{
    assert(claims.push(record)[claims.len() as int] == record);
}

/// The newest draw: the one currently open for purchases.
pub fn get_current_draw(state: &State) -> (d: &Draw)
    requires
        state.wf(),
    ensures
        *d == state.draws@.last().draw,
{
    let n = state.draws.len();
    &state.draws[n - 1].draw
}

/// The draw with the given id, if it ever existed.
pub fn get_draw(state: &State, id: u64) -> (r: Option<&Draw>)
    ensures
        match r {
            Some(d) => 1 <= id <= state.draws@.len() && *d == state.draws@[id - 1].draw,
            None => id == 0 || id > state.draws@.len(),
        },
{
    if id >= 1 && id <= state.draws.len() as u64 {
        Some(&state.draws[(id - 1) as usize].draw)
    } else {
        None
    }
}

/// The current configuration.
pub fn get_config(state: &State) -> (c: &Config)
    ensures
        *c == state.config,
{
    &state.config
}

/// The tickets a buyer holds in a draw, empty when the draw or the record
/// does not exist.
pub fn get_tickets(state: &State, draw_id: u64, addr: String) -> (r: Vec<String>)
    requires
        state.wf(),
    ensures
        r.deep_view() == recorded_tickets(*state, draw_id as int, addr@),
{
    if draw_id >= 1 && draw_id <= state.draws.len() as u64 {
        let e = &state.draws[(draw_id - 1) as usize];
        match find_purchase(&e.purchases, &addr) {
            Some(k) => {
                proof {
                    let ghost ps = e.purchases@;
                    assert(has_purchase(ps, addr@));
                    let ki = purchase_idx(ps, addr@);
                    assert(0 <= ki < ps.len() && ps[ki].buyer@ == addr@);
                    assert(ki == k as int);
                }
                clone_tickets(&e.purchases[k].tickets)
            },
            None => {
                proof {
                    assert(recorded_tickets(*state, draw_id as int, addr@) =~= Seq::<
                        Seq<char>,
                    >::empty());
                }
                Vec::new()
            },
        }
    } else {
        proof {
            assert(recorded_tickets(*state, draw_id as int, addr@) =~= Seq::<Seq<char>>::empty());
        }
        Vec::new()
    }
}

/// Hold a buyer's recorded tickets against the draw's winning number, the
/// same way settlement does.  Before settlement the winning number is
/// taken as empty, so every ticket reports zero matches.
pub fn check_winner(state: &State, addr: String, draw_id: u64) -> (r: Result<
    Vec<TicketResult>,
    ContractError,
>)
    requires
        state.wf(),
    ensures
        match r {
            Err(e) => e == ContractError::DrawNotFound && (draw_id == 0 || draw_id
                > state.draws@.len()),
            Ok(results) => 1 <= draw_id <= state.draws@.len() && ({
                let e = state.draws@[draw_id - 1];
                let winner = if e.draw.winner_number is Some {
                    (e.draw.winner_number->0)@
                } else {
                    Seq::<char>::empty()
                };
                let ts = tickets_of(e.purchases@, addr@);
                &&& results@.len() == ts.len()
                &&& forall|i: int|
                    0 <= i < ts.len() ==> (#[trigger] results@[i]).ticket_number@ == ts[i]
                        && results@[i].matches == match_count(winner, ts[i])
            }),
        },
{
    if draw_id < 1 || draw_id > state.draws.len() as u64 {
        return Err(ContractError::DrawNotFound);
    }
    let e = &state.draws[(draw_id - 1) as usize];
    match find_purchase(&e.purchases, &addr) {
        None => {
            proof {
                assert(tickets_of(e.purchases@, addr@) =~= Seq::<Seq<char>>::empty());
            }
            Ok(Vec::new())
        },
        Some(k) => {
            proof {
                let ghost ps = e.purchases@;
                assert(has_purchase(ps, addr@));
                let ki = purchase_idx(ps, addr@);
                assert(0 <= ki < ps.len() && ps[ki].buyer@ == addr@);
                assert(ki == k as int);
            }
            let tickets = clone_tickets(&e.purchases[k].tickets);
            let winning = match &e.draw.winner_number {
                Some(w) => w.clone(),
                None => String::new(),
            };
            let results = check_tickets(tickets, winning);
            Ok(results)
        },
    }
}

} // verus!
