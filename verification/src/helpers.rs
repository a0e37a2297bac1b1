use vstd::arithmetic::div_mod::{
    lemma_div_nonincreasing, lemma_div_pos_is_pos, lemma_fundamental_div_mod,
    lemma_multiply_divide_le,
};
use vstd::arithmetic::mul::lemma_mul_inequality;
use vstd::prelude::*;

use crate::digits::is_digit;
use crate::error::ContractError;
use crate::state::{
    expiration_fits, BlockInfo, Coin, Expiration, Interval, Purchase, TicketResult, MAX_POT,
};

verus! {

/// A well-formed ticket: exactly six decimal digit characters.
pub open spec fn valid_ticket(t: Seq<char>) -> bool {
    &&& t.len() == 6
    &&& forall|i: int| 0 <= i < t.len() ==> is_digit(#[trigger] t[i])
}

/// How many leading positions of the ticket agree with the winning number:
/// the length of the longest common prefix of the two digit strings.  The
/// run stops at the first disagreeing position.
pub open spec fn match_count(winning: Seq<char>, ticket: Seq<char>) -> nat
    decreases winning.len(),
{
    if winning.len() == 0 || ticket.len() == 0 {
        0
    } else if winning[0] != ticket[0] {
        0
    } else {
        (1 + match_count(winning.skip(1), ticket.skip(1))) as nat
    }
}

pub proof fn lemma_match_count_le(winning: Seq<char>, ticket: Seq<char>)
    ensures
        match_count(winning, ticket) <= winning.len(),
        match_count(winning, ticket) <= ticket.len(),
    decreases winning.len(),
{
    if winning.len() > 0 && ticket.len() > 0 && winning[0] == ticket[0] {
        lemma_match_count_le(winning.skip(1), ticket.skip(1));
    }
}

/// If the first `n` positions agree and position `n` (when both strings
/// reach it) does not, the match count is exactly `n`.
pub proof fn lemma_match_count_agree(winning: Seq<char>, ticket: Seq<char>, n: int)
    requires
        0 <= n <= winning.len(),
        n <= ticket.len(),
        forall|j: int| 0 <= j < n ==> winning[j] == ticket[j],
        n == winning.len() || n == ticket.len() || winning[n] != ticket[n],
    ensures
        match_count(winning, ticket) == n,
    decreases n,
{
    if n == 0 {
    } else {
        assert(winning[0] == ticket[0]);
        lemma_match_count_agree(winning.skip(1), ticket.skip(1), n - 1);
    }
}

/// The number of leading positions in which the ticket agrees with the
/// winning number.
pub fn calculate_matches(winning_ticket: &str, ticket: &str) -> (m: u8)
    requires
        winning_ticket@.len() <= 255,
    ensures
        m == match_count(winning_ticket@, ticket@),
{
    let wlen = winning_ticket.unicode_len();
    let tlen = ticket.unicode_len();
    let mut i: usize = 0;
    while i < wlen && i < tlen
        invariant
            0 <= i <= wlen,
            i <= tlen,
            wlen == winning_ticket@.len(),
            tlen == ticket@.len(),
            wlen <= 255,
            forall|j: int| 0 <= j < i ==> winning_ticket@[j] == ticket@[j],
        decreases wlen - i,
    {
        if winning_ticket.get_char(i) != ticket.get_char(i) {
            proof {
                lemma_match_count_agree(winning_ticket@, ticket@, i as int);
            }
            return i as u8;
        }
        i = i + 1;
    }
    proof {
        lemma_match_count_agree(winning_ticket@, ticket@, i as int);
    }
    i as u8
}

/// Refuse any ticket that is not exactly six decimal digits.
pub fn ensure_ticket_is_valid(ticket: &String) -> (r: Result<(), ContractError>)
    ensures
        r is Ok <==> valid_ticket(ticket@),
        r is Err ==> r->Err_0 == ContractError::InvalidTicket,
{
    let s = ticket.as_str();
    let len = s.unicode_len();
    if len != 6 {
        return Err(ContractError::InvalidTicket);
    }
    let mut i: usize = 0;
    while i < 6
        invariant
            0 <= i <= 6,
            ticket@.len() == 6,
            s@ == ticket@,
            forall|j: int| 0 <= j < i ==> is_digit(#[trigger] ticket@[j]),
        decreases 6 - i,
    {
        let cv = s.get_char(i) as u32;
        if cv < 48 || cv > 57 {
            return Err(ContractError::InvalidTicket);
        }
        i = i + 1;
    }
    Ok(())
}

/// Hold every ticket against the winning number and report the match count
/// of each, in the tickets' own order.
pub fn check_tickets(tickets: Vec<String>, winning_ticket: String) -> (r: Vec<TicketResult>)
    requires
        winning_ticket@.len() <= 255,
    ensures
        r@.len() == tickets@.len(),
        forall|i: int|
            0 <= i < r@.len() ==> (#[trigger] r@[i]).ticket_number@ == tickets@[i]@ && r@[i].matches
                == match_count(winning_ticket@, tickets@[i]@),
{
    let mut r: Vec<TicketResult> = Vec::new();
    let mut i: usize = 0;
    while i < tickets.len()
        invariant
            0 <= i <= tickets@.len(),
            winning_ticket@.len() <= 255,
            r@.len() == i,
            forall|j: int|
                0 <= j < i ==> (#[trigger] r@[j]).ticket_number@ == tickets@[j]@ && r@[j].matches
                    == match_count(winning_ticket@, tickets@[j]@),
        decreases tickets@.len() - i,
    {
        let t = &tickets[i];
        let matches = calculate_matches(winning_ticket.as_str(), t.as_str());
        r.push(TicketResult { ticket_number: t.clone(), matches });
        i = i + 1;
    }
    r
}

/// The sub-pool a percentage carves out of a pot: `pot * pct / 100`,
/// rounded down.
pub open spec fn bucket_amount(pot: int, pct: int) -> int {
    (pot * pct) / 100
}

/// Sum of a sequence of bucket amounts.
pub open spec fn sum_buckets(b: Seq<u128>) -> int
    decreases b.len(),
{
    if b.len() == 0 {
        0
    } else {
        sum_buckets(b.drop_last()) + b.last()
    }
}

/// Total number of tickets over a sequence of purchase records.
pub open spec fn total_tickets_of(purchases: Seq<Purchase>) -> int
    decreases purchases.len(),
{
    if purchases.len() == 0 {
        0
    } else {
        total_tickets_of(purchases.drop_last()) + purchases.last().tickets@.len()
    }
}

/// Replacing one purchase record changes the ticket total by the
/// difference of the two records.
pub proof fn lemma_total_tickets_update(s: Seq<Purchase>, k: int, p: Purchase)
    requires
        0 <= k < s.len(),
    ensures
        total_tickets_of(s.update(k, p)) == total_tickets_of(s) - s[k].tickets@.len()
            + p.tickets@.len(),
    decreases s.len(),
{
    let su = s.update(k, p);
    if k == s.len() - 1 {
        assert(su.drop_last() =~= s.drop_last());
        assert(su.last() == p);
    } else {
        assert(su.drop_last() =~= s.drop_last().update(k, p));
        lemma_total_tickets_update(s.drop_last(), k, p);
        assert(su.last() == s.last());
    }
}

/// How many tickets of the sequence reach match tier `m`.
pub open spec fn tickets_matching(tickets: Seq<Seq<char>>, winning: Seq<char>, m: nat) -> nat
    decreases tickets.len(),
{
    if tickets.len() == 0 {
        0nat
    } else {
        tickets_matching(tickets.drop_last(), winning, m) + (if match_count(winning, tickets.last())
            == m {
            1nat
        } else {
            0nat
        })
    }
}

/// How many tickets over all purchase records reach match tier `m`.
pub open spec fn purchases_matching(purchases: Seq<Purchase>, winning: Seq<char>, m: nat) -> nat
    decreases purchases.len(),
{
    if purchases.len() == 0 {
        0nat
    } else {
        purchases_matching(purchases.drop_last(), winning, m) + tickets_matching(
            purchases.last().tickets.deep_view(),
            winning,
            m,
        )
    }
}

/// One bucket never exceeds the pot it was carved from.
pub proof fn lemma_bucket_le_pot(pot: int, pct: int)
    requires
        0 <= pot,
        0 <= pct <= 100,
    ensures
        0 <= bucket_amount(pot, pct) <= pot,
{
    lemma_mul_inequality(pct, 100, pot);
    assert(pct * pot == pot * pct) by (nonlinear_arith);
    assert(100 * pot == pot * 100) by (nonlinear_arith);
    lemma_multiply_divide_le(pot * pct, 100, pot);
    lemma_div_pos_is_pos(pot * pct, 100);
    assert(pot * pct >= 0) by (nonlinear_arith)
        requires
            pot >= 0,
            pct >= 0,
    ;
}

/// Floor division distributes sub-additively over addition:
/// `x / 100 + y / 100 <= (x + y) / 100`.
proof fn lemma_div_sum_ge(x: int, y: int)
    requires
        0 <= x,
        0 <= y,
    ensures
        x / 100 + y / 100 <= (x + y) / 100,
{
    lemma_fundamental_div_mod(x, 100);
    lemma_fundamental_div_mod(y, 100);
    lemma_fundamental_div_mod(x + y, 100);
    assert((x / 100 + y / 100) * 100 <= x + y) by (nonlinear_arith)
        requires
            x == 100 * (x / 100) + x % 100,
            y == 100 * (y / 100) + y % 100,
            x % 100 >= 0,
            y % 100 >= 0,
    ;
    if x / 100 + y / 100 > (x + y) / 100 {
        assert((x / 100 + y / 100) * 100 >= ((x + y) / 100) * 100 + 100) by (nonlinear_arith)
            requires
                x / 100 + y / 100 >= (x + y) / 100 + 1,
        ;
        assert(false) by (nonlinear_arith)
            requires
                (x / 100 + y / 100) * 100 >= ((x + y) / 100) * 100 + 100,
                (x / 100 + y / 100) * 100 <= x + y,
                x + y == 100 * ((x + y) / 100) + (x + y) % 100,
                (x + y) % 100 < 100,
        ;
    }
}

/// The buckets carved out by a percentage table that sums to at most 100
/// never exceed the pot in aggregate.
pub proof fn lemma_buckets_within_pot(pot: int, pcts: Seq<u8>, buckets: Seq<u128>)
    requires
        0 <= pot,
        buckets.len() == pcts.len(),
        forall|i: int| 0 <= i < buckets.len() ==> buckets[i] == bucket_amount(pot, pcts[i] as int),
        crate::state::sum_percentages(pcts) <= 100,
        forall|i: int| 0 <= i < pcts.len() ==> pcts[i] <= 100,
    ensures
        sum_buckets(buckets) <= bucket_amount(pot, crate::state::sum_percentages(pcts)),
    decreases buckets.len(),
{
    if buckets.len() == 0 {
        lemma_div_pos_is_pos(0, 100);
        assert(pot * 0 == 0) by (nonlinear_arith);
    } else {
        let bp = buckets.drop_last();
        let pp = pcts.drop_last();
        assert(forall|i: int| 0 <= i < pp.len() ==> #[trigger] pcts[i] == pp[i]);
        assert(crate::state::sum_percentages(pcts) == crate::state::sum_percentages(pp)
            + pcts.last());
        assert(crate::state::sum_percentages(pp) >= 0) by {
            lemma_sum_percentages_nonneg(pp);
        }
        lemma_buckets_within_pot(pot, pp, bp);
        // sum(buckets) = sum(bp) + last <= pot*sp/100 + pot*pl/100 <= pot*(sp+pl)/100
        let sp = crate::state::sum_percentages(pp);
        let pl = pcts.last() as int;
        assert(pot * sp >= 0) by (nonlinear_arith)
            requires
                pot >= 0,
                sp >= 0,
        ;
        assert(pot * pl >= 0) by (nonlinear_arith)
            requires
                pot >= 0,
                pl >= 0,
        ;
        lemma_div_sum_ge(pot * sp, pot * pl);
        assert(pot * sp + pot * pl == pot * (sp + pl)) by (nonlinear_arith);
    }
}

/// `sum_percentages` of a table of `u8` entries is nonnegative.
pub proof fn lemma_sum_percentages_nonneg(p: Seq<u8>)
    ensures
        crate::state::sum_percentages(p) >= 0,
    decreases p.len(),
{
    if p.len() > 0 {
        lemma_sum_percentages_nonneg(p.drop_last());
    }
}

/// Aggregate bound used by the state invariant: buckets computed from a
/// sane percentage table sum to at most the pot.
pub proof fn lemma_buckets_le_pot(pot: u128, pcts: Seq<u8>, buckets: Seq<u128>)
    requires
        buckets.len() == pcts.len(),
        forall|i: int|
            0 <= i < buckets.len() ==> buckets[i] == bucket_amount(pot as int, pcts[i] as int),
        crate::state::sum_percentages(pcts) <= 100,
        forall|i: int| 0 <= i < pcts.len() ==> pcts[i] <= 100,
    ensures
        sum_buckets(buckets) <= pot,
{
    lemma_buckets_within_pot(pot as int, pcts, buckets);
    lemma_sum_percentages_nonneg(pcts);
    lemma_bucket_le_pot(pot as int, crate::state::sum_percentages(pcts));
}

/// One bucket of the partition, computed without overflow.
pub fn scaled_share(pot: u128, pct: u8) -> (r: u128)
    requires
        pot <= MAX_POT,
        pct <= 100,
    ensures
        r == bucket_amount(pot as int, pct as int),
{
    proof {
        assert(pot * pct <= pot * 100) by (nonlinear_arith)
            requires
                pct <= 100,
                pot >= 0,
        ;
        assert(pot * 100 <= (u128::MAX / 100) * 100) by (nonlinear_arith)
            requires
                pot <= u128::MAX / 100,
        ;
        lemma_fundamental_div_mod(u128::MAX as int, 100);
    }
    (pot * (pct as u128)) / 100
}

/// Split a pot into the six per-match-tier buckets given by the percentage
/// table: `bucket[i] = pot * pct[i] / 100`, rounded down.
pub fn calculate_prize_distribution(total_amount: u128, percent_per_matches: [u8; 6]) -> (r: [u128;
    6])
    requires
        total_amount <= MAX_POT,
        forall|i: int| 0 <= i < 6 ==> percent_per_matches@[i] <= 100,
    ensures
        forall|i: int|
            0 <= i < 6 ==> r@[i] == bucket_amount(total_amount as int, percent_per_matches@[i] as int),
{
    let r = [
        scaled_share(total_amount, percent_per_matches[0]),
        scaled_share(total_amount, percent_per_matches[1]),
        scaled_share(total_amount, percent_per_matches[2]),
        scaled_share(total_amount, percent_per_matches[3]),
        scaled_share(total_amount, percent_per_matches[4]),
        scaled_share(total_amount, percent_per_matches[5]),
    ];
    r
}

/// Splitting the same pot by the same percentage table twice yields
/// identical buckets: the partition is a pure function of its arguments.
pub proof fn lemma_partition_deterministic(pot: u128, pcts: [u8; 6], r1: [u128; 6], r2: [u128; 6])
    requires
        forall|i: int| 0 <= i < 6 ==> r1@[i] == bucket_amount(pot as int, pcts@[i] as int),
        forall|i: int| 0 <= i < 6 ==> r2@[i] == bucket_amount(pot as int, pcts@[i] as int),
    ensures
        r1@ == r2@,
{
    assert(r1@ =~= r2@);
}

/// The first coin of the matching denomination, if any.
pub open spec fn find_denom(funds: Seq<Coin>, denom: Seq<char>) -> Option<Coin>
    decreases funds.len(),
{
    if funds.len() == 0 {
        None
    } else if funds[0].denom@ == denom {
        Some(funds[0])
    } else {
        find_denom(funds.skip(1), denom)
    }
}

/// Ensure the buyer sent enough of the right denomination to cover the
/// tickets: the first coin of the required denomination must reach the
/// required amount.
pub fn ensure_is_enough_funds_to_cover_tickets(required_funds: &Coin, sent_fund: &Vec<Coin>) -> (r:
    Result<(), ContractError>)
    ensures
        r matches Ok(_) ==> (find_denom(sent_fund@, required_funds.denom@) matches Some(c)
            && c.amount >= required_funds.amount),
        r matches Err(e) ==> (match find_denom(sent_fund@, required_funds.denom@) {
            None => e == ContractError::InvalidDenom,
            Some(c) => c.amount < required_funds.amount && e == ContractError::InvalidAmount,
        }),
{
    let n = sent_fund.len();
    let mut i: usize = 0;
    proof {
        assert(sent_fund@.skip(0) =~= sent_fund@);
    }
    while i < n
        invariant
            0 <= i <= n,
            n == sent_fund@.len(),
            find_denom(sent_fund@, required_funds.denom@) == find_denom(
                sent_fund@.skip(i as int),
                required_funds.denom@,
            ),
        decreases n - i,
    {
        if sent_fund[i].denom == required_funds.denom {
            proof {
                assert(sent_fund@.skip(i as int)[0] == sent_fund@[i as int]);
            }
            if sent_fund[i].amount < required_funds.amount {
                return Err(ContractError::InvalidAmount);
            }
            return Ok(());
        }
        proof {
            assert(sent_fund@.skip(i as int).skip(1) =~= sent_fund@.skip(i as int + 1));
        }
        i = i + 1;
    }
    proof {
        assert(sent_fund@.skip(n as int) =~= Seq::<Coin>::empty());
    }
    Err(ContractError::InvalidDenom)
}

/// A tier count never exceeds the number of tickets counted.
pub proof fn lemma_tickets_matching_le(tickets: Seq<Seq<char>>, winning: Seq<char>, m: nat)
    ensures
        tickets_matching(tickets, winning, m) <= tickets.len(),
    decreases tickets.len(),
{
    if tickets.len() > 0 {
        lemma_tickets_matching_le(tickets.drop_last(), winning, m);
    }
}

/// A tier count over all purchases never exceeds the total ticket count.
pub proof fn lemma_purchases_matching_le(purchases: Seq<Purchase>, winning: Seq<char>, m: nat)
    ensures
        purchases_matching(purchases, winning, m) <= total_tickets_of(purchases),
    decreases purchases.len(),
{
    if purchases.len() > 0 {
        lemma_purchases_matching_le(purchases.drop_last(), winning, m);
        lemma_tickets_matching_le(purchases.last().tickets.deep_view(), winning, m);
    }
}

/// Counting the tickets of a prefix counts no more than the whole.
pub proof fn lemma_total_tickets_take_le(purchases: Seq<Purchase>, i: int)
    requires
        0 <= i <= purchases.len(),
    ensures
        total_tickets_of(purchases.take(i)) <= total_tickets_of(purchases),
    decreases purchases.len(),
{
    if i == purchases.len() {
        assert(purchases.take(i) =~= purchases);
    } else {
        assert(purchases.drop_last().take(i) =~= purchases.take(i));
        lemma_total_tickets_take_le(purchases.drop_last(), i);
        assert(purchases.last().tickets@.len() >= 0);
    }
}

/// The tickets of one purchase record count toward the totals of the whole
/// sequence of records.
pub proof fn lemma_one_purchase_matching_le(
    purchases: Seq<Purchase>,
    winning: Seq<char>,
    m: nat,
    i: int,
)
    requires
        0 <= i < purchases.len(),
    ensures
        tickets_matching(purchases[i].tickets.deep_view(), winning, m) <= purchases_matching(
            purchases,
            winning,
            m,
        ),
    decreases purchases.len(),
{
    if i == purchases.len() - 1 {
        assert(purchases.last() == purchases[i]);
    } else {
        assert(purchases.drop_last()[i] == purchases[i]);
        lemma_one_purchase_matching_le(purchases.drop_last(), winning, m, i);
    }
}

/// Count, per match tier, how many of all sold tickets reach that tier.
pub fn calculate_winner_per_match(purchases: &Vec<Purchase>, winning_ticket: &str) -> (w: [u64; 6])
    requires
        winning_ticket@.len() == 6,
        total_tickets_of(purchases@) <= u64::MAX,
    ensures
        forall|m: int|
            1 <= m <= 6 ==> w@[m - 1] == #[trigger] purchases_matching(
                purchases@,
                winning_ticket@,
                m as nat,
            ),
{
    let mut w: [u64; 6] = [0, 0, 0, 0, 0, 0];
    let mut i: usize = 0;
    proof {
        assert(purchases@.take(0) =~= Seq::<Purchase>::empty());
    }
    while i < purchases.len()
        invariant
            0 <= i <= purchases@.len(),
            winning_ticket@.len() == 6,
            total_tickets_of(purchases@) <= u64::MAX,
            forall|m: int|
                1 <= m <= 6 ==> w@[m - 1] == #[trigger] purchases_matching(
                    purchases@.take(i as int),
                    winning_ticket@,
                    m as nat,
                ),
        decreases purchases@.len() - i,
    {
        let p = &purchases[i];
        let tn = p.tickets.len();
        let ghost tv = purchases@[i as int].tickets.deep_view();
        let mut j: usize = 0;
        proof {
            assert(tv.take(0) =~= Seq::<Seq<char>>::empty());
        }
        while j < tn
            invariant
                0 <= j <= tn,
                0 <= i < purchases@.len(),
                winning_ticket@.len() == 6,
                total_tickets_of(purchases@) <= u64::MAX,
                *p == purchases@[i as int],
                tn == purchases@[i as int].tickets@.len(),
                tv == purchases@[i as int].tickets.deep_view(),
                forall|m: int|
                    1 <= m <= 6 ==> w@[m - 1] == #[trigger] purchases_matching(
                        purchases@.take(i as int),
                        winning_ticket@,
                        m as nat,
                    ) + tickets_matching(tv.take(j as int), winning_ticket@, m as nat),
            decreases tn - j,
        {
            let matches = calculate_matches(winning_ticket, p.tickets[j].as_str());
            proof {
                lemma_match_count_le(winning_ticket@, purchases@[i as int].tickets@[j as int]@);
                assert(tv[j as int] == purchases@[i as int].tickets@[j as int]@);
                assert(tv.take(j as int + 1).drop_last() =~= tv.take(j as int));
                assert(tv.take(j as int + 1).last() == tv[j as int]);
            }
            let ghost w0 = w@;
            if matches > 0 {
                let idx = (matches - 1) as usize;
                proof {
                    let m0 = matches as nat;
                    // The invariant at tier m0, then the bound against the
                    // grand ticket total to rule out counter overflow.
                    assert(w0[m0 - 1] == purchases_matching(
                        purchases@.take(i as int),
                        winning_ticket@,
                        m0,
                    ) + tickets_matching(tv.take(j as int), winning_ticket@, m0));
                    assert(tickets_matching(tv.take(j as int + 1), winning_ticket@, m0)
                        == tickets_matching(tv.take(j as int), winning_ticket@, m0) + 1);
                    lemma_purchases_matching_le(purchases@.take(i as int), winning_ticket@, m0);
                    lemma_tickets_matching_le(tv.take(j as int + 1), winning_ticket@, m0);
                    assert(purchases@.take(i as int + 1).drop_last() =~= purchases@.take(i as int));
                    assert(total_tickets_of(purchases@.take(i as int + 1)) == total_tickets_of(
                        purchases@.take(i as int),
                    ) + purchases@[i as int].tickets@.len());
                    lemma_total_tickets_take_le(purchases@, i as int + 1);
                    assert(w0[m0 - 1] + 1 <= u64::MAX);
                }
                w[idx] = w[idx] + 1;
                proof {
                    assert forall|m: int|
                        1 <= m <= 6 implies w@[m - 1] == #[trigger] purchases_matching(
                        purchases@.take(i as int),
                        winning_ticket@,
                        m as nat,
                    ) + tickets_matching(tv.take(j as int + 1), winning_ticket@, m as nat) by {
                        assert(w0[m - 1] == purchases_matching(
                            purchases@.take(i as int),
                            winning_ticket@,
                            m as nat,
                        ) + tickets_matching(tv.take(j as int), winning_ticket@, m as nat));
                        if m == matches as int {
                            assert(w@[m - 1] == w0[m - 1] + 1);
                        } else {
                            assert(w@[m - 1] == w0[m - 1]);
                            assert(tickets_matching(tv.take(j as int + 1), winning_ticket@, m as nat)
                                == tickets_matching(tv.take(j as int), winning_ticket@, m as nat));
                        }
                    }
                }
            } else {
                proof {
                    assert forall|m: int|
                        1 <= m <= 6 implies w@[m - 1] == #[trigger] purchases_matching(
                        purchases@.take(i as int),
                        winning_ticket@,
                        m as nat,
                    ) + tickets_matching(tv.take(j as int + 1), winning_ticket@, m as nat) by {
                        assert(w0[m - 1] == purchases_matching(
                            purchases@.take(i as int),
                            winning_ticket@,
                            m as nat,
                        ) + tickets_matching(tv.take(j as int), winning_ticket@, m as nat));
                        assert(tickets_matching(tv.take(j as int + 1), winning_ticket@, m as nat)
                            == tickets_matching(tv.take(j as int), winning_ticket@, m as nat));
                    }
                }
            }
            j = j + 1;
        }
        proof {
            assert(tv.take(tn as int) =~= tv);
            assert(purchases@.take(i as int + 1).drop_last() =~= purchases@.take(i as int));
            assert(purchases@.take(i as int + 1).last() == purchases@[i as int]);
            assert forall|m: int|
                1 <= m <= 6 implies w@[m - 1] == #[trigger] purchases_matching(
                purchases@.take(i as int + 1),
                winning_ticket@,
                m as nat,
            ) by {
                assert(w@[m - 1] == purchases_matching(
                    purchases@.take(i as int),
                    winning_ticket@,
                    m as nat,
                ) + tickets_matching(tv.take(tn as int), winning_ticket@, m as nat));
            }
        }
        i = i + 1;
    }
    proof {
        assert(purchases@.take(purchases@.len() as int) =~= purchases@);
    }
    w
}

/// Rollover over the first `i` tiers: the buckets whose tier nobody won.
pub open spec fn rollover_upto(buckets: Seq<u128>, winners: Seq<u64>, i: int) -> int
    decreases i,
{
    if i <= 0 {
        0
    } else {
        rollover_upto(buckets, winners, i - 1) + (if winners[i - 1] == 0 {
            buckets[i - 1] as int
        } else {
            0
        })
    }
}

/// The money left on the table by a settlement: the sum of the buckets of
/// all six tiers in which no ticket won.
pub open spec fn rollover_amount(buckets: Seq<u128>, winners: Seq<u64>) -> int {
    rollover_upto(buckets, winners, 6)
}

/// Summing a prefix of the buckets never exceeds summing them all.
pub proof fn lemma_sum_buckets_take_le(b: Seq<u128>, i: int)
    requires
        0 <= i <= b.len(),
    ensures
        sum_buckets(b.take(i)) <= sum_buckets(b),
    decreases b.len(),
{
    if i == b.len() {
        assert(b.take(i) =~= b);
    } else {
        assert(b.drop_last().take(i) =~= b.take(i));
        lemma_sum_buckets_take_le(b.drop_last(), i);
    }
}

/// A prefix bucket sum is nonnegative.
pub proof fn lemma_sum_buckets_nonneg(b: Seq<u128>)
    ensures
        sum_buckets(b) >= 0,
    decreases b.len(),
{
    if b.len() > 0 {
        lemma_sum_buckets_nonneg(b.drop_last());
    }
}

/// What one checked ticket pays: its tier's bucket divided evenly among
/// that tier's winners, nothing for a ticket with no matches.
pub open spec fn ticket_payout(t: TicketResult, buckets: Seq<u128>, winners: Seq<u64>) -> int {
    if t.matches == 0 {
        0
    } else {
        buckets[t.matches - 1] as int / winners[t.matches - 1] as int
    }
}

/// Total payout of a sequence of checked tickets.
pub open spec fn prize_sum(results: Seq<TicketResult>, buckets: Seq<u128>, winners: Seq<u64>) -> int
    decreases results.len(),
{
    if results.len() == 0 {
        0
    } else {
        prize_sum(results.drop_last(), buckets, winners) + ticket_payout(
            results.last(),
            buckets,
            winners,
        )
    }
}

/// Sum of the buckets that the matching tickets draw from, one bucket per
/// matching ticket.
pub open spec fn matched_buckets_sum(results: Seq<TicketResult>, buckets: Seq<u128>) -> int
    decreases results.len(),
{
    if results.len() == 0 {
        0
    } else {
        matched_buckets_sum(results.drop_last(), buckets) + (if results.last().matches == 0 {
            0
        } else {
            buckets[results.last().matches - 1] as int
        })
    }
}

/// How many of the checked tickets sit in match tier `k`.
pub open spec fn tier_count_results(results: Seq<TicketResult>, k: int) -> nat
    decreases results.len(),
{
    if results.len() == 0 {
        0nat
    } else {
        tier_count_results(results.drop_last(), k) + (if results.last().matches == k {
            1nat
        } else {
            0nat
        })
    }
}

/// Truncating division keeps each single payout within its ticket's
/// bucket, so a buyer's total payout never exceeds the buckets its
/// matching tickets draw from.
pub proof fn lemma_no_overpayment(results: Seq<TicketResult>, buckets: Seq<u128>, winners: Seq<u64>)
    requires
        buckets.len() == 6,
        winners.len() == 6,
        forall|i: int| 0 <= i < results.len() ==> (#[trigger] results[i]).matches <= 6,
        forall|i: int|
            0 <= i < results.len() ==> ((#[trigger] results[i]).matches > 0 ==> winners[results[i].matches
                - 1] >= 1),
    ensures
        0 <= prize_sum(results, buckets, winners) <= matched_buckets_sum(results, buckets),
    decreases results.len(),
{
    if results.len() > 0 {
        lemma_no_overpayment(results.drop_last(), buckets, winners);
        let t = results.last();
        if t.matches > 0 {
            let b = buckets[t.matches - 1] as int;
            let d = winners[t.matches - 1] as int;
            lemma_div_nonincreasing(b, d);
            lemma_div_pos_is_pos(b, d);
        }
    }
}

/// The total payout, regrouped by match tier: each tier contributes its
/// ticket count times its per-winner share.
pub proof fn lemma_prize_sum_tierwise(
    results: Seq<TicketResult>,
    buckets: Seq<u128>,
    winners: Seq<u64>,
)
    requires
        buckets.len() == 6,
        winners.len() == 6,
        forall|i: int| 0 <= i < results.len() ==> (#[trigger] results[i]).matches <= 6,
    ensures
        prize_sum(results, buckets, winners) == tier_count_results(results, 1) * (buckets[0] as int
            / winners[0] as int) + tier_count_results(results, 2) * (buckets[1] as int
            / winners[1] as int) + tier_count_results(results, 3) * (buckets[2] as int
            / winners[2] as int) + tier_count_results(results, 4) * (buckets[3] as int
            / winners[3] as int) + tier_count_results(results, 5) * (buckets[4] as int
            / winners[4] as int) + tier_count_results(results, 6) * (buckets[5] as int
            / winners[5] as int),
    decreases results.len(),
{
    if results.len() > 0 {
        let rp = results.drop_last();
        assert(forall|i: int| 0 <= i < results.len() - 1 ==> (#[trigger] rp[i]) == results[i]);
        lemma_prize_sum_tierwise(rp, buckets, winners);
        let t = results.last();
        if t.matches > 0 {
            let k = t.matches as int;
            if k == 1 {
                assert(tier_count_results(results, 1) == tier_count_results(rp, 1) + 1);
                assert(tier_count_results(results, 2) == tier_count_results(rp, 2));
                assert(tier_count_results(results, 3) == tier_count_results(rp, 3));
                assert(tier_count_results(results, 4) == tier_count_results(rp, 4));
                assert(tier_count_results(results, 5) == tier_count_results(rp, 5));
                assert(tier_count_results(results, 6) == tier_count_results(rp, 6));
                assert(prize_sum(results, buckets, winners) == prize_sum(rp, buckets, winners) + (
                buckets[0] as int / winners[0] as int));
                assert((tier_count_results(rp, 1) as int + 1) * (buckets[0] as int
                    / winners[0] as int) == tier_count_results(rp, 1) as int * (
                buckets[0] as int / winners[0] as int) + (buckets[0] as int
                    / winners[0] as int)) by (nonlinear_arith);
            } else if k == 2 {
                assert(tier_count_results(results, 2) == tier_count_results(rp, 2) + 1);
                assert(tier_count_results(results, 1) == tier_count_results(rp, 1));
                assert(tier_count_results(results, 3) == tier_count_results(rp, 3));
                assert(tier_count_results(results, 4) == tier_count_results(rp, 4));
                assert(tier_count_results(results, 5) == tier_count_results(rp, 5));
                assert(tier_count_results(results, 6) == tier_count_results(rp, 6));
                assert(prize_sum(results, buckets, winners) == prize_sum(rp, buckets, winners) + (
                buckets[1] as int / winners[1] as int));
                assert((tier_count_results(rp, 2) as int + 1) * (buckets[1] as int
                    / winners[1] as int) == tier_count_results(rp, 2) as int * (
                buckets[1] as int / winners[1] as int) + (buckets[1] as int
                    / winners[1] as int)) by (nonlinear_arith);
            } else if k == 3 {
                assert(tier_count_results(results, 3) == tier_count_results(rp, 3) + 1);
                assert(tier_count_results(results, 1) == tier_count_results(rp, 1));
                assert(tier_count_results(results, 2) == tier_count_results(rp, 2));
                assert(tier_count_results(results, 4) == tier_count_results(rp, 4));
                assert(tier_count_results(results, 5) == tier_count_results(rp, 5));
                assert(tier_count_results(results, 6) == tier_count_results(rp, 6));
                assert(prize_sum(results, buckets, winners) == prize_sum(rp, buckets, winners) + (
                buckets[2] as int / winners[2] as int));
                assert((tier_count_results(rp, 3) as int + 1) * (buckets[2] as int
                    / winners[2] as int) == tier_count_results(rp, 3) as int * (
                buckets[2] as int / winners[2] as int) + (buckets[2] as int
                    / winners[2] as int)) by (nonlinear_arith);
            } else if k == 4 {
                assert(tier_count_results(results, 4) == tier_count_results(rp, 4) + 1);
                assert(tier_count_results(results, 1) == tier_count_results(rp, 1));
                assert(tier_count_results(results, 2) == tier_count_results(rp, 2));
                assert(tier_count_results(results, 3) == tier_count_results(rp, 3));
                assert(tier_count_results(results, 5) == tier_count_results(rp, 5));
                assert(tier_count_results(results, 6) == tier_count_results(rp, 6));
                assert(prize_sum(results, buckets, winners) == prize_sum(rp, buckets, winners) + (
                buckets[3] as int / winners[3] as int));
                assert((tier_count_results(rp, 4) as int + 1) * (buckets[3] as int
                    / winners[3] as int) == tier_count_results(rp, 4) as int * (
                buckets[3] as int / winners[3] as int) + (buckets[3] as int
                    / winners[3] as int)) by (nonlinear_arith);
            } else if k == 5 {
                assert(tier_count_results(results, 5) == tier_count_results(rp, 5) + 1);
                assert(tier_count_results(results, 1) == tier_count_results(rp, 1));
                assert(tier_count_results(results, 2) == tier_count_results(rp, 2));
                assert(tier_count_results(results, 3) == tier_count_results(rp, 3));
                assert(tier_count_results(results, 4) == tier_count_results(rp, 4));
                assert(tier_count_results(results, 6) == tier_count_results(rp, 6));
                assert(prize_sum(results, buckets, winners) == prize_sum(rp, buckets, winners) + (
                buckets[4] as int / winners[4] as int));
                assert((tier_count_results(rp, 5) as int + 1) * (buckets[4] as int
                    / winners[4] as int) == tier_count_results(rp, 5) as int * (
                buckets[4] as int / winners[4] as int) + (buckets[4] as int
                    / winners[4] as int)) by (nonlinear_arith);
            } else {
                assert(k == 6);
                assert(tier_count_results(results, 6) == tier_count_results(rp, 6) + 1);
                assert(tier_count_results(results, 1) == tier_count_results(rp, 1));
                assert(tier_count_results(results, 2) == tier_count_results(rp, 2));
                assert(tier_count_results(results, 3) == tier_count_results(rp, 3));
                assert(tier_count_results(results, 4) == tier_count_results(rp, 4));
                assert(tier_count_results(results, 5) == tier_count_results(rp, 5));
                assert(prize_sum(results, buckets, winners) == prize_sum(rp, buckets, winners) + (
                buckets[5] as int / winners[5] as int));
                assert((tier_count_results(rp, 6) as int + 1) * (buckets[5] as int
                    / winners[5] as int) == tier_count_results(rp, 6) as int * (
                buckets[5] as int / winners[5] as int) + (buckets[5] as int
                    / winners[5] as int)) by (nonlinear_arith);
            }
        } else {
            assert(prize_sum(results, buckets, winners) == prize_sum(rp, buckets, winners));
        }
    } else {
        assert(tier_count_results(results, 1) * (buckets[0] as int
            / winners[0] as int) == 0) by (nonlinear_arith)
            requires
                tier_count_results(results, 1) == 0,
        ;
        assert(tier_count_results(results, 2) * (buckets[1] as int
            / winners[1] as int) == 0) by (nonlinear_arith)
            requires
                tier_count_results(results, 2) == 0,
        ;
        assert(tier_count_results(results, 3) * (buckets[2] as int
            / winners[2] as int) == 0) by (nonlinear_arith)
            requires
                tier_count_results(results, 3) == 0,
        ;
        assert(tier_count_results(results, 4) * (buckets[3] as int
            / winners[3] as int) == 0) by (nonlinear_arith)
            requires
                tier_count_results(results, 4) == 0,
        ;
        assert(tier_count_results(results, 5) * (buckets[4] as int
            / winners[4] as int) == 0) by (nonlinear_arith)
            requires
                tier_count_results(results, 5) == 0,
        ;
        assert(tier_count_results(results, 6) * (buckets[5] as int
            / winners[5] as int) == 0) by (nonlinear_arith)
            requires
                tier_count_results(results, 6) == 0,
        ;
    }
}

/// A tier's total take stays within its bucket when the divisor covers the
/// tier's ticket count.
proof fn lemma_tier_take_le_bucket(count: int, b: int, w: int)
    requires
        0 <= count <= w,
        0 <= b,
    ensures
        count * (b / w) <= b,
{
    if w == 0 {
        assert(count * (b / w) == 0) by (nonlinear_arith)
            requires
                count == 0,
        ;
    } else {
        lemma_div_pos_is_pos(b, w);
        lemma_mul_inequality(count, w, b / w);
        lemma_fundamental_div_mod(b, w);
        assert(w * (b / w) <= b);
    }
}

/// Sum of six buckets, written out.
pub proof fn lemma_sum_buckets6(b: Seq<u128>)
    requires
        b.len() == 6,
    ensures
        sum_buckets(b) == b[0] + b[1] + b[2] + b[3] + b[4] + b[5],
{
    let b5 = b.drop_last();
    let b4 = b5.drop_last();
    let b3 = b4.drop_last();
    let b2 = b3.drop_last();
    let b1 = b2.drop_last();
    let b0 = b1.drop_last();
    assert(b0 =~= Seq::<u128>::empty());
    assert(sum_buckets(b0) == 0);
    assert(sum_buckets(b1) == sum_buckets(b0) + b[0]);
    assert(sum_buckets(b2) == sum_buckets(b1) + b[1]);
    assert(sum_buckets(b3) == sum_buckets(b2) + b[2]);
    assert(sum_buckets(b4) == sum_buckets(b3) + b[3]);
    assert(sum_buckets(b5) == sum_buckets(b4) + b[4]);
    assert(sum_buckets(b) == sum_buckets(b5) + b[5]);
}

/// A buyer whose per-tier ticket counts are covered by the recorded winner
/// counts is paid at most the sum of all buckets.
pub proof fn lemma_prize_sum_le_buckets(
    results: Seq<TicketResult>,
    buckets: Seq<u128>,
    winners: Seq<u64>,
)
    requires
        buckets.len() == 6,
        winners.len() == 6,
        forall|i: int| 0 <= i < results.len() ==> (#[trigger] results[i]).matches <= 6,
        forall|k: int| 1 <= k <= 6 ==> tier_count_results(results, k) <= winners[k - 1],
    ensures
        prize_sum(results, buckets, winners) <= sum_buckets(buckets),
{
    lemma_prize_sum_tierwise(results, buckets, winners);
    lemma_sum_buckets6(buckets);
    lemma_tier_take_le_bucket(
        tier_count_results(results, 1) as int,
        buckets[0] as int,
        winners[0] as int,
    );
    lemma_tier_take_le_bucket(
        tier_count_results(results, 2) as int,
        buckets[1] as int,
        winners[1] as int,
    );
    lemma_tier_take_le_bucket(
        tier_count_results(results, 3) as int,
        buckets[2] as int,
        winners[2] as int,
    );
    lemma_tier_take_le_bucket(
        tier_count_results(results, 4) as int,
        buckets[3] as int,
        winners[3] as int,
    );
    lemma_tier_take_le_bucket(
        tier_count_results(results, 5) as int,
        buckets[4] as int,
        winners[4] as int,
    );
    lemma_tier_take_le_bucket(
        tier_count_results(results, 6) as int,
        buckets[5] as int,
        winners[5] as int,
    );
}

/// Checked tickets mirror their source tickets, so their tier counts are
/// the tier counts of the tickets themselves.
pub proof fn lemma_tier_count_is_tickets_matching(
    results: Seq<TicketResult>,
    tickets: Seq<Seq<char>>,
    winning: Seq<char>,
    k: int,
)
    requires
        1 <= k <= 6,
        results.len() == tickets.len(),
        forall|i: int|
            0 <= i < results.len() ==> (#[trigger] results[i]).matches == match_count(
                winning,
                tickets[i],
            ),
    ensures
        tier_count_results(results, k) == tickets_matching(tickets, winning, k as nat),
    decreases results.len(),
{
    if results.len() > 0 {
        assert(forall|i: int|
            0 <= i < results.len() - 1 ==> (#[trigger] results.drop_last()[i]) == results[i]);
        assert(forall|i: int|
            0 <= i < tickets.len() - 1 ==> (#[trigger] tickets.drop_last()[i]) == tickets[i]);
        lemma_tier_count_is_tickets_matching(
            results.drop_last(),
            tickets.drop_last(),
            winning,
            k,
        );
    }
}

/// Any prefix of payouts is at most the whole payout.
pub proof fn lemma_prize_sum_take_le(
    results: Seq<TicketResult>,
    buckets: Seq<u128>,
    winners: Seq<u64>,
    j: int,
)
    requires
        buckets.len() == 6,
        winners.len() == 6,
        0 <= j <= results.len(),
        forall|i: int| 0 <= i < results.len() ==> (#[trigger] results[i]).matches <= 6,
        forall|i: int|
            0 <= i < results.len() ==> ((#[trigger] results[i]).matches > 0 ==> winners[results[i].matches
                - 1] >= 1),
    ensures
        prize_sum(results.take(j), buckets, winners) <= prize_sum(results, buckets, winners),
    decreases results.len(),
{
    if j == results.len() {
        assert(results.take(j) =~= results);
    } else {
        assert(results.drop_last().take(j) =~= results.take(j));
        assert(forall|i: int|
            0 <= i < results.len() - 1 ==> (#[trigger] results.drop_last()[i]) == results[i]);
        lemma_prize_sum_take_le(results.drop_last(), buckets, winners, j);
        let t = results.last();
        if t.matches > 0 {
            lemma_div_pos_is_pos(buckets[t.matches - 1] as int, winners[t.matches - 1] as int);
        }
    }
}

/// Total one buyer is owed: for each checked ticket in match tier `m > 0`,
/// that tier's bucket divided evenly among the tier's winners; nothing for
/// tickets that matched nothing.
pub fn calculate_tickets_prize(
    tickets: Vec<TicketResult>,
    prize_per_match: [u128; 6],
    winners_per_match: [u64; 6],
    denom: String,
) -> (r: Coin)
    requires
        forall|i: int| 0 <= i < tickets@.len() ==> (#[trigger] tickets@[i]).matches <= 6,
        forall|i: int|
            0 <= i < tickets@.len() ==> ((#[trigger] tickets@[i]).matches > 0
                ==> winners_per_match@[tickets@[i].matches - 1] >= 1),
        prize_sum(tickets@, prize_per_match@, winners_per_match@) <= u128::MAX,
    ensures
        r.amount == prize_sum(tickets@, prize_per_match@, winners_per_match@),
        r.denom == denom,
{
    let mut acc: u128 = 0;
    let mut j: usize = 0;
    proof {
        assert(tickets@.take(0) =~= Seq::<TicketResult>::empty());
    }
    while j < tickets.len()
        invariant
            0 <= j <= tickets@.len(),
            forall|i: int| 0 <= i < tickets@.len() ==> (#[trigger] tickets@[i]).matches <= 6,
            forall|i: int|
                0 <= i < tickets@.len() ==> ((#[trigger] tickets@[i]).matches > 0
                    ==> winners_per_match@[tickets@[i].matches - 1] >= 1),
            prize_sum(tickets@, prize_per_match@, winners_per_match@) <= u128::MAX,
            acc == prize_sum(tickets@.take(j as int), prize_per_match@, winners_per_match@),
        decreases tickets@.len() - j,
    {
        let t = &tickets[j];
        proof {
            assert(tickets@.take(j as int + 1).drop_last() =~= tickets@.take(j as int));
            assert(tickets@.take(j as int + 1).last() == tickets@[j as int]);
            lemma_prize_sum_take_le(tickets@, prize_per_match@, winners_per_match@, j as int + 1);
            lemma_no_overpayment(tickets@.take(j as int), prize_per_match@, winners_per_match@);
        }
        if t.matches > 0 {
            let idx = (t.matches - 1) as usize;
            let ticket_prize = prize_per_match[idx] / (winners_per_match[idx] as u128);
            acc = acc + ticket_prize;
        }
        j = j + 1;
    }
    proof {
        assert(tickets@.take(tickets@.len() as int) =~= tickets@);
    }
    Coin { denom, amount: acc }
}

/// What a ticket in match tier `m` pays: its tier's bucket divided evenly
/// among that tier's winners, nothing for no matches.
pub open spec fn payout_of(m: nat, buckets: Seq<u128>, winners: Seq<u64>) -> int {
    if m == 0 {
        0
    } else {
        buckets[m - 1] as int / winners[m - 1] as int
    }
}

/// Total payout a list of tickets earns against a winning number.
pub open spec fn tickets_prize(
    tickets: Seq<Seq<char>>,
    winner: Seq<char>,
    buckets: Seq<u128>,
    winners: Seq<u64>,
) -> int
    decreases tickets.len(),
{
    if tickets.len() == 0 {
        0
    } else {
        tickets_prize(tickets.drop_last(), winner, buckets, winners) + payout_of(
            match_count(winner, tickets.last()),
            buckets,
            winners,
        )
    }
}

/// Checked tickets mirror their source tickets, so their total payout is
/// the payout of the tickets themselves.
pub proof fn lemma_prize_sum_is_tickets_prize(
    results: Seq<TicketResult>,
    tickets: Seq<Seq<char>>,
    winner: Seq<char>,
    buckets: Seq<u128>,
    winners: Seq<u64>,
)
    requires
        results.len() == tickets.len(),
        forall|i: int|
            0 <= i < results.len() ==> (#[trigger] results[i]).matches == match_count(
                winner,
                tickets[i],
            ),
    ensures
        prize_sum(results, buckets, winners) == tickets_prize(tickets, winner, buckets, winners),
    decreases results.len(),
{
    if results.len() > 0 {
        assert(forall|i: int|
            0 <= i < results.len() - 1 ==> (#[trigger] results.drop_last()[i]) == results[i]);
        assert(forall|i: int|
            0 <= i < tickets.len() - 1 ==> (#[trigger] tickets.drop_last()[i]) == tickets[i]);
        lemma_prize_sum_is_tickets_prize(
            results.drop_last(),
            tickets.drop_last(),
            winner,
            buckets,
            winners,
        );
    }
}

/// A ticket's own tier has at least one counted winner: the ticket itself.
pub proof fn lemma_tickets_matching_at(tickets: Seq<Seq<char>>, winning: Seq<char>, i: int)
    requires
        0 <= i < tickets.len(),
    ensures
        tickets_matching(tickets, winning, match_count(winning, tickets[i])) >= 1,
    decreases tickets.len(),
{
    if i == tickets.len() - 1 {
        assert(tickets.last() == tickets[i]);
    } else {
        assert(tickets.drop_last()[i] == tickets[i]);
        lemma_tickets_matching_at(tickets.drop_last(), winning, i);
    }
}

/// The point at which something started now expires: the current block
/// position plus the interval.
pub fn build_expiration_time(block: &BlockInfo, duration: Interval) -> (r: Expiration)
    requires
        expiration_fits(*block, duration),
    ensures
        r == spec_expiration_time(*block, duration),
{
    match duration {
        Interval::Height(d) => Expiration::AtHeight(block.height + d),
        Interval::Time(d) => Expiration::AtTime(block.time + d),
    }
}

/// The expiration point an interval yields from a block position.
pub open spec fn spec_expiration_time(block: BlockInfo, duration: Interval) -> Expiration {
    match duration {
        Interval::Height(d) => Expiration::AtHeight((block.height + d) as u64),
        Interval::Time(d) => Expiration::AtTime((block.time + d) as u64),
    }
}

} // verus!
