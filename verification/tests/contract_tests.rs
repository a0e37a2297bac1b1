use super_star::contract::{
    buy_tickets, check_winner, claim_prize, get_config, get_current_draw, get_draw, get_tickets,
    instantiate, receive_randomness, request_randomness, update_config,
};
use super_star::error::ContractError;
use super_star::helpers::{calculate_matches, calculate_prize_distribution};
use super_star::msg::{InstantiateMsg, MessageInfo, NoisCallback, UpdateConfigMsg};
use super_star::state::{BlockInfo, Coin, Interval, State, Status};

const ADMIN_ADDR: &str = "admin";
const PARTICIPANT_ADDR: &str = "participant";
const NOIS_ADDR: &str = "nois";
const DENOM: &str = "udenom";
const MAX_TICKETS: u32 = 10;
const TICKET_PRICE: u128 = 1000;

const RANDOMNESS: [u8; 32] = [
    88, 85, 86, 91, 61, 64, 60, 71, 234, 24, 246, 200, 35, 73, 38, 187, 54, 59, 96, 9, 237, 27,
    215, 103, 148, 230, 28, 48, 51, 114, 203, 219,
];

fn coin(amount: u128, denom: &str) -> Coin {
    Coin {
        denom: denom.to_string(),
        amount,
    }
}

fn mock_env() -> BlockInfo {
    BlockInfo {
        height: 12_345,
        time: 1_571_797_419,
    }
}

/// A block far enough in the future that the first draw has expired.
fn expired_env() -> BlockInfo {
    BlockInfo {
        height: 12_345,
        time: 1_571_797_419 + 61,
    }
}

fn mock_info(sender: &str, funds: &[Coin]) -> MessageInfo {
    MessageInfo {
        sender: sender.to_string(),
        funds: funds.to_vec(),
    }
}

fn do_instantaite() -> State {
    let info = mock_info(ADMIN_ADDR, &[]);
    let env = mock_env();

    let instantiate_msg = InstantiateMsg {
        draw_interval: Interval::Time(60),
        max_tickets_per_user: MAX_TICKETS,
        nois_proxy: NOIS_ADDR.to_string(),
        percentage_per_match: [3, 6, 8, 15, 25, 40],
        ticket_price: coin(TICKET_PRICE, DENOM),
        treasury_fee: 3,
        request_timeout: Interval::Time(120),
    };

    instantiate(instantiate_msg, info, &env)
}

/// The winning number the shared test seed fixes, computed the same way
/// the engine does.
fn expected_winner_number() -> String {
    let digits: Vec<u8> = nois::ints_in_range(RANDOMNESS, 6, 0, 9);
    digits
        .into_iter()
        .fold(String::new(), |acc, d| acc + &d.to_string())
}

/// Drive draw 1 from open to pending at an expired block.
fn close_first_draw(state: &mut State) {
    request_randomness(state, &expired_env(), 1).unwrap();
}

/// Drive draw 1 all the way to claimable with the shared test seed.
fn settle_first_draw(state: &mut State) {
    close_first_draw(state);
    receive_randomness(
        state,
        mock_info(NOIS_ADDR, &[]),
        NoisCallback {
            job_id: "1".to_string(),
            randomness: RANDOMNESS.to_vec(),
        },
    )
    .unwrap();
}

#[test]
fn cannot_buy_tickets_when_draw_is_not_open() {
    let mut state = do_instantaite();

    close_first_draw(&mut state);

    let err = buy_tickets(
        &mut state,
        &mock_env(),
        mock_info(PARTICIPANT_ADDR, &[]),
        vec!["".to_string()],
        1,
    )
    .unwrap_err();

    assert_eq!(err, ContractError::DrawIsNotOpen);
}

#[test]
fn cannot_buy_tickets_when_draw_is_expired() {
    let mut state = do_instantaite();

    let err = buy_tickets(
        &mut state,
        &expired_env(),
        mock_info(PARTICIPANT_ADDR, &[]),
        vec!["".to_string()],
        1,
    )
    .unwrap_err();

    assert_eq!(err, ContractError::DrawIsNotOpen);
}

#[test]
fn cannot_buy_tickets_than_max_tickets_per_user() {
    let mut state = do_instantaite();

    let err = buy_tickets(
        &mut state,
        &mock_env(),
        mock_info(PARTICIPANT_ADDR, &[]),
        vec!["".to_string(); MAX_TICKETS as usize + 1],
        1,
    )
    .unwrap_err();

    assert_eq!(err, ContractError::MaxTicketsPerUserExceeded);
}

#[test]
fn cannot_buy_tickets_when_sending_invalid_tickets() {
    let mut state = do_instantaite();

    let err = buy_tickets(
        &mut state,
        &mock_env(),
        mock_info(PARTICIPANT_ADDR, &[]),
        vec!["invalid".to_string()],
        1,
    )
    .unwrap_err();

    assert_eq!(err, ContractError::InvalidTicket);

    let err = buy_tickets(
        &mut state,
        &mock_env(),
        mock_info(PARTICIPANT_ADDR, &[]),
        vec!["1234".to_string()],
        1,
    )
    .unwrap_err();

    assert_eq!(err, ContractError::InvalidTicket);
}

#[test]
fn cannot_buy_tickets_when_not_provide_enough_funds() {
    let mut state = do_instantaite();

    let err = buy_tickets(
        &mut state,
        &mock_env(),
        mock_info(PARTICIPANT_ADDR, &[coin(TICKET_PRICE, "other")]),
        vec!["123456".to_string()],
        1,
    )
    .unwrap_err();

    assert_eq!(err, ContractError::InvalidDenom);

    let err = buy_tickets(
        &mut state,
        &mock_env(),
        mock_info(PARTICIPANT_ADDR, &[coin(0, DENOM)]),
        vec!["123456".to_string()],
        1,
    )
    .unwrap_err();

    assert_eq!(err, ContractError::InvalidAmount);
}

#[test]
fn once_purchased_ticktes_should_be_able_to_query_them() {
    let mut state = do_instantaite();
    let tickets = vec!["123456".to_string()];

    buy_tickets(
        &mut state,
        &mock_env(),
        mock_info(PARTICIPANT_ADDR, &[coin(TICKET_PRICE, DENOM)]),
        tickets.clone(),
        1,
    )
    .unwrap();

    let btickets = get_tickets(&state, 1, PARTICIPANT_ADDR.to_string());

    assert_eq!(tickets, btickets);
}

#[test]
fn once_purchased_ticktes_it_should_update_prizes() {
    let mut state = do_instantaite();
    let tickets = vec!["123456".to_string()];

    let draw = get_current_draw(&state);

    assert_eq!(draw.prize_per_match, Some([0u128; 6]));
    assert_eq!(draw.total_tickets, 0);
    assert_eq!(draw.total_prize.amount, 0);

    buy_tickets(
        &mut state,
        &mock_env(),
        mock_info(PARTICIPANT_ADDR, &[coin(TICKET_PRICE, DENOM)]),
        tickets.clone(),
        1,
    )
    .unwrap();

    let draw = get_current_draw(&state).clone();
    let config = get_config(&state);

    let expected_prize_per_match =
        calculate_prize_distribution(draw.total_prize.amount, config.percentage_per_match);

    assert_eq!(draw.total_tickets, 1);
    assert_eq!(
        draw.total_prize.amount,
        TICKET_PRICE * tickets.len() as u128
    );
    assert_eq!(draw.prize_per_match, Some(expected_prize_per_match))
}

#[test]
fn cannot_execute_draw_if_is_not_expired() {
    let mut state = do_instantaite();

    let err = request_randomness(&mut state, &mock_env(), 1).unwrap_err();

    assert_eq!(err, ContractError::DrawStillOpen);
}

#[test]
fn execute_draw_should_work() {
    let mut state = do_instantaite();

    let job_id = request_randomness(&mut state, &expired_env(), 1).unwrap();

    assert_eq!(job_id, "1".to_string());

    let draw = get_draw(&state, 1).unwrap();

    assert_eq!(draw.status, Status::Pending);
}

#[test]
fn only_nois_can_execute_receive_randomness() {
    let mut state = do_instantaite();

    let err = receive_randomness(
        &mut state,
        mock_info(PARTICIPANT_ADDR, &[]),
        NoisCallback {
            job_id: "1".to_string(),
            randomness: RANDOMNESS.to_vec(),
        },
    )
    .unwrap_err();

    assert_eq!(err, ContractError::Unauthorized);
}

#[test]
fn execute_receive_randomness_should_work() {
    let mut state = do_instantaite();
    let winner_number = expected_winner_number();

    let tickets = vec!["123456".to_string()];

    buy_tickets(
        &mut state,
        &mock_env(),
        mock_info(PARTICIPANT_ADDR, &[coin(TICKET_PRICE, DENOM)]),
        tickets.clone(),
        1,
    )
    .unwrap();

    settle_first_draw(&mut state);

    let draw = get_draw(&state, 1).unwrap();

    assert_eq!(draw.status, Status::Claimable);
    assert_eq!(draw.winner_number, Some(winner_number));
    assert_eq!(draw.total_tickets, 1);
    assert_eq!(
        draw.total_prize,
        coin(TICKET_PRICE * tickets.len() as u128, DENOM)
    );
}

#[test]
fn calculate_matches_should_return_match_same_position() {
    let winning_ticket = "123456";
    let ticket = "234561";

    let matches = calculate_matches(winning_ticket, ticket);
    assert_eq!(matches, 0);

    let winning_ticket = "123456";
    let ticket = "143456";

    let matches = calculate_matches(winning_ticket, ticket);
    assert_eq!(matches, 1);

    let winning_ticket = "123456";
    let ticket = "123456";

    let matches = calculate_matches(winning_ticket, ticket);
    assert_eq!(matches, 6)
}

#[test]
fn check_winner_when_empty() {
    let mut state = do_instantaite();

    settle_first_draw(&mut state);

    let result = check_winner(&state, "addr".to_string(), 1).unwrap();
    assert_eq!(result, vec![]);
}

#[test]
fn closing_a_draw_opens_its_successor() {
    let mut state = do_instantaite();

    close_first_draw(&mut state);

    let successor = get_current_draw(&state);
    assert_eq!(successor.id, 2);
    assert_eq!(successor.status, Status::Open);
    assert_eq!(successor.total_prize.amount, 0);
}

#[test]
fn cannot_request_randomness_twice_while_request_is_fresh() {
    let mut state = do_instantaite();

    close_first_draw(&mut state);

    let err = request_randomness(&mut state, &expired_env(), 1).unwrap_err();
    assert_eq!(err, ContractError::RandomnessAlreadyRequested);
}

#[test]
fn unauthorized_delivery_leaves_the_draw_unchanged() {
    let mut state = do_instantaite();
    close_first_draw(&mut state);

    let err = receive_randomness(
        &mut state,
        mock_info(PARTICIPANT_ADDR, &[]),
        NoisCallback {
            job_id: "1".to_string(),
            randomness: RANDOMNESS.to_vec(),
        },
    )
    .unwrap_err();

    assert_eq!(err, ContractError::Unauthorized);
    let draw = get_draw(&state, 1).unwrap();
    assert_eq!(draw.status, Status::Pending);
    assert_eq!(draw.winner_number, None);
    assert_eq!(draw.winners_per_match, None);
}

#[test]
fn cannot_deliver_randomness_to_an_open_draw() {
    let mut state = do_instantaite();

    let err = receive_randomness(
        &mut state,
        mock_info(NOIS_ADDR, &[]),
        NoisCallback {
            job_id: "1".to_string(),
            randomness: RANDOMNESS.to_vec(),
        },
    )
    .unwrap_err();

    assert_eq!(err, ContractError::DrawIsNotPending);
}

#[test]
fn second_delivery_for_a_settled_draw_is_rejected() {
    let mut state = do_instantaite();

    settle_first_draw(&mut state);
    let before = get_draw(&state, 1).unwrap().clone();

    let err = receive_randomness(
        &mut state,
        mock_info(NOIS_ADDR, &[]),
        NoisCallback {
            job_id: "1".to_string(),
            randomness: RANDOMNESS.to_vec(),
        },
    )
    .unwrap_err();

    assert_eq!(err, ContractError::DrawIsNotPending);
    assert_eq!(get_draw(&state, 1).unwrap(), &before);
}

#[test]
fn malformed_deliveries_are_rejected() {
    let mut state = do_instantaite();
    close_first_draw(&mut state);

    let err = receive_randomness(
        &mut state,
        mock_info(NOIS_ADDR, &[]),
        NoisCallback {
            job_id: "not a number".to_string(),
            randomness: RANDOMNESS.to_vec(),
        },
    )
    .unwrap_err();
    assert_eq!(err, ContractError::InvalidRandomness);

    let err = receive_randomness(
        &mut state,
        mock_info(NOIS_ADDR, &[]),
        NoisCallback {
            job_id: "1".to_string(),
            randomness: vec![7; 16],
        },
    )
    .unwrap_err();
    assert_eq!(err, ContractError::InvalidRandomness);

    let err = receive_randomness(
        &mut state,
        mock_info(NOIS_ADDR, &[]),
        NoisCallback {
            job_id: "99".to_string(),
            randomness: RANDOMNESS.to_vec(),
        },
    )
    .unwrap_err();
    assert_eq!(err, ContractError::DrawNotFound);
}

#[test]
fn buying_into_an_unknown_draw_fails() {
    let mut state = do_instantaite();

    let err = buy_tickets(
        &mut state,
        &mock_env(),
        mock_info(PARTICIPANT_ADDR, &[coin(TICKET_PRICE, DENOM)]),
        vec!["123456".to_string()],
        99,
    )
    .unwrap_err();

    assert_eq!(err, ContractError::DrawNotFound);
}

#[test]
fn failed_purchase_records_no_tickets() {
    let mut state = do_instantaite();

    let err = buy_tickets(
        &mut state,
        &mock_env(),
        mock_info(PARTICIPANT_ADDR, &[]),
        vec!["123456".to_string(); MAX_TICKETS as usize + 1],
        1,
    )
    .unwrap_err();

    assert_eq!(err, ContractError::MaxTicketsPerUserExceeded);
    let tickets = get_tickets(&state, 1, PARTICIPANT_ADDR.to_string());
    assert!(tickets.is_empty());
    assert_eq!(get_current_draw(&state).total_tickets, 0);
}

#[test]
fn buckets_follow_the_percentage_table() {
    let mut state = do_instantaite();

    buy_tickets(
        &mut state,
        &mock_env(),
        mock_info(PARTICIPANT_ADDR, &[coin(TICKET_PRICE, DENOM)]),
        vec!["123456".to_string()],
        1,
    )
    .unwrap();

    let draw = get_current_draw(&state);
    assert_eq!(draw.total_prize, coin(1000, DENOM));
    assert_eq!(draw.prize_per_match, Some([30, 60, 80, 150, 250, 400]));
}

#[test]
fn prize_distribution_is_deterministic() {
    let first = calculate_prize_distribution(987_654_321, [3, 6, 8, 15, 25, 40]);
    let second = calculate_prize_distribution(987_654_321, [3, 6, 8, 15, 25, 40]);
    assert_eq!(first, second);
    assert_eq!(first[0], 987_654_321 * 3 / 100);
    assert_eq!(first[5], 987_654_321 * 40 / 100);
}

#[test]
fn matches_require_a_shared_prefix() {
    assert_eq!(calculate_matches("654321", "123456"), 0);
}

#[test]
fn claiming_without_matches_pays_nothing() {
    let mut state = do_instantaite();
    let winner = expected_winner_number();

    // A ticket that certainly misses: flip the winning number's first digit.
    let first = winner.as_bytes()[0];
    let flipped = if first == b'9' { b'0' } else { first + 1 };
    let mut losing = winner.clone().into_bytes();
    losing[0] = flipped;
    let losing = String::from_utf8(losing).unwrap();

    buy_tickets(
        &mut state,
        &mock_env(),
        mock_info(PARTICIPANT_ADDR, &[coin(TICKET_PRICE, DENOM)]),
        vec![losing],
        1,
    )
    .unwrap();

    settle_first_draw(&mut state);

    let err = claim_prize(&mut state, mock_info(PARTICIPANT_ADDR, &[]), 1).unwrap_err();
    assert_eq!(err, ContractError::NoPrizeToClaim);
}

#[test]
fn a_full_match_claims_the_top_bucket_exactly_once() {
    let mut state = do_instantaite();
    let winner = expected_winner_number();

    buy_tickets(
        &mut state,
        &mock_env(),
        mock_info(PARTICIPANT_ADDR, &[coin(TICKET_PRICE, DENOM)]),
        vec![winner.clone()],
        1,
    )
    .unwrap();

    settle_first_draw(&mut state);

    // Pot 1000, six matches: the whole 40% bucket goes to the only winner.
    let prize = claim_prize(&mut state, mock_info(PARTICIPANT_ADDR, &[]), 1).unwrap();
    assert_eq!(prize, coin(400, DENOM));

    let err = claim_prize(&mut state, mock_info(PARTICIPANT_ADDR, &[]), 1).unwrap_err();
    assert_eq!(err, ContractError::PrizeAlreadyClaimed);
}

#[test]
fn claims_need_a_settled_draw_and_recorded_tickets() {
    let mut state = do_instantaite();

    let err = claim_prize(&mut state, mock_info(PARTICIPANT_ADDR, &[]), 1).unwrap_err();
    assert_eq!(err, ContractError::DrawIsNotClaimable);

    settle_first_draw(&mut state);

    let err = claim_prize(&mut state, mock_info(PARTICIPANT_ADDR, &[]), 1).unwrap_err();
    assert_eq!(err, ContractError::NoTicketsFound);

    let err = claim_prize(&mut state, mock_info(PARTICIPANT_ADDR, &[]), 7).unwrap_err();
    assert_eq!(err, ContractError::DrawNotFound);
}

#[test]
fn only_the_owner_may_update_the_config() {
    let mut state = do_instantaite();

    let msg = UpdateConfigMsg {
        treasury_fee: None,
        ticket_price: None,
        interval: None,
        request_timeout: None,
        nois_proxy: None,
        max_tickets_per_user: Some(3),
        percentage_per_match: None,
    };

    let err = update_config(&mut state, mock_info(PARTICIPANT_ADDR, &[]), msg.clone()).unwrap_err();
    assert_eq!(err, ContractError::Unauthorized);

    update_config(&mut state, mock_info(ADMIN_ADDR, &[]), msg).unwrap();
    assert_eq!(get_config(&state).max_tickets_per_user, 3);
    assert_eq!(get_config(&state).treasury_fee, 3);
}

#[test]
fn settlement_rolls_unwon_buckets_into_the_next_draw() {
    let mut state = do_instantaite();
    let winner = expected_winner_number();

    // A ticket that misses everything leaves all six buckets unwon.
    let first = winner.as_bytes()[0];
    let flipped = if first == b'9' { b'0' } else { first + 1 };
    let mut losing = winner.clone().into_bytes();
    losing[0] = flipped;
    let losing = String::from_utf8(losing).unwrap();

    buy_tickets(
        &mut state,
        &mock_env(),
        mock_info(PARTICIPANT_ADDR, &[coin(TICKET_PRICE, DENOM)]),
        vec![losing],
        1,
    )
    .unwrap();

    settle_first_draw(&mut state);

    // Buckets 30+60+80+150+250+400 = 970 roll over; the treasury takes
    // 3% of 970 = 29, and the successor draw starts with the rest.
    let successor = get_current_draw(&state);
    assert_eq!(successor.id, 2);
    assert_eq!(successor.total_prize.amount, 970 - 29);
}

#[test]
fn check_winner_reports_the_settled_matches() {
    let mut state = do_instantaite();
    let winner = expected_winner_number();

    buy_tickets(
        &mut state,
        &mock_env(),
        mock_info(PARTICIPANT_ADDR, &[coin(TICKET_PRICE, DENOM)]),
        vec![winner.clone()],
        1,
    )
    .unwrap();

    settle_first_draw(&mut state);

    let results = check_winner(&state, PARTICIPANT_ADDR.to_string(), 1).unwrap();
    assert_eq!(results.len(), 1);
    assert_eq!(results[0].ticket_number, winner);
    assert_eq!(results[0].matches, 6);
}
