use cctp_forwarder::common::{BlockInfo, Coin, Response, StdFailure, SubMsgOutcome};
use cctp_forwarder::forward::{
    balance_denom, execute, instantiate, query, query_requests, reply, ContractError, ExecuteMsg, ForwardMsg,
    ForwardState, InstantiateMsg, MintIndexEntry, QueryAnswer, QueryMsg, RequestOrder, RequestStatus, TransferRequest,
};
use cosmwasm_std::StdError;

const RELAYER: &str = "inj1skip000000000000000000000000000000000";
const OWNER: &str = "inj1owner000000000000000000000000000000000";
const ENTRY: &str = "inj1entry00000000000000000000000000000000";
const REFUND: &str = "inj1refund0000000000000000000000000000000";

fn coin(amount: u128, denom: &str) -> Coin {
    Coin { denom: denom.to_string(), amount }
}

fn block() -> BlockInfo {
    BlockInfo { height: 12_345, tx_index: Some(3) }
}

fn instantiate_msg(owner: Option<&str>) -> InstantiateMsg {
    InstantiateMsg {
        sender_addr: "0xsender".to_string(),
        recipient_addr: "dydx1recipient".to_string(),
        dest_chain: "dydx-mainnet-1".to_string(),
        refund_addr: REFUND.to_string(),
        skip_relayer_addr: RELAYER.to_string(),
        skip_entrypoint_addr: ENTRY.to_string(),
        owner: owner.map(|o| o.to_string()),
    }
}

fn fresh() -> ForwardState {
    instantiate(&"creator".to_string(), instantiate_msg(Some(OWNER)), Ok(()), Ok(()), Ok(()), Ok(())).unwrap().0
}

fn run(state: &mut ForwardState, balances: &[Coin], sender: &str, msg: ExecuteMsg) -> Result<Response<ForwardMsg>, ContractError> {
    let sender = sender.to_string();
    let available = match balance_denom(state, &sender, &msg) {
        Some(denom) => Ok(balances.iter().find(|c| c.denom == denom).map(|c| c.amount).unwrap_or(0)),
        None => Ok(0),
    };
    execute(state, &sender, block(), msg, available)
}

fn transfer(mint: &str, amount: u128, hook: &str) -> ExecuteMsg {
    ExecuteMsg::TransferCall {
        mint_tx_hash: mint.to_string(),
        transfer_coin: coin(amount, "uusdc"),
        hook_data: hook.to_string(),
        destination_channel: "channel-7".to_string(),
    }
}

fn refund(mint: &str) -> ExecuteMsg {
    ExecuteMsg::Refund { mint_tx_hash: mint.to_string() }
}

fn abandon(mint: &str) -> ExecuteMsg {
    ExecuteMsg::Abandon { mint_tx_hash: mint.to_string() }
}

fn attrs<M>(resp: &Response<M>) -> Vec<(String, String)> {
    resp.attributes.iter().map(|a| (a.key.clone(), a.value.clone())).collect()
}

fn pairs(list: &[(&str, &str)]) -> Vec<(String, String)> {
    list.iter().map(|(k, v)| (k.to_string(), v.to_string())).collect()
}

fn status_of(state: &ForwardState, mint: &str) -> RequestStatus {
    match query(state, QueryMsg::RequestByMintTxHash { mint_tx_hash: mint.to_string() }) {
        Some(QueryAnswer::Request(r)) => r.request.status,
        other => panic!("unexpected answer: {other:?}"),
    }
}

#[test]
fn owner_defaults_to_instantiating_sender() {
    let (state, resp) =
        instantiate(&"creator".to_string(), instantiate_msg(None), Ok(()), Ok(()), Ok(()), Ok(())).unwrap();
    assert_eq!(state.config.owner, "creator");
    assert_eq!(state.next_request_id, 1);
    assert_eq!(
        attrs(&resp),
        pairs(&[
            ("action", "instantiate"),
            ("owner", "creator"),
            ("sender_addr", "0xsender"),
            ("recipient_addr", "dydx1recipient"),
            ("dest_chain", "dydx-mainnet-1"),
            ("skip_relayer_addr", RELAYER),
        ])
    );
}

#[test]
fn instantiate_reports_the_first_invalid_address() {
    let err = instantiate(
        &"creator".to_string(),
        instantiate_msg(Some(OWNER)),
        Ok(()),
        Err(StdError::generic_err("bad refund")),
        Err(StdError::generic_err("bad relayer")),
        Ok(()),
    )
    .unwrap_err();
    assert_eq!(err, ContractError::Std(StdFailure::Host(StdError::generic_err("bad refund"))));
}

#[test]
fn transfer_call_registers_request_under_its_mint_hash() {
    let mut state = fresh();
    let resp = run(&mut state, &[coin(100, "uusdc")], RELAYER, transfer("0xmint", 40, "{\"memo\":1}")).unwrap();
    assert_eq!(
        attrs(&resp),
        pairs(&[
            ("action", "transfer_call"),
            ("request_id", "1"),
            ("mint_tx_hash", "0xmint"),
            ("source_tx_height", "12345"),
            ("source_tx_index", "3"),
            ("destination_channel", "channel-7"),
            ("amount", "40"),
            ("denom", "uusdc"),
            ("status", "transfer"),
        ])
    );
    match query(&state, QueryMsg::RequestByMintTxHash { mint_tx_hash: "0xmint".to_string() }) {
        Some(QueryAnswer::Request(r)) => {
            assert_eq!(r.request.id, 1);
            assert_eq!(r.request.transfer_coin, coin(40, "uusdc"));
            assert_eq!(r.request.source_tx_height, 12_345);
            assert_eq!(r.request.source_tx_index, Some(3));
            assert_eq!(r.request.status, RequestStatus::Transfer);
        },
        other => panic!("unexpected answer: {other:?}"),
    }
    assert_eq!(state.next_request_id, 2);
}

#[test]
fn memo_is_the_hook_data_reencoded_as_json() {
    let mut state = fresh();
    let resp =
        run(&mut state, &[coin(100, "uusdc")], RELAYER, transfer("0xmint", 40, "{ \"b\": 1, \"a\": [true, null] }"))
            .unwrap();
    match &resp.messages[0].msg {
        ForwardMsg::EntrypointTransfer { contract_addr, msg, funds } => {
            assert_eq!(contract_addr, ENTRY);
            assert_eq!(funds, &vec![coin(40, "uusdc")]);
            assert_eq!(msg.transfer_call.memo, b"{\"a\":[true,null],\"b\":1}".to_vec());
            assert_eq!(msg.transfer_call.recipient, "dydx1recipient");
            assert_eq!(msg.transfer_call.destination_chain, "dydx-mainnet-1");
            assert_eq!(msg.transfer_call.destination_channel, "channel-7");
        },
        other => panic!("unexpected message: {other:?}"),
    }
}

#[test]
fn a_mint_hash_is_forwarded_once() {
    let mut state = fresh();
    run(&mut state, &[coin(100, "uusdc")], RELAYER, transfer("0xmint", 40, "{}")).unwrap();
    let err = run(&mut state, &[coin(100, "uusdc")], RELAYER, transfer("0xmint", 10, "{}")).unwrap_err();
    assert_eq!(err, ContractError::DuplicateMintTxHash);
    assert_eq!(state.requests.len(), 1);
    assert_eq!(state.next_request_id, 2);
}

#[test]
fn zero_amount_is_refused() {
    let mut state = fresh();
    let err = run(&mut state, &[coin(100, "uusdc")], RELAYER, transfer("0xmint", 0, "{}")).unwrap_err();
    assert_eq!(err, ContractError::NoFundsToForward);
}

#[test]
fn transfer_beyond_balance_is_refused_and_registers_nothing() {
    let mut state = fresh();
    let err = run(&mut state, &[coin(10, "uusdc")], RELAYER, transfer("0xmint", 40, "{}")).unwrap_err();
    assert_eq!(err, ContractError::InsufficientRequestFunds);
    assert!(state.requests.is_empty());
    assert_eq!(query(&state, QueryMsg::RequestByMintTxHash { mint_tx_hash: "0xmint".to_string() }), None);
}

#[test]
fn hook_data_must_be_json() {
    let mut state = fresh();
    let err = run(&mut state, &[coin(100, "uusdc")], RELAYER, transfer("0xmint", 40, "not json")).unwrap_err();
    assert_eq!(err, ContractError::MemoEncodeError);
}

#[test]
fn failed_forward_can_be_refunded_then_abandoned() {
    let mut state = fresh();
    let balances = [coin(100, "uusdc")];
    run(&mut state, &balances, RELAYER, transfer("0xmint", 40, "{}")).unwrap();
    let resp = reply(&mut state, 1, SubMsgOutcome::Failure("entry point failed".to_string())).unwrap();
    assert_eq!(
        attrs(&resp),
        pairs(&[
            ("action", "transfer_call_reply"),
            ("request_id", "1"),
            ("status", "fail"),
            ("error", "entry point failed"),
        ])
    );
    assert_eq!(status_of(&state, "0xmint"), RequestStatus::Fail);

    let resp = run(&mut state, &balances, OWNER, refund("0xmint")).unwrap();
    assert_eq!(
        resp.messages[0].msg,
        ForwardMsg::BankSend { to_address: REFUND.to_string(), amount: vec![coin(40, "uusdc")] }
    );
    assert_eq!(status_of(&state, "0xmint"), RequestStatus::Refund);

    run(&mut state, &balances, RELAYER, abandon("0xmint")).unwrap();
    assert_eq!(status_of(&state, "0xmint"), RequestStatus::Abandon);
}

#[test]
fn successful_reply_leaves_the_request_as_it_is() {
    let mut state = fresh();
    run(&mut state, &[coin(100, "uusdc")], RELAYER, transfer("0xmint", 40, "{}")).unwrap();
    let resp = reply(&mut state, 1, SubMsgOutcome::Success { data: None }).unwrap();
    assert_eq!(attrs(&resp), pairs(&[("action", "transfer_call_reply"), ("request_id", "1"), ("status", "transfer")]));
    assert_eq!(status_of(&state, "0xmint"), RequestStatus::Transfer);
}

#[test]
fn failed_reply_for_unknown_request_is_refused() {
    let mut state = fresh();
    let err = reply(&mut state, 9, SubMsgOutcome::Failure("x".to_string())).unwrap_err();
    assert_eq!(err, ContractError::RequestNotFound);
}

#[test]
fn refund_rules() {
    let mut state = fresh();
    let balances = [coin(100, "uusdc")];
    run(&mut state, &balances, RELAYER, transfer("0xmint", 40, "{}")).unwrap();

    assert_eq!(run(&mut state, &balances, "intruder", refund("0xmint")).unwrap_err(), ContractError::Unauthorized);
    assert_eq!(run(&mut state, &balances, OWNER, refund("0xother")).unwrap_err(), ContractError::RequestNotFound);
    assert_eq!(
        run(&mut state, &[coin(39, "uusdc")], OWNER, refund("0xmint")).unwrap_err(),
        ContractError::InsufficientRequestFunds
    );
    assert_eq!(run(&mut state, &balances, OWNER, abandon("0xmint")).unwrap_err(), ContractError::InvalidStatusTransition);

    run(&mut state, &balances, OWNER, refund("0xmint")).unwrap();
    assert_eq!(run(&mut state, &balances, OWNER, refund("0xmint")).unwrap_err(), ContractError::InvalidStatusTransition);
    run(&mut state, &balances, OWNER, abandon("0xmint")).unwrap();
    assert_eq!(run(&mut state, &balances, OWNER, refund("0xmint")).unwrap_err(), ContractError::InvalidStatusTransition);
    assert_eq!(run(&mut state, &balances, OWNER, abandon("0xmint")).unwrap_err(), ContractError::InvalidStatusTransition);
}

#[test]
fn refund_of_one_request_leaves_the_others() {
    let mut state = fresh();
    let balances = [coin(100, "uusdc")];
    run(&mut state, &balances, RELAYER, transfer("0xa", 10, "{}")).unwrap();
    run(&mut state, &balances, RELAYER, transfer("0xb", 20, "{}")).unwrap();
    run(&mut state, &balances, OWNER, refund("0xa")).unwrap();
    assert_eq!(status_of(&state, "0xa"), RequestStatus::Refund);
    assert_eq!(status_of(&state, "0xb"), RequestStatus::Transfer);
}

#[test]
fn requests_are_paged_in_both_orders() {
    let mut state = fresh();
    let balances = [coin(1_000, "uusdc")];
    for mint in ["0x1", "0x2", "0x3"] {
        run(&mut state, &balances, RELAYER, transfer(mint, 10, "{}")).unwrap();
    }
    let ids = |order, start, limit| -> Vec<u64> {
        query_requests(&state, start, limit, order).requests.iter().map(|r| r.id).collect()
    };
    assert_eq!(ids(None, None, None), vec![1, 2, 3]);
    assert_eq!(ids(Some(RequestOrder::Asc), Some(1), Some(1)), vec![2]);
    assert_eq!(ids(Some(RequestOrder::Desc), None, Some(2)), vec![3, 2]);
    assert_eq!(ids(Some(RequestOrder::Desc), Some(3), None), vec![2, 1]);
    assert_eq!(ids(Some(RequestOrder::Asc), Some(3), None), Vec::<u64>::new());
    assert_eq!(ids(Some(RequestOrder::Asc), None, Some(0)), Vec::<u64>::new());
}

#[test]
fn hook_data_with_a_float_is_refused() {
    let mut state = fresh();
    let balances = [coin(100, "uusdc")];
    for hook in ["{\"a\":1.5}", "{\"a\":[1,{\"b\":2e3}]}", "{\"a\":18446744073709551616}"] {
        let err = run(&mut state, &balances, RELAYER, transfer("0xmint", 40, hook)).unwrap_err();
        assert_eq!(err, ContractError::MemoEncodeError, "{hook}");
    }
    assert!(state.requests.is_empty());
    // Integers within the 64-bit ranges are fine.
    run(&mut state, &balances, RELAYER, transfer("0xmint", 40, "{\"a\":-5,\"b\":18446744073709551615}")).unwrap();
    assert_eq!(state.requests.len(), 1);
}

#[test]
fn failure_reply_records_the_error() {
    let mut state = fresh();
    run(&mut state, &[coin(100, "uusdc")], RELAYER, transfer("0xmint", 40, "{}")).unwrap();
    assert_eq!(state.requests[0].error_msg, None);
    reply(&mut state, 1, SubMsgOutcome::Failure("out of gas".to_string())).unwrap();
    assert_eq!(state.requests[0].status, RequestStatus::Fail);
    assert_eq!(state.requests[0].error_msg, Some("out of gas".to_string()));
    assert_eq!(state.requests[0].mint_tx_hash, "0xmint");
}

fn stored_request(id: u64, mint: &str) -> TransferRequest {
    TransferRequest {
        id,
        mint_tx_hash: mint.to_string(),
        transfer_coin: coin(1, "uusdc"),
        source_tx_height: 1,
        source_tx_index: None,
        destination_channel: "channel-0".to_string(),
        status: RequestStatus::Transfer,
        hook_data: None,
        error_msg: None,
    }
}

fn entry(mint: &str, id: u64) -> MintIndexEntry {
    MintIndexEntry { mint_tx_hash: mint.to_string(), id }
}

#[test]
fn stored_state_is_checked_against_its_index() {
    let config = || fresh().config;
    let ok = ForwardState::from_parts(
        config(),
        3,
        vec![stored_request(1, "0xb"), stored_request(2, "0xa")],
        vec![entry("0xa", 2), entry("0xb", 1)],
    );
    assert!(ok.is_some());
    // Two requests under one hash: the index cannot list both.
    let dup = ForwardState::from_parts(
        config(),
        3,
        vec![stored_request(1, "0xa"), stored_request(2, "0xa")],
        vec![entry("0xa", 1)],
    );
    assert!(dup.is_none());
    // An index out of byte order is refused.
    let unsorted = ForwardState::from_parts(
        config(),
        3,
        vec![stored_request(1, "0xb"), stored_request(2, "0xa")],
        vec![entry("0xb", 1), entry("0xa", 2)],
    );
    assert!(unsorted.is_none());
    // A wrong next id is refused.
    assert!(ForwardState::from_parts(config(), 5, vec![stored_request(1, "0xa")], vec![entry("0xa", 1)]).is_none());
}
