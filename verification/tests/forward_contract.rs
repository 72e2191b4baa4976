use cctp_forwarder::common::{BlockInfo, Coin, ReplyOn, SubMsgOutcome};
use cctp_forwarder::forward::{
    balance_denom, execute, instantiate, query, query_requests, reply, ContractError, ExecuteMsg, ForwardMsg,
    ForwardState, InstantiateMsg, QueryAnswer, QueryMsg, RequestOrder, RequestStatus,
};

const RELAYER: &str = "inj1skip000000000000000000000000000000000";
const OWNER: &str = "inj1owner000000000000000000000000000000000";
const ENTRY: &str = "inj1entry00000000000000000000000000000000";

fn coin(amount: u128, denom: &str) -> Coin {
    Coin { denom: denom.to_string(), amount }
}

fn block() -> BlockInfo {
    BlockInfo { height: 12_345, tx_index: Some(3) }
}

fn instantiate_default() -> ForwardState {
    let msg = InstantiateMsg {
        sender_addr: "0xsender".to_string(),
        recipient_addr: "dydx1recipient".to_string(),
        dest_chain: "dydx-mainnet-1".to_string(),
        refund_addr: "inj1refund0000000000000000000000000000000".to_string(),
        skip_relayer_addr: RELAYER.to_string(),
        skip_entrypoint_addr: ENTRY.to_string(),
        owner: Some(OWNER.to_string()),
    };
    let (state, _) = instantiate(&"creator".to_string(), msg, Ok(()), Ok(()), Ok(()), Ok(()))
        .expect("instantiate should succeed");
    state
}

/// Runs `msg` as the contract would with `balances` in the bank: the balance
/// of the denom that `balance_denom` names is handed to `execute`.
fn run(
    state: &mut ForwardState,
    balances: &[Coin],
    sender: &str,
    msg: ExecuteMsg,
) -> Result<cctp_forwarder::common::Response<ForwardMsg>, ContractError> {
    let sender = sender.to_string();
    let available = match balance_denom(state, &sender, &msg) {
        Some(denom) => Ok(balances.iter().find(|c| c.denom == denom).map(|c| c.amount).unwrap_or(0)),
        None => Ok(0),
    };
    execute(state, &sender, block(), msg, available)
}

fn transfer(mint: &str, amount: u128, hook: &str, channel: &str) -> ExecuteMsg {
    ExecuteMsg::TransferCall {
        mint_tx_hash: mint.to_string(),
        transfer_coin: coin(amount, "uusdc"),
        hook_data: hook.to_string(),
        destination_channel: channel.to_string(),
    }
}

fn status_of(state: &ForwardState, mint: &str) -> RequestStatus {
    match query(state, QueryMsg::RequestByMintTxHash { mint_tx_hash: mint.to_string() }) {
        Some(QueryAnswer::Request(r)) => r.request.status,
        other => panic!("unexpected answer: {other:?}"),
    }
}

#[test]
fn instantiate_and_query_config() {
    let state = instantiate_default();
    match query(&state, QueryMsg::Config {}) {
        Some(QueryAnswer::Config(config)) => assert_eq!(config.sender_addr, "0xsender"),
        other => panic!("unexpected answer: {other:?}"),
    }
}

#[test]
fn transfer_call_requires_skip_relayer() {
    let mut state = instantiate_default();
    let balances = vec![coin(100, "uusdc")];
    let res = run(&mut state, &balances, "intruder", transfer("0xmint-1", 100, "{\"route\":1}", "channel-42"));
    assert_eq!(res, Err(ContractError::Unauthorized));
}

#[test]
fn transfer_call_registers_and_forwards_requested_amount() {
    let mut state = instantiate_default();
    let balances = vec![coin(100, "uusdc")];
    let res = run(&mut state, &balances, RELAYER, transfer("0xmint-2", 40, "{\"memo\":\"hook-data\"}", "channel-7"))
        .expect("transfer_call should succeed");

    assert_eq!(res.messages.len(), 1);
    match &res.messages[0].msg {
        ForwardMsg::EntrypointTransfer { contract_addr, funds, .. } => {
            assert_eq!(contract_addr, ENTRY);
            assert_eq!(funds.len(), 1);
            assert_eq!(funds[0], coin(40, "uusdc"));
        },
        other => panic!("unexpected message: {other:?}"),
    }
    assert_eq!(res.messages[0].id, 1);
    assert_eq!(res.messages[0].reply_on, ReplyOn::Error);

    assert_eq!(status_of(&state, "0xmint-2"), RequestStatus::Transfer);

    let list = query_requests(&state, None, Some(10), Some(RequestOrder::Asc));
    assert_eq!(list.requests.len(), 1);
    assert_eq!(list.requests[0].mint_tx_hash, "0xmint-2");
}

#[test]
fn reply_marks_request_fail_on_skip_entrypoint_failure() {
    let mut state = instantiate_default();
    let balances = vec![coin(100, "uusdc")];
    run(&mut state, &balances, RELAYER, transfer("0xmint-fail", 30, "{\"memo\":\"hook-fail\"}", "channel-11"))
        .expect("transfer call should succeed");

    let _res = reply(&mut state, 1, SubMsgOutcome::Failure("skip entrypoint execute failed".to_string()))
        .expect("reply should not fail tx and must mark request as fail");

    assert_eq!(status_of(&state, "0xmint-fail"), RequestStatus::Fail);
}

#[test]
fn refund_and_abandon_are_request_scoped() {
    let mut state = instantiate_default();
    let balances = vec![coin(100, "uusdc")];
    run(&mut state, &balances, RELAYER, transfer("0xmint-refund", 25, "{\"memo\":\"hook-refund\"}", "channel-12"))
        .expect("transfer should succeed");

    let refund_res = run(&mut state, &balances, OWNER, ExecuteMsg::Refund { mint_tx_hash: "0xmint-refund".to_string() })
        .expect("refund should succeed");
    assert_eq!(refund_res.messages.len(), 1);

    run(&mut state, &balances, OWNER, ExecuteMsg::Abandon { mint_tx_hash: "0xmint-refund".to_string() })
        .expect("abandon should succeed after refund");

    assert_eq!(status_of(&state, "0xmint-refund"), RequestStatus::Abandon);
}

#[test]
fn refund_works_for_owner() {
    let mut state = instantiate_default();
    let balances = vec![coin(80, "uusdc")];
    let res = run(&mut state, &balances, RELAYER, transfer("0xmint-r-owner", 10, "{\"memo\":\"hook-owner\"}", "channel-8"))
        .expect("transfer should succeed");
    let refund_res = run(&mut state, &balances, OWNER, ExecuteMsg::Refund { mint_tx_hash: "0xmint-r-owner".to_string() })
        .expect("refund should succeed");
    assert_eq!(res.messages.len(), 1);
    assert_eq!(refund_res.messages.len(), 1);
}
