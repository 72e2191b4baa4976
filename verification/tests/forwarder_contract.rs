use cctp_forwarder::common::{BlockInfo, Coin, Response};
use cctp_forwarder::forwarder::{
    execute, instantiate, query, to_injective_addr, transfer_call_coin, Config, ContractError, ExecuteMsg,
    ForwarderMsg, QueryMsg,
};
use cctp_forwarder::shared::{FactoryConfigResponse, ForwarderInstantiateMsg};

const FACTORY: &str = "factory0000000000000000000000000000000000";
const RELAYER: &str = "inj1g4d25sx8q7h7y98rpaqcc0w3gkkle9fl24gxpu";
const ENTRY: &str = "inj1uj67l73rn8ffzxryzf062ackzpfjfk0qnh7080";
const OWNER: &str = "inj1g4d25sx8q7h7y98rpaqcc0w3gkkle9fl24gxpu";
const RECIPIENT: &str = "dydx1recipient";
// 20-byte EVM address, converted to inj1 bech32 on refund
const SENDER: &str = "0x455AAA40C707AFE214E30f418C3DD145aDFC953F";
const FORWARDER_CODE_ID: u64 = 7;

fn coin(amount: u128, denom: &str) -> Coin {
    Coin { denom: denom.to_string(), amount }
}

/// The factory's answer to the config query.
fn factory_config() -> FactoryConfigResponse {
    FactoryConfigResponse {
        owner: OWNER.to_string(),
        forwarder_code_id: FORWARDER_CODE_ID,
        skip_relayer_addr: RELAYER.to_string(),
        skip_entrypoint_addr: ENTRY.to_string(),
    }
}

fn instantiate_msg() -> ForwarderInstantiateMsg {
    ForwarderInstantiateMsg {
        factory: FACTORY.to_string(),
        sender_addr: SENDER.to_string(),
        recipient_addr: RECIPIENT.to_string(),
        dest_chain: "dydx-mainnet-1".to_string(),
    }
}

fn instantiate_default() -> Config {
    let (config, _) = instantiate(&FACTORY.to_string(), instantiate_msg(), Ok(())).expect("instantiate should succeed");
    config
}

/// Runs `msg` as the contract would with `balances` in the bank.
fn run(config: &Config, balances: &[Coin], sender: &str, msg: ExecuteMsg) -> Result<Response<ForwarderMsg>, ContractError> {
    let sender = sender.to_string();
    let available = match &msg {
        ExecuteMsg::TransferCall { hook_data } => match transfer_call_coin(&Ok(factory_config()), &sender, hook_data.clone()) {
            Ok(c) => Ok(balances.iter().find(|b| b.denom == c.denom).map(|b| b.amount).unwrap_or(0)),
            Err(_) => Ok(0),
        },
        ExecuteMsg::Refund {} => Ok(0),
    };
    let all = Ok(balances.iter().map(|b| coin(b.amount, &b.denom)).collect());
    execute(config, Ok(factory_config()), &sender, BlockInfo { height: 100, tx_index: None }, msg, available, all)
}

#[test]
fn instantiate_rejects_factory_mismatch() {
    let res = instantiate(&"not-factory".to_string(), instantiate_msg(), Ok(()));
    assert_eq!(res.map(|_| ()), Err(ContractError::FactoryMismatch));
}

#[test]
fn contract_instantiate_and_query_config() {
    let config = instantiate_default();
    let answer = query(&config, QueryMsg::Config {}, Ok(factory_config())).expect("query");
    assert_eq!(answer.factory, FACTORY);
    assert_eq!(answer.sender_addr, SENDER);
    assert_eq!(answer.owner, OWNER);
}

#[test]
fn contract_transfer_call_requires_skip_relayer() {
    let config = instantiate_default();
    let res = run(&config, &[], "intruder", ExecuteMsg::TransferCall { hook_data: "{}".to_string() });
    assert_eq!(res, Err(ContractError::Unauthorized));
}

#[test]
fn transfer_call_forwards_to_entrypoint() {
    let config = instantiate_default();
    let balances = vec![coin(100, "uusdc")];
    let hook_data = r#"{"action_with_recover":{"sent_asset":{"native":{"denom":"uusdc","amount":"40"}},"timeout_timestamp":999999999999999999,"action":{"ibc_transfer":{"ibc_info":{"source_channel":"channel-0","receiver":"dydx1recipient","fee":null,"memo":"","recover_address":"cosmos1recover","encoding":null,"eureka_fee":null},"fee_swap":null}},"exact_out":false,"min_asset":{"native":{"denom":"uusdc","amount":"39"}},"recovery_addr":"cosmos1recover"}}"#;
    let res = run(&config, &balances, RELAYER, ExecuteMsg::TransferCall { hook_data: hook_data.to_string() })
        .expect("transfer_call should succeed");
    assert_eq!(res.messages.len(), 1);
    match &res.messages[0].msg {
        ForwarderMsg::WasmExecute { contract_addr, funds, .. } => {
            assert_eq!(contract_addr, ENTRY);
            assert_eq!(funds[0], coin(40, "uusdc"));
        },
        other => panic!("unexpected message: {other:?}"),
    }
}

#[test]
fn refund_sends_all_balances_to_sender() {
    let config = instantiate_default();
    let balances = vec![coin(500, "uusdc"), coin(100, "uatom")];
    let res = run(&config, &balances, OWNER, ExecuteMsg::Refund {}).expect("refund should succeed");
    assert_eq!(res.messages.len(), 1);
    match &res.messages[0].msg {
        ForwarderMsg::BankSend { to_address, amount } => {
            let expected = to_injective_addr(&SENDER.to_string()).expect("should convert SENDER to inj1");
            assert_eq!(to_address, &expected);
            assert!(amount.contains(&coin(500, "uusdc")));
            assert!(amount.contains(&coin(100, "uatom")));
        },
        other => panic!("unexpected message: {other:?}"),
    }
}

#[test]
fn refund_requires_owner_or_relayer() {
    let config = instantiate_default();
    let balances = vec![coin(100, "uusdc")];
    let err = run(&config, &balances, "intruder", ExecuteMsg::Refund {}).expect_err("should reject unauthorized caller");
    assert!(matches!(err, ContractError::Unauthorized));
}

#[test]
fn refund_fails_when_no_balance() {
    let config = instantiate_default();
    let err = run(&config, &[], OWNER, ExecuteMsg::Refund {}).expect_err("should fail with no funds");
    assert!(matches!(err, ContractError::NoFundsToForward));
}
