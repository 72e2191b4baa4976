use cctp_forwarder::common::{BlockInfo, Coin, ContractVersion, Response, StdFailure};
use cctp_forwarder::forwarder::{
    decode_hook_data, execute, instantiate, migrate, query, to_injective_addr, transfer_call_coin, Config,
    ContractError, ExecuteMsg, ForwarderMsg, MigrateMsg, QueryMsg, CONTRACT_NAME,
};
use cctp_forwarder::shared::{FactoryConfigResponse, ForwarderInstantiateMsg};
use cosmwasm_std::StdError;

const FACTORY: &str = "factory0000000000000000000000000000000000";
const RELAYER: &str = "inj1relayer";
const OWNER: &str = "inj1owner";
const ENTRY: &str = "inj1entry";
const SENDER: &str = "0x455AAA40C707AFE214E30f418C3DD145aDFC953F";
const SENDER_INJ: &str = "inj1g4d25sx8q7h7y98rpaqcc0w3gkkle9fl24gxpu";
const SENDER_COSMOS: &str = "cosmos1g4d25sx8q7h7y98rpaqcc0w3gkkle9flqulzny";

fn coin(amount: u128, denom: &str) -> Coin {
    Coin { denom: denom.to_string(), amount }
}

fn factory_config() -> FactoryConfigResponse {
    FactoryConfigResponse {
        owner: OWNER.to_string(),
        forwarder_code_id: 7,
        skip_relayer_addr: RELAYER.to_string(),
        skip_entrypoint_addr: ENTRY.to_string(),
    }
}

fn config_with_sender(sender_addr: &str) -> Config {
    let msg = ForwarderInstantiateMsg {
        factory: FACTORY.to_string(),
        sender_addr: sender_addr.to_string(),
        recipient_addr: "dydx1recipient".to_string(),
        dest_chain: "dydx-mainnet-1".to_string(),
    };
    instantiate(&FACTORY.to_string(), msg, Ok(())).unwrap().0
}

fn run(config: &Config, balances: &[Coin], sender: &str, msg: ExecuteMsg) -> Result<Response<ForwarderMsg>, ContractError> {
    let sender = sender.to_string();
    let available = match &msg {
        ExecuteMsg::TransferCall { hook_data } => {
            match transfer_call_coin(&Ok(factory_config()), &sender, hook_data.clone()) {
                Ok(c) => Ok(balances.iter().find(|b| b.denom == c.denom).map(|b| b.amount).unwrap_or(0)),
                Err(_) => Ok(0),
            }
        },
        ExecuteMsg::Refund {} => Ok(0),
    };
    let all = Ok(balances.iter().map(|b| coin(b.amount, &b.denom)).collect());
    execute(config, Ok(factory_config()), &sender, BlockInfo { height: 100, tx_index: None }, msg, available, all)
}

fn transfer(hook: &str) -> ExecuteMsg {
    ExecuteMsg::TransferCall { hook_data: hook.to_string() }
}

fn hook(top: &str, denom: &str, amount: &str) -> String {
    format!("{{\"{top}\":{{\"sent_asset\":{{\"native\":{{\"denom\":\"{denom}\",\"amount\":\"{amount}\"}}}}}}}}")
}

fn attrs<M>(resp: &Response<M>) -> Vec<(String, String)> {
    resp.attributes.iter().map(|a| (a.key.clone(), a.value.clone())).collect()
}

fn pairs(list: &[(&str, &str)]) -> Vec<(String, String)> {
    list.iter().map(|(k, v)| (k.to_string(), v.to_string())).collect()
}

#[test]
fn hex_marked_hook_data_is_decoded_and_forwarded_as_is() {
    let config = config_with_sender(SENDER);
    let text = hook("action", "uusdc", "40");
    for mark in ["0x", "0X"] {
        let marked = format!("{mark}{}", hex::encode(text.as_bytes()));
        let resp = run(&config, &[coin(100, "uusdc")], RELAYER, transfer(&marked)).unwrap();
        assert_eq!(
            resp.messages[0].msg,
            ForwarderMsg::WasmExecute {
                contract_addr: ENTRY.to_string(),
                msg: text.as_bytes().to_vec(),
                funds: vec![coin(40, "uusdc")],
            }
        );
        assert_eq!(
            attrs(&resp),
            pairs(&[("action", "transfer_call"), ("source_tx_height", "100"), ("source_tx_index", "0")])
        );
    }
}

#[test]
fn decode_hook_data_cases() {
    assert_eq!(decode_hook_data("0x7b7d".to_string()), Ok("{}".to_string()));
    assert_eq!(decode_hook_data("{\"a\":1}".to_string()), Ok("{\"a\":1}".to_string()));
    assert_eq!(decode_hook_data("0xzz".to_string()), Err(ContractError::MemoEncodeError));
    assert_eq!(decode_hook_data("0x7b7".to_string()), Err(ContractError::MemoEncodeError));
    assert_eq!(decode_hook_data("0xff".to_string()), Err(ContractError::MemoEncodeError));
    assert_eq!(decode_hook_data("0x".to_string()), Ok(String::new()));
}

#[test]
fn marked_or_plain_hook_data_must_be_json() {
    let config = config_with_sender(SENDER);
    assert_eq!(run(&config, &[], RELAYER, transfer("not json")).unwrap_err(), ContractError::MemoEncodeError);
    assert_eq!(run(&config, &[], RELAYER, transfer("0xzz")).unwrap_err(), ContractError::MemoEncodeError);
}

#[test]
fn only_action_keys_carry_a_sent_asset() {
    let config = config_with_sender(SENDER);
    let balances = [coin(100, "uusdc")];
    let recover = hook("action_with_recover", "uusdc", "5");
    assert!(run(&config, &balances, RELAYER, transfer(&recover)).is_ok());
    for bad in [
        hook("swap_and_action", "uusdc", "5"),
        "[1,2]".to_string(),
        "{\"action\":{}}".to_string(),
        "{\"action\":{\"sent_asset\":{}}}".to_string(),
        "{\"action\":{\"sent_asset\":{\"native\":{\"denom\":\"uusdc\",\"amount\":5}}}}".to_string(),
        hook("action", "uusdc", "five"),
        hook("action", "uusdc", "-5"),
    ] {
        assert_eq!(run(&config, &balances, RELAYER, transfer(&bad)).unwrap_err(), ContractError::InvalidHookData, "{bad}");
    }
}

#[test]
fn the_first_asset_type_is_used() {
    let config = config_with_sender(SENDER);
    let text = "{\"action\":{\"sent_asset\":{\"cw20\":{\"denom\":\"ucw\",\"amount\":\"2\"},\"native\":{\"denom\":\"uusdc\",\"amount\":\"3\"}}}}";
    let resp = run(&config, &[coin(10, "ucw"), coin(10, "uusdc")], RELAYER, transfer(text)).unwrap();
    match &resp.messages[0].msg {
        ForwarderMsg::WasmExecute { funds, .. } => assert_eq!(funds, &vec![coin(2, "ucw")]),
        other => panic!("unexpected message: {other:?}"),
    }
}

#[test]
fn transfer_call_amount_rules() {
    let config = config_with_sender(SENDER);
    assert_eq!(
        run(&config, &[coin(100, "uusdc")], RELAYER, transfer(&hook("action", "uusdc", "0"))).unwrap_err(),
        ContractError::NoFundsToForward
    );
    assert_eq!(
        run(&config, &[coin(39, "uusdc")], RELAYER, transfer(&hook("action", "uusdc", "40"))).unwrap_err(),
        ContractError::InsufficientRequestFunds
    );
    assert!(run(&config, &[coin(40, "uusdc")], RELAYER, transfer(&hook("action", "uusdc", "40"))).is_ok());
}

#[test]
fn factory_query_failure_stops_every_call() {
    let config = config_with_sender(SENDER);
    let sender = RELAYER.to_string();
    let block = BlockInfo { height: 1, tx_index: None };
    let err = execute(
        &config,
        Err(StdError::generic_err("no factory")),
        &sender,
        block,
        transfer(&hook("action", "uusdc", "1")),
        Ok(10),
        Ok(vec![]),
    )
    .unwrap_err();
    assert!(matches!(err, ContractError::FactoryQueryFailed(_)));
    let err = execute(&config, Err(StdError::generic_err("no factory")), &sender, block, ExecuteMsg::Refund {}, Ok(0), Ok(vec![coin(1, "u")]))
        .unwrap_err();
    assert!(matches!(err, ContractError::FactoryQueryFailed(_)));
    assert_eq!(
        query(&config, QueryMsg::Config {}, Err(StdError::generic_err("no factory"))),
        Err(StdFailure::Host(StdError::generic_err("no factory")))
    );
}

#[test]
fn injective_addresses() {
    assert_eq!(to_injective_addr(&SENDER.to_string()), Ok(SENDER_INJ.to_string()));
    assert_eq!(to_injective_addr(&SENDER.to_lowercase().replacen("0x", "0X", 1)), Ok(SENDER_INJ.to_string()));
    assert_eq!(to_injective_addr(&SENDER_COSMOS.to_string()), Ok(SENDER_INJ.to_string()));
    assert_eq!(to_injective_addr(&SENDER_INJ.to_string()), Ok(SENDER_INJ.to_string()));
    assert_eq!(to_injective_addr(&"inj1anything".to_string()), Ok("inj1anything".to_string()));
    assert_eq!(to_injective_addr(&"0x1234".to_string()), Err(ContractError::InvalidRefundAddress));
    assert_eq!(to_injective_addr(&"0xzz".to_string()), Err(ContractError::InvalidRefundAddress));
    assert_eq!(to_injective_addr(&"not-an-address".to_string()), Err(ContractError::InvalidRefundAddress));
    // Bech32 with a broken checksum.
    assert_eq!(
        to_injective_addr(&"cosmos1g4d25sx8q7h7y98rpaqcc0w3gkkle9flqulznq".to_string()),
        Err(ContractError::InvalidRefundAddress)
    );
}

#[test]
fn injective_conversion_is_idempotent() {
    let once = to_injective_addr(&SENDER.to_string()).unwrap();
    assert_eq!(to_injective_addr(&once), Ok(once.clone()));
}

#[test]
fn refund_lists_every_coin() {
    let config = config_with_sender(SENDER);
    let balances = [coin(500, "uusdc"), coin(100, "uatom")];
    let resp = run(&config, &balances, RELAYER, ExecuteMsg::Refund {}).unwrap();
    assert_eq!(
        resp.messages[0].msg,
        ForwarderMsg::BankSend { to_address: SENDER_INJ.to_string(), amount: vec![coin(500, "uusdc"), coin(100, "uatom")] }
    );
    assert_eq!(
        attrs(&resp),
        pairs(&[("action", "refund"), ("refund_addr", SENDER_INJ), ("amounts", "500uusdc,100uatom")])
    );
}

#[test]
fn refund_needs_a_convertible_sender() {
    let config = config_with_sender("0x1234");
    let err = run(&config, &[coin(1, "uusdc")], OWNER, ExecuteMsg::Refund {}).unwrap_err();
    assert_eq!(err, ContractError::InvalidRefundAddress);
}

#[test]
fn migrate_checks_the_contract_name() {
    let other = ContractVersion { contract: "crates.io:other".to_string(), version: "0.0.1".to_string() };
    let err = migrate(&other, "0.2.0", MigrateMsg {}).unwrap_err();
    assert_eq!(err, ContractError::Std(StdFailure::Generic { msg: "unexpected contract name: crates.io:other".to_string() }));

    let ours = ContractVersion { contract: CONTRACT_NAME.to_string(), version: "0.1.0".to_string() };
    let resp = migrate(&ours, "0.2.0", MigrateMsg {}).unwrap();
    assert_eq!(attrs(&resp), pairs(&[("action", "migrate"), ("from_version", "0.1.0"), ("to_version", "0.2.0")]));
}

#[test]
fn instantiate_reports_invalid_factory() {
    let msg = ForwarderInstantiateMsg {
        factory: FACTORY.to_string(),
        sender_addr: SENDER.to_string(),
        recipient_addr: "r".to_string(),
        dest_chain: "d".to_string(),
    };
    let err = instantiate(&FACTORY.to_string(), msg, Err(StdError::generic_err("bad address"))).unwrap_err();
    assert_eq!(err, ContractError::Std(StdFailure::Host(StdError::generic_err("bad address"))));
}
