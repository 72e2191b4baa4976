use bech32::{ToBase32, Variant};
use cctp_forwarder::common::{ContractVersion, ReplyOn, Response, StdFailure, SubMsgOutcome};
use cctp_forwarder::factory::{
    execute, instantiate, make_salt, migrate, predict_canonical_address, query, reply, shorten_canonical_address,
    AddressChecks, ContractError, ExecuteMsg, FactoryMsg, FactoryState, InstantiateMsg, MigrateMsg, QueryAnswer,
    CONTRACT_NAME,
};
use cctp_forwarder::shared::{ForwarderInstantiateMsg, QueryMsg};
use cosmwasm_std::StdError;
use sha2::{Digest, Sha256};

const FACTORY: &str = "inj1factory";
const OWNER: &str = "inj1owner";

fn sha256(data: &[u8]) -> Vec<u8> {
    Sha256::digest(data).to_vec()
}

fn humanize(canonical: &[u8]) -> String {
    bech32::encode("inj", canonical.to_base32(), Variant::Bech32).unwrap()
}

fn ok_checks() -> AddressChecks {
    AddressChecks { owner: Ok(()), skip_relayer_addr: Ok(()), skip_entrypoint_addr: Ok(()) }
}

fn fresh() -> FactoryState {
    let msg = InstantiateMsg {
        owner: None,
        forwarder_code_id: 3,
        skip_relayer_addr: "inj1relayer".to_string(),
        skip_entrypoint_addr: "inj1entry".to_string(),
    };
    instantiate(&OWNER.to_string(), msg, ok_checks()).unwrap().0
}

fn salt_of(sender: &str, dest: &str, recipient: &str) -> Vec<u8> {
    make_salt(&sender.to_string(), &dest.to_string(), &recipient.to_string())
}

/// The predicted address of a route, as the contract computes it.
fn prediction(sender: &str, dest: &str, recipient: &str) -> Result<String, StdFailure> {
    let salt = salt_of(sender, dest, recipient);
    predict_canonical_address(Ok(sha256(b"code")), Ok(sha256(b"factory")), &salt).map(|c| humanize(&c))
}

fn create(sender: &str, dest: &str, recipient: &str) -> ExecuteMsg {
    ExecuteMsg::CreateForwarder {
        sender_addr: sender.to_string(),
        dest_chain: dest.to_string(),
        recipient_addr: recipient.to_string(),
    }
}

fn reply_data(address: &str) -> Vec<u8> {
    let mut data = vec![0x0a, address.len() as u8];
    data.extend_from_slice(address.as_bytes());
    data
}

/// Creates the route's forwarder and delivers a reply that reports the predicted address.
fn create_and_confirm(state: &mut FactoryState, sender: &str, dest: &str, recipient: &str, height: u64) -> String {
    let predicted = prediction(sender, dest, recipient).unwrap();
    let resp =
        execute(state, &FACTORY.to_string(), &OWNER.to_string(), create(sender, dest, recipient), Ok(predicted.clone()), ok_checks())
            .unwrap();
    let id = resp.messages[0].id;
    reply(state, id, SubMsgOutcome::Success { data: Some(reply_data(&predicted)) }, Ok(()), height).unwrap();
    predicted
}

fn attrs<M>(resp: &Response<M>) -> Vec<(String, String)> {
    resp.attributes.iter().map(|a| (a.key.clone(), a.value.clone())).collect()
}

#[test]
fn salt_is_sha256_of_length_prefixed_route() {
    assert_eq!(
        hex::encode(salt_of("0xsenderEvmAddress", "dydx-mainnet-1", "dydx1recipient")),
        "21633b6a912a827b8d73b748d7c2f7cd6f2bd8ef0b3a7b175ddc04346e5de54a"
    );
    // The length prefixes keep ("ab", "c") and ("a", "bc") apart.
    assert_eq!(hex::encode(salt_of("ab", "c", "")), "6c14612a79101f3523d025dae2fd611b869d6c213f5f9fec515a7ab90993443c");
    assert_eq!(hex::encode(salt_of("a", "bc", "")), "c0bea5595c177e969085e6db42acb94b99457f955f3754632086c8e78f1036a3");
}

#[test]
fn shortening_keeps_the_prefix_or_explains_why_not() {
    assert_eq!(shorten_canonical_address(&[1, 2, 3, 4], 2), Ok(vec![1, 2]));
    assert_eq!(
        shorten_canonical_address(&[1, 2, 3], 20),
        Err(StdFailure::Generic { msg: "canonical address length 3 is shorter than expected 20".to_string() })
    );
}

#[test]
fn prediction_is_the_instantiate2_address_cut_to_twenty_bytes() {
    let salt = salt_of("s", "d", "r");
    let full = cosmwasm_std::instantiate2_address(
        &sha256(b"code"),
        &cosmwasm_std::CanonicalAddr::from(sha256(b"factory")),
        &salt,
    )
    .unwrap();
    let predicted = predict_canonical_address(Ok(sha256(b"code")), Ok(sha256(b"factory")), &salt).unwrap();
    assert_eq!(predicted, full.as_slice()[..20].to_vec());
}

#[test]
fn prediction_errors() {
    let salt = salt_of("s", "d", "r");
    assert_eq!(
        predict_canonical_address(Ok(vec![0; 31]), Ok(sha256(b"factory")), &salt),
        Err(StdFailure::Generic { msg: "instantiate2_address: invalid checksum length".to_string() })
    );
    assert_eq!(
        predict_canonical_address(Ok(sha256(b"code")), Ok(sha256(b"factory")), &[]),
        Err(StdFailure::Generic { msg: "instantiate2_address: invalid salt length".to_string() })
    );
    assert_eq!(
        predict_canonical_address(Err(StdError::generic_err("no code")), Err(StdError::generic_err("bad creator")), &salt),
        Err(StdFailure::Host(StdError::generic_err("no code")))
    );
}

#[test]
fn create_forwarder_sends_instantiate2_and_records_pending() {
    let mut state = fresh();
    let predicted = prediction("s", "d", "r").unwrap();
    let resp = execute(&mut state, &FACTORY.to_string(), &OWNER.to_string(), create("s", "d", "r"), Ok(predicted.clone()), ok_checks())
        .unwrap();
    let salt = salt_of("s", "d", "r");
    assert_eq!(resp.messages.len(), 1);
    assert_eq!(resp.messages[0].id, 1);
    assert_eq!(resp.messages[0].reply_on, ReplyOn::Success);
    assert_eq!(
        resp.messages[0].msg,
        FactoryMsg::Instantiate2 {
            admin: Some(FACTORY.to_string()),
            code_id: 3,
            label: format!("forwarder-{}", hex::encode(&salt)),
            msg: ForwarderInstantiateMsg {
                factory: FACTORY.to_string(),
                sender_addr: "s".to_string(),
                recipient_addr: "r".to_string(),
                dest_chain: "d".to_string(),
            },
            funds: vec![],
            salt: salt.clone(),
        }
    );
    let expected: Vec<(String, String)> = [
        ("action", "create_forwarder".to_string()),
        ("reply_id", "1".to_string()),
        ("predicted", predicted.clone()),
        ("sender_addr", "s".to_string()),
        ("dest_chain", "d".to_string()),
        ("recipient_addr", "r".to_string()),
        ("salt", hex::encode(&salt)),
    ]
    .iter()
    .map(|(k, v)| (k.to_string(), v.clone()))
    .collect();
    assert_eq!(attrs(&resp), expected);
    assert_eq!(state.next_reply_id, 2);
    assert_eq!(state.pending.len(), 1);
    assert!(state.forwarders.is_empty());
}

#[test]
fn confirmed_creation_registers_the_forwarder_once() {
    let mut state = fresh();
    let address = create_and_confirm(&mut state, "s", "d", "r", 77);
    assert!(state.pending.is_empty());
    assert_eq!(state.forwarders.len(), 1);
    assert_eq!(state.forwarders[0].record.address, address);
    assert_eq!(state.forwarders[0].record.created_height, 77);

    match query(&state, QueryMsg::ForwarderAddress { sender_addr: "s".into(), dest_chain: "d".into(), recipient_addr: "r".into() }, Ok(address.clone()))
        .unwrap()
    {
        QueryAnswer::ForwarderAddress(a) => {
            assert_eq!(a.address, address);
            assert!(a.exists);
        },
        other => panic!("unexpected answer: {other:?}"),
    }

    let err = execute(&mut state, &FACTORY.to_string(), &OWNER.to_string(), create("s", "d", "r"), Ok(address), ok_checks())
        .unwrap_err();
    assert_eq!(err, ContractError::ForwarderExists);
}

#[test]
fn replies_that_cannot_confirm_a_creation() {
    let mut state = fresh();
    let predicted = prediction("s", "d", "r").unwrap();
    execute(&mut state, &FACTORY.to_string(), &OWNER.to_string(), create("s", "d", "r"), Ok(predicted.clone()), ok_checks())
        .unwrap();

    let ok = |p: &str| SubMsgOutcome::Success { data: Some(reply_data(p)) };
    assert_eq!(reply(&mut state, 9, ok(&predicted), Ok(()), 1).unwrap_err(), ContractError::PendingNotFound);
    assert_eq!(
        reply(&mut state, 1, SubMsgOutcome::Success { data: None }, Ok(()), 1).unwrap_err(),
        ContractError::NoInstantiateData
    );
    assert_eq!(
        reply(&mut state, 1, SubMsgOutcome::Failure("out of gas".to_string()), Ok(()), 1).unwrap_err(),
        ContractError::Instantiate2("out of gas".to_string())
    );
    assert!(matches!(
        reply(&mut state, 1, SubMsgOutcome::Success { data: Some(vec![0xff, 0x01]) }, Ok(()), 1).unwrap_err(),
        ContractError::ParseReply(_)
    ));
    assert_eq!(
        reply(&mut state, 1, ok("inj1other"), Ok(()), 1).unwrap_err(),
        ContractError::AddressMismatch { predicted: predicted.clone(), actual: "inj1other".to_string() }
    );
    assert_eq!(
        reply(&mut state, 1, ok(&predicted), Err(StdError::generic_err("invalid address")), 1).unwrap_err(),
        ContractError::Std(StdFailure::Host(StdError::generic_err("invalid address")))
    );
    // None of these changed the state: the creation is still pending.
    assert_eq!(state.pending.len(), 1);
    assert!(state.forwarders.is_empty());

    let resp = reply(&mut state, 1, ok(&predicted), Ok(()), 5).unwrap();
    let salt = hex::encode(salt_of("s", "d", "r"));
    assert_eq!(
        attrs(&resp),
        vec![
            ("action".to_string(), "create_forwarder_reply".to_string()),
            ("reply_id".to_string(), "1".to_string()),
            ("forwarder".to_string(), predicted),
            ("salt".to_string(), salt),
        ]
    );
}

#[test]
fn update_config_rules() {
    let mut state = fresh();
    let update = |owner: Option<&str>, code: Option<u64>| ExecuteMsg::UpdateConfig {
        owner: owner.map(|o| o.to_string()),
        forwarder_code_id: code,
        skip_relayer_addr: None,
        skip_entrypoint_addr: Some("inj1newentry".to_string()),
    };
    let err = execute(&mut state, &FACTORY.to_string(), &"intruder".to_string(), update(None, Some(9)), Ok(String::new()), ok_checks())
        .unwrap_err();
    assert_eq!(err, ContractError::Unauthorized);

    let checks = AddressChecks { owner: Ok(()), skip_relayer_addr: Ok(()), skip_entrypoint_addr: Err(StdError::generic_err("bad entry")) };
    let err = execute(&mut state, &FACTORY.to_string(), &OWNER.to_string(), update(None, Some(9)), Ok(String::new()), checks)
        .unwrap_err();
    assert_eq!(err, ContractError::Std(StdFailure::Host(StdError::generic_err("bad entry"))));
    assert_eq!(state.config.forwarder_code_id, 3);

    let resp = execute(&mut state, &FACTORY.to_string(), &OWNER.to_string(), update(Some("inj1next"), Some(9)), Ok(String::new()), ok_checks())
        .unwrap();
    assert_eq!(state.config.owner, "inj1next");
    assert_eq!(state.config.forwarder_code_id, 9);
    assert_eq!(state.config.skip_relayer_addr, "inj1relayer");
    assert_eq!(state.config.skip_entrypoint_addr, "inj1newentry");
    assert_eq!(
        attrs(&resp),
        vec![
            ("action".to_string(), "update_config".to_string()),
            ("owner".to_string(), "inj1next".to_string()),
            ("forwarder_code_id".to_string(), "9".to_string()),
        ]
    );
}

#[test]
fn forwarders_are_listed_by_salt_in_pages() {
    let mut state = fresh();
    for r in ["r1", "r2", "r3"] {
        create_and_confirm(&mut state, "s", "d", r, 10);
    }
    let mut salts: Vec<String> = ["r1", "r2", "r3"].iter().map(|r| hex::encode(salt_of("s", "d", r))).collect();
    salts.sort();
    let page = |start: Option<String>, limit: Option<u32>| -> Vec<String> {
        match query(&state, QueryMsg::Forwarders { start_after: start, limit }, Ok(String::new())).unwrap() {
            QueryAnswer::Forwarders(p) => p
                .forwarders
                .iter()
                .map(|f| hex::encode(salt_of(&f.sender_addr, &f.dest_chain, &f.recipient_addr)))
                .collect(),
            other => panic!("unexpected answer: {other:?}"),
        }
    };
    assert_eq!(page(None, None), salts);
    assert_eq!(page(None, Some(2)), salts[..2].to_vec());
    assert_eq!(page(Some(salts[0].clone()), Some(1)), salts[1..2].to_vec());
    assert_eq!(page(Some(salts[2].clone()), None), Vec::<String>::new());
    // A start that is not hex is ignored.
    assert_eq!(page(Some("not hex".to_string()), None), salts);
}

#[test]
fn factory_migrate_checks_the_contract_name() {
    let other = ContractVersion { contract: "crates.io:other".to_string(), version: "1".to_string() };
    assert_eq!(
        migrate(&other, "2", MigrateMsg {}).unwrap_err(),
        ContractError::Std(StdFailure::Generic { msg: "unexpected contract name: crates.io:other".to_string() })
    );
    let ours = ContractVersion { contract: CONTRACT_NAME.to_string(), version: "1".to_string() };
    assert!(migrate(&ours, "2", MigrateMsg {}).is_ok());
}

#[test]
fn settings_update_leaves_created_forwarders() {
    let mut state = fresh();
    let address = create_and_confirm(&mut state, "s", "d", "r", 10);
    let update = ExecuteMsg::UpdateConfig {
        owner: None,
        forwarder_code_id: Some(42),
        skip_relayer_addr: None,
        skip_entrypoint_addr: None,
    };
    execute(&mut state, &FACTORY.to_string(), &OWNER.to_string(), update, Ok(String::new()), ok_checks()).unwrap();
    assert_eq!(state.config.forwarder_code_id, 42);
    assert_eq!(state.forwarders.len(), 1);
    assert_eq!(state.forwarders[0].record.address, address);
    assert_eq!(state.next_reply_id, 2);
}

#[test]
fn walking_the_pages_lists_every_forwarder_once() {
    let mut state = fresh();
    for r in ["r1", "r2", "r3", "r4", "r5"] {
        create_and_confirm(&mut state, "s", "d", r, 10);
    }
    let mut seen: Vec<String> = Vec::new();
    let mut start: Option<String> = None;
    loop {
        let page = match query(&state, QueryMsg::Forwarders { start_after: start.clone(), limit: Some(2) }, Ok(String::new()))
            .unwrap()
        {
            QueryAnswer::Forwarders(p) => p.forwarders,
            other => panic!("unexpected answer: {other:?}"),
        };
        for f in &page {
            seen.push(f.recipient_addr.clone());
        }
        if page.len() < 2 {
            break;
        }
        let last = page.last().unwrap();
        start = Some(hex::encode(salt_of(&last.sender_addr, &last.dest_chain, &last.recipient_addr)));
    }
    let mut expected: Vec<(String, String)> =
        ["r1", "r2", "r3", "r4", "r5"].iter().map(|r| (hex::encode(salt_of("s", "d", r)), r.to_string())).collect();
    expected.sort();
    assert_eq!(seen, expected.into_iter().map(|(_, r)| r).collect::<Vec<_>>());
}
