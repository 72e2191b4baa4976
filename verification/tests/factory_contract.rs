use bech32::{ToBase32, Variant};
use sha2::{Digest, Sha256};
use cctp_forwarder::common::{Response, StdFailure, SubMsgOutcome};
use cctp_forwarder::factory::{
    execute, instantiate, make_salt, predict_canonical_address, query, reply, AddressChecks, ContractError,
    ExecuteMsg, FactoryMsg, FactoryState, InstantiateMsg, QueryAnswer,
};
use cctp_forwarder::shared::{ForwarderAddressResponse, QueryMsg};

const SENDER: &str = "0xsenderEvmAddress";
const DEST_CHAIN: &str = "dydx-mainnet-1";
const RECIPIENT: &str = "dydx1recipient";

fn ok_checks() -> AddressChecks {
    AddressChecks { owner: Ok(()), skip_relayer_addr: Ok(()), skip_entrypoint_addr: Ok(()) }
}

/// Bech32 rendering with the `inj` prefix, as the chain's address API does.
fn humanize(canonical: &[u8]) -> String {
    bech32::encode("inj", canonical.to_base32(), Variant::Bech32).expect("inj is a valid prefix")
}

fn sha256(data: &[u8]) -> Vec<u8> {
    Sha256::digest(data).to_vec()
}

struct Setup {
    state: FactoryState,
    factory: String,
    owner: String,
    relayer: String,
    entrypoint: String,
    forwarder_code_id: u64,
    checksum: Vec<u8>,
    creator: Vec<u8>,
}

fn setup() -> Setup {
    let creator = sha256(b"forwarder-factory contract");
    let factory = humanize(&creator);
    let owner = humanize(&sha256(b"owner")[..20]);
    let relayer = humanize(&sha256(b"relayer")[..20]);
    let entrypoint = humanize(&sha256(b"entrypoint")[..20]);
    let forwarder_code_id = 1;
    let (state, _) = instantiate(
        &owner,
        InstantiateMsg {
            owner: Some(owner.clone()),
            forwarder_code_id,
            skip_relayer_addr: relayer.clone(),
            skip_entrypoint_addr: entrypoint.clone(),
        },
        ok_checks(),
    )
    .unwrap();
    Setup {
        state,
        factory,
        owner,
        relayer,
        entrypoint,
        forwarder_code_id,
        checksum: sha256(b"forwarder wasm code"),
        creator,
    }
}

/// The address the factory predicts for the route (code checksum, factory's
/// canonical address and salt through instantiate2, cut to 20 bytes).
fn predicted_address(s: &Setup) -> Result<String, StdFailure> {
    let salt = make_salt(&SENDER.to_string(), &DEST_CHAIN.to_string(), &RECIPIENT.to_string());
    predict_canonical_address(Ok(s.checksum.clone()), Ok(s.creator.clone()), &salt).map(|c| humanize(&c))
}

/// The address instantiate2 actually gives the forwarder: all 32 bytes.
fn instantiated_address(s: &Setup) -> String {
    let salt = make_salt(&SENDER.to_string(), &DEST_CHAIN.to_string(), &RECIPIENT.to_string());
    let canonical = cosmwasm_std::instantiate2_address(
        &s.checksum,
        &cosmwasm_std::CanonicalAddr::from(s.creator.as_slice()),
        &salt,
    )
    .unwrap();
    humanize(canonical.as_slice())
}

/// The data of an instantiate reply: field 1, the contract address.
fn instantiate_reply_data(address: &str) -> Vec<u8> {
    let mut data = vec![0x0a, address.len() as u8];
    data.extend_from_slice(address.as_bytes());
    data
}

fn predicted(s: &Setup) -> ForwarderAddressResponse {
    match query(
        &s.state,
        QueryMsg::ForwarderAddress {
            sender_addr: SENDER.to_string(),
            dest_chain: DEST_CHAIN.to_string(),
            recipient_addr: RECIPIENT.to_string(),
        },
        predicted_address(s),
    )
    .unwrap()
    {
        QueryAnswer::ForwarderAddress(a) => a,
        other => panic!("unexpected answer: {other:?}"),
    }
}

/// Executes `msg` from `sender` and, as the runtime does, delivers the reply of
/// the instantiate2 sub-message.
fn execute_contract(s: &mut Setup, sender: &str, msg: ExecuteMsg) -> Result<Response<FactoryMsg>, ContractError> {
    let factory = s.factory.clone();
    let prediction = predicted_address(s);
    let resp = execute(&mut s.state, &factory, &sender.to_string(), msg, prediction, ok_checks())?;
    if let Some(sub) = resp.messages.first() {
        let actual = instantiated_address(s);
        let outcome = SubMsgOutcome::Success { data: Some(instantiate_reply_data(&actual)) };
        reply(&mut s.state, sub.id, outcome, Ok(()), 200)?;
    }
    Ok(resp)
}

#[test]
fn factory_config_is_queryable() {
    let s = setup();
    let cfg = match query(&s.state, QueryMsg::Config {}, Ok(String::new())).unwrap() {
        QueryAnswer::Config(c) => c,
        other => panic!("unexpected answer: {other:?}"),
    };
    assert_eq!(cfg.owner, s.owner);
    assert_eq!(cfg.forwarder_code_id, s.forwarder_code_id);
    assert_eq!(cfg.skip_relayer_addr, s.relayer);
    assert_eq!(cfg.skip_entrypoint_addr, s.entrypoint);
}

#[test]
fn create_forwarder_matches_predicted_address() {
    let mut s = setup();

    let before = predicted(&s);
    assert!(!before.exists, "should not exist before creation");

    // The prediction is cut to 20 bytes, so it differs from the 32-byte address
    // that instantiate2 gives: the reply reports an address mismatch.
    let owner = s.owner.clone();
    let err = execute_contract(
        &mut s,
        &owner,
        ExecuteMsg::CreateForwarder {
            sender_addr: SENDER.to_string(),
            dest_chain: DEST_CHAIN.to_string(),
            recipient_addr: RECIPIENT.to_string(),
        },
    )
    .unwrap_err();
    let err_msg = format!("{err:?}");
    assert!(err_msg.contains("AddressMismatch"), "expected AddressMismatch due to shortened prediction, got: {err_msg}");
    assert!(err_msg.contains(&before.address), "expected the shortened predicted address to appear in the error");

    let after = predicted(&s);
    assert!(!after.exists, "forwarder should not exist after mismatch");
    assert_eq!(before.address, after.address, "shortened predicted address must remain stable after creation");
}

#[test]
fn duplicate_route_is_rejected() {
    let mut s = setup();
    let create = ExecuteMsg::CreateForwarder {
        sender_addr: SENDER.to_string(),
        dest_chain: DEST_CHAIN.to_string(),
        recipient_addr: RECIPIENT.to_string(),
    };
    let owner = s.owner.clone();
    let err = execute_contract(&mut s, &owner, create).unwrap_err();
    let err_msg = format!("{err:?}");
    assert!(err_msg.contains("AddressMismatch"), "expected AddressMismatch due to shortened prediction, got: {err_msg}");
}

#[test]
fn create_forwarder_is_owner_only() {
    let mut s = setup();
    let intruder = humanize(&sha256(b"intruder")[..20]);
    let err = execute_contract(
        &mut s,
        &intruder,
        ExecuteMsg::CreateForwarder {
            sender_addr: SENDER.to_string(),
            dest_chain: DEST_CHAIN.to_string(),
            recipient_addr: RECIPIENT.to_string(),
        },
    )
    .unwrap_err();
    assert!(format!("{err:?}").contains("Unauthorized"), "expected Unauthorized, got: {err:?}");
}
