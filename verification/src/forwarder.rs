//! The forwarder: one contract per (sender, destination chain, recipient)
//! route, created by the factory. It forwards the funds named by Skip hook
//! data to the Skip entry point, and refunds everything it holds to the route's
//! sender, reading its shared settings from the factory.

use crate::codec::{
    base32_decode, base32_encode, base32_to_bytes, bech32_decode, bech32_encode, bech32_payload, bech32_text,
    bytes_to_base32, hex_decode, hex_decoded, lower_hrp, parse_uint128, string_from_utf8, u128_text,
};
use crate::common::{
    attr, attr_lit, attr_pairs, copy_str, dec, empty_response, has_prefix, std_error_text, str_eq,
    tx_index_or_zero, u128_to_string, BlockInfo, Coin, ContractVersion, ReplyOn, Response, StdFailure, SubMsg,
};
use crate::json::{find_key, get, get_str, is_first_key, json_get, json_parse, json_str, parse_json, Json, JsonMember};
use crate::shared::{FactoryConfigResponse, ForwarderInstantiateMsg};
use vstd::prelude::*;
use vstd::string::StringExecFns;
use vstd::utf8::{decode_utf8, encode_utf8, valid_utf8};

verus! {

/// The name under which cw2 records this contract.
pub const CONTRACT_NAME: &'static str = "crates.io:cctp-v2-forwarder";

// ---------------------------------------------------------------- state and messages

/// The forwarder's own configuration: its factory and its route.
#[derive(Debug, PartialEq, Eq)]
pub struct Config {
    /// The factory that instantiated this forwarder; source of shared settings.
    pub factory: String,
    pub sender_addr: String,
    pub recipient_addr: String,
    pub dest_chain: String,
}

/// The migration message (empty).
#[derive(Debug, PartialEq, Eq)]
pub struct MigrateMsg {}

/// The execute messages.
#[derive(Debug, PartialEq, Eq)]
pub enum ExecuteMsg {
    TransferCall { hook_data: String },
    Refund {},
}

/// The queries.
#[derive(Debug, PartialEq, Eq)]
pub enum QueryMsg {
    Config {},
}

/// The route fields merged with the owner read from the factory.
#[derive(Debug, PartialEq, Eq)]
pub struct ConfigResponse {
    pub factory: String,
    pub sender_addr: String,
    pub recipient_addr: String,
    pub dest_chain: String,
    pub owner: String,
}

/// A cw20 receive hook.
#[derive(Debug, PartialEq, Eq)]
pub struct Cw20ReceiveMsg {
    pub sender: String,
    pub amount: u128,
    pub msg: Vec<u8>,
}

/// An asset: native coins or a cw20 contract.
#[derive(Debug, PartialEq, Eq)]
pub enum Asset {
    Native(Coin),
    Cw20(String),
}

/// A swap, by exact input or exact output.
#[derive(Debug, PartialEq, Eq)]
pub enum Swap {
    SwapExactAssetIn(SwapExactAssetIn),
    SwapExactAssetOut(SwapExactAssetOut),
}

/// A swap of an exact input.
#[derive(Debug, PartialEq, Eq)]
pub struct SwapExactAssetIn {
    pub swap_venue_name: String,
    pub operations: Vec<SwapOperation>,
}

/// A swap to an exact output.
#[derive(Debug, PartialEq, Eq)]
pub struct SwapExactAssetOut {
    pub swap_venue_name: String,
    pub operations: Vec<SwapOperation>,
}

/// One hop of a swap.
#[derive(Debug, PartialEq, Eq)]
pub struct SwapOperation {
    pub pool: String,
    pub denom_in: String,
    pub denom_out: String,
}

/// What to do with the swapped funds.
#[derive(Debug, PartialEq, Eq)]
pub enum Action {
    Transfer(Transfer),
    IbcTransfer(IbcTransfer),
    ContractCall(ContractCall),
}

/// A local transfer.
#[derive(Debug, PartialEq, Eq)]
pub struct Transfer {
    pub to_address: String,
}

/// An IBC transfer.
#[derive(Debug, PartialEq, Eq)]
pub struct IbcTransfer {
    pub channel: String,
    pub to_address: String,
    pub fee: Option<IbcFee>,
}

/// The fee of an IBC transfer.
#[derive(Debug, PartialEq, Eq)]
pub struct IbcFee {
    pub amount: Vec<Coin>,
    pub gas_limit: Option<String>,
}

/// A call of another contract.
#[derive(Debug, PartialEq, Eq)]
pub struct ContractCall {
    pub contract_address: String,
    pub msg: Vec<u8>,
}

/// An affiliate fee.
#[derive(Debug, PartialEq, Eq)]
pub struct Affiliate {
    pub basis_points_fee: u128,
    pub address: String,
}

/// The execute messages of the Skip entry point.
#[derive(Debug, PartialEq, Eq)]
#[allow(inconsistent_fields)]
pub enum SkipEntrypointExecuteMsg {
    Receive(Cw20ReceiveMsg),
    SwapAndActionWithRecover {
        sent_asset: Option<Asset>,
        user_swap: Swap,
        min_asset: Asset,
        timeout_timestamp: u64,
        post_swap_action: Action,
        affiliates: Vec<Affiliate>,
        recovery_addr: String,
    },
    SwapAndAction {
        sent_asset: Option<Asset>,
        user_swap: Swap,
        min_asset: Asset,
        timeout_timestamp: u64,
        post_swap_action: Action,
        affiliates: Vec<Affiliate>,
    },
    UserSwap { swap: Swap, min_asset: Asset, remaining_asset: Asset, affiliates: Vec<Affiliate> },
    PostSwapAction { min_asset: Asset, timeout_timestamp: u64, post_swap_action: Action, exact_out: bool },
    Action {
        sent_asset: Option<Asset>,
        timeout_timestamp: u64,
        action: Action,
        exact_out: bool,
        min_asset: Option<Asset>,
    },
    ActionWithRecover {
        sent_asset: Option<Asset>,
        timeout_timestamp: u64,
        action: Action,
        exact_out: bool,
        min_asset: Option<Asset>,
        recovery_addr: String,
    },
}

/// The messages a forwarder sends.
#[derive(Debug, PartialEq, Eq)]
pub enum ForwarderMsg {
    /// Execute `contract_addr` with the raw message `msg`, attaching `funds`.
    WasmExecute { contract_addr: String, msg: Vec<u8>, funds: Vec<Coin> },
    /// A bank transfer.
    BankSend { to_address: String, amount: Vec<Coin> },
}

/// The errors of the forwarder.
#[derive(Debug, PartialEq)]
pub enum ContractError {
    Std(StdFailure),
    Unauthorized,
    MemoEncodeError,
    NoFundsToForward,
    InvalidStatusTransition,
    DuplicateMintTxHash,
    RequestNotFound,
    InsufficientRequestFunds,
    /// The shared settings could not be read from the factory.
    FactoryQueryFailed(String),
    /// `instantiate` was not called by the declared factory.
    FactoryMismatch,
    /// The hook data does not hold a coin where it must.
    InvalidHookData,
    /// The route's sender cannot be turned into an `inj` address.
    InvalidRefundAddress,
}


// ---------------------------------------------------------------- instantiate and migrate

/// Instantiates a forwarder. `factory_check` is the host's validation of
/// `msg.factory`; the declared factory must be the sender.
pub fn instantiate(
    sender: &String,
    msg: ForwarderInstantiateMsg,
    factory_check: Result<(), cosmwasm_std::StdError>,
) -> (r: Result<(Config, Response<ForwarderMsg>), ContractError>)
    ensures
        match factory_check {
            Err(e) => r == Err::<(Config, Response<ForwarderMsg>), ContractError>(
                ContractError::Std(StdFailure::Host(e)),
            ),
            Ok(_) => if msg.factory@ != sender@ {
                r == Err::<(Config, Response<ForwarderMsg>), ContractError>(ContractError::FactoryMismatch)
            } else {
                r matches Ok((config, resp)) && {
                    &&& config == (Config {
                        factory: msg.factory,
                        sender_addr: msg.sender_addr,
                        recipient_addr: msg.recipient_addr,
                        dest_chain: msg.dest_chain,
                    })
                    &&& resp.messages@.len() == 0
                    &&& attr_pairs(resp.attributes@) == seq![
                        ("action"@, "instantiate"@),
                        ("factory"@, msg.factory@),
                        ("sender_addr"@, msg.sender_addr@),
                        ("recipient_addr"@, msg.recipient_addr@),
                        ("dest_chain"@, msg.dest_chain@),
                    ]
                }
            },
        },
{
    if let Err(e) = factory_check {
        return Err(ContractError::Std(StdFailure::Host(e)));
    }
    if !str_eq(&msg.factory, sender) {
        return Err(ContractError::FactoryMismatch);
    }
    let mut resp = empty_response();
    resp.attributes.push(attr_lit("action", "instantiate"));
    resp.attributes.push(attr("factory", copy_str(&msg.factory)));
    resp.attributes.push(attr("sender_addr", copy_str(&msg.sender_addr)));
    resp.attributes.push(attr("recipient_addr", copy_str(&msg.recipient_addr)));
    resp.attributes.push(attr("dest_chain", copy_str(&msg.dest_chain)));
    let config = Config {
        factory: msg.factory,
        sender_addr: msg.sender_addr,
        recipient_addr: msg.recipient_addr,
        dest_chain: msg.dest_chain,
    };
    assert(attr_pairs(resp.attributes@) =~= seq![
        ("action"@, "instantiate"@),
        ("factory"@, config.factory@),
        ("sender_addr"@, config.sender_addr@),
        ("recipient_addr"@, config.recipient_addr@),
        ("dest_chain"@, config.dest_chain@),
    ]);
    Ok((config, resp))
}

/// Migrates a forwarder to `new_version`. `stored` is the version record
/// that cw2 holds; it must name this contract.
pub fn migrate(stored: &ContractVersion, new_version: &str, _msg: MigrateMsg) -> (r: Result<
    Response<ForwarderMsg>,
    ContractError,
>)
    ensures
        if stored.contract@ != CONTRACT_NAME@ {
            r matches Err(ContractError::Std(StdFailure::Generic { msg })) && msg@ == "unexpected contract name: "@
                + stored.contract@
        } else {
            r matches Ok(resp) && resp.messages@.len() == 0 && attr_pairs(resp.attributes@) == seq![
                ("action"@, "migrate"@),
                ("from_version"@, stored.version@),
                ("to_version"@, new_version@),
            ]
        },
{
    let name = String::from_str(CONTRACT_NAME);
    if !str_eq(&stored.contract, &name) {
        let msg = String::from_str("unexpected contract name: ").concat(stored.contract.as_str());
        return Err(ContractError::Std(StdFailure::Generic { msg }));
    }
    let mut resp = empty_response();
    resp.attributes.push(attr_lit("action", "migrate"));
    resp.attributes.push(attr("from_version", copy_str(&stored.version)));
    resp.attributes.push(attr_lit("to_version", new_version));
    assert(attr_pairs(resp.attributes@) =~= seq![
        ("action"@, "migrate"@),
        ("from_version"@, stored.version@),
        ("to_version"@, new_version@),
    ]);
    Ok(resp)
}

// ---------------------------------------------------------------- shared settings and authorization

/// The shared settings read from the factory, or `FactoryQueryFailed` with
/// the text of the query's error.
pub fn load_factory_config(answer: Result<FactoryConfigResponse, cosmwasm_std::StdError>) -> (r: Result<
    FactoryConfigResponse,
    ContractError,
>)
    ensures
        match answer {
            Ok(c) => r == Ok::<FactoryConfigResponse, ContractError>(c),
            Err(_) => r matches Err(ContractError::FactoryQueryFailed(_)),
        },
{
    match answer {
        Ok(c) => Ok(c),
        Err(e) => Err(ContractError::FactoryQueryFailed(std_error_text(&e))),
    }
}

/// Only the Skip relayer may forward.
pub fn ensure_skip_relayer(fcfg: &FactoryConfigResponse, sender: &String) -> (r: Result<(), ContractError>)
    ensures
        r is Ok <==> sender@ == fcfg.skip_relayer_addr@,
        r matches Err(e) ==> e == ContractError::Unauthorized,
{
    if !str_eq(sender, &fcfg.skip_relayer_addr) {
        return Err(ContractError::Unauthorized);
    }
    Ok(())
}

/// Whether `sender` is the relayer or the owner named by the factory.
pub open spec fn is_owner_or_relayer(fcfg: FactoryConfigResponse, sender: Seq<char>) -> bool {
    sender == fcfg.skip_relayer_addr@ || sender == fcfg.owner@
}

/// Only the relayer or the owner may refund.
pub fn ensure_owner_or_skip_relayer(fcfg: &FactoryConfigResponse, sender: &String) -> (r: Result<
    (),
    ContractError,
>)
    ensures
        r is Ok <==> is_owner_or_relayer(*fcfg, sender@),
        r matches Err(e) ==> e == ContractError::Unauthorized,
{
    if !str_eq(sender, &fcfg.skip_relayer_addr) && !str_eq(sender, &fcfg.owner) {
        return Err(ContractError::Unauthorized);
    }
    Ok(())
}

/// The configuration query: the route merged with the owner that the
/// factory names, or the factory query's error.
pub fn query_config(config: &Config, answer: Result<FactoryConfigResponse, cosmwasm_std::StdError>) -> (r:
    Result<ConfigResponse, StdFailure>)
    ensures
        match answer {
            Ok(f) => r == Ok::<ConfigResponse, StdFailure>(
                ConfigResponse {
                    factory: config.factory,
                    sender_addr: config.sender_addr,
                    recipient_addr: config.recipient_addr,
                    dest_chain: config.dest_chain,
                    owner: f.owner,
                },
            ),
            Err(e) => r == Err::<ConfigResponse, StdFailure>(StdFailure::Host(e)),
        },
{
    match answer {
        Ok(f) => Ok(
            ConfigResponse {
                factory: copy_str(&config.factory),
                sender_addr: copy_str(&config.sender_addr),
                recipient_addr: copy_str(&config.recipient_addr),
                dest_chain: copy_str(&config.dest_chain),
                owner: f.owner,
            },
        ),
        Err(e) => Err(StdFailure::Host(e)),
    }
}

/// Answers a query (there is only `Config`).
pub fn query(config: &Config, msg: QueryMsg, answer: Result<FactoryConfigResponse, cosmwasm_std::StdError>) -> (r:
    Result<ConfigResponse, StdFailure>)
    ensures
        match answer {
            Ok(f) => r == Ok::<ConfigResponse, StdFailure>(
                ConfigResponse {
                    factory: config.factory,
                    sender_addr: config.sender_addr,
                    recipient_addr: config.recipient_addr,
                    dest_chain: config.dest_chain,
                    owner: f.owner,
                },
            ),
            Err(e) => r == Err::<ConfigResponse, StdFailure>(StdFailure::Host(e)),
        },
{
    match msg {
        QueryMsg::Config {} => query_config(config, answer),
    }
}


// ---------------------------------------------------------------- hook data

/// `bytes` begins with `0x` or `0X`.
pub open spec fn hex_marked(bytes: Seq<u8>) -> bool {
    has_prefix(bytes, seq![48u8, 120u8]) || has_prefix(bytes, seq![48u8, 88u8])
}

/// The text of the hook data: hex-decoded and read as UTF-8 where it is
/// marked `0x`/`0X`, as it stands otherwise; `None` where decoding fails.
pub open spec fn hook_text(hook_data: Seq<char>) -> Option<Seq<char>> {
    let bytes = encode_utf8(hook_data);
    if hex_marked(bytes) {
        match hex_decoded(bytes.subrange(2, bytes.len() as int)) {
            Some(raw) => if valid_utf8(raw) {
                Some(decode_utf8(raw))
            } else {
                None
            },
            None => None,
        }
    } else {
        Some(hook_data)
    }
}

/// Whether `bytes` begins with `0x` or `0X`.
fn starts_with_hex_mark(bytes: &[u8]) -> (r: bool)
    ensures
        r == hex_marked(bytes@),
{
    if bytes.len() < 2 {
        assert(!has_prefix(bytes@, seq![48u8, 120u8]));
        assert(!has_prefix(bytes@, seq![48u8, 88u8]));
        return false;
    }
    let r = bytes[0] == 48 && (bytes[1] == 120 || bytes[1] == 88);
    assert(bytes@.subrange(0, 2) =~= seq![bytes@[0], bytes@[1]]);
    r
}

/// Decodes the hook data: hex (after `0x`/`0X`) to bytes to UTF-8 text.
pub fn decode_hook_data(hook_data: String) -> (r: Result<String, ContractError>)
    ensures
        match hook_text(hook_data@) {
            Some(t) => r matches Ok(s) && s@ == t,
            None => r == Err::<String, ContractError>(ContractError::MemoEncodeError),
        },
{
    let bytes = hook_data.as_str().as_bytes();
    if !starts_with_hex_mark(bytes) {
        return Ok(hook_data);
    }
    let digits = vstd::slice::slice_subrange(bytes, 2, bytes.len());
    let raw = match hex_decode(digits) {
        Some(raw) => raw,
        None => {
            return Err(ContractError::MemoEncodeError);
        },
    };
    match string_from_utf8(raw) {
        Some(text) => Ok(text),
        None => Err(ContractError::MemoEncodeError),
    }
}

/// The keys under which the hook data may name its coin.
pub open spec fn is_route_key(k: Seq<char>) -> bool {
    k == "action"@ || k == "action_with_recover"@
}

/// `i` is the first member of `members` with a route key.
pub open spec fn is_first_route_member(members: Seq<JsonMember>, i: int) -> bool {
    &&& 0 <= i < members.len()
    &&& is_route_key(members[i].key@)
    &&& forall|j: int| 0 <= j < i ==> !is_route_key(#[trigger] members[j].key@)
}

/// The denom and the amount text that the hook data names at
/// `<action | action_with_recover>.sent_asset.<first asset type>.{denom, amount}`,
/// the first route key in map order being the one read.
pub open spec fn sent_asset_text(hook: Json) -> Option<(Seq<char>, Seq<char>)> {
    match hook {
        Json::Object(members) => if exists|i: int| is_first_route_member(members@, i) {
            let inner = members@[choose|i: int| is_first_route_member(members@, i)].value;
            match json_get(inner, "sent_asset"@) {
                Some(Json::Object(assets)) => if assets@.len() > 0 {
                    let asset = assets@[0].value;
                    match (json_str(json_get(asset, "denom"@)), json_str(json_get(asset, "amount"@))) {
                        (Some(denom), Some(amount)) => Some((denom, amount)),
                        _ => None,
                    }
                } else {
                    None
                },
                _ => None,
            }
        } else {
            None
        },
        _ => None,
    }
}

/// The coin that the hook data names: its denom, and its amount read as a `Uint128`.
pub open spec fn sent_asset_coin(hook: Json) -> Option<(Seq<char>, u128)> {
    match sent_asset_text(hook) {
        Some((denom, amount)) => match u128_text(amount) {
            Some(a) => Some((denom, a)),
            None => None,
        },
        None => None,
    }
}

/// Position of the first member with a route key.
fn find_route_member(members: &Vec<JsonMember>) -> (r: Option<usize>)
    ensures
        match r {
            Some(i) => is_first_route_member(members@, i as int),
            None => forall|i: int| 0 <= i < members@.len() ==> !is_route_key(#[trigger] members@[i].key@),
        },
{
    let action = String::from_str("action");
    let action_with_recover = String::from_str("action_with_recover");
    let mut i: usize = 0;
    while i < members.len()
        invariant
            i <= members@.len(),
            action@ == "action"@,
            action_with_recover@ == "action_with_recover"@,
            forall|j: int| 0 <= j < i ==> !is_route_key(#[trigger] members@[j].key@),
        decreases members@.len() - i,
    {
        if str_eq(&members[i].key, &action) || str_eq(&members[i].key, &action_with_recover) {
            return Some(i);
        }
        i = i + 1;
    }
    None
}

/// Reads the coin to forward from the hook data.
pub fn extract_sent_asset(hook_json: &Json) -> (r: Result<Coin, ContractError>)
    ensures
        match sent_asset_coin(*hook_json) {
            Some((denom, amount)) => r matches Ok(c) && c.denom@ == denom && c.amount == amount,
            None => r == Err::<Coin, ContractError>(ContractError::InvalidHookData),
        },
{
    let members = match hook_json {
        Json::Object(members) => members,
        _ => {
            return Err(ContractError::InvalidHookData);
        },
    };
    let i = match find_route_member(members) {
        Some(i) => i,
        None => {
            return Err(ContractError::InvalidHookData);
        },
    };
    proof {
        let c = choose|k: int| is_first_route_member(members@, k);
        assert(is_first_route_member(members@, c));
        if c < i as int {
            assert(!is_route_key(members@[c].key@));
        } else if c > i as int {
            assert(!is_route_key(members@[i as int].key@));
        }
    }
    let inner = &members[i].value;
    let assets = match get(inner, "sent_asset") {
        Some(Json::Object(assets)) => assets,
        _ => {
            return Err(ContractError::InvalidHookData);
        },
    };
    if assets.len() == 0 {
        return Err(ContractError::InvalidHookData);
    }
    let asset = &assets[0].value;
    let denom = match get_str(get(asset, "denom")) {
        Some(d) => copy_str(d),
        None => {
            return Err(ContractError::InvalidHookData);
        },
    };
    let amount_text = match get_str(get(asset, "amount")) {
        Some(a) => a,
        None => {
            return Err(ContractError::InvalidHookData);
        },
    };
    match parse_uint128(amount_text.as_str()) {
        Some(amount) => Ok(Coin { denom, amount }),
        None => Err(ContractError::InvalidHookData),
    }
}


// ---------------------------------------------------------------- transfer call

/// Why a transfer call is refused once the factory's settings are read, in
/// this order: the sender is not the relayer; the hook data does not decode;
/// it is not JSON; it names no coin; the coin is zero; the balance query
/// failed or holds less than the coin.
pub open spec fn transfer_call_rejection(
    fcfg: FactoryConfigResponse,
    sender: Seq<char>,
    hook_data: Seq<char>,
    available: Result<u128, cosmwasm_std::StdError>,
) -> Option<ContractError> {
    if sender != fcfg.skip_relayer_addr@ {
        Some(ContractError::Unauthorized)
    } else if hook_text(hook_data) is None {
        Some(ContractError::MemoEncodeError)
    } else if json_parse(hook_text(hook_data).unwrap()) is None {
        Some(ContractError::MemoEncodeError)
    } else if sent_asset_coin(json_parse(hook_text(hook_data).unwrap()).unwrap()) is None {
        Some(ContractError::InvalidHookData)
    } else if sent_asset_coin(json_parse(hook_text(hook_data).unwrap()).unwrap()).unwrap().1 == 0 {
        Some(ContractError::NoFundsToForward)
    } else if available is Err {
        Some(ContractError::Std(StdFailure::Host(available->Err_0)))
    } else if available->Ok_0 < sent_asset_coin(json_parse(hook_text(hook_data).unwrap()).unwrap()).unwrap().1 {
        Some(ContractError::InsufficientRequestFunds)
    } else {
        None
    }
}

/// The coin a transfer call forwards for `hook_data`.
pub open spec fn forwarded_coin(hook_data: Seq<char>) -> (Seq<char>, u128) {
    sent_asset_coin(json_parse(hook_text(hook_data).unwrap()).unwrap()).unwrap()
}

/// What a transfer call does: nothing but an error when refused, or one call
/// of the entry point whose message is the (decoded) hook data and whose funds
/// are the coin the hook data names.
pub open spec fn transfer_call_effect(
    answer: Result<FactoryConfigResponse, cosmwasm_std::StdError>,
    sender: Seq<char>,
    block: BlockInfo,
    hook_data: Seq<char>,
    available: Result<u128, cosmwasm_std::StdError>,
    r: Result<Response<ForwarderMsg>, ContractError>,
) -> bool {
    match answer {
        Err(_) => r matches Err(ContractError::FactoryQueryFailed(_)),
        Ok(fcfg) => match transfer_call_rejection(fcfg, sender, hook_data, available) {
            Some(e) => r == Err::<Response<ForwarderMsg>, ContractError>(e),
            None => r matches Ok(resp) && {
                let coin = forwarded_coin(hook_data);
                &&& resp.messages@.len() == 1
                &&& resp.messages@[0].id == 0
                &&& resp.messages@[0].reply_on == ReplyOn::Never
                &&& resp.messages@[0].msg matches ForwarderMsg::WasmExecute { contract_addr, msg, funds } && {
                    &&& contract_addr == fcfg.skip_entrypoint_addr
                    &&& msg@ == encode_utf8(hook_text(hook_data).unwrap())
                    &&& funds@.len() == 1
                    &&& funds@[0].denom@ == coin.0
                    &&& funds@[0].amount == coin.1
                }
                &&& attr_pairs(resp.attributes@) == seq![
                    ("action"@, "transfer_call"@),
                    ("source_tx_height"@, dec(block.height as nat)),
                    ("source_tx_index"@, dec(tx_index_or_zero(block))),
                ]
            },
        },
    }
}

/// The coin that a transfer call of `hook_data` by `sender` forwards, and so
/// the denom whose balance it reads; or the error it gives before reading any
/// balance.
pub fn transfer_call_coin(
    answer: &Result<FactoryConfigResponse, cosmwasm_std::StdError>,
    sender: &String,
    hook_data: String,
) -> (r: Result<Coin, ContractError>)
    ensures
        match *answer {
            Err(_) => r matches Err(ContractError::FactoryQueryFailed(_)),
            Ok(fcfg) => match transfer_call_rejection(fcfg, sender@, hook_data@, Ok(u128::MAX)) {
                Some(e) => r == Err::<Coin, ContractError>(e),
                None => r matches Ok(c) && c.denom@ == forwarded_coin(hook_data@).0 && c.amount
                    == forwarded_coin(hook_data@).1,
            },
        },
{
    let fcfg = match answer {
        Ok(f) => f,
        Err(e) => {
            return Err(ContractError::FactoryQueryFailed(std_error_text(e)));
        },
    };
    ensure_skip_relayer(fcfg, sender)?;
    let text = decode_hook_data(hook_data)?;
    let hook_json = match parse_json(text.as_str()) {
        Some(j) => j,
        None => {
            return Err(ContractError::MemoEncodeError);
        },
    };
    let coin = extract_sent_asset(&hook_json)?;
    if coin.amount == 0 {
        return Err(ContractError::NoFundsToForward);
    }
    Ok(coin)
}

/// Forwards the coin named by `hook_data` to the Skip entry point, with the
/// (decoded) hook data as the entry point's message. `answer` is the factory's
/// reply to the config query; `available` the contract's balance of the
/// coin's denom (see `transfer_call_coin`).
pub fn execute_transfer_call(
    answer: Result<FactoryConfigResponse, cosmwasm_std::StdError>,
    sender: &String,
    block: BlockInfo,
    hook_data: String,
    available: Result<u128, cosmwasm_std::StdError>,
) -> (r: Result<Response<ForwarderMsg>, ContractError>)
    ensures
        transfer_call_effect(answer, sender@, block, hook_data@, available, r),
{
    let fcfg = load_factory_config(answer)?;
    ensure_skip_relayer(&fcfg, sender)?;
    let ghost hook_view = hook_data@;
    let text = decode_hook_data(hook_data)?;
    let hook_json = match parse_json(text.as_str()) {
        Some(j) => j,
        None => {
            return Err(ContractError::MemoEncodeError);
        },
    };
    let coin = extract_sent_asset(&hook_json)?;
    if coin.amount == 0 {
        return Err(ContractError::NoFundsToForward);
    }
    let balance = match available {
        Ok(b) => b,
        Err(e) => {
            return Err(ContractError::Std(StdFailure::Host(e)));
        },
    };
    if balance < coin.amount {
        return Err(ContractError::InsufficientRequestFunds);
    }
    let msg_bytes = vstd::slice::slice_to_vec(text.as_str().as_bytes());
    let mut funds: Vec<Coin> = Vec::new();
    funds.push(coin);
    let transfer_msg = ForwarderMsg::WasmExecute {
        contract_addr: copy_str(&fcfg.skip_entrypoint_addr),
        msg: msg_bytes,
        funds,
    };
    let mut resp = empty_response();
    resp.messages.push(SubMsg { id: 0, msg: transfer_msg, reply_on: ReplyOn::Never });
    resp.attributes.push(attr_lit("action", "transfer_call"));
    resp.attributes.push(attr("source_tx_height", u128_to_string(block.height as u128)));
    let tx_index: u32 = match block.tx_index {
        Some(i) => i,
        None => 0,
    };
    resp.attributes.push(attr("source_tx_index", u128_to_string(tx_index as u128)));
    assert(attr_pairs(resp.attributes@) =~= seq![
        ("action"@, "transfer_call"@),
        ("source_tx_height"@, dec(block.height as nat)),
        ("source_tx_index"@, dec(tx_index_or_zero(block))),
    ]);
    Ok(resp)
}

// ---------------------------------------------------------------- refund

/// The bytes `inj1`.
pub open spec fn inj1_bytes() -> Seq<u8> {
    seq![105u8, 110u8, 106u8, 49u8]
}

/// The raw account bytes an address text stands for: hex after `0x`/`0X`,
/// the bech32 data of any other text.
pub open spec fn address_bytes(addr: Seq<char>) -> Option<Seq<u8>> {
    let bytes = encode_utf8(addr);
    if hex_marked(bytes) {
        hex_decoded(bytes.subrange(2, bytes.len() as int))
    } else {
        match bech32_payload(addr) {
            Some(groups) => base32_to_bytes(groups),
            None => None,
        }
    }
}

/// The `inj` address of `addr`: `addr` itself when it begins with `inj1`,
/// otherwise the bech32 `inj` encoding of its 20 account bytes.
pub open spec fn injective_addr(addr: Seq<char>) -> Option<Seq<char>> {
    if has_prefix(encode_utf8(addr), inj1_bytes()) {
        Some(addr)
    } else {
        match address_bytes(addr) {
            Some(raw) => if raw.len() == 20 {
                bech32_text("inj"@, bytes_to_base32(raw))
            } else {
                None
            },
            None => None,
        }
    }
}

/// An address that converts to an `inj` address: one that begins with
/// `inj1`, or whose account bytes (hex after `0x`/`0X`, bech32 data
/// otherwise) are 20 bytes long.
pub open spec fn convertible_address(addr: Seq<char>) -> bool {
    has_prefix(encode_utf8(addr), inj1_bytes()) || (address_bytes(addr) matches Some(raw) && raw.len() == 20)
}

/// Whether `bytes` begins with `inj1`.
fn starts_with_inj1(bytes: &[u8]) -> (r: bool)
    ensures
        r == has_prefix(bytes@, inj1_bytes()),
{
    if bytes.len() < 4 {
        return false;
    }
    assert(bytes@.subrange(0, 4) =~= seq![bytes@[0], bytes@[1], bytes@[2], bytes@[3]]);
    bytes[0] == 105 && bytes[1] == 110 && bytes[2] == 106 && bytes[3] == 49
}

/// Converts an address to an `inj1` bech32 address: kept as it is when it
/// already begins with `inj1`; a `0x` hex address or any other bech32 address
/// is re-encoded from its 20 account bytes.
pub fn to_injective_addr(addr: &String) -> (r: Result<String, ContractError>)
    ensures
        match injective_addr(addr@) {
            Some(a) => r matches Ok(s) && s@ == a,
            None => r == Err::<String, ContractError>(ContractError::InvalidRefundAddress),
        },
        r matches Ok(s) ==> injective_addr(s@) == Some(s@),
        r is Ok <==> convertible_address(addr@),
{
    let bytes = addr.as_str().as_bytes();
    if starts_with_inj1(bytes) {
        return Ok(copy_str(addr));
    }
    let raw = if starts_with_hex_mark(bytes) {
        match hex_decode(vstd::slice::slice_subrange(bytes, 2, bytes.len())) {
            Some(raw) => raw,
            None => {
                return Err(ContractError::InvalidRefundAddress);
            },
        }
    } else {
        let groups = match bech32_decode(addr.as_str()) {
            Some(g) => g,
            None => {
                return Err(ContractError::InvalidRefundAddress);
            },
        };
        match base32_decode(groups.as_slice()) {
            Some(raw) => raw,
            None => {
                return Err(ContractError::InvalidRefundAddress);
            },
        }
    };
    if raw.len() != 20 {
        return Err(ContractError::InvalidRefundAddress);
    }
    let groups = base32_encode(raw.as_slice());
    proof {
        reveal_strlit("inj");
        assert(lower_hrp("inj"@));
    }
    match bech32_encode("inj", groups.as_slice()) {
        Some(s) => {
            proof {
                lemma_inj1_text_has_inj1_bytes(s@);
            }
            Ok(s)
        },
        None => Err(ContractError::InvalidRefundAddress),
    }
}

/// A text that begins with the characters `inj1` begins with the bytes `inj1`.
proof fn lemma_inj1_text_has_inj1_bytes(s: Seq<char>)
    requires
        s.len() > 3,
        s.subrange(0, 4) == "inj"@.push('1'),
    ensures
        has_prefix(encode_utf8(s), inj1_bytes()),
{
    reveal_strlit("inj");
    assert(s[0] == 'i' && s[1] == 'n' && s[2] == 'j' && s[3] == '1') by {
        assert(s[0] == s.subrange(0, 4)[0]);
        assert(s[1] == s.subrange(0, 4)[1]);
        assert(s[2] == s.subrange(0, 4)[2]);
        assert(s[3] == s.subrange(0, 4)[3]);
    }
    let s1 = s.drop_first();
    let s2 = s1.drop_first();
    let s3 = s2.drop_first();
    let s4 = s3.drop_first();
    assert((105u32 & 0x7F) as u8 == 105u8) by (bit_vector);
    assert((110u32 & 0x7F) as u8 == 110u8) by (bit_vector);
    assert((106u32 & 0x7F) as u8 == 106u8) by (bit_vector);
    assert((49u32 & 0x7F) as u8 == 49u8) by (bit_vector);
    assert(encode_utf8(s) == seq![105u8] + encode_utf8(s1));
    assert(encode_utf8(s1) == seq![110u8] + encode_utf8(s2));
    assert(encode_utf8(s2) == seq![106u8] + encode_utf8(s3));
    assert(encode_utf8(s3) == seq![49u8] + encode_utf8(s4));
    assert(encode_utf8(s).subrange(0, 4) =~= inj1_bytes());
}

/// A coin as the refund lists it: amount, then denom.
pub open spec fn coin_text(c: Coin) -> Seq<char> {
    dec(c.amount as nat) + c.denom@
}

/// The coins as the refund lists them, separated by commas.
pub open spec fn amounts_text(coins: Seq<Coin>) -> Seq<char>
    decreases coins.len(),
{
    if coins.len() == 0 {
        Seq::empty()
    } else if coins.len() == 1 {
        coin_text(coins[0])
    } else {
        amounts_text(coins.drop_last()) + seq![','] + coin_text(coins.last())
    }
}

/// Lists coins as `<amount><denom>`, comma-separated.
fn amounts_string(coins: &Vec<Coin>) -> (s: String)
    ensures
        s@ == amounts_text(coins@),
{
    let mut s = String::new();
    let mut i: usize = 0;
    proof {
        reveal_strlit(",");
        assert(coins@.take(0) =~= Seq::<Coin>::empty());
    }
    while i < coins.len()
        invariant
            i <= coins@.len(),
            s@ == amounts_text(coins@.take(i as int)),
            ","@ == seq![','],
        decreases coins@.len() - i,
    {
        if i > 0 {
            s.append(",");
        }
        s.append(u128_to_string(coins[i].amount).as_str());
        s.append(coins[i].denom.as_str());
        assert(coins@.take(i as int + 1).drop_last() =~= coins@.take(i as int));
        i = i + 1;
    }
    assert(coins@.take(coins@.len() as int) =~= coins@);
    s
}

/// What a refund does: nothing but an error when refused, or every coin the
/// contract holds sent to the route's sender as an `inj` address.
pub open spec fn refund_effect(
    config: Config,
    answer: Result<FactoryConfigResponse, cosmwasm_std::StdError>,
    sender: Seq<char>,
    balances: Result<Vec<Coin>, cosmwasm_std::StdError>,
    r: Result<Response<ForwarderMsg>, ContractError>,
) -> bool {
    match answer {
        Err(_) => r matches Err(ContractError::FactoryQueryFailed(_)),
        Ok(fcfg) => if !is_owner_or_relayer(fcfg, sender) {
            r == Err::<Response<ForwarderMsg>, ContractError>(ContractError::Unauthorized)
        } else if !convertible_address(config.sender_addr@) {
            r == Err::<Response<ForwarderMsg>, ContractError>(ContractError::InvalidRefundAddress)
        } else {
            injective_addr(config.sender_addr@) is Some && match balances {
                Err(e) => r == Err::<Response<ForwarderMsg>, ContractError>(
                    ContractError::Std(StdFailure::Host(e)),
                ),
                Ok(coins) => if coins@.len() == 0 {
                    r == Err::<Response<ForwarderMsg>, ContractError>(ContractError::NoFundsToForward)
                } else {
                    r matches Ok(resp) && {
                        let to = injective_addr(config.sender_addr@).unwrap();
                        &&& resp.messages@.len() == 1
                        &&& resp.messages@[0].id == 0
                        &&& resp.messages@[0].reply_on == ReplyOn::Never
                        &&& resp.messages@[0].msg matches ForwarderMsg::BankSend { to_address, amount } && {
                            &&& to_address@ == to
                            &&& amount == coins
                        }
                        &&& attr_pairs(resp.attributes@) == seq![
                            ("action"@, "refund"@),
                            ("refund_addr"@, to),
                            ("amounts"@, amounts_text(coins@)),
                        ]
                    }
                },
            }
        },
    }
}

/// Refunds every coin the contract holds to the route's sender (converted to
/// an `inj` address). `balances` is the host's answer to the all-balances query.
pub fn execute_refund(
    config: &Config,
    answer: Result<FactoryConfigResponse, cosmwasm_std::StdError>,
    sender: &String,
    balances: Result<Vec<Coin>, cosmwasm_std::StdError>,
) -> (r: Result<Response<ForwarderMsg>, ContractError>)
    ensures
        refund_effect(*config, answer, sender@, balances, r),
{
    let fcfg = load_factory_config(answer)?;
    ensure_owner_or_skip_relayer(&fcfg, sender)?;
    let refund_addr = to_injective_addr(&config.sender_addr)?;
    let coins = match balances {
        Ok(c) => c,
        Err(e) => {
            return Err(ContractError::Std(StdFailure::Host(e)));
        },
    };
    if coins.len() == 0 {
        return Err(ContractError::NoFundsToForward);
    }
    let amounts = amounts_string(&coins);
    let mut resp = empty_response();
    resp.attributes.push(attr_lit("action", "refund"));
    resp.attributes.push(attr("refund_addr", copy_str(&refund_addr)));
    resp.attributes.push(attr("amounts", amounts));
    let ghost to = refund_addr@;
    let ghost coins_view = coins;
    resp.messages.push(
        SubMsg { id: 0, msg: ForwarderMsg::BankSend { to_address: refund_addr, amount: coins }, reply_on: ReplyOn::Never },
    );
    assert(attr_pairs(resp.attributes@) =~= seq![
        ("action"@, "refund"@),
        ("refund_addr"@, to),
        ("amounts"@, amounts_text(coins_view@)),
    ]);
    Ok(resp)
}

// ---------------------------------------------------------------- dispatch

/// Executes `msg` sent by `sender`. `answer` is the factory's reply to the
/// config query; `available` the balance of the denom that
/// `transfer_call_coin` names (read by a transfer call only); `balances` the
/// answer to the all-balances query (read by a refund only).
pub fn execute(
    config: &Config,
    answer: Result<FactoryConfigResponse, cosmwasm_std::StdError>,
    sender: &String,
    block: BlockInfo,
    msg: ExecuteMsg,
    available: Result<u128, cosmwasm_std::StdError>,
    balances: Result<Vec<Coin>, cosmwasm_std::StdError>,
) -> (r: Result<Response<ForwarderMsg>, ContractError>)
    ensures
        match msg {
            ExecuteMsg::TransferCall { hook_data } => transfer_call_effect(
                answer,
                sender@,
                block,
                hook_data@,
                available,
                r,
            ),
            ExecuteMsg::Refund {} => refund_effect(*config, answer, sender@, balances, r),
        },
{
    match msg {
        ExecuteMsg::TransferCall { hook_data } => execute_transfer_call(answer, sender, block, hook_data, available),
        ExecuteMsg::Refund {} => execute_refund(config, answer, sender, balances),
    }
}


// ---------------------------------------------------------------- laws

/// A transfer call reads the balance only after every other check: where it
/// is refused before that point, it gives the same error whatever the balance;
/// where it is not, it succeeds exactly when the balance covers the coin that
/// the hook data names.
pub proof fn transfer_call_reads_balance_last(
    fcfg: FactoryConfigResponse,
    sender: Seq<char>,
    hook_data: Seq<char>,
    available: Result<u128, cosmwasm_std::StdError>,
)
    ensures
        transfer_call_rejection(fcfg, sender, hook_data, Ok(u128::MAX)) is Some ==> transfer_call_rejection(
            fcfg,
            sender,
            hook_data,
            available,
        ) == transfer_call_rejection(fcfg, sender, hook_data, Ok(u128::MAX)),
        transfer_call_rejection(fcfg, sender, hook_data, Ok(u128::MAX)) is None ==> (transfer_call_rejection(
            fcfg,
            sender,
            hook_data,
            available,
        ) is None <==> (available matches Ok(a) && a >= forwarded_coin(hook_data).1)),
{
}

// ---------------------------------------------------------------- laws on the hook data and the refund address

/// The coin is read only under a top-level key `action` or
/// `action_with_recover`: hook data that is not a JSON object, or an object
/// none of whose keys is one of those two (the swap family, for one), names no
/// coin.
pub proof fn coin_only_under_action_keys(hook: Json)
    ensures
        (match hook {
            Json::Object(members) => forall|i: int|
                0 <= i < members@.len() ==> #[trigger] members@[i].key@ != "action"@ && members@[i].key@
                    != "action_with_recover"@,
            _ => true,
        }) ==> sent_asset_coin(hook) is None,
{
    match hook {
        Json::Object(members) => {
            if forall|i: int|
                0 <= i < members@.len() ==> #[trigger] members@[i].key@ != "action"@ && members@[i].key@
                    != "action_with_recover"@ {
                assert forall|i: int| !is_first_route_member(members@, i) by {
                    if 0 <= i < members@.len() {
                        assert(members@[i].key@ != "action"@ && members@[i].key@ != "action_with_recover"@);
                    }
                }
            }
        },
        _ => {},
    }
}

/// A transfer call whose (decoded) hook data is a JSON object with neither
/// an `action` nor an `action_with_recover` key is refused with
/// `InvalidHookData`, once the relayer is authorized.
pub proof fn transfer_refused_without_action_key(
    answer: Result<FactoryConfigResponse, cosmwasm_std::StdError>,
    sender: Seq<char>,
    block: BlockInfo,
    hook_data: Seq<char>,
    available: Result<u128, cosmwasm_std::StdError>,
    r: Result<Response<ForwarderMsg>, ContractError>,
    text: Seq<char>,
    members: Vec<JsonMember>,
)
    requires
        transfer_call_effect(answer, sender, block, hook_data, available, r),
        answer matches Ok(f) && sender == f.skip_relayer_addr@,
        hook_text(hook_data) == Some(text),
        json_parse(text) == Some(Json::Object(members)),
        forall|i: int|
            0 <= i < members@.len() ==> #[trigger] members@[i].key@ != "action"@ && members@[i].key@
                != "action_with_recover"@,
    ensures
        r == Err::<Response<ForwarderMsg>, ContractError>(ContractError::InvalidHookData),
{
    coin_only_under_action_keys(Json::Object(members));
}

/// Text that begins with `0x`/`0X` does not begin with `inj1`.
proof fn lemma_hex_mark_is_not_inj1(bytes: Seq<u8>)
    requires
        hex_marked(bytes),
    ensures
        !has_prefix(bytes, inj1_bytes()),
{
    assert(bytes.subrange(0, 2)[0] == bytes[0]);
    if bytes.len() >= 4 {
        assert(bytes.subrange(0, 4)[0] == bytes[0]);
    }
}

/// Only 20-byte accounts convert to an `inj` address: an address marked
/// `0x`/`0X` whose hex decodes to any other number of bytes (the 32-byte
/// CCTP form, for one), or any other text that is not `inj1...` and whose
/// bech32 data decodes to any other number of bytes, has no `inj` address.
pub proof fn only_twenty_byte_accounts_convert(addr: Seq<char>)
    ensures
        hex_marked(encode_utf8(addr)) && (hex_decoded(encode_utf8(addr).subrange(2, encode_utf8(addr).len() as int)) matches Some(
            raw,
        ) && raw.len() != 20) ==> injective_addr(addr) is None,
        !hex_marked(encode_utf8(addr)) && !has_prefix(encode_utf8(addr), inj1_bytes()) && (bech32_payload(addr) matches Some(
            groups,
        ) && base32_to_bytes(groups) matches Some(raw) && raw.len() != 20) ==> injective_addr(addr) is None,
{
    if hex_marked(encode_utf8(addr)) {
        lemma_hex_mark_is_not_inj1(encode_utf8(addr));
    }
}

/// A refund to a sender whose account is not 20 bytes long (for one, a `0x`
/// address with 64 hex digits) is refused with `InvalidRefundAddress` and
/// sends nothing, once the caller is authorized.
pub proof fn refund_refused_for_non_twenty_byte_sender(
    config: Config,
    answer: Result<FactoryConfigResponse, cosmwasm_std::StdError>,
    sender: Seq<char>,
    balances: Result<Vec<Coin>, cosmwasm_std::StdError>,
    r: Result<Response<ForwarderMsg>, ContractError>,
)
    requires
        refund_effect(config, answer, sender, balances, r),
        answer matches Ok(f) && (sender == f.skip_relayer_addr@ || sender == f.owner@),
        hex_marked(encode_utf8(config.sender_addr@)),
        hex_decoded(encode_utf8(config.sender_addr@).subrange(2, encode_utf8(config.sender_addr@).len() as int)) matches Some(
            raw,
        ) && raw.len() != 20,
    ensures
        r == Err::<Response<ForwarderMsg>, ContractError>(ContractError::InvalidRefundAddress),
{
    lemma_hex_mark_is_not_inj1(encode_utf8(config.sender_addr@));
}

} // verus!
