//! The forward contract: it registers each CCTP mint as a transfer request,
//! forwards the minted funds to the Skip entry point, and lets the owner or the
//! Skip relayer refund and then abandon a request.

use crate::common::{
    attr, attr_lit, attr_pairs, copy_str, dec, empty_response, str_eq, tx_index_or_zero, u128_to_string,
    BlockInfo, Coin, ReplyOn, Response, StdFailure, SubMsg, SubMsgOutcome,
};
use crate::json::{has_float, json_bytes, json_has_float, json_parse, json_to_binary, parse_json};
use crate::bytes::{bytes_equal, bytes_less, bytes_lt, lemma_bytes_lt_irreflexive, lemma_bytes_lt_total, lemma_bytes_lt_transitive};
use vstd::prelude::*;
use vstd::utf8::{encode_utf8, encode_utf8_decode_utf8};

verus! {

// ---------------------------------------------------------------- state

/// The contract's configuration.
#[derive(Debug, PartialEq, Eq)]
pub struct Config {
    pub sender_addr: String,
    pub recipient_addr: String,
    pub dest_chain: String,
    pub refund_addr: String,
    pub skip_relayer_addr: String,
    pub skip_entrypoint_addr: String,
    pub owner: String,
}

/// Where a transfer request stands.
#[derive(Debug, Clone, Copy, PartialEq, Eq, Structural)]
pub enum RequestStatus {
    Pending,
    Transfer,
    Fail,
    Refund,
    Abandon,
}

/// One forwarded mint.
#[derive(Debug, PartialEq, Eq)]
pub struct TransferRequest {
    pub id: u64,
    pub mint_tx_hash: String,
    pub transfer_coin: Coin,
    pub source_tx_height: u64,
    pub source_tx_index: Option<u32>,
    pub destination_channel: String,
    pub status: RequestStatus,
    pub hook_data: Option<String>,
    /// The error of the entry-point call, once its failure has been replied.
    pub error_msg: Option<String>,
}

/// Everything the contract stores: the configuration, the next request id, and
/// the requests in id order (`requests[i]` has id `i + 1`; the index from mint
/// transaction hash to id is the inverse of `mint_tx_hash`).
#[derive(Debug, PartialEq, Eq)]
pub struct ForwardState {
    pub config: Config,
    pub next_request_id: u64,
    pub requests: Vec<TransferRequest>,
}

impl ForwardState {
    /// Ids run 1, 2, ... in storage order, the next id follows the last one,
    /// and no two requests share a mint transaction hash.
    pub open spec fn wf(self) -> bool {
        &&& self.requests@.len() < u64::MAX
        &&& self.next_request_id == self.requests@.len() + 1
        &&& forall|i: int| 0 <= i < self.requests@.len() ==> #[trigger] self.requests@[i].id == i + 1
        &&& forall|i: int, j: int|
            0 <= i < j < self.requests@.len() ==> #[trigger] self.requests@[i].mint_tx_hash@
                != #[trigger] self.requests@[j].mint_tx_hash@
    }

    /// `i` is the position of the request minted in transaction `hash`.
    pub open spec fn holds_mint_at(self, hash: Seq<char>, i: int) -> bool {
        0 <= i < self.requests@.len() && self.requests@[i].mint_tx_hash@ == hash
    }

    /// Some request was minted in transaction `hash`.
    pub open spec fn has_mint(self, hash: Seq<char>) -> bool {
        exists|i: int| self.holds_mint_at(hash, i)
    }

    /// The position of the request minted in transaction `hash`.
    pub open spec fn mint_index(self, hash: Seq<char>) -> int {
        choose|i: int| self.holds_mint_at(hash, i)
    }

    /// The position of the request minted in transaction `hash`, if any.
    pub fn find_request(&self, hash: &String) -> (r: Option<usize>)
        requires
            self.wf(),
        ensures
            match r {
                Some(i) => self.holds_mint_at(hash@, i as int) && self.mint_index(hash@) == i,
                None => !self.has_mint(hash@),
            },
    {
        let mut i: usize = 0;
        while i < self.requests.len()
            invariant
                self.wf(),
                i <= self.requests@.len(),
                forall|j: int| 0 <= j < i ==> self.requests@[j].mint_tx_hash@ != hash@,
            decreases self.requests@.len() - i,
        {
            if str_eq(&self.requests[i].mint_tx_hash, hash) {
                proof {
                    let c = self.mint_index(hash@);
                    assert(self.holds_mint_at(hash@, i as int));
                    if c != i as int {
                        if c < i as int {
                            assert(self.requests@[c].mint_tx_hash@ != self.requests@[i as int].mint_tx_hash@);
                        } else {
                            assert(self.requests@[i as int].mint_tx_hash@ != self.requests@[c].mint_tx_hash@);
                        }
                    }
                }
                return Some(i);
            }
            i = i + 1;
        }
        None
    }

    /// Rebuilds the state from what storage holds: the requests in id order
    /// and the index from mint transaction hash to id in the order storage
    /// walks it (ascending bytes of the hash). Refuses storage that breaks the
    /// invariant of `wf` or whose index does not list every request's hash
    /// under its id; the index being sorted makes the hashes distinct.
    pub fn from_parts(
        config: Config,
        next_request_id: u64,
        requests: Vec<TransferRequest>,
        index: Vec<MintIndexEntry>,
    ) -> (r: Option<ForwardState>)
        ensures
            match r {
                Some(s) => {
                    &&& s.wf()
                    &&& s.config == config
                    &&& s.next_request_id == next_request_id
                    &&& s.requests == requests
                    &&& index_sorted(index@)
                    &&& index_covers(requests@, index@)
                },
                None => !((ForwardState { config, next_request_id, requests }).wf() && index_sorted(index@)
                    && index_covers(requests@, index@)),
            },
    {
        let n = requests.len();
        if n as u64 >= u64::MAX || next_request_id != n as u64 + 1 {
            return None;
        }
        let mut i: usize = 0;
        while i < n
            invariant
                n == requests@.len(),
                i <= n,
                forall|k: int| 0 <= k < i ==> #[trigger] requests@[k].id == k + 1,
            decreases n - i,
        {
            if requests[i].id != i as u64 + 1 {
                return None;
            }
            i = i + 1;
        }
        if !index_is_sorted(&index) {
            return None;
        }
        let mut a: usize = 0;
        let ghost mut ks: Seq<int> = Seq::empty();
        while a < n
            invariant
                n == requests@.len(),
                a <= n,
                n < u64::MAX,
                next_request_id == n + 1,
                forall|k: int| 0 <= k < n ==> #[trigger] requests@[k].id == k + 1,
                index_sorted(index@),
                ks.len() == a,
                forall|b: int| 0 <= b < a ==> indexed_at(requests@, index@, b, #[trigger] ks[b]),
            decreases n - a,
        {
            match find_mint(&index, requests[a].mint_tx_hash.as_str().as_bytes()) {
                Some(k) => {
                    proof {
                        lemma_encode_utf8_injective(index@[k as int].mint_tx_hash@, requests@[a as int].mint_tx_hash@);
                    }
                    if index[k].id != a as u64 + 1 {
                        proof {
                            assert forall|q: int| !indexed_at(requests@, index@, a as int, q) by {
                                if indexed_at(requests@, index@, a as int, q) && q != k as int {
                                    lemma_index_keys_distinct(index@, q, k as int);
                                }
                            }
                            assert(!index_lists(requests@, index@, a as int));
                        }
                        return None;
                    }
                    proof {
                        ks = ks.push(k as int);
                    }
                },
                None => {
                    proof {
                        assert forall|q: int| !indexed_at(requests@, index@, a as int, q) by {
                            if 0 <= q < index@.len() {
                                assert(encode_utf8(index@[q].mint_tx_hash@) != encode_utf8(requests@[a as int].mint_tx_hash@));
                            }
                        }
                        assert(!index_lists(requests@, index@, a as int));
                    }
                    return None;
                },
            }
            a = a + 1;
        }
        proof {
            assert forall|x: int| 0 <= x < requests@.len() implies #[trigger] index_lists(requests@, index@, x) by {
                assert(indexed_at(requests@, index@, x, ks[x]));
            }
            assert forall|x: int, y: int|
                0 <= x < y < requests@.len() implies #[trigger] requests@[x].mint_tx_hash@
                    != #[trigger] requests@[y].mint_tx_hash@ by {
                assert(indexed_at(requests@, index@, x, ks[x]));
                assert(indexed_at(requests@, index@, y, ks[y]));
                if requests@[x].mint_tx_hash@ == requests@[y].mint_tx_hash@ && ks[x] != ks[y] {
                    lemma_index_keys_distinct(index@, ks[x], ks[y]);
                }
            }
        }
        Some(ForwardState { config, next_request_id, requests })
    }
}

/// An entry of the index from mint transaction hash to request id.
#[derive(Debug, PartialEq, Eq)]
pub struct MintIndexEntry {
    pub mint_tx_hash: String,
    pub id: u64,
}

/// The index's hashes strictly ascend by their bytes.
pub open spec fn index_sorted(index: Seq<MintIndexEntry>) -> bool {
    forall|i: int, j: int|
        0 <= i < j < index.len() ==> bytes_lt(
            encode_utf8(#[trigger] index[i].mint_tx_hash@),
            encode_utf8(#[trigger] index[j].mint_tx_hash@),
        )
}

/// Entry `k` of the index lists request `a`: its hash under its id.
pub open spec fn indexed_at(requests: Seq<TransferRequest>, index: Seq<MintIndexEntry>, a: int, k: int) -> bool {
    &&& 0 <= k < index.len()
    &&& index[k].mint_tx_hash@ == requests[a].mint_tx_hash@
    &&& index[k].id == a + 1
}

/// Some entry of the index lists request `a`.
pub open spec fn index_lists(requests: Seq<TransferRequest>, index: Seq<MintIndexEntry>, a: int) -> bool {
    exists|k: int| #[trigger] indexed_at(requests, index, a, k)
}

/// The index lists every request's hash under its id.
pub open spec fn index_covers(requests: Seq<TransferRequest>, index: Seq<MintIndexEntry>) -> bool {
    forall|a: int| 0 <= a < requests.len() ==> #[trigger] index_lists(requests, index, a)
}

/// Texts with the same UTF-8 encoding are the same text.
proof fn lemma_encode_utf8_injective(a: Seq<char>, b: Seq<char>)
    requires
        encode_utf8(a) == encode_utf8(b),
    ensures
        a == b,
{
    encode_utf8_decode_utf8(a);
    encode_utf8_decode_utf8(b);
}

/// Two entries of a sorted index with the same hash are the same entry.
proof fn lemma_index_keys_distinct(index: Seq<MintIndexEntry>, p: int, q: int)
    requires
        index_sorted(index),
        0 <= p < index.len(),
        0 <= q < index.len(),
        p != q,
    ensures
        index[p].mint_tx_hash@ != index[q].mint_tx_hash@,
{
    if p < q {
        assert(bytes_lt(encode_utf8(index[p].mint_tx_hash@), encode_utf8(index[q].mint_tx_hash@)));
        if index[p].mint_tx_hash@ == index[q].mint_tx_hash@ {
            lemma_bytes_lt_irreflexive(encode_utf8(index[p].mint_tx_hash@));
        }
    } else {
        assert(bytes_lt(encode_utf8(index[q].mint_tx_hash@), encode_utf8(index[p].mint_tx_hash@)));
        if index[p].mint_tx_hash@ == index[q].mint_tx_hash@ {
            lemma_bytes_lt_irreflexive(encode_utf8(index[p].mint_tx_hash@));
        }
    }
}

/// Whether the index's hashes strictly ascend by their bytes.
fn index_is_sorted(index: &Vec<MintIndexEntry>) -> (r: bool)
    ensures
        r == index_sorted(index@),
{
    let m = index.len();
    let mut i: usize = 1;
    while i < m
        invariant
            m == index@.len(),
            1 <= i,
            forall|a: int, b: int|
                0 <= a < b < i && b < m ==> bytes_lt(
                    encode_utf8(#[trigger] index@[a].mint_tx_hash@),
                    encode_utf8(#[trigger] index@[b].mint_tx_hash@),
                ),
        decreases m - i,
    {
        if !bytes_less(index[i - 1].mint_tx_hash.as_str().as_bytes(), index[i].mint_tx_hash.as_str().as_bytes()) {
            assert(!bytes_lt(
                encode_utf8(index@[i - 1].mint_tx_hash@),
                encode_utf8(index@[i as int].mint_tx_hash@),
            ));
            return false;
        }
        proof {
            assert forall|a: int, b: int| 0 <= a < b < i + 1 && b < m implies bytes_lt(
                encode_utf8(#[trigger] index@[a].mint_tx_hash@),
                encode_utf8(#[trigger] index@[b].mint_tx_hash@),
            ) by {
                if b == i && a < i - 1 {
                    lemma_bytes_lt_transitive(
                        encode_utf8(index@[a].mint_tx_hash@),
                        encode_utf8(index@[i - 1].mint_tx_hash@),
                        encode_utf8(index@[b].mint_tx_hash@),
                    );
                }
            }
        }
        i = i + 1;
    }
    true
}

/// Binary search of a sorted index for the hash whose bytes are `key`.
fn find_mint(index: &Vec<MintIndexEntry>, key: &[u8]) -> (r: Option<usize>)
    requires
        index_sorted(index@),
    ensures
        match r {
            Some(k) => k < index@.len() && encode_utf8(index@[k as int].mint_tx_hash@) == key@,
            None => forall|k: int| 0 <= k < index@.len() ==> encode_utf8(index@[k].mint_tx_hash@) != key@,
        },
{
    let mut lo: usize = 0;
    let mut hi: usize = index.len();
    while lo < hi
        invariant
            lo <= hi <= index@.len(),
            index_sorted(index@),
            forall|k: int| 0 <= k < lo ==> bytes_lt(encode_utf8(#[trigger] index@[k].mint_tx_hash@), key@),
            forall|k: int| hi <= k < index@.len() ==> bytes_lt(key@, encode_utf8(#[trigger] index@[k].mint_tx_hash@)),
        decreases hi - lo,
    {
        let mid = lo + (hi - lo) / 2;
        let bytes = index[mid].mint_tx_hash.as_str().as_bytes();
        if bytes_equal(bytes, key) {
            return Some(mid);
        }
        if bytes_less(bytes, key) {
            proof {
                assert forall|k: int| 0 <= k < mid + 1 implies bytes_lt(
                    encode_utf8(#[trigger] index@[k].mint_tx_hash@),
                    key@,
                ) by {
                    if k < mid {
                        lemma_bytes_lt_transitive(
                            encode_utf8(index@[k].mint_tx_hash@),
                            encode_utf8(index@[mid as int].mint_tx_hash@),
                            key@,
                        );
                    }
                }
            }
            lo = mid + 1;
        } else {
            proof {
                lemma_bytes_lt_total(encode_utf8(index@[mid as int].mint_tx_hash@), key@);
                assert forall|k: int| mid <= k < index@.len() implies bytes_lt(
                    key@,
                    encode_utf8(#[trigger] index@[k].mint_tx_hash@),
                ) by {
                    if k > mid {
                        lemma_bytes_lt_transitive(
                            key@,
                            encode_utf8(index@[mid as int].mint_tx_hash@),
                            encode_utf8(index@[k].mint_tx_hash@),
                        );
                    }
                }
            }
            hi = mid;
        }
    }
    proof {
        assert forall|k: int| 0 <= k < index@.len() implies encode_utf8(index@[k].mint_tx_hash@) != key@ by {
            if k < lo {
                lemma_bytes_lt_irreflexive(key@);
            } else {
                lemma_bytes_lt_irreflexive(key@);
            }
        }
    }
    None
}

// ---------------------------------------------------------------- messages

/// Instantiation parameters.
#[derive(Debug, PartialEq, Eq)]
pub struct InstantiateMsg {
    pub sender_addr: String,
    pub recipient_addr: String,
    pub dest_chain: String,
    pub refund_addr: String,
    pub skip_relayer_addr: String,
    pub skip_entrypoint_addr: String,
    pub owner: Option<String>,
}

/// The execute messages.
#[derive(Debug, PartialEq, Eq)]
pub enum ExecuteMsg {
    TransferCall { mint_tx_hash: String, transfer_coin: Coin, hook_data: String, destination_channel: String },
    Refund { mint_tx_hash: String },
    Abandon { mint_tx_hash: String },
}

/// The order in which requests are listed.
#[derive(Debug, Clone, Copy, PartialEq, Eq, Structural)]
pub enum RequestOrder {
    Asc,
    Desc,
}

/// The queries.
#[derive(Debug, PartialEq, Eq)]
pub enum QueryMsg {
    Config {},
    Requests { start_after: Option<u64>, limit: Option<u32>, order: Option<RequestOrder> },
    RequestByMintTxHash { mint_tx_hash: String },
}

/// The configuration as queried.
#[derive(Debug, PartialEq, Eq)]
pub struct ConfigResponse {
    pub sender_addr: String,
    pub recipient_addr: String,
    pub dest_chain: String,
    pub refund_addr: String,
    pub skip_relayer_addr: String,
    pub skip_entrypoint_addr: String,
    pub owner: String,
}

/// A request as queried (without its hook data).
#[derive(Debug, PartialEq, Eq)]
pub struct RequestItem {
    pub id: u64,
    pub mint_tx_hash: String,
    pub transfer_coin: Coin,
    pub source_tx_height: u64,
    pub source_tx_index: Option<u32>,
    pub destination_channel: String,
    pub status: RequestStatus,
}

/// A page of requests.
#[derive(Debug, PartialEq, Eq)]
pub struct RequestListResponse {
    pub requests: Vec<RequestItem>,
}

/// One request.
#[derive(Debug, PartialEq, Eq)]
pub struct RequestResponse {
    pub request: RequestItem,
}

/// The answer to a query.
#[derive(Debug, PartialEq, Eq)]
pub enum QueryAnswer {
    Config(ConfigResponse),
    Requests(RequestListResponse),
    Request(RequestResponse),
}

/// The transfer call sent to the Skip entry point.
#[derive(Debug, PartialEq, Eq)]
pub struct SkipTransferCallPayload {
    pub destination_channel: String,
    pub recipient: String,
    pub destination_chain: String,
    /// The hook data, re-encoded as JSON.
    pub memo: Vec<u8>,
}

/// The execute message of the Skip entry point.
#[derive(Debug, PartialEq, Eq)]
pub struct SkipEntrypointExecuteMsg {
    pub transfer_call: SkipTransferCallPayload,
}

/// The messages this contract sends.
#[derive(Debug, PartialEq, Eq)]
pub enum ForwardMsg {
    /// Execute the entry point with `msg`, attaching `funds`.
    EntrypointTransfer { contract_addr: String, msg: SkipEntrypointExecuteMsg, funds: Vec<Coin> },
    /// A bank transfer.
    BankSend { to_address: String, amount: Vec<Coin> },
}

/// The errors of the contract.
#[derive(Debug, PartialEq)]
pub enum ContractError {
    Std(StdFailure),
    Unauthorized,
    MemoEncodeError,
    IBCTransferFailed,
    NoFundsToForward,
    InvalidStatusTransition,
    DuplicateMintTxHash,
    RequestNotFound,
    InsufficientRequestFunds,
}


// ---------------------------------------------------------------- instantiate

/// The error of instantiation: the first address that the host refused, in
/// the order owner (when given), refund, relayer, entry point.
pub open spec fn instantiate_rejection(
    msg: InstantiateMsg,
    owner_check: Result<(), cosmwasm_std::StdError>,
    refund_check: Result<(), cosmwasm_std::StdError>,
    relayer_check: Result<(), cosmwasm_std::StdError>,
    entrypoint_check: Result<(), cosmwasm_std::StdError>,
) -> Option<ContractError> {
    if msg.owner is Some && owner_check is Err {
        Some(ContractError::Std(StdFailure::Host(owner_check->Err_0)))
    } else if refund_check is Err {
        Some(ContractError::Std(StdFailure::Host(refund_check->Err_0)))
    } else if relayer_check is Err {
        Some(ContractError::Std(StdFailure::Host(relayer_check->Err_0)))
    } else if entrypoint_check is Err {
        Some(ContractError::Std(StdFailure::Host(entrypoint_check->Err_0)))
    } else {
        None
    }
}

/// Instantiates the contract for `sender`. Each `*_check` is the host's
/// validation of the corresponding address of `msg` (`owner_check` is read
/// only when `msg` names an owner). The owner defaults to `sender`.
pub fn instantiate(
    sender: &String,
    msg: InstantiateMsg,
    owner_check: Result<(), cosmwasm_std::StdError>,
    refund_check: Result<(), cosmwasm_std::StdError>,
    relayer_check: Result<(), cosmwasm_std::StdError>,
    entrypoint_check: Result<(), cosmwasm_std::StdError>,
) -> (r: Result<(ForwardState, Response<ForwardMsg>), ContractError>)
    ensures
        match instantiate_rejection(msg, owner_check, refund_check, relayer_check, entrypoint_check) {
            Some(e) => r == Err::<(ForwardState, Response<ForwardMsg>), ContractError>(e),
            None => r matches Ok((state, resp)) && {
                let owner = match msg.owner { Some(o) => o, None => *sender };
                &&& state.wf()
                &&& state.config == (Config {
                    sender_addr: msg.sender_addr,
                    recipient_addr: msg.recipient_addr,
                    dest_chain: msg.dest_chain,
                    refund_addr: msg.refund_addr,
                    skip_relayer_addr: msg.skip_relayer_addr,
                    skip_entrypoint_addr: msg.skip_entrypoint_addr,
                    owner,
                })
                &&& state.next_request_id == 1
                &&& state.requests@.len() == 0
                &&& resp.messages@.len() == 0
                &&& attr_pairs(resp.attributes@) == seq![
                    ("action"@, "instantiate"@),
                    ("owner"@, owner@),
                    ("sender_addr"@, msg.sender_addr@),
                    ("recipient_addr"@, msg.recipient_addr@),
                    ("dest_chain"@, msg.dest_chain@),
                    ("skip_relayer_addr"@, msg.skip_relayer_addr@),
                ]
            },
        },
{
    let owner = match msg.owner {
        Some(o) => {
            if let Err(e) = owner_check {
                return Err(ContractError::Std(StdFailure::Host(e)));
            }
            o
        },
        None => copy_str(sender),
    };
    if let Err(e) = refund_check {
        return Err(ContractError::Std(StdFailure::Host(e)));
    }
    if let Err(e) = relayer_check {
        return Err(ContractError::Std(StdFailure::Host(e)));
    }
    if let Err(e) = entrypoint_check {
        return Err(ContractError::Std(StdFailure::Host(e)));
    }
    let mut resp = empty_response();
    resp.attributes.push(attr_lit("action", "instantiate"));
    resp.attributes.push(attr("owner", copy_str(&owner)));
    resp.attributes.push(attr("sender_addr", copy_str(&msg.sender_addr)));
    resp.attributes.push(attr("recipient_addr", copy_str(&msg.recipient_addr)));
    resp.attributes.push(attr("dest_chain", copy_str(&msg.dest_chain)));
    resp.attributes.push(attr("skip_relayer_addr", copy_str(&msg.skip_relayer_addr)));
    let config = Config {
        sender_addr: msg.sender_addr,
        recipient_addr: msg.recipient_addr,
        dest_chain: msg.dest_chain,
        refund_addr: msg.refund_addr,
        skip_relayer_addr: msg.skip_relayer_addr,
        skip_entrypoint_addr: msg.skip_entrypoint_addr,
        owner,
    };
    let state = ForwardState { config, next_request_id: 1, requests: Vec::new() };
    assert(attr_pairs(resp.attributes@) =~= seq![
        ("action"@, "instantiate"@),
        ("owner"@, state.config.owner@),
        ("sender_addr"@, state.config.sender_addr@),
        ("recipient_addr"@, state.config.recipient_addr@),
        ("dest_chain"@, state.config.dest_chain@),
        ("skip_relayer_addr"@, state.config.skip_relayer_addr@),
    ]);
    Ok((state, resp))
}

// ---------------------------------------------------------------- authorization

/// Only the Skip relayer may start a transfer.
pub fn assert_skip_relayer(config: &Config, sender: &String) -> (r: Result<(), ContractError>)
    ensures
        r is Ok <==> sender@ == config.skip_relayer_addr@,
        r matches Err(e) ==> e == ContractError::Unauthorized,
{
    if !str_eq(sender, &config.skip_relayer_addr) {
        return Err(ContractError::Unauthorized);
    }
    Ok(())
}

/// Whether `sender` is the Skip relayer or the owner.
pub open spec fn is_owner_or_relayer(config: Config, sender: Seq<char>) -> bool {
    sender == config.skip_relayer_addr@ || sender == config.owner@
}

/// Only the Skip relayer or the owner may refund or abandon.
pub fn assert_owner_or_skip_relayer(config: &Config, sender: &String) -> (r: Result<(), ContractError>)
    ensures
        r is Ok <==> is_owner_or_relayer(*config, sender@),
        r matches Err(e) ==> e == ContractError::Unauthorized,
{
    if !str_eq(sender, &config.skip_relayer_addr) && !str_eq(sender, &config.owner) {
        return Err(ContractError::Unauthorized);
    }
    Ok(())
}

// ---------------------------------------------------------------- transfer call

/// Why a transfer call is refused, checked in this order: the sender is not
/// the relayer; the amount is zero; the mint was already registered; the
/// balance query failed or holds less than the amount; the hook data is not
/// JSON or holds a float number (which the re-encoding cannot write).
pub open spec fn transfer_call_rejection(
    state: ForwardState,
    sender: Seq<char>,
    mint_tx_hash: Seq<char>,
    amount: u128,
    hook_data: Seq<char>,
    available: Result<u128, cosmwasm_std::StdError>,
) -> Option<ContractError> {
    if sender != state.config.skip_relayer_addr@ {
        Some(ContractError::Unauthorized)
    } else if amount == 0 {
        Some(ContractError::NoFundsToForward)
    } else if state.has_mint(mint_tx_hash) {
        Some(ContractError::DuplicateMintTxHash)
    } else if available is Err {
        Some(ContractError::Std(StdFailure::Host(available->Err_0)))
    } else if available->Ok_0 < amount {
        Some(ContractError::InsufficientRequestFunds)
    } else if json_parse(hook_data) is None || has_float(json_parse(hook_data).unwrap()) {
        Some(ContractError::MemoEncodeError)
    } else {
        None
    }
}

/// The memo forwarded for `hook_data`: the JSON that it holds, re-encoded.
pub open spec fn memo_of(hook_data: Seq<char>) -> Seq<u8> {
    json_bytes(json_parse(hook_data).unwrap()).unwrap()
}

/// What a transfer call does: refused as `transfer_call_rejection` says with
/// the state unchanged, or the request appended (status `Transfer`) and one
/// entry-point call sent with the coin attached.
pub open spec fn transfer_call_effect(
    pre: ForwardState,
    post: ForwardState,
    sender: Seq<char>,
    block: BlockInfo,
    mint_tx_hash: String,
    transfer_coin: Coin,
    hook_data: String,
    destination_channel: String,
    available: Result<u128, cosmwasm_std::StdError>,
    r: Result<Response<ForwardMsg>, ContractError>,
) -> bool {
    match transfer_call_rejection(
        pre,
        sender,
        mint_tx_hash@,
        transfer_coin.amount,
        hook_data@,
        available,
    ) {
        Some(e) => r == Err::<Response<ForwardMsg>, ContractError>(e) && post == pre,
        None => r matches Ok(resp) && {
            let id = pre.next_request_id;
            let config = pre.config;
            &&& post.config == config
            &&& post.next_request_id == id + 1
            &&& post.requests@ == pre.requests@.push(
                TransferRequest {
                    id,
                    mint_tx_hash,
                    transfer_coin,
                    source_tx_height: block.height,
                    source_tx_index: block.tx_index,
                    destination_channel,
                    status: RequestStatus::Transfer,
                    hook_data: Some(hook_data),
                    error_msg: None,
                },
            )
            &&& resp.messages@.len() == 1
            &&& resp.messages@[0].id == id
            &&& resp.messages@[0].reply_on == ReplyOn::Error
            &&& resp.messages@[0].msg matches ForwardMsg::EntrypointTransfer { contract_addr, msg, funds } && {
                &&& contract_addr == config.skip_entrypoint_addr
                &&& funds@ == seq![transfer_coin]
                &&& msg.transfer_call.destination_channel == destination_channel
                &&& msg.transfer_call.recipient == config.recipient_addr
                &&& msg.transfer_call.destination_chain == config.dest_chain
                &&& msg.transfer_call.memo@ == memo_of(hook_data@)
            }
            &&& attr_pairs(resp.attributes@) == seq![
                ("action"@, "transfer_call"@),
                ("request_id"@, dec(id as nat)),
                ("mint_tx_hash"@, mint_tx_hash@),
                ("source_tx_height"@, dec(block.height as nat)),
                ("source_tx_index"@, dec(tx_index_or_zero(block))),
                ("destination_channel"@, destination_channel@),
                ("amount"@, dec(transfer_coin.amount as nat)),
                ("denom"@, transfer_coin.denom@),
                ("status"@, "transfer"@),
            ]
        },
    }
}

/// Registers the mint `mint_tx_hash` as a new request and forwards
/// `transfer_coin` to the Skip entry point, asking for a reply on error under
/// the request's id. `available` is the contract's balance of the coin's denom.
pub fn execute_transfer_call(
    state: &mut ForwardState,
    sender: &String,
    block: BlockInfo,
    mint_tx_hash: String,
    transfer_coin: Coin,
    hook_data: String,
    destination_channel: String,
    available: Result<u128, cosmwasm_std::StdError>,
) -> (r: Result<Response<ForwardMsg>, ContractError>)
    requires
        old(state).wf(),
        old(state).next_request_id < u64::MAX,
    ensures
        final(state).wf(),
        transfer_call_effect(
            *old(state),
            *final(state),
            sender@,
            block,
            mint_tx_hash,
            transfer_coin,
            hook_data,
            destination_channel,
            available,
            r,
        ),
{
    assert_skip_relayer(&state.config, sender)?;
    if transfer_coin.amount == 0 {
        return Err(ContractError::NoFundsToForward);
    }
    if state.find_request(&mint_tx_hash).is_some() {
        return Err(ContractError::DuplicateMintTxHash);
    }
    let balance = match available {
        Ok(b) => b,
        Err(e) => {
            return Err(ContractError::Std(StdFailure::Host(e)));
        },
    };
    if balance < transfer_coin.amount {
        return Err(ContractError::InsufficientRequestFunds);
    }
    let hook_json = match parse_json(hook_data.as_str()) {
        Some(j) => j,
        None => {
            return Err(ContractError::MemoEncodeError);
        },
    };
    if json_has_float(&hook_json) {
        return Err(ContractError::MemoEncodeError);
    }
    let memo = json_to_binary(&hook_json).unwrap();
    let payload = SkipEntrypointExecuteMsg {
        transfer_call: SkipTransferCallPayload {
            destination_channel: copy_str(&destination_channel),
            recipient: copy_str(&state.config.recipient_addr),
            destination_chain: copy_str(&state.config.dest_chain),
            memo,
        },
    };
    let mut funds: Vec<Coin> = Vec::new();
    funds.push(transfer_coin.copy());
    let transfer_msg = ForwardMsg::EntrypointTransfer {
        contract_addr: copy_str(&state.config.skip_entrypoint_addr),
        msg: payload,
        funds,
    };

    let request_id = state.next_request_id;
    let mut resp = empty_response();
    resp.messages.push(SubMsg { id: request_id, msg: transfer_msg, reply_on: ReplyOn::Error });
    resp.attributes.push(attr_lit("action", "transfer_call"));
    resp.attributes.push(attr("request_id", u128_to_string(request_id as u128)));
    resp.attributes.push(attr("mint_tx_hash", copy_str(&mint_tx_hash)));
    resp.attributes.push(attr("source_tx_height", u128_to_string(block.height as u128)));
    let tx_index: u32 = match block.tx_index {
        Some(i) => i,
        None => 0,
    };
    resp.attributes.push(attr("source_tx_index", u128_to_string(tx_index as u128)));
    resp.attributes.push(attr("destination_channel", copy_str(&destination_channel)));
    resp.attributes.push(attr("amount", u128_to_string(transfer_coin.amount)));
    resp.attributes.push(attr("denom", copy_str(&transfer_coin.denom)));
    resp.attributes.push(attr_lit("status", "transfer"));

    let request = TransferRequest {
        id: request_id,
        mint_tx_hash,
        transfer_coin,
        source_tx_height: block.height,
        source_tx_index: block.tx_index,
        destination_channel,
        status: RequestStatus::Transfer,
        hook_data: Some(hook_data),
        error_msg: None,
    };
    let ghost old_requests = state.requests@;
    let ghost req_view = request;
    state.requests.push(request);
    state.next_request_id = request_id + 1;
    proof {
        assert(attr_pairs(resp.attributes@) =~= seq![
            ("action"@, "transfer_call"@),
            ("request_id"@, dec(request_id as nat)),
            ("mint_tx_hash"@, req_view.mint_tx_hash@),
            ("source_tx_height"@, dec(block.height as nat)),
            ("source_tx_index"@, dec(tx_index_or_zero(block))),
            ("destination_channel"@, req_view.destination_channel@),
            ("amount"@, dec(req_view.transfer_coin.amount as nat)),
            ("denom"@, req_view.transfer_coin.denom@),
            ("status"@, "transfer"@),
        ]);
        assert forall|i: int, j: int|
            0 <= i < j < state.requests@.len() implies #[trigger] state.requests@[i].mint_tx_hash@
                != #[trigger] state.requests@[j].mint_tx_hash@ by {
            if j == old_requests.len() {
                assert(!old(state).holds_mint_at(request.mint_tx_hash@, i));
            }
        }
    }
    Ok(resp)
}


// ---------------------------------------------------------------- refund and abandon

/// The checks that refund makes before it reads any balance: the sender is
/// the relayer or the owner; the request exists; it is neither refunded nor
/// abandoned.
pub open spec fn refund_precheck(state: ForwardState, sender: Seq<char>, mint_tx_hash: Seq<char>) -> Option<
    ContractError,
> {
    if !is_owner_or_relayer(state.config, sender) {
        Some(ContractError::Unauthorized)
    } else if !state.has_mint(mint_tx_hash) {
        Some(ContractError::RequestNotFound)
    } else if state.requests@[state.mint_index(mint_tx_hash)].status == RequestStatus::Refund
        || state.requests@[state.mint_index(mint_tx_hash)].status == RequestStatus::Abandon {
        Some(ContractError::InvalidStatusTransition)
    } else {
        None
    }
}

/// Why a refund is refused: a failed precheck, then a failed balance query, a
/// balance below the request's amount, a request of amount zero.
pub open spec fn refund_rejection(
    state: ForwardState,
    sender: Seq<char>,
    mint_tx_hash: Seq<char>,
    available: Result<u128, cosmwasm_std::StdError>,
) -> Option<ContractError> {
    if refund_precheck(state, sender, mint_tx_hash) is Some {
        refund_precheck(state, sender, mint_tx_hash)
    } else if available is Err {
        Some(ContractError::Std(StdFailure::Host(available->Err_0)))
    } else if available->Ok_0 < state.requests@[state.mint_index(mint_tx_hash)].transfer_coin.amount {
        Some(ContractError::InsufficientRequestFunds)
    } else if state.requests@[state.mint_index(mint_tx_hash)].transfer_coin.amount == 0 {
        Some(ContractError::NoFundsToForward)
    } else {
        None
    }
}

/// The request at position `i` with status `status`.
pub open spec fn with_status(requests: Seq<TransferRequest>, i: int, status: RequestStatus) -> Seq<
    TransferRequest,
> {
    requests.update(i, TransferRequest { status, ..requests[i] })
}

/// The request at position `i` marked failed, with the error `err` recorded.
pub open spec fn with_failure(requests: Seq<TransferRequest>, i: int, err: String) -> Seq<TransferRequest> {
    requests.update(i, TransferRequest { status: RequestStatus::Fail, error_msg: Some(err), ..requests[i] })
}

/// The position of the request minted in `mint_tx_hash`, or
/// `RequestNotFound` when there is none.
pub fn load_request_by_mint_tx_hash_mutable(state: &ForwardState, mint_tx_hash: &String) -> (r: Result<
    usize,
    ContractError,
>)
    requires
        state.wf(),
    ensures
        match r {
            Ok(i) => state.has_mint(mint_tx_hash@) && i == state.mint_index(mint_tx_hash@),
            Err(e) => !state.has_mint(mint_tx_hash@) && e == ContractError::RequestNotFound,
        },
{
    match state.find_request(mint_tx_hash) {
        Some(i) => Ok(i),
        None => Err(ContractError::RequestNotFound),
    }
}

/// The denom whose balance a refund of `mint_tx_hash` by `sender` reads, or
/// the error that the refund gives before it reads any balance.
pub fn refund_denom(state: &ForwardState, sender: &String, mint_tx_hash: &String) -> (r: Result<
    String,
    ContractError,
>)
    requires
        state.wf(),
    ensures
        match refund_precheck(*state, sender@, mint_tx_hash@) {
            Some(e) => r == Err::<String, ContractError>(e),
            None => r == Ok::<String, ContractError>(
                state.requests@[state.mint_index(mint_tx_hash@)].transfer_coin.denom,
            ),
        },
{
    assert_owner_or_skip_relayer(&state.config, sender)?;
    let i = load_request_by_mint_tx_hash_mutable(state, mint_tx_hash)?;
    let status = state.requests[i].status;
    if status == RequestStatus::Refund || status == RequestStatus::Abandon {
        return Err(ContractError::InvalidStatusTransition);
    }
    Ok(copy_str(&state.requests[i].transfer_coin.denom))
}

/// What a refund does: refused as `refund_rejection` says with the state
/// unchanged, or the request marked refunded and its coin sent to the refund
/// address.
pub open spec fn refund_effect(
    pre: ForwardState,
    post: ForwardState,
    sender: Seq<char>,
    mint_tx_hash: String,
    available: Result<u128, cosmwasm_std::StdError>,
    r: Result<Response<ForwardMsg>, ContractError>,
) -> bool {
    match refund_rejection(pre, sender, mint_tx_hash@, available) {
        Some(e) => r == Err::<Response<ForwardMsg>, ContractError>(e) && post == pre,
        None => r matches Ok(resp) && {
            let i = pre.mint_index(mint_tx_hash@);
            let request = pre.requests@[i];
            &&& post.config == pre.config
            &&& post.next_request_id == pre.next_request_id
            &&& post.requests@ == with_status(pre.requests@, i, RequestStatus::Refund)
            &&& resp.messages@.len() == 1
            &&& resp.messages@[0].id == 0
            &&& resp.messages@[0].reply_on == ReplyOn::Never
            &&& resp.messages@[0].msg == ForwardMsg::BankSend {
                to_address: pre.config.refund_addr,
                amount: resp.messages@[0].msg->amount,
            }
            &&& resp.messages@[0].msg->amount@ == seq![request.transfer_coin]
            &&& attr_pairs(resp.attributes@) == seq![
                ("action"@, "refund"@),
                ("request_id"@, dec(request.id as nat)),
                ("mint_tx_hash"@, request.mint_tx_hash@),
                ("refund_addr"@, pre.config.refund_addr@),
                ("amount"@, dec(request.transfer_coin.amount as nat)),
                ("denom"@, request.transfer_coin.denom@),
                ("status"@, "refund"@),
            ]
        },
    }
}

/// Refunds the request minted in `mint_tx_hash`: sends its coin to the refund
/// address and marks it refunded. `available` is the contract's balance of the
/// request's denom (see `refund_denom`).
pub fn execute_refund(
    state: &mut ForwardState,
    sender: &String,
    mint_tx_hash: String,
    available: Result<u128, cosmwasm_std::StdError>,
) -> (r: Result<Response<ForwardMsg>, ContractError>)
    requires
        old(state).wf(),
    ensures
        final(state).wf(),
        refund_effect(*old(state), *final(state), sender@, mint_tx_hash, available, r),
{
    assert_owner_or_skip_relayer(&state.config, sender)?;
    let i = load_request_by_mint_tx_hash_mutable(state, &mint_tx_hash)?;
    let status = state.requests[i].status;
    if status == RequestStatus::Refund || status == RequestStatus::Abandon {
        return Err(ContractError::InvalidStatusTransition);
    }
    let balance = match available {
        Ok(b) => b,
        Err(e) => {
            return Err(ContractError::Std(StdFailure::Host(e)));
        },
    };
    let amount = state.requests[i].transfer_coin.amount;
    if balance < amount {
        return Err(ContractError::InsufficientRequestFunds);
    }
    if amount == 0 {
        return Err(ContractError::NoFundsToForward);
    }
    let mut coins: Vec<Coin> = Vec::new();
    coins.push(state.requests[i].transfer_coin.copy());
    let refund_msg = ForwardMsg::BankSend { to_address: copy_str(&state.config.refund_addr), amount: coins };
    let mut resp = empty_response();
    resp.messages.push(SubMsg { id: 0, msg: refund_msg, reply_on: ReplyOn::Never });
    resp.attributes.push(attr_lit("action", "refund"));
    resp.attributes.push(attr("request_id", u128_to_string(state.requests[i].id as u128)));
    resp.attributes.push(attr("mint_tx_hash", copy_str(&state.requests[i].mint_tx_hash)));
    resp.attributes.push(attr("refund_addr", copy_str(&state.config.refund_addr)));
    resp.attributes.push(attr("amount", u128_to_string(amount)));
    resp.attributes.push(attr("denom", copy_str(&state.requests[i].transfer_coin.denom)));
    resp.attributes.push(attr_lit("status", "refund"));
    let ghost request = state.requests@[i as int];
    set_status(state, i, RequestStatus::Refund);
    assert(attr_pairs(resp.attributes@) =~= seq![
        ("action"@, "refund"@),
        ("request_id"@, dec(request.id as nat)),
        ("mint_tx_hash"@, request.mint_tx_hash@),
        ("refund_addr"@, state.config.refund_addr@),
        ("amount"@, dec(request.transfer_coin.amount as nat)),
        ("denom"@, request.transfer_coin.denom@),
        ("status"@, "refund"@),
    ]);
    Ok(resp)
}

/// Sets the status of the request at position `i`.
fn set_status(state: &mut ForwardState, i: usize, status: RequestStatus)
    requires
        old(state).wf(),
        i < old(state).requests@.len(),
    ensures
        final(state).wf(),
        final(state).config == old(state).config,
        final(state).next_request_id == old(state).next_request_id,
        final(state).requests@ == with_status(old(state).requests@, i as int, status),
{
    let ghost before = state.requests@;
    let mut request = state.requests.remove(i);
    request.status = status;
    state.requests.insert(i, request);
    proof {
        assert(state.requests@ =~= with_status(before, i as int, status));
        assert forall|a: int, b: int|
            0 <= a < b < state.requests@.len() implies #[trigger] state.requests@[a].mint_tx_hash@
                != #[trigger] state.requests@[b].mint_tx_hash@ by {
            assert(state.requests@[a].mint_tx_hash == before[a].mint_tx_hash);
            assert(state.requests@[b].mint_tx_hash == before[b].mint_tx_hash);
        }
        assert forall|a: int| 0 <= a < state.requests@.len() implies #[trigger] state.requests@[a].id == a + 1 by {
            assert(state.requests@[a].id == before[a].id);
        }
    }
}

/// Marks the request at position `i` failed with the error `err`.
fn record_failure(state: &mut ForwardState, i: usize, err: String)
    requires
        old(state).wf(),
        i < old(state).requests@.len(),
    ensures
        final(state).wf(),
        final(state).config == old(state).config,
        final(state).next_request_id == old(state).next_request_id,
        final(state).requests@ == with_failure(old(state).requests@, i as int, err),
{
    let ghost before = state.requests@;
    let ghost e = err;
    let mut request = state.requests.remove(i);
    request.status = RequestStatus::Fail;
    request.error_msg = Some(err);
    state.requests.insert(i, request);
    proof {
        assert(state.requests@ =~= with_failure(before, i as int, e));
        assert forall|a: int, b: int|
            0 <= a < b < state.requests@.len() implies #[trigger] state.requests@[a].mint_tx_hash@
                != #[trigger] state.requests@[b].mint_tx_hash@ by {
            assert(state.requests@[a].mint_tx_hash == before[a].mint_tx_hash);
            assert(state.requests@[b].mint_tx_hash == before[b].mint_tx_hash);
        }
        assert forall|a: int| 0 <= a < state.requests@.len() implies #[trigger] state.requests@[a].id == a + 1 by {
            assert(state.requests@[a].id == before[a].id);
        }
    }
}

/// Why an abandon is refused: the sender is neither relayer nor owner; the
/// request does not exist; it is not refunded.
pub open spec fn abandon_rejection(state: ForwardState, sender: Seq<char>, mint_tx_hash: Seq<char>) -> Option<
    ContractError,
> {
    if !is_owner_or_relayer(state.config, sender) {
        Some(ContractError::Unauthorized)
    } else if !state.has_mint(mint_tx_hash) {
        Some(ContractError::RequestNotFound)
    } else if state.requests@[state.mint_index(mint_tx_hash)].status != RequestStatus::Refund {
        Some(ContractError::InvalidStatusTransition)
    } else {
        None
    }
}

/// What an abandon does: refused as `abandon_rejection` says with the state
/// unchanged, or the refunded request marked abandoned.
pub open spec fn abandon_effect(
    pre: ForwardState,
    post: ForwardState,
    sender: Seq<char>,
    mint_tx_hash: String,
    r: Result<Response<ForwardMsg>, ContractError>,
) -> bool {
    match abandon_rejection(pre, sender, mint_tx_hash@) {
        Some(e) => r == Err::<Response<ForwardMsg>, ContractError>(e) && post == pre,
        None => r matches Ok(resp) && {
            let i = pre.mint_index(mint_tx_hash@);
            let request = pre.requests@[i];
            &&& post.config == pre.config
            &&& post.next_request_id == pre.next_request_id
            &&& post.requests@ == with_status(pre.requests@, i, RequestStatus::Abandon)
            &&& resp.messages@.len() == 0
            &&& attr_pairs(resp.attributes@) == seq![
                ("action"@, "abandon"@),
                ("request_id"@, dec(request.id as nat)),
                ("mint_tx_hash"@, request.mint_tx_hash@),
                ("status"@, "abandon"@),
            ]
        },
    }
}

/// Abandons the refunded request minted in `mint_tx_hash`.
pub fn execute_abandon(state: &mut ForwardState, sender: &String, mint_tx_hash: String) -> (r: Result<
    Response<ForwardMsg>,
    ContractError,
>)
    requires
        old(state).wf(),
    ensures
        final(state).wf(),
        abandon_effect(*old(state), *final(state), sender@, mint_tx_hash, r),
{
    assert_owner_or_skip_relayer(&state.config, sender)?;
    let i = load_request_by_mint_tx_hash_mutable(state, &mint_tx_hash)?;
    if state.requests[i].status != RequestStatus::Refund {
        return Err(ContractError::InvalidStatusTransition);
    }
    let mut resp = empty_response();
    resp.attributes.push(attr_lit("action", "abandon"));
    resp.attributes.push(attr("request_id", u128_to_string(state.requests[i].id as u128)));
    resp.attributes.push(attr("mint_tx_hash", copy_str(&state.requests[i].mint_tx_hash)));
    resp.attributes.push(attr_lit("status", "abandon"));
    let ghost request = state.requests@[i as int];
    set_status(state, i, RequestStatus::Abandon);
    assert(attr_pairs(resp.attributes@) =~= seq![
        ("action"@, "abandon"@),
        ("request_id"@, dec(request.id as nat)),
        ("mint_tx_hash"@, request.mint_tx_hash@),
        ("status"@, "abandon"@),
    ]);
    Ok(resp)
}


// ---------------------------------------------------------------- reply

/// What the reply to a request's entry-point call does: a success changes
/// nothing; a failure marks request `id` failed and records the error text
/// with it, or is refused with
/// `RequestNotFound` (state unchanged) when there is no request `id`.
pub open spec fn reply_effect(
    pre: ForwardState,
    post: ForwardState,
    id: u64,
    outcome: SubMsgOutcome,
    r: Result<Response<ForwardMsg>, ContractError>,
) -> bool {
    match outcome {
        SubMsgOutcome::Success { .. } => r matches Ok(resp) && {
            &&& post == pre
            &&& resp.messages@.len() == 0
            &&& attr_pairs(resp.attributes@) == seq![
                ("action"@, "transfer_call_reply"@),
                ("request_id"@, dec(id as nat)),
                ("status"@, "transfer"@),
            ]
        },
        SubMsgOutcome::Failure(err) => if 1 <= id <= pre.requests@.len() {
            r matches Ok(resp) && {
                &&& post.config == pre.config
                &&& post.next_request_id == pre.next_request_id
                &&& post.requests@ == with_failure(pre.requests@, id - 1, err)
                &&& resp.messages@.len() == 0
                &&& attr_pairs(resp.attributes@) == seq![
                    ("action"@, "transfer_call_reply"@),
                    ("request_id"@, dec(id as nat)),
                    ("status"@, "fail"@),
                    ("error"@, err@),
                ]
            }
        } else {
            r == Err::<Response<ForwardMsg>, ContractError>(ContractError::RequestNotFound) && post == pre
        },
    }
}

/// Handles the reply to the entry-point call of request `id`.
pub fn reply(state: &mut ForwardState, id: u64, outcome: SubMsgOutcome) -> (r: Result<
    Response<ForwardMsg>,
    ContractError,
>)
    requires
        old(state).wf(),
    ensures
        final(state).wf(),
        reply_effect(*old(state), *final(state), id, outcome, r),
{
    match outcome {
        SubMsgOutcome::Success { .. } => {
            let mut resp = empty_response();
            resp.attributes.push(attr_lit("action", "transfer_call_reply"));
            resp.attributes.push(attr("request_id", u128_to_string(id as u128)));
            resp.attributes.push(attr_lit("status", "transfer"));
            assert(attr_pairs(resp.attributes@) =~= seq![
                ("action"@, "transfer_call_reply"@),
                ("request_id"@, dec(id as nat)),
                ("status"@, "transfer"@),
            ]);
            Ok(resp)
        },
        SubMsgOutcome::Failure(err) => {
            if id == 0 || id as u128 > state.requests.len() as u128 {
                return Err(ContractError::RequestNotFound);
            }
            let i = (id - 1) as usize;
            let ghost err_view = err@;
            let mut resp = empty_response();
            resp.attributes.push(attr_lit("action", "transfer_call_reply"));
            resp.attributes.push(attr("request_id", u128_to_string(id as u128)));
            resp.attributes.push(attr_lit("status", "fail"));
            resp.attributes.push(attr("error", copy_str(&err)));
            record_failure(state, i, err);
            assert(attr_pairs(resp.attributes@) =~= seq![
                ("action"@, "transfer_call_reply"@),
                ("request_id"@, dec(id as nat)),
                ("status"@, "fail"@),
                ("error"@, err_view),
            ]);
            Ok(resp)
        },
    }
}

// ---------------------------------------------------------------- queries

/// The configuration as `QueryMsg::Config` answers it.
pub open spec fn config_response_of(c: Config) -> ConfigResponse {
    ConfigResponse {
        sender_addr: c.sender_addr,
        recipient_addr: c.recipient_addr,
        dest_chain: c.dest_chain,
        refund_addr: c.refund_addr,
        skip_relayer_addr: c.skip_relayer_addr,
        skip_entrypoint_addr: c.skip_entrypoint_addr,
        owner: c.owner,
    }
}

/// Answers `QueryMsg::Config`.
pub fn query_config(state: &ForwardState) -> (r: ConfigResponse)
    ensures
        r == config_response_of(state.config),
{
    let c = &state.config;
    ConfigResponse {
        sender_addr: copy_str(&c.sender_addr),
        recipient_addr: copy_str(&c.recipient_addr),
        dest_chain: copy_str(&c.dest_chain),
        refund_addr: copy_str(&c.refund_addr),
        skip_relayer_addr: copy_str(&c.skip_relayer_addr),
        skip_entrypoint_addr: copy_str(&c.skip_entrypoint_addr),
        owner: copy_str(&c.owner),
    }
}

/// A request as it is listed: every field but the hook data.
pub open spec fn item_of(r: TransferRequest) -> RequestItem {
    RequestItem {
        id: r.id,
        mint_tx_hash: r.mint_tx_hash,
        transfer_coin: r.transfer_coin,
        source_tx_height: r.source_tx_height,
        source_tx_index: r.source_tx_index,
        destination_channel: r.destination_channel,
        status: r.status,
    }
}

/// A request as it is listed.
pub fn to_request_item(request: &TransferRequest) -> (r: RequestItem)
    ensures
        r == item_of(*request),
{
    RequestItem {
        id: request.id,
        mint_tx_hash: copy_str(&request.mint_tx_hash),
        transfer_coin: request.transfer_coin.copy(),
        source_tx_height: request.source_tx_height,
        source_tx_index: request.source_tx_index,
        destination_channel: copy_str(&request.destination_channel),
        status: request.status,
    }
}

/// The page size: `limit`, 20 where none is given, at most 100.
pub open spec fn page_limit(limit: Option<u32>) -> nat {
    let l = match limit {
        Some(l) => l as nat,
        None => 20,
    };
    if l > 100 { 100 } else { l }
}

/// The first position listed in ascending order: that of the first id above `start_after`.
pub open spec fn asc_from(len: nat, start_after: Option<u64>) -> nat {
    match start_after {
        Some(s) => if s < len { s as nat } else { len },
        None => 0,
    }
}

/// One past the first position listed in descending order: that of the last
/// id below `start_after`.
pub open spec fn desc_upper(len: nat, start_after: Option<u64>) -> nat {
    match start_after {
        Some(s) => if s == 0 { 0 } else if s - 1 < len { (s - 1) as nat } else { len },
        None => len,
    }
}

/// The smaller of two naturals.
pub open spec fn min_nat(a: nat, b: nat) -> nat {
    if a < b { a } else { b }
}

/// `page` lists the requests of `state` as `query_requests` must: in
/// ascending order those with an id above `start_after`, in descending order
/// those with an id below it; at most `page_limit(limit)` of them.
pub open spec fn requests_page(
    state: ForwardState,
    start_after: Option<u64>,
    limit: Option<u32>,
    order: Option<RequestOrder>,
    page: Seq<RequestItem>,
) -> bool {
        match order {
        Some(RequestOrder::Desc) => {
            let upper = desc_upper(state.requests@.len(), start_after);
            let n = min_nat(upper, page_limit(limit));
            &&& page.len() == n
            &&& forall|k: int| 0 <= k < n ==> #[trigger] page[k] == item_of(
                state.requests@[upper - 1 - k],
            )
            &&& forall|k: int| 0 <= k < n ==> #[trigger] page[k].id == upper - k
        },
        _ => {
            let from = asc_from(state.requests@.len(), start_after);
            let n = min_nat((state.requests@.len() - from) as nat, page_limit(limit));
            &&& page.len() == n
            &&& forall|k: int| 0 <= k < n ==> #[trigger] page[k] == item_of(state.requests@[from + k])
            &&& forall|k: int| 0 <= k < n ==> #[trigger] page[k].id == from + k + 1
        },
    }
}

/// Lists requests: in ascending order those with an id above `start_after`,
/// in descending order those with an id below it; at most `page_limit(limit)`.
pub fn query_requests(
    state: &ForwardState,
    start_after: Option<u64>,
    limit: Option<u32>,
    order: Option<RequestOrder>,
) -> (r: RequestListResponse)
    requires
        state.wf(),
    ensures
        requests_page(*state, start_after, limit, order, r.requests@),
{
    let lim: usize = match limit {
        Some(l) => if l > 100 { 100 } else { l as usize },
        None => 20,
    };
    let len = state.requests.len();
    let mut out: Vec<RequestItem> = Vec::new();
    match order {
        Some(RequestOrder::Desc) => {
            let upper: usize = match start_after {
                Some(s) => if s == 0 { 0 } else if ((s - 1) as u128) < (len as u128) { (s - 1) as usize } else { len },
                None => len,
            };
            let mut k: usize = 0;
            while k < upper && k < lim
                invariant
                    state.wf(),
                    len == state.requests@.len(),
                    upper <= len,
                    upper == desc_upper(len as nat, start_after),
                    lim == page_limit(limit),
                    k <= upper,
                    k <= lim,
                    out@.len() == k,
                    forall|j: int| 0 <= j < k ==> #[trigger] out@[j] == item_of(state.requests@[upper - 1 - j]),
                decreases upper - k,
            {
                out.push(to_request_item(&state.requests[upper - 1 - k]));
                k = k + 1;
            }
            assert forall|j: int| 0 <= j < k implies #[trigger] out@[j].id == upper - j by {
                assert(state.requests@[upper - 1 - j].id == upper - 1 - j + 1);
            }
        },
        _ => {
            let from: usize = match start_after {
                Some(s) => if (s as u128) < (len as u128) { s as usize } else { len },
                None => 0,
            };
            let mut k: usize = 0;
            while from + k < len && k < lim
                invariant
                    state.wf(),
                    len == state.requests@.len(),
                    from <= len,
                    from == asc_from(len as nat, start_after),
                    lim == page_limit(limit),
                    from + k <= len,
                    k <= lim,
                    out@.len() == k,
                    forall|j: int| 0 <= j < k ==> #[trigger] out@[j] == item_of(state.requests@[from + j]),
                decreases len - k,
            {
                out.push(to_request_item(&state.requests[from + k]));
                k = k + 1;
            }
            assert forall|j: int| 0 <= j < k implies #[trigger] out@[j].id == from + j + 1 by {
                assert(state.requests@[from + j].id == from + j + 1);
            }
        },
    }
    RequestListResponse { requests: out }
}

/// The request minted in `mint_tx_hash`, or `None` where there is none (the
/// contract then answers with the storage's not-found error).
pub fn query_request_by_mint_tx_hash(state: &ForwardState, mint_tx_hash: &String) -> (r: Option<
    RequestResponse,
>)
    requires
        state.wf(),
    ensures
        match r {
            Some(resp) => state.has_mint(mint_tx_hash@) && resp.request == item_of(
                state.requests@[state.mint_index(mint_tx_hash@)],
            ),
            None => !state.has_mint(mint_tx_hash@),
        },
{
    match state.find_request(mint_tx_hash) {
        Some(i) => Some(RequestResponse { request: to_request_item(&state.requests[i]) }),
        None => None,
    }
}

/// Answers a query; `None` where the requested item does not exist.
pub fn query(state: &ForwardState, msg: QueryMsg) -> (r: Option<QueryAnswer>)
    requires
        state.wf(),
    ensures
        match msg {
            QueryMsg::Config {} => r == Some(QueryAnswer::Config(config_response_of(state.config))),
            QueryMsg::Requests { start_after, limit, order } => r matches Some(QueryAnswer::Requests(list))
                && requests_page(*state, start_after, limit, order, list.requests@),
            QueryMsg::RequestByMintTxHash { mint_tx_hash } => match r {
                Some(QueryAnswer::Request(resp)) => state.has_mint(mint_tx_hash@) && resp.request == item_of(
                    state.requests@[state.mint_index(mint_tx_hash@)],
                ),
                None => !state.has_mint(mint_tx_hash@),
                _ => false,
            },
        },
{
    match msg {
        QueryMsg::Config {} => Some(QueryAnswer::Config(query_config(state))),
        QueryMsg::Requests { start_after, limit, order } => Some(
            QueryAnswer::Requests(query_requests(state, start_after, limit, order)),
        ),
        QueryMsg::RequestByMintTxHash { mint_tx_hash } => match query_request_by_mint_tx_hash(
            state,
            &mint_tx_hash,
        ) {
            Some(resp) => Some(QueryAnswer::Request(resp)),
            None => None,
        },
    }
}


// ---------------------------------------------------------------- dispatch

/// The denom whose balance `execute` reads for `msg` sent by `sender`, or
/// `None` where it reads no balance: the coin's denom for a transfer call, the
/// request's denom for a refund that passes its prechecks.
pub fn balance_denom(state: &ForwardState, sender: &String, msg: &ExecuteMsg) -> (r: Option<String>)
    requires
        state.wf(),
    ensures
        match *msg {
            ExecuteMsg::TransferCall { transfer_coin, .. } => r == Some(transfer_coin.denom),
            ExecuteMsg::Refund { mint_tx_hash } => match refund_precheck(*state, sender@, mint_tx_hash@) {
                Some(_) => r is None,
                None => r == Some(state.requests@[state.mint_index(mint_tx_hash@)].transfer_coin.denom),
            },
            ExecuteMsg::Abandon { .. } => r is None,
        },
{
    match msg {
        ExecuteMsg::TransferCall { transfer_coin, .. } => Some(copy_str(&transfer_coin.denom)),
        ExecuteMsg::Refund { mint_tx_hash } => match refund_denom(state, sender, mint_tx_hash) {
            Ok(d) => Some(d),
            Err(_) => None,
        },
        ExecuteMsg::Abandon { .. } => None,
    }
}

/// What executing `msg` does, message by message.
pub open spec fn execute_effect(
    pre: ForwardState,
    post: ForwardState,
    sender: Seq<char>,
    block: BlockInfo,
    msg: ExecuteMsg,
    available: Result<u128, cosmwasm_std::StdError>,
    r: Result<Response<ForwardMsg>, ContractError>,
) -> bool {
    match msg {
        ExecuteMsg::TransferCall { mint_tx_hash, transfer_coin, hook_data, destination_channel } =>
            transfer_call_effect(
            pre,
            post,
            sender,
            block,
            mint_tx_hash,
            transfer_coin,
            hook_data,
            destination_channel,
            available,
            r,
        ),
        ExecuteMsg::Refund { mint_tx_hash } => refund_effect(
            pre,
            post,
            sender,
            mint_tx_hash,
            available,
            r,
        ),
        ExecuteMsg::Abandon { mint_tx_hash } => abandon_effect(pre, post, sender, mint_tx_hash, r),
    }
}

/// Executes `msg` sent by `sender` in `block`. `available` is the contract's
/// balance of the denom that `balance_denom` names; it is not read otherwise.
pub fn execute(
    state: &mut ForwardState,
    sender: &String,
    block: BlockInfo,
    msg: ExecuteMsg,
    available: Result<u128, cosmwasm_std::StdError>,
) -> (r: Result<Response<ForwardMsg>, ContractError>)
    requires
        old(state).wf(),
        msg is TransferCall ==> old(state).next_request_id < u64::MAX,
    ensures
        final(state).wf(),
        execute_effect(*old(state), *final(state), sender@, block, msg, available, r),
{
    match msg {
        ExecuteMsg::TransferCall { mint_tx_hash, transfer_coin, hook_data, destination_channel } =>
            execute_transfer_call(
            state,
            sender,
            block,
            mint_tx_hash,
            transfer_coin,
            hook_data,
            destination_channel,
            available,
        ),
        ExecuteMsg::Refund { mint_tx_hash } => execute_refund(state, sender, mint_tx_hash, available),
        ExecuteMsg::Abandon { mint_tx_hash } => execute_abandon(state, sender, mint_tx_hash),
    }
}


// ---------------------------------------------------------------- laws

/// After a transfer call succeeds, the request is found under its mint
/// transaction hash, with the next id, the coin, the channel and status
/// `Transfer`; a lookup by that hash answers it.
pub proof fn transfer_call_registers_request(
    pre: ForwardState,
    post: ForwardState,
    sender: Seq<char>,
    block: BlockInfo,
    mint_tx_hash: String,
    transfer_coin: Coin,
    hook_data: String,
    destination_channel: String,
    available: Result<u128, cosmwasm_std::StdError>,
    r: Result<Response<ForwardMsg>, ContractError>,
)
    requires
        pre.wf(),
        post.wf(),
        transfer_call_effect(
            pre,
            post,
            sender,
            block,
            mint_tx_hash,
            transfer_coin,
            hook_data,
            destination_channel,
            available,
            r,
        ),
        r is Ok,
    ensures
        post.has_mint(mint_tx_hash@),
        post.mint_index(mint_tx_hash@) == pre.requests@.len(),
        item_of(post.requests@[post.mint_index(mint_tx_hash@)]) == (RequestItem {
            id: pre.next_request_id,
            mint_tx_hash,
            transfer_coin,
            source_tx_height: block.height,
            source_tx_index: block.tx_index,
            destination_channel,
            status: RequestStatus::Transfer,
        }),
{
    let n = pre.requests@.len() as int;
    assert(post.holds_mint_at(mint_tx_hash@, n));
    let c = post.mint_index(mint_tx_hash@);
    if c != n {
        assert(post.requests@[c].mint_tx_hash@ != post.requests@[n].mint_tx_hash@);
    }
}

/// A mint transaction is forwarded at most once: once a transfer call for it
/// has succeeded, every later transfer call for it that the relayer makes
/// with a positive amount is refused with `DuplicateMintTxHash`.
pub proof fn mint_is_forwarded_once(
    pre: ForwardState,
    post: ForwardState,
    sender: Seq<char>,
    block: BlockInfo,
    mint_tx_hash: String,
    transfer_coin: Coin,
    hook_data: String,
    destination_channel: String,
    available: Result<u128, cosmwasm_std::StdError>,
    r: Result<Response<ForwardMsg>, ContractError>,
    amount: u128,
    hook_data2: Seq<char>,
    available2: Result<u128, cosmwasm_std::StdError>,
)
    requires
        pre.wf(),
        post.wf(),
        transfer_call_effect(
            pre,
            post,
            sender,
            block,
            mint_tx_hash,
            transfer_coin,
            hook_data,
            destination_channel,
            available,
            r,
        ),
        r is Ok,
        amount > 0,
    ensures
        transfer_call_rejection(post, post.config.skip_relayer_addr@, mint_tx_hash@, amount, hook_data2, available2)
            == Some(ContractError::DuplicateMintTxHash),
{
    assert(post.holds_mint_at(mint_tx_hash@, pre.requests@.len() as int));
}

/// Refund and abandon touch only the request they name: every other request,
/// the configuration and the next id stay as they were, and the named request
/// changes only in its status (to `Refund`, or to `Abandon`); a refused call
/// changes nothing.
pub proof fn status_changes_are_request_scoped(
    pre: ForwardState,
    post: ForwardState,
    sender: Seq<char>,
    mint_tx_hash: String,
    available: Result<u128, cosmwasm_std::StdError>,
    r: Result<Response<ForwardMsg>, ContractError>,
    is_refund: bool,
)
    requires
        pre.wf(),
        if is_refund {
            refund_effect(pre, post, sender, mint_tx_hash, available, r)
        } else {
            abandon_effect(pre, post, sender, mint_tx_hash, r)
        },
    ensures
        r is Err ==> post == pre,
        post.config == pre.config,
        post.next_request_id == pre.next_request_id,
        post.requests@.len() == pre.requests@.len(),
        forall|j: int|
            0 <= j < pre.requests@.len() && j != pre.mint_index(mint_tx_hash@) ==> #[trigger] post.requests@[j]
                == pre.requests@[j],
        r is Ok ==> post.requests@[pre.mint_index(mint_tx_hash@)] == (TransferRequest {
            status: if is_refund { RequestStatus::Refund } else { RequestStatus::Abandon },
            ..pre.requests@[pre.mint_index(mint_tx_hash@)]
        }),
{
}

/// A request whose entry-point call failed can be refunded: after the failure
/// reply for request `id` is accepted, the request is found under its mint
/// transaction hash with status `Fail`, and a refund of it by the owner or the
/// relayer passes every check made before the balance is read.
pub proof fn failed_request_is_refundable(
    pre: ForwardState,
    post: ForwardState,
    id: u64,
    err: String,
    r: Result<Response<ForwardMsg>, ContractError>,
    sender: Seq<char>,
)
    requires
        pre.wf(),
        post.wf(),
        reply_effect(pre, post, id, SubMsgOutcome::Failure(err), r),
        r is Ok,
        is_owner_or_relayer(post.config, sender),
    ensures
        1 <= id <= post.requests@.len(),
        post.requests@[id - 1].status == RequestStatus::Fail,
        post.mint_index(post.requests@[id - 1].mint_tx_hash@) == id - 1,
        refund_precheck(post, sender, post.requests@[id - 1].mint_tx_hash@) is None,
{
    let h = post.requests@[id - 1].mint_tx_hash@;
    assert(post.holds_mint_at(h, id - 1));
    let c = post.mint_index(h);
    if c != id - 1 {
        if c < id - 1 {
            assert(post.requests@[c].mint_tx_hash@ != post.requests@[id - 1].mint_tx_hash@);
        } else {
            assert(post.requests@[id - 1].mint_tx_hash@ != post.requests@[c].mint_tx_hash@);
        }
    }
}

/// The refund lifecycle: after a refund succeeds, the request cannot be
/// refunded again, and the owner or relayer may abandon it; after an abandon
/// succeeds, neither a refund nor another abandon is accepted.
pub proof fn refund_then_abandon_lifecycle(
    s0: ForwardState,
    s1: ForwardState,
    s2: ForwardState,
    sender: Seq<char>,
    mint_tx_hash: String,
    available: Result<u128, cosmwasm_std::StdError>,
    r1: Result<Response<ForwardMsg>, ContractError>,
    r2: Result<Response<ForwardMsg>, ContractError>,
    any_available: Result<u128, cosmwasm_std::StdError>,
)
    requires
        s0.wf(),
        s1.wf(),
        s2.wf(),
        refund_effect(s0, s1, sender, mint_tx_hash, available, r1),
        r1 is Ok,
        abandon_effect(s1, s2, sender, mint_tx_hash, r2),
    ensures
        refund_rejection(s1, sender, mint_tx_hash@, any_available) == Some(ContractError::InvalidStatusTransition),
        r2 is Ok,
        refund_rejection(s2, sender, mint_tx_hash@, any_available) == Some(ContractError::InvalidStatusTransition),
        abandon_rejection(s2, sender, mint_tx_hash@) == Some(ContractError::InvalidStatusTransition),
{
    let i = s0.mint_index(mint_tx_hash@);
    assert(s1.holds_mint_at(mint_tx_hash@, i));
    assert(s1.mint_index(mint_tx_hash@) == i) by {
        let c = s1.mint_index(mint_tx_hash@);
        if c != i {
            if c < i {
                assert(s1.requests@[c].mint_tx_hash@ != s1.requests@[i].mint_tx_hash@);
            } else {
                assert(s1.requests@[i].mint_tx_hash@ != s1.requests@[c].mint_tx_hash@);
            }
        }
    }
    assert(s2.holds_mint_at(mint_tx_hash@, i));
    assert(s2.mint_index(mint_tx_hash@) == i) by {
        let c = s2.mint_index(mint_tx_hash@);
        if c != i {
            if c < i {
                assert(s2.requests@[c].mint_tx_hash@ != s2.requests@[i].mint_tx_hash@);
            } else {
                assert(s2.requests@[i].mint_tx_hash@ != s2.requests@[c].mint_tx_hash@);
            }
        }
    }
}

/// When a refund fails its prechecks, the balance plays no part: the refund
/// gives the precheck's error whatever balance it is handed.
pub proof fn refund_ignores_balance_after_failed_precheck(
    state: ForwardState,
    sender: Seq<char>,
    mint_tx_hash: Seq<char>,
    a1: Result<u128, cosmwasm_std::StdError>,
    a2: Result<u128, cosmwasm_std::StdError>,
)
    requires
        refund_precheck(state, sender, mint_tx_hash) is Some,
    ensures
        refund_rejection(state, sender, mint_tx_hash, a1) == refund_rejection(state, sender, mint_tx_hash, a2),
        refund_rejection(state, sender, mint_tx_hash, a1) == refund_precheck(state, sender, mint_tx_hash),
{
}

/// `post` holds every request of `pre` at its place, changed at most in its
/// status and recorded error.
pub open spec fn keeps_requests(pre: ForwardState, post: ForwardState) -> bool {
    &&& post.requests@.len() >= pre.requests@.len()
    &&& forall|i: int|
        0 <= i < pre.requests@.len() ==> #[trigger] post.requests@[i] == (TransferRequest {
            status: post.requests@[i].status,
            error_msg: post.requests@[i].error_msg,
            ..pre.requests@[i]
        })
}

/// Requests are never removed or rewritten by a message: whatever a transfer
/// call, refund or abandon does, every request registered before is still
/// there, at its place, with its id, mint transaction hash, coin, origin and
/// hook data (what `keeps_requests` states).
pub proof fn messages_never_remove_requests(
    pre: ForwardState,
    post: ForwardState,
    sender: Seq<char>,
    block: BlockInfo,
    msg: ExecuteMsg,
    available: Result<u128, cosmwasm_std::StdError>,
    r: Result<Response<ForwardMsg>, ContractError>,
)
    requires
        pre.wf(),
        execute_effect(pre, post, sender, block, msg, available, r),
    ensures
        keeps_requests(pre, post),
{
    assert forall|i: int| 0 <= i < pre.requests@.len() implies #[trigger] post.requests@[i] == (TransferRequest {
        status: post.requests@[i].status,
        error_msg: post.requests@[i].error_msg,
        ..pre.requests@[i]
    }) by {
        match msg {
            ExecuteMsg::TransferCall { .. } => {},
            ExecuteMsg::Refund { mint_tx_hash } => {
                status_changes_are_request_scoped(pre, post, sender, mint_tx_hash, available, r, true);
            },
            ExecuteMsg::Abandon { mint_tx_hash } => {
                status_changes_are_request_scoped(pre, post, sender, mint_tx_hash, available, r, false);
            },
        }
    }
}

/// Requests are never removed or rewritten by a reply: every request keeps
/// its place and everything but its status and recorded error.
pub proof fn replies_never_remove_requests(
    pre: ForwardState,
    post: ForwardState,
    id: u64,
    outcome: SubMsgOutcome,
    r: Result<Response<ForwardMsg>, ContractError>,
)
    requires
        pre.wf(),
        reply_effect(pre, post, id, outcome, r),
    ensures
        keeps_requests(pre, post),
{
    assert forall|i: int| 0 <= i < pre.requests@.len() implies #[trigger] post.requests@[i] == (TransferRequest {
        status: post.requests@[i].status,
        error_msg: post.requests@[i].error_msg,
        ..pre.requests@[i]
    }) by {}
}

/// Ascending pages chain: the page after the last id of a full page continues
/// exactly where that page stopped.
pub proof fn ascending_pages_chain(
    state: ForwardState,
    start_after: Option<u64>,
    limit: Option<u32>,
    next_limit: Option<u32>,
    page: Seq<RequestItem>,
    next_page: Seq<RequestItem>,
)
    requires
        state.wf(),
        requests_page(state, start_after, limit, Some(RequestOrder::Asc), page),
        page.len() > 0,
        requests_page(state, Some(page.last().id), next_limit, Some(RequestOrder::Asc), next_page),
    ensures
        forall|k: int| 0 <= k < next_page.len() ==> #[trigger] next_page[k].id == page.last().id + k + 1,
        forall|k: int|
            0 <= k < next_page.len() ==> #[trigger] next_page[k] == item_of(state.requests@[page.len() + asc_from(
                state.requests@.len(),
                start_after,
            ) + k]),
{
    let from = asc_from(state.requests@.len(), start_after);
    let last = page.len() - 1;
    assert(page[last].id == from + last + 1);
}


// ---------------------------------------------------------------- runs of calls

/// A transfer call that was accepted, followed in the same transaction by the
/// reply to its entry-point call (request `pre.next_request_id`).
pub open spec fn transfer_with_reply(
    pre: ForwardState,
    mid: ForwardState,
    post: ForwardState,
    sender: Seq<char>,
    block: BlockInfo,
    mint_tx_hash: String,
    transfer_coin: Coin,
    hook_data: String,
    destination_channel: String,
    available: Result<u128, cosmwasm_std::StdError>,
    r: Result<Response<ForwardMsg>, ContractError>,
    outcome: SubMsgOutcome,
    reply_r: Result<Response<ForwardMsg>, ContractError>,
) -> bool {
    &&& transfer_call_effect(
        pre,
        mid,
        sender,
        block,
        mint_tx_hash,
        transfer_coin,
        hook_data,
        destination_channel,
        available,
        r,
    )
    &&& r is Ok
    &&& reply_effect(mid, post, pre.next_request_id, outcome, reply_r)
}

/// One transaction of the contract: a message (accepted or refused), or an
/// accepted transfer call together with the reply to its entry-point call.
pub open spec fn forward_step(pre: ForwardState, post: ForwardState) -> bool {
    ||| exists|
        sender: Seq<char>,
        block: BlockInfo,
        msg: ExecuteMsg,
        available: Result<u128, cosmwasm_std::StdError>,
        r: Result<Response<ForwardMsg>, ContractError>,
    | #[trigger] execute_effect(pre, post, sender, block, msg, available, r)
    ||| exists|
        mid: ForwardState,
        sender: Seq<char>,
        block: BlockInfo,
        mint_tx_hash: String,
        transfer_coin: Coin,
        hook_data: String,
        destination_channel: String,
        available: Result<u128, cosmwasm_std::StdError>,
        r: Result<Response<ForwardMsg>, ContractError>,
        outcome: SubMsgOutcome,
        reply_r: Result<Response<ForwardMsg>, ContractError>,
    |
        #[trigger] transfer_with_reply(
            pre,
            mid,
            post,
            sender,
            block,
            mint_tx_hash,
            transfer_coin,
            hook_data,
            destination_channel,
            available,
            r,
            outcome,
            reply_r,
        )
}

/// `states` is a run: each state follows from the one before by one transaction.
pub open spec fn forward_run(states: Seq<ForwardState>) -> bool {
    forall|k: int| 0 <= k < states.len() - 1 ==> #[trigger] forward_step(states[k], states[k + 1])
}

/// The status moves that one transaction can make.
pub open spec fn status_may_move(from: RequestStatus, to: RequestStatus) -> bool {
    ||| from == to
    ||| from == RequestStatus::Pending && to == RequestStatus::Transfer
    ||| from == RequestStatus::Transfer && to == RequestStatus::Fail
    ||| from != RequestStatus::Refund && from != RequestStatus::Abandon && to == RequestStatus::Refund
    ||| from == RequestStatus::Refund && to == RequestStatus::Abandon
}

/// The statuses a request can reach from `from` over any number of
/// transactions: along Pending, Transfer, Fail, Refund, Abandon, never back.
pub open spec fn status_reachable(from: RequestStatus, to: RequestStatus) -> bool {
    ||| from == to
    ||| from == RequestStatus::Pending && to != RequestStatus::Pending
    ||| from == RequestStatus::Transfer && (to == RequestStatus::Fail || to == RequestStatus::Refund
        || to == RequestStatus::Abandon)
    ||| from == RequestStatus::Fail && (to == RequestStatus::Refund || to == RequestStatus::Abandon)
    ||| from == RequestStatus::Refund && to == RequestStatus::Abandon
}

/// What one transaction guarantees of the requests.
pub open spec fn step_facts(pre: ForwardState, post: ForwardState) -> bool {
    &&& post.wf()
    &&& keeps_requests(pre, post)
    &&& forall|i: int|
        0 <= i < pre.requests@.len() ==> status_may_move(pre.requests@[i].status, #[trigger] post.requests@[i].status)
    &&& forall|i: int|
        pre.requests@.len() <= i < post.requests@.len() ==> (#[trigger] post.requests@[i].status
            == RequestStatus::Transfer || post.requests@[i].status == RequestStatus::Fail)
}

/// A change at one position that keeps the id and the mint hash keeps `wf`.
proof fn lemma_update_keeps_wf(pre: ForwardState, post: ForwardState, i: int)
    requires
        pre.wf(),
        0 <= i < pre.requests@.len(),
        post.next_request_id == pre.next_request_id,
        post.requests@.len() == pre.requests@.len(),
        forall|j: int| 0 <= j < pre.requests@.len() && j != i ==> post.requests@[j] == pre.requests@[j],
        post.requests@[i].id == pre.requests@[i].id,
        post.requests@[i].mint_tx_hash == pre.requests@[i].mint_tx_hash,
    ensures
        post.wf(),
{
    assert forall|a: int| 0 <= a < post.requests@.len() implies #[trigger] post.requests@[a].id == a + 1 by {
        assert(post.requests@[a].id == pre.requests@[a].id);
    }
    assert forall|a: int, b: int|
        0 <= a < b < post.requests@.len() implies #[trigger] post.requests@[a].mint_tx_hash@
            != #[trigger] post.requests@[b].mint_tx_hash@ by {
        assert(post.requests@[a].mint_tx_hash == pre.requests@[a].mint_tx_hash);
        assert(post.requests@[b].mint_tx_hash == pre.requests@[b].mint_tx_hash);
    }
}

/// An accepted or refused transfer call keeps `wf` and only appends a request
/// with status `Transfer`.
proof fn lemma_transfer_call_step(
    pre: ForwardState,
    post: ForwardState,
    sender: Seq<char>,
    block: BlockInfo,
    mint_tx_hash: String,
    transfer_coin: Coin,
    hook_data: String,
    destination_channel: String,
    available: Result<u128, cosmwasm_std::StdError>,
    r: Result<Response<ForwardMsg>, ContractError>,
)
    requires
        pre.wf(),
        transfer_call_effect(
            pre,
            post,
            sender,
            block,
            mint_tx_hash,
            transfer_coin,
            hook_data,
            destination_channel,
            available,
            r,
        ),
    ensures
        step_facts(pre, post),
        r is Ok ==> post.requests@.len() == pre.requests@.len() + 1,
{
    if r is Ok {
        let n = pre.requests@.len() as int;
        assert(post.requests@.len() == n + 1);
        assert forall|a: int| 0 <= a < post.requests@.len() implies #[trigger] post.requests@[a].id == a + 1 by {
            if a < n {
                assert(post.requests@[a] == pre.requests@[a]);
            }
        }
        assert forall|a: int, b: int|
            0 <= a < b < post.requests@.len() implies #[trigger] post.requests@[a].mint_tx_hash@
                != #[trigger] post.requests@[b].mint_tx_hash@ by {
            assert(post.requests@[a] == pre.requests@[a]);
            if b == n {
                assert(!pre.holds_mint_at(mint_tx_hash@, a));
            } else {
                assert(post.requests@[b] == pre.requests@[b]);
            }
        }
        assert forall|i: int| 0 <= i < pre.requests@.len() implies #[trigger] post.requests@[i] == (TransferRequest {
            status: post.requests@[i].status,
            error_msg: post.requests@[i].error_msg,
            ..pre.requests@[i]
        }) by {
            assert(post.requests@[i] == pre.requests@[i]);
        }
    }
}

/// Every transaction keeps `wf`, keeps every request but its status and
/// recorded error, moves statuses only as `status_may_move` allows, and adds
/// requests only with status `Transfer` or `Fail`.
proof fn lemma_step(pre: ForwardState, post: ForwardState)
    requires
        pre.wf(),
        forward_step(pre, post),
    ensures
        step_facts(pre, post),
{
    if exists|
        sender: Seq<char>,
        block: BlockInfo,
        msg: ExecuteMsg,
        available: Result<u128, cosmwasm_std::StdError>,
        r: Result<Response<ForwardMsg>, ContractError>,
    | #[trigger] execute_effect(pre, post, sender, block, msg, available, r) {
        let (sender, block, msg, available, r) = choose|
            sender: Seq<char>,
            block: BlockInfo,
            msg: ExecuteMsg,
            available: Result<u128, cosmwasm_std::StdError>,
            r: Result<Response<ForwardMsg>, ContractError>,
        | #[trigger] execute_effect(pre, post, sender, block, msg, available, r);
        match msg {
            ExecuteMsg::TransferCall { mint_tx_hash, transfer_coin, hook_data, destination_channel } => {
                lemma_transfer_call_step(
                    pre,
                    post,
                    sender,
                    block,
                    mint_tx_hash,
                    transfer_coin,
                    hook_data,
                    destination_channel,
                    available,
                    r,
                );
            },
            ExecuteMsg::Refund { mint_tx_hash } => {
                if r is Ok {
                    let i = pre.mint_index(mint_tx_hash@);
                    lemma_update_keeps_wf(pre, post, i);
                }
                messages_never_remove_requests(pre, post, sender, block, msg, available, r);
            },
            ExecuteMsg::Abandon { mint_tx_hash } => {
                if r is Ok {
                    let i = pre.mint_index(mint_tx_hash@);
                    lemma_update_keeps_wf(pre, post, i);
                }
                messages_never_remove_requests(pre, post, sender, block, msg, available, r);
            },
        }
    } else {
        let (mid, sender, block, mint_tx_hash, transfer_coin, hook_data, destination_channel, available, r, outcome, reply_r) =
            choose|
            mid: ForwardState,
            sender: Seq<char>,
            block: BlockInfo,
            mint_tx_hash: String,
            transfer_coin: Coin,
            hook_data: String,
            destination_channel: String,
            available: Result<u128, cosmwasm_std::StdError>,
            r: Result<Response<ForwardMsg>, ContractError>,
            outcome: SubMsgOutcome,
            reply_r: Result<Response<ForwardMsg>, ContractError>,
        |
            #[trigger] transfer_with_reply(
                pre,
                mid,
                post,
                sender,
                block,
                mint_tx_hash,
                transfer_coin,
                hook_data,
                destination_channel,
                available,
                r,
                outcome,
                reply_r,
            );
        lemma_transfer_call_step(
            pre,
            mid,
            sender,
            block,
            mint_tx_hash,
            transfer_coin,
            hook_data,
            destination_channel,
            available,
            r,
        );
        let n = pre.requests@.len() as int;
        match outcome {
            SubMsgOutcome::Success { .. } => {},
            SubMsgOutcome::Failure(err) => {
                assert(pre.next_request_id - 1 == n);
                lemma_update_keeps_wf(mid, post, n);
                assert forall|i: int| 0 <= i < pre.requests@.len() implies #[trigger] post.requests@[i] == (TransferRequest {
                    status: post.requests@[i].status,
                    error_msg: post.requests@[i].error_msg,
                    ..pre.requests@[i]
                }) by {
                    assert(post.requests@[i] == mid.requests@[i]);
                    assert(mid.requests@[i] == pre.requests@[i]);
                }
                assert forall|i: int| 0 <= i < pre.requests@.len() implies status_may_move(
                    pre.requests@[i].status,
                    #[trigger] post.requests@[i].status,
                ) by {
                    assert(post.requests@[i] == mid.requests@[i]);
                    assert(mid.requests@[i] == pre.requests@[i]);
                }
            },
        }
    }
}

/// In a well-formed state, the request minted in `hash` is the one at its place.
proof fn lemma_mint_index_at(state: ForwardState, hash: Seq<char>, i: int)
    requires
        state.wf(),
        state.holds_mint_at(hash, i),
    ensures
        state.mint_index(hash) == i,
{
    let c = state.mint_index(hash);
    if c != i {
        if c < i {
            assert(state.requests@[c].mint_tx_hash@ != state.requests@[i].mint_tx_hash@);
        } else {
            assert(state.requests@[i].mint_tx_hash@ != state.requests@[c].mint_tx_hash@);
        }
    }
}

/// The request lifecycle over any run of transactions from a well-formed
/// state: every state is well-formed; a request, once registered, stays at
/// its place with its id, mint transaction hash, coin, origin, channel and
/// hook data; and its status only moves forward along Pending, Transfer,
/// Fail, Refund, Abandon (Abandon is final, a refunded request is never again
/// anything but refunded or abandoned).
pub proof fn request_lifecycle(states: Seq<ForwardState>, j: int, k: int, i: int)
    requires
        states.len() > 0,
        states[0].wf(),
        forward_run(states),
        0 <= j <= k < states.len(),
        0 <= i < states[j].requests@.len(),
    ensures
        states[k].wf(),
        i < states[k].requests@.len(),
        states[k].requests@[i] == (TransferRequest {
            status: states[k].requests@[i].status,
            error_msg: states[k].requests@[i].error_msg,
            ..states[j].requests@[i]
        }),
        status_reachable(states[j].requests@[i].status, states[k].requests@[i].status),
    decreases k,
{
    lemma_run_wf(states, k);
    if j < k {
        request_lifecycle(states, j, k - 1, i);
        lemma_run_wf(states, k - 1);
        let m = k - 1;
        assert(forward_step(states[m], states[m + 1]));
        assert(states[m + 1] == states[k]);
        lemma_step(states[k - 1], states[k]);
        assert(states[k].requests@[i] == (TransferRequest {
            status: states[k].requests@[i].status,
            error_msg: states[k].requests@[i].error_msg,
            ..states[k - 1].requests@[i]
        }));
        assert(status_may_move(states[k - 1].requests@[i].status, states[k].requests@[i].status));
    }
}

/// Every state of a run from a well-formed state is well-formed.
proof fn lemma_run_wf(states: Seq<ForwardState>, k: int)
    requires
        states.len() > 0,
        states[0].wf(),
        forward_run(states),
        0 <= k < states.len(),
    ensures
        states[k].wf(),
    decreases k,
{
    if k > 0 {
        lemma_run_wf(states, k - 1);
        let m = k - 1;
        assert(forward_step(states[m], states[m + 1]));
        assert(states[m + 1] == states[k]);
        lemma_step(states[k - 1], states[k]);
    }
}

/// A request's coin is refunded at most once: after a refund of the mint
/// `mint_tx_hash` succeeds in some transaction of a run, every refund of that
/// mint in any later state of the run, by any sender and whatever the
/// balance, is refused and sends nothing.
pub proof fn refunded_at_most_once(
    states: Seq<ForwardState>,
    j: int,
    sender: Seq<char>,
    mint_tx_hash: String,
    available: Result<u128, cosmwasm_std::StdError>,
    r: Result<Response<ForwardMsg>, ContractError>,
    k: int,
    later: ForwardState,
    later_sender: Seq<char>,
    later_available: Result<u128, cosmwasm_std::StdError>,
    later_r: Result<Response<ForwardMsg>, ContractError>,
)
    requires
        states.len() > 0,
        states[0].wf(),
        forward_run(states),
        0 <= j < k < states.len(),
        refund_effect(states[j], states[j + 1], sender, mint_tx_hash, available, r),
        r is Ok,
        refund_effect(states[k], later, later_sender, mint_tx_hash, later_available, later_r),
    ensures
        later_r is Err,
        later == states[k],
{
    lemma_run_wf(states, j);
    let i = states[j].mint_index(mint_tx_hash@);
    assert(states[j + 1].requests@[i].status == RequestStatus::Refund);
    request_lifecycle(states, j + 1, k, i);
    assert(states[k].holds_mint_at(mint_tx_hash@, i));
    lemma_mint_index_at(states[k], mint_tx_hash@, i);
}

// ---------------------------------------------------------------- laws on the checks

/// A transfer call needs only that the balance covers the amount: when the
/// relayer asks for a positive amount of a mint not yet registered, with hook
/// data that is JSON without a float, and the balance is at least the amount
/// (equal included), the call succeeds: the request is appended with the next
/// id, the coin and status `Transfer`, and exactly that coin goes to the entry
/// point. `InsufficientRequestFunds` only ever comes with a balance strictly
/// below the amount.
pub proof fn transfer_succeeds_when_balance_covers_amount(
    pre: ForwardState,
    post: ForwardState,
    sender: Seq<char>,
    block: BlockInfo,
    mint_tx_hash: String,
    transfer_coin: Coin,
    hook_data: String,
    destination_channel: String,
    available: Result<u128, cosmwasm_std::StdError>,
    r: Result<Response<ForwardMsg>, ContractError>,
)
    requires
        pre.wf(),
        transfer_call_effect(
            pre,
            post,
            sender,
            block,
            mint_tx_hash,
            transfer_coin,
            hook_data,
            destination_channel,
            available,
            r,
        ),
    ensures
        ({
            &&& sender == pre.config.skip_relayer_addr@
            &&& transfer_coin.amount > 0
            &&& forall|i: int| 0 <= i < pre.requests@.len() ==> #[trigger] pre.requests@[i].mint_tx_hash@ != mint_tx_hash@
            &&& available matches Ok(b) && b >= transfer_coin.amount
            &&& json_parse(hook_data@) matches Some(j) && !has_float(j)
        }) ==> {
            &&& r is Ok
            &&& post.requests@.len() == pre.requests@.len() + 1
            &&& post.requests@.last().id == pre.next_request_id
            &&& post.requests@.last().mint_tx_hash == mint_tx_hash
            &&& post.requests@.last().transfer_coin == transfer_coin
            &&& post.requests@.last().status == RequestStatus::Transfer
            &&& r->Ok_0.messages@.len() == 1
            &&& r->Ok_0.messages@[0].msg matches ForwardMsg::EntrypointTransfer { funds, .. } && funds@ == seq![
                transfer_coin,
            ]
        },
        r == Err::<Response<ForwardMsg>, ContractError>(ContractError::InsufficientRequestFunds) ==> (available matches Ok(
            b,
        ) && b < transfer_coin.amount),
{
    if forall|i: int| 0 <= i < pre.requests@.len() ==> #[trigger] pre.requests@[i].mint_tx_hash@ != mint_tx_hash@ {
        assert(!pre.has_mint(mint_tx_hash@));
    }
}

/// A refund needs only that the balance covers the request's amount: when
/// the owner or the relayer refunds a registered request that is neither
/// refunded nor abandoned, of a positive amount, and the balance is at least
/// that amount (equal included), the refund succeeds: that coin goes to the
/// refund address and the request becomes `Refund`. `InsufficientRequestFunds`
/// only ever comes with a balance strictly below the request's amount.
pub proof fn refund_succeeds_when_balance_covers_amount(
    pre: ForwardState,
    post: ForwardState,
    sender: Seq<char>,
    mint_tx_hash: String,
    available: Result<u128, cosmwasm_std::StdError>,
    r: Result<Response<ForwardMsg>, ContractError>,
    i: int,
)
    requires
        pre.wf(),
        refund_effect(pre, post, sender, mint_tx_hash, available, r),
        0 <= i < pre.requests@.len(),
        pre.requests@[i].mint_tx_hash@ == mint_tx_hash@,
    ensures
        ({
            &&& (sender == pre.config.skip_relayer_addr@ || sender == pre.config.owner@)
            &&& pre.requests@[i].status != RequestStatus::Refund
            &&& pre.requests@[i].status != RequestStatus::Abandon
            &&& pre.requests@[i].transfer_coin.amount > 0
            &&& available matches Ok(b) && b >= pre.requests@[i].transfer_coin.amount
        }) ==> {
            &&& r is Ok
            &&& post.requests@[i].status == RequestStatus::Refund
            &&& r->Ok_0.messages@.len() == 1
            &&& r->Ok_0.messages@[0].msg matches ForwardMsg::BankSend { to_address, amount } && to_address
                == pre.config.refund_addr && amount@ == seq![pre.requests@[i].transfer_coin]
        },
        r == Err::<Response<ForwardMsg>, ContractError>(ContractError::InsufficientRequestFunds) ==> (available matches Ok(
            b,
        ) && b < pre.requests@[i].transfer_coin.amount),
{
    assert(pre.holds_mint_at(mint_tx_hash@, i));
    lemma_mint_index_at(pre, mint_tx_hash@, i);
}

/// Page sizes: a page of requests holds at most 20 requests when no limit is
/// given, otherwise at most the limit, and never more than 100; a first page
/// (no `start_after`) holds exactly that many where there are enough
/// requests, and all of them otherwise; and a page shorter than that reaches
/// the end of the list (the last id ascending, id 1 descending).
pub proof fn request_pages_are_as_long_as_asked(
    state: ForwardState,
    start_after: Option<u64>,
    limit: Option<u32>,
    order: Option<RequestOrder>,
    page: Seq<RequestItem>,
)
    requires
        state.wf(),
        requests_page(state, start_after, limit, order, page),
    ensures
        ({
            let cap: nat = match limit {
                None => 20,
                Some(l) => if l <= 100 { l as nat } else { 100 },
            };
            &&& page.len() <= cap
            &&& start_after is None ==> page.len() == if state.requests@.len() < cap {
                state.requests@.len()
            } else {
                cap
            }
            &&& page.len() < cap && page.len() > 0 ==> if order == Some(RequestOrder::Desc) {
                page.last().id == 1
            } else {
                page.last().id == state.requests@.len()
            }
        }),
{
}

} // verus!
