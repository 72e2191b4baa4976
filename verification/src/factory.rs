//! The forwarder factory: it creates one forwarder per (sender, destination
//! chain, recipient) route at an address that instantiate2 fixes in advance,
//! keeps a registry of the forwarders created, and holds the settings that
//! every forwarder reads.

use crate::bytes::{bytes_equal, bytes_less, bytes_lt, lemma_bytes_lt_irreflexive, lemma_bytes_lt_total, lemma_bytes_lt_transitive};
use crate::codec::{hex_decode, hex_decoded, hex_encode, hex_lower, lemma_hex_lower_decodes, instantiate2_address, instantiate2_hash, instantiate_reply_address, parse_instantiate_reply, sha256, sha256_digest};
use crate::common::{
    attr, attr_lit, attr_pairs, copy_str, dec, empty_response, str_eq, u128_to_string, Coin, ContractVersion,
    ReplyOn, Response, StdFailure, SubMsg, SubMsgOutcome,
};
use crate::forward::{min_nat, page_limit};
use crate::shared::{
    FactoryConfigResponse, ForwarderAddressResponse, ForwarderInfo, ForwarderInstantiateMsg, ForwardersResponse,
    QueryMsg,
};
use vstd::prelude::*;
use vstd::string::StringExecFns;
use vstd::utf8::{encode_utf8, encode_utf8_decode_utf8};

verus! {

/// The name under which cw2 records this contract.
pub const CONTRACT_NAME: &'static str = "crates.io:cctp-v2-forwarder-factory";

/// Page size when none is given.
pub const DEFAULT_LIMIT: u32 = 20;

/// Largest page size.
pub const MAX_LIMIT: u32 = 100;

/// Length to which the predicted canonical address is cut.
pub const PREDICT_CANONICAL_BYTES: usize = 20;

// ---------------------------------------------------------------- state

/// The settings shared by every forwarder the factory creates.
#[derive(Debug, PartialEq, Eq)]
pub struct FactoryConfig {
    pub owner: String,
    pub forwarder_code_id: u64,
    pub skip_relayer_addr: String,
    pub skip_entrypoint_addr: String,
}

/// A created forwarder.
#[derive(Debug, PartialEq, Eq)]
pub struct ForwarderRecord {
    pub address: String,
    pub sender_addr: String,
    pub recipient_addr: String,
    pub dest_chain: String,
    pub created_height: u64,
}

/// A forwarder whose instantiation awaits its reply.
#[derive(Debug, PartialEq, Eq)]
pub struct PendingForwarder {
    pub salt: Vec<u8>,
    pub sender_addr: String,
    pub recipient_addr: String,
    pub dest_chain: String,
    pub predicted: String,
}

/// A registry entry: a forwarder under the salt of its route.
#[derive(Debug, PartialEq, Eq)]
pub struct ForwarderEntry {
    pub salt: Vec<u8>,
    pub record: ForwarderRecord,
}

/// A pending creation under its reply id.
#[derive(Debug, PartialEq, Eq)]
pub struct PendingEntry {
    pub reply_id: u64,
    pub pending: PendingForwarder,
}

/// Everything the factory stores: settings, the next reply id, the registry
/// in the order storage walks it (ascending salt), the pending creations.
#[derive(Debug, PartialEq, Eq)]
pub struct FactoryState {
    pub config: FactoryConfig,
    pub next_reply_id: u64,
    pub forwarders: Vec<ForwarderEntry>,
    pub pending: Vec<PendingEntry>,
}

/// The registry's salts strictly ascend.
pub open spec fn registry_sorted(fw: Seq<ForwarderEntry>) -> bool {
    forall|i: int, j: int| 0 <= i < j < fw.len() ==> bytes_lt(#[trigger] fw[i].salt@, #[trigger] fw[j].salt@)
}

/// `p` is where `key` belongs in the registry: every salt before it sorts
/// before `key`, none from it on does.
pub open spec fn insert_position(fw: Seq<ForwarderEntry>, key: Seq<u8>, p: int) -> bool {
    &&& 0 <= p <= fw.len()
    &&& forall|i: int| 0 <= i < p ==> bytes_lt(#[trigger] fw[i].salt@, key)
    &&& forall|i: int| p <= i < fw.len() ==> !bytes_lt(#[trigger] fw[i].salt@, key)
}

/// The registry after saving `entry` under its salt: the entry replaces one
/// with the same salt, or is inserted where its salt belongs.
pub open spec fn registry_insert(fw: Seq<ForwarderEntry>, entry: ForwarderEntry) -> Seq<ForwarderEntry> {
    let p = choose|p: int| insert_position(fw, entry.salt@, p);
    if p < fw.len() && fw[p].salt@ == entry.salt@ {
        fw.update(p, entry)
    } else {
        fw.insert(p, entry)
    }
}

/// There is one place where a key belongs.
proof fn lemma_insert_position_unique(fw: Seq<ForwarderEntry>, key: Seq<u8>, p: int, q: int)
    requires
        insert_position(fw, key, p),
        insert_position(fw, key, q),
    ensures
        p == q,
{
    if p < q {
        assert(bytes_lt(fw[p].salt@, key));
    } else if q < p {
        assert(bytes_lt(fw[q].salt@, key));
    }
}

/// Saves `entry` under its salt, keeping the registry sorted.
fn save_forwarder(forwarders: &mut Vec<ForwarderEntry>, entry: ForwarderEntry)
    requires
        registry_sorted(old(forwarders)@),
    ensures
        registry_sorted(final(forwarders)@),
        final(forwarders)@ == registry_insert(old(forwarders)@, entry),
{
    let ghost fw = forwarders@;
    let ghost key = entry.salt@;
    let mut p: usize = 0;
    while p < forwarders.len() && bytes_less(forwarders[p].salt.as_slice(), entry.salt.as_slice())
        invariant
            forwarders@ == fw,
            key == entry.salt@,
            registry_sorted(fw),
            p <= fw.len(),
            forall|i: int| 0 <= i < p ==> bytes_lt(#[trigger] fw[i].salt@, key),
        decreases fw.len() - p,
    {
        p = p + 1;
    }
    proof {
        assert forall|i: int| p <= i < fw.len() implies !bytes_lt(#[trigger] fw[i].salt@, key) by {
            if i > p && bytes_lt(fw[i].salt@, key) {
                lemma_bytes_lt_transitive(fw[p as int].salt@, fw[i].salt@, key);
            }
        }
        assert(insert_position(fw, key, p as int));
        let c = choose|q: int| insert_position(fw, key, q);
        lemma_insert_position_unique(fw, key, p as int, c);
    }
    if p < forwarders.len() && bytes_equal(forwarders[p].salt.as_slice(), entry.salt.as_slice()) {
        forwarders.remove(p);
        forwarders.insert(p, entry);
        proof {
            assert(forwarders@ =~= fw.update(p as int, entry));
            assert forall|i: int, j: int| 0 <= i < j < forwarders@.len() implies bytes_lt(
                #[trigger] forwarders@[i].salt@,
                #[trigger] forwarders@[j].salt@,
            ) by {
                assert(fw[i].salt@ == forwarders@[i].salt@ || i == p);
                assert(fw[j].salt@ == forwarders@[j].salt@ || j == p);
            }
        }
    } else {
        forwarders.insert(p, entry);
        proof {
            assert(forwarders@ =~= fw.insert(p as int, entry));
            if p < fw.len() {
                lemma_bytes_lt_total(fw[p as int].salt@, key);
                assert(bytes_lt(key, fw[p as int].salt@));
            }
            assert forall|i: int, j: int| 0 <= i < j < forwarders@.len() implies bytes_lt(
                #[trigger] forwarders@[i].salt@,
                #[trigger] forwarders@[j].salt@,
            ) by {
                if i < p && j == p {
                } else if i < p && j > p {
                    assert(forwarders@[j] == fw[j - 1]);
                    assert(bytes_lt(fw[i].salt@, fw[j - 1].salt@));
                } else if i == p {
                    assert(forwarders@[j] == fw[j - 1]);
                    if j - 1 > p {
                        lemma_bytes_lt_transitive(key, fw[p as int].salt@, fw[j - 1].salt@);
                    }
                } else if i > p {
                    assert(forwarders@[i] == fw[i - 1]);
                    assert(forwarders@[j] == fw[j - 1]);
                }
            }
        }
    }
}

impl FactoryState {
    /// The registry is sorted by salt without repeats; pending reply ids are
    /// distinct and below the next reply id.
    pub open spec fn wf(self) -> bool {
        &&& registry_sorted(self.forwarders@)
        &&& forall|i: int| 0 <= i < self.pending@.len() ==> #[trigger] self.pending@[i].reply_id < self.next_reply_id
        &&& forall|i: int, j: int|
            0 <= i < j < self.pending@.len() ==> #[trigger] self.pending@[i].reply_id
                != #[trigger] self.pending@[j].reply_id
    }

    /// A forwarder is registered under `salt`.
    pub open spec fn has_forwarder(self, salt: Seq<u8>) -> bool {
        exists|i: int| 0 <= i < self.forwarders@.len() && #[trigger] self.forwarders@[i].salt@ == salt
    }

    /// `i` is the position of the pending creation with reply id `id`.
    pub open spec fn pending_at(self, id: u64, i: int) -> bool {
        0 <= i < self.pending@.len() && self.pending@[i].reply_id == id
    }

    /// A creation with reply id `id` is pending.
    pub open spec fn has_pending(self, id: u64) -> bool {
        exists|i: int| self.pending_at(id, i)
    }

    /// The position of the pending creation with reply id `id`.
    pub open spec fn pending_index(self, id: u64) -> int {
        choose|i: int| self.pending_at(id, i)
    }

    /// Whether a forwarder is registered under `salt`.
    pub fn forwarder_exists(&self, salt: &[u8]) -> (r: bool)
        ensures
            r == self.has_forwarder(salt@),
    {
        let mut i: usize = 0;
        while i < self.forwarders.len()
            invariant
                i <= self.forwarders@.len(),
                forall|k: int| 0 <= k < i ==> self.forwarders@[k].salt@ != salt@,
            decreases self.forwarders@.len() - i,
        {
            if bytes_equal(self.forwarders[i].salt.as_slice(), salt) {
                return true;
            }
            i = i + 1;
        }
        false
    }

    /// The position of the pending creation with reply id `id`, if any.
    pub fn find_pending(&self, id: u64) -> (r: Option<usize>)
        requires
            self.wf(),
        ensures
            match r {
                Some(i) => self.pending_at(id, i as int) && self.pending_index(id) == i,
                None => !self.has_pending(id),
            },
    {
        let mut i: usize = 0;
        while i < self.pending.len()
            invariant
                self.wf(),
                i <= self.pending@.len(),
                forall|k: int| 0 <= k < i ==> self.pending@[k].reply_id != id,
            decreases self.pending@.len() - i,
        {
            if self.pending[i].reply_id == id {
                proof {
                    let c = self.pending_index(id);
                    assert(self.pending_at(id, i as int));
                    if c != i as int {
                        if c < i as int {
                            assert(self.pending@[c].reply_id != self.pending@[i as int].reply_id);
                        } else {
                            assert(self.pending@[i as int].reply_id != self.pending@[c].reply_id);
                        }
                    }
                }
                return Some(i);
            }
            i = i + 1;
        }
        None
    }

    /// Rebuilds the state from what storage holds, refusing storage that
    /// breaks the invariant of `wf`.
    pub fn from_parts(
        config: FactoryConfig,
        next_reply_id: u64,
        forwarders: Vec<ForwarderEntry>,
        pending: Vec<PendingEntry>,
    ) -> (r: Option<FactoryState>)
        ensures
            match r {
                Some(s) => s.wf() && s == (FactoryState { config, next_reply_id, forwarders, pending }),
                None => !(FactoryState { config, next_reply_id, forwarders, pending }).wf(),
            },
    {
        let n = forwarders.len();
        let mut i: usize = 1;
        while i < n
            invariant
                n == forwarders@.len(),
                1 <= i,
                forall|a: int, b: int|
                    0 <= a < b < i && b < n ==> bytes_lt(#[trigger] forwarders@[a].salt@, #[trigger] forwarders@[b].salt@),
            decreases n - i,
        {
            if !bytes_less(forwarders[i - 1].salt.as_slice(), forwarders[i].salt.as_slice()) {
                let ghost st = FactoryState { config, next_reply_id, forwarders, pending };
                assert(!bytes_lt(st.forwarders@[i - 1].salt@, st.forwarders@[i as int].salt@));
                return None;
            }
            proof {
                assert forall|a: int, b: int|
                    0 <= a < b < i + 1 && b < n implies bytes_lt(#[trigger] forwarders@[a].salt@, #[trigger] forwarders@[b].salt@) by {
                    if b == i && a < i - 1 {
                        lemma_bytes_lt_transitive(forwarders@[a].salt@, forwarders@[i - 1].salt@, forwarders@[b].salt@);
                    }
                }
            }
            i = i + 1;
        }
        let m = pending.len();
        let mut j: usize = 0;
        while j < m
            invariant
                m == pending@.len(),
                j <= m,
                forall|a: int| 0 <= a < j ==> #[trigger] pending@[a].reply_id < next_reply_id,
                forall|a: int, b: int| 0 <= a < b < j ==> #[trigger] pending@[a].reply_id != #[trigger] pending@[b].reply_id,
            decreases m - j,
        {
            if pending[j].reply_id >= next_reply_id {
                let ghost st = FactoryState { config, next_reply_id, forwarders, pending };
                assert(st.pending@[j as int].reply_id >= st.next_reply_id);
                return None;
            }
            let mut k: usize = 0;
            while k < j
                invariant
                    m == pending@.len(),
                    k <= j < m,
                    forall|a: int| 0 <= a < k ==> pending@[a].reply_id != pending@[j as int].reply_id,
                decreases j - k,
            {
                if pending[k].reply_id == pending[j].reply_id {
                    let ghost st = FactoryState { config, next_reply_id, forwarders, pending };
                    assert(st.pending@[k as int].reply_id == st.pending@[j as int].reply_id);
                    return None;
                }
                k = k + 1;
            }
            j = j + 1;
        }
        Some(FactoryState { config, next_reply_id, forwarders, pending })
    }
}

// ---------------------------------------------------------------- messages

/// Instantiation parameters.
#[derive(Debug, PartialEq, Eq)]
pub struct InstantiateMsg {
    /// Defaults to the instantiating sender when omitted.
    pub owner: Option<String>,
    pub forwarder_code_id: u64,
    pub skip_relayer_addr: String,
    pub skip_entrypoint_addr: String,
}

/// The execute messages.
#[derive(Debug, PartialEq, Eq)]
pub enum ExecuteMsg {
    /// Create the forwarder of a route (owner only, once per route).
    CreateForwarder { sender_addr: String, dest_chain: String, recipient_addr: String },
    /// Update the shared settings (owner only).
    UpdateConfig {
        owner: Option<String>,
        forwarder_code_id: Option<u64>,
        skip_relayer_addr: Option<String>,
        skip_entrypoint_addr: Option<String>,
    },
}

/// The migration message (empty).
#[derive(Debug, PartialEq, Eq)]
pub struct MigrateMsg {}

/// The messages the factory sends.
#[derive(Debug, PartialEq, Eq)]
pub enum FactoryMsg {
    /// Instantiate code `code_id` at the address fixed by `salt`.
    Instantiate2 {
        admin: Option<String>,
        code_id: u64,
        label: String,
        msg: ForwarderInstantiateMsg,
        funds: Vec<Coin>,
        salt: Vec<u8>,
    },
}

/// The errors of the factory.
#[derive(Debug, PartialEq)]
pub enum ContractError {
    Std(StdFailure),
    Unauthorized,
    /// A forwarder for this route already exists.
    ForwarderExists,
    /// A reply came for a reply id with nothing pending.
    PendingNotFound,
    /// The instantiate2 reply carried no data.
    NoInstantiateData,
    /// The instantiated address differs from the predicted one.
    AddressMismatch { predicted: String, actual: String },
    Instantiate2(String),
    ParseReply(String),
}

/// The answer to a query.
#[derive(Debug, PartialEq, Eq)]
pub enum QueryAnswer {
    Config(FactoryConfigResponse),
    ForwarderAddress(ForwarderAddressResponse),
    Forwarders(ForwardersResponse),
}


// ---------------------------------------------------------------- salt and prediction

/// `n` modulo 2^32 as four big-endian bytes.
pub open spec fn be32(n: nat) -> Seq<u8> {
    let m = n % 4294967296;
    seq![(m / 16777216) as u8, ((m / 65536) % 256) as u8, ((m / 256) % 256) as u8, (m % 256) as u8]
}

/// A field as it enters the salt: its length in four big-endian bytes, then its bytes.
pub open spec fn framed(part: Seq<u8>) -> Seq<u8> {
    be32(part.len()) + part
}

/// What is hashed into a route's salt: sender, destination chain and
/// recipient, each length-prefixed, as UTF-8.
pub open spec fn salt_preimage(sender: Seq<char>, dest_chain: Seq<char>, recipient: Seq<char>) -> Seq<u8> {
    framed(encode_utf8(sender)) + framed(encode_utf8(dest_chain)) + framed(encode_utf8(recipient))
}

/// The salt of a route: the SHA-256 digest of its preimage.
pub open spec fn route_salt(sender: Seq<char>, dest_chain: Seq<char>, recipient: Seq<char>) -> Seq<u8> {
    sha256_digest(salt_preimage(sender, dest_chain, recipient))
}

/// Appends `framed(part)` to `buf`.
fn push_framed(buf: &mut Vec<u8>, part: &[u8])
    ensures
        final(buf)@ == old(buf)@ + framed(part@),
{
    let m: u64 = (part.len() as u64) % 4294967296;
    buf.push((m / 16777216) as u8);
    buf.push(((m / 65536) % 256) as u8);
    buf.push(((m / 256) % 256) as u8);
    buf.push((m % 256) as u8);
    let ghost with_len = buf@;
    assert(with_len == old(buf)@ + be32(part@.len()));
    let mut i: usize = 0;
    while i < part.len()
        invariant
            i <= part@.len(),
            buf@ == with_len + part@.take(i as int),
        decreases part@.len() - i,
    {
        buf.push(part[i]);
        assert(part@.take(i as int + 1) =~= part@.take(i as int).push(part@[i as int]));
        i = i + 1;
    }
    assert(part@.take(part@.len() as int) =~= part@);
}

/// The salt of a route: SHA-256 over the length-prefixed sender, destination
/// chain and recipient, so that no two routes share a preimage.
pub fn make_salt(sender: &String, dest_chain: &String, recipient: &String) -> (r: Vec<u8>)
    ensures
        r@ == route_salt(sender@, dest_chain@, recipient@),
        r@.len() == 32,
{
    let mut buf: Vec<u8> = Vec::new();
    push_framed(&mut buf, sender.as_str().as_bytes());
    push_framed(&mut buf, dest_chain.as_str().as_bytes());
    push_framed(&mut buf, recipient.as_str().as_bytes());
    assert(buf@ =~= salt_preimage(sender@, dest_chain@, recipient@));
    sha256(buf.as_slice())
}

/// The first `target_len` bytes of a canonical address, or the error for an
/// address shorter than that.
pub fn shorten_canonical_address(canonical: &[u8], target_len: usize) -> (r: Result<Vec<u8>, StdFailure>)
    ensures
        if canonical@.len() < target_len {
            r matches Err(StdFailure::Generic { msg }) && msg@ == "canonical address length "@ + dec(
                canonical@.len(),
            ) + " is shorter than expected "@ + dec(target_len as nat)
        } else {
            r matches Ok(a) && a@ == canonical@.subrange(0, target_len as int)
        },
{
    if canonical.len() < target_len {
        let msg = String::from_str("canonical address length ")
            .concat(u128_to_string(canonical.len() as u128).as_str())
            .concat(" is shorter than expected ")
            .concat(u128_to_string(target_len as u128).as_str());
        return Err(StdFailure::Generic { msg });
    }
    Ok(vstd::slice::slice_to_vec(vstd::slice::slice_subrange(canonical, 0, target_len)))
}

/// The address prediction, up to the host's rendering: the first 20 bytes of
/// the instantiate2 address of `salt`, or the first error among the code
/// query (`checksum`), the creator's canonicalization (`creator`) and the
/// derivation itself.
pub open spec fn predicted_canonical(
    checksum: Result<Vec<u8>, cosmwasm_std::StdError>,
    creator: Result<Vec<u8>, cosmwasm_std::StdError>,
    salt: Seq<u8>,
    r: Result<Vec<u8>, StdFailure>,
) -> bool {
    match checksum {
        Err(e) => r == Err::<Vec<u8>, StdFailure>(StdFailure::Host(e)),
        Ok(cs) => match creator {
            Err(e) => r == Err::<Vec<u8>, StdFailure>(StdFailure::Host(e)),
            Ok(cr) => if cs@.len() != 32 {
                r matches Err(StdFailure::Generic { msg }) && msg@ == "instantiate2_address: invalid checksum length"@
            } else if salt.len() == 0 || salt.len() > 64 {
                r matches Err(StdFailure::Generic { msg }) && msg@ == "instantiate2_address: invalid salt length"@
            } else {
                r matches Ok(a) && a@ == instantiate2_hash(cs@, cr@, salt).subrange(0, 20)
            },
        },
    }
}

/// Predicts the canonical address of the forwarder with `salt`: derives it
/// with instantiate2 from the code's checksum and the factory's canonical
/// address, then cuts it to 20 bytes. The host renders the result.
pub fn predict_canonical_address(
    checksum: Result<Vec<u8>, cosmwasm_std::StdError>,
    creator: Result<Vec<u8>, cosmwasm_std::StdError>,
    salt: &[u8],
) -> (r: Result<Vec<u8>, StdFailure>)
    ensures
        predicted_canonical(checksum, creator, salt@, r),
{
    let cs = match checksum {
        Ok(c) => c,
        Err(e) => {
            return Err(StdFailure::Host(e));
        },
    };
    let cr = match creator {
        Ok(c) => c,
        Err(e) => {
            return Err(StdFailure::Host(e));
        },
    };
    let canonical = match instantiate2_address(cs.as_slice(), cr.as_slice(), salt) {
        Ok(a) => a,
        Err(text) => {
            proof {
                reveal_strlit("instantiate2_address: ");
                reveal_strlit("invalid checksum length");
                reveal_strlit("invalid salt length");
                reveal_strlit("instantiate2_address: invalid checksum length");
                reveal_strlit("instantiate2_address: invalid salt length");
                assert("instantiate2_address: "@ + "invalid checksum length"@
                    =~= "instantiate2_address: invalid checksum length"@);
                assert("instantiate2_address: "@ + "invalid salt length"@ =~= "instantiate2_address: invalid salt length"@);
            }
            let msg = String::from_str("instantiate2_address: ").concat(text.as_str());
            return Err(StdFailure::Generic { msg });
        },
    };
    shorten_canonical_address(canonical.as_slice(), PREDICT_CANONICAL_BYTES)
}


// ---------------------------------------------------------------- instantiate and settings

/// The host's validation of the addresses a message names (each read only
/// where the message names that address).
#[derive(Debug, PartialEq)]
pub struct AddressChecks {
    pub owner: Result<(), cosmwasm_std::StdError>,
    pub skip_relayer_addr: Result<(), cosmwasm_std::StdError>,
    pub skip_entrypoint_addr: Result<(), cosmwasm_std::StdError>,
}

/// Instantiates the factory for `sender`: the owner defaults to the sender,
/// addresses are validated in the order owner, relayer, entry point.
pub fn instantiate(sender: &String, msg: InstantiateMsg, checks: AddressChecks) -> (r: Result<
    (FactoryState, Response<FactoryMsg>),
    ContractError,
>)
    ensures
        if msg.owner is Some && checks.owner is Err {
            r == Err::<(FactoryState, Response<FactoryMsg>), ContractError>(
                ContractError::Std(StdFailure::Host(checks.owner->Err_0)),
            )
        } else if checks.skip_relayer_addr is Err {
            r == Err::<(FactoryState, Response<FactoryMsg>), ContractError>(
                ContractError::Std(StdFailure::Host(checks.skip_relayer_addr->Err_0)),
            )
        } else if checks.skip_entrypoint_addr is Err {
            r == Err::<(FactoryState, Response<FactoryMsg>), ContractError>(
                ContractError::Std(StdFailure::Host(checks.skip_entrypoint_addr->Err_0)),
            )
        } else {
            r matches Ok((state, resp)) && {
                let owner = match msg.owner { Some(o) => o, None => *sender };
                &&& state.wf()
                &&& state.config == (FactoryConfig {
                    owner,
                    forwarder_code_id: msg.forwarder_code_id,
                    skip_relayer_addr: msg.skip_relayer_addr,
                    skip_entrypoint_addr: msg.skip_entrypoint_addr,
                })
                &&& state.next_reply_id == 1
                &&& state.forwarders@.len() == 0
                &&& state.pending@.len() == 0
                &&& resp.messages@.len() == 0
                &&& attr_pairs(resp.attributes@) == seq![
                    ("action"@, "instantiate"@),
                    ("owner"@, owner@),
                    ("forwarder_code_id"@, dec(msg.forwarder_code_id as nat)),
                ]
            }
        },
{
    let owner = match msg.owner {
        Some(o) => {
            if let Err(e) = checks.owner {
                return Err(ContractError::Std(StdFailure::Host(e)));
            }
            o
        },
        None => copy_str(sender),
    };
    if let Err(e) = checks.skip_relayer_addr {
        return Err(ContractError::Std(StdFailure::Host(e)));
    }
    if let Err(e) = checks.skip_entrypoint_addr {
        return Err(ContractError::Std(StdFailure::Host(e)));
    }
    let mut resp = empty_response();
    resp.attributes.push(attr_lit("action", "instantiate"));
    resp.attributes.push(attr("owner", copy_str(&owner)));
    resp.attributes.push(attr("forwarder_code_id", u128_to_string(msg.forwarder_code_id as u128)));
    let config = FactoryConfig {
        owner,
        forwarder_code_id: msg.forwarder_code_id,
        skip_relayer_addr: msg.skip_relayer_addr,
        skip_entrypoint_addr: msg.skip_entrypoint_addr,
    };
    assert(attr_pairs(resp.attributes@) =~= seq![
        ("action"@, "instantiate"@),
        ("owner"@, config.owner@),
        ("forwarder_code_id"@, dec(config.forwarder_code_id as nat)),
    ]);
    Ok((FactoryState { config, next_reply_id: 1, forwarders: Vec::new(), pending: Vec::new() }, resp))
}

/// Only the owner may create forwarders or change the settings.
pub fn ensure_owner(config: &FactoryConfig, sender: &String) -> (r: Result<(), ContractError>)
    ensures
        r is Ok <==> sender@ == config.owner@,
        r matches Err(e) ==> e == ContractError::Unauthorized,
{
    if !str_eq(sender, &config.owner) {
        return Err(ContractError::Unauthorized);
    }
    Ok(())
}

/// What a settings update does: refused (state unchanged) when the sender is
/// not the owner or the host refuses a new address (owner, relayer, entry point
/// in that order); otherwise each given field replaced.
pub open spec fn update_config_effect(
    pre: FactoryState,
    post: FactoryState,
    sender: Seq<char>,
    owner: Option<String>,
    forwarder_code_id: Option<u64>,
    skip_relayer_addr: Option<String>,
    skip_entrypoint_addr: Option<String>,
    checks: AddressChecks,
    r: Result<Response<FactoryMsg>, ContractError>,
) -> bool {
    if sender != pre.config.owner@ {
        r == Err::<Response<FactoryMsg>, ContractError>(ContractError::Unauthorized) && post == pre
    } else if owner is Some && checks.owner is Err {
        r == Err::<Response<FactoryMsg>, ContractError>(ContractError::Std(StdFailure::Host(checks.owner->Err_0)))
            && post == pre
    } else if skip_relayer_addr is Some && checks.skip_relayer_addr is Err {
        r == Err::<Response<FactoryMsg>, ContractError>(
            ContractError::Std(StdFailure::Host(checks.skip_relayer_addr->Err_0)),
        ) && post == pre
    } else if skip_entrypoint_addr is Some && checks.skip_entrypoint_addr is Err {
        r == Err::<Response<FactoryMsg>, ContractError>(
            ContractError::Std(StdFailure::Host(checks.skip_entrypoint_addr->Err_0)),
        ) && post == pre
    } else {
        r matches Ok(resp) && {
            let config = FactoryConfig {
                owner: match owner { Some(o) => o, None => pre.config.owner },
                forwarder_code_id: match forwarder_code_id { Some(c) => c, None => pre.config.forwarder_code_id },
                skip_relayer_addr: match skip_relayer_addr { Some(a) => a, None => pre.config.skip_relayer_addr },
                skip_entrypoint_addr: match skip_entrypoint_addr {
                    Some(a) => a,
                    None => pre.config.skip_entrypoint_addr,
                },
            };
            &&& post == FactoryState { config, ..pre }
            &&& resp.messages@.len() == 0
            &&& attr_pairs(resp.attributes@) == seq![
                ("action"@, "update_config"@),
                ("owner"@, config.owner@),
                ("forwarder_code_id"@, dec(config.forwarder_code_id as nat)),
            ]
        }
    }
}

/// Updates the shared settings; `None` keeps a field as it is.
pub fn execute_update_config(
    state: &mut FactoryState,
    sender: &String,
    owner: Option<String>,
    forwarder_code_id: Option<u64>,
    skip_relayer_addr: Option<String>,
    skip_entrypoint_addr: Option<String>,
    checks: AddressChecks,
) -> (r: Result<Response<FactoryMsg>, ContractError>)
    requires
        old(state).wf(),
    ensures
        final(state).wf(),
        update_config_effect(
            *old(state),
            *final(state),
            sender@,
            owner,
            forwarder_code_id,
            skip_relayer_addr,
            skip_entrypoint_addr,
            checks,
            r,
        ),
{
    ensure_owner(&state.config, sender)?;
    if owner.is_some() {
        if let Err(e) = checks.owner {
            return Err(ContractError::Std(StdFailure::Host(e)));
        }
    }
    if skip_relayer_addr.is_some() {
        if let Err(e) = checks.skip_relayer_addr {
            return Err(ContractError::Std(StdFailure::Host(e)));
        }
    }
    if skip_entrypoint_addr.is_some() {
        if let Err(e) = checks.skip_entrypoint_addr {
            return Err(ContractError::Std(StdFailure::Host(e)));
        }
    }
    if let Some(o) = owner {
        state.config.owner = o;
    }
    if let Some(c) = forwarder_code_id {
        state.config.forwarder_code_id = c;
    }
    if let Some(a) = skip_relayer_addr {
        state.config.skip_relayer_addr = a;
    }
    if let Some(a) = skip_entrypoint_addr {
        state.config.skip_entrypoint_addr = a;
    }
    let mut resp = empty_response();
    resp.attributes.push(attr_lit("action", "update_config"));
    resp.attributes.push(attr("owner", copy_str(&state.config.owner)));
    resp.attributes.push(attr("forwarder_code_id", u128_to_string(state.config.forwarder_code_id as u128)));
    assert(attr_pairs(resp.attributes@) =~= seq![
        ("action"@, "update_config"@),
        ("owner"@, state.config.owner@),
        ("forwarder_code_id"@, dec(state.config.forwarder_code_id as nat)),
    ]);
    Ok(resp)
}

// ---------------------------------------------------------------- create forwarder

/// The label under which a forwarder is instantiated: `forwarder-` and its salt in hex.
pub open spec fn forwarder_label(salt: Seq<u8>) -> Seq<char> {
    "forwarder-"@ + hex_lower(salt)
}

/// What creating a forwarder does: refused (state unchanged) when the sender
/// is not the owner, the route already has a forwarder, or the prediction
/// failed; otherwise the creation is recorded as pending under the next reply
/// id and one instantiate2 message is sent, asking for a reply on success.
pub open spec fn create_forwarder_effect(
    pre: FactoryState,
    post: FactoryState,
    contract_addr: String,
    sender: Seq<char>,
    sender_addr: String,
    dest_chain: String,
    recipient_addr: String,
    predicted: Result<String, StdFailure>,
    r: Result<Response<FactoryMsg>, ContractError>,
) -> bool {
    let salt = route_salt(sender_addr@, dest_chain@, recipient_addr@);
    if sender != pre.config.owner@ {
        r == Err::<Response<FactoryMsg>, ContractError>(ContractError::Unauthorized) && post == pre
    } else if pre.has_forwarder(salt) {
        r == Err::<Response<FactoryMsg>, ContractError>(ContractError::ForwarderExists) && post == pre
    } else if predicted is Err {
        r == Err::<Response<FactoryMsg>, ContractError>(ContractError::Std(predicted->Err_0)) && post == pre
    } else {
        r matches Ok(resp) && {
            let id = pre.next_reply_id;
            let p = predicted->Ok_0;
            &&& post.config == pre.config
            &&& post.forwarders == pre.forwarders
            &&& post.next_reply_id == id + 1
            &&& post.pending@.len() == pre.pending@.len() + 1
            &&& post.pending@.take(pre.pending@.len() as int) == pre.pending@
            &&& post.pending@.last().reply_id == id
            &&& post.pending@.last().pending.salt@ == salt
            &&& post.pending@.last().pending.sender_addr == sender_addr
            &&& post.pending@.last().pending.recipient_addr == recipient_addr
            &&& post.pending@.last().pending.dest_chain == dest_chain
            &&& post.pending@.last().pending.predicted == p
            &&& resp.messages@.len() == 1
            &&& resp.messages@[0].id == id
            &&& resp.messages@[0].reply_on == ReplyOn::Success
            &&& resp.messages@[0].msg matches FactoryMsg::Instantiate2 { admin, code_id, label, msg, funds, salt: s } && {
                &&& admin == Some(contract_addr)
                &&& code_id == pre.config.forwarder_code_id
                &&& label@ == forwarder_label(salt)
                &&& msg == ForwarderInstantiateMsg { factory: contract_addr, sender_addr, recipient_addr, dest_chain }
                &&& funds@.len() == 0
                &&& s@ == salt
            }
            &&& attr_pairs(resp.attributes@) == seq![
                ("action"@, "create_forwarder"@),
                ("reply_id"@, dec(id as nat)),
                ("predicted"@, p@),
                ("sender_addr"@, sender_addr@),
                ("dest_chain"@, dest_chain@),
                ("recipient_addr"@, recipient_addr@),
                ("salt"@, hex_lower(salt)),
            ]
        }
    }
}

/// Creates the forwarder of a route with instantiate2 (the factory, at
/// `contract_addr`, is its admin). `predicted` is the predicted address of the
/// route's forwarder (see `predict_canonical_address`), or its error.
pub fn execute_create_forwarder(
    state: &mut FactoryState,
    contract_addr: &String,
    sender: &String,
    sender_addr: String,
    dest_chain: String,
    recipient_addr: String,
    predicted: Result<String, StdFailure>,
) -> (r: Result<Response<FactoryMsg>, ContractError>)
    requires
        old(state).wf(),
        old(state).next_reply_id < u64::MAX,
    ensures
        final(state).wf(),
        create_forwarder_effect(
            *old(state),
            *final(state),
            *contract_addr,
            sender@,
            sender_addr,
            dest_chain,
            recipient_addr,
            predicted,
            r,
        ),
{
    ensure_owner(&state.config, sender)?;
    let salt = make_salt(&sender_addr, &dest_chain, &recipient_addr);
    if state.forwarder_exists(salt.as_slice()) {
        return Err(ContractError::ForwarderExists);
    }
    let predicted = match predicted {
        Ok(p) => p,
        Err(e) => {
            return Err(ContractError::Std(e));
        },
    };
    let reply_id = state.next_reply_id;
    let salt_hex = hex_encode(salt.as_slice());
    let mut resp = empty_response();
    resp.attributes.push(attr_lit("action", "create_forwarder"));
    resp.attributes.push(attr("reply_id", u128_to_string(reply_id as u128)));
    resp.attributes.push(attr("predicted", copy_str(&predicted)));
    resp.attributes.push(attr("sender_addr", copy_str(&sender_addr)));
    resp.attributes.push(attr("dest_chain", copy_str(&dest_chain)));
    resp.attributes.push(attr("recipient_addr", copy_str(&recipient_addr)));
    resp.attributes.push(attr("salt", copy_str(&salt_hex)));
    let init = ForwarderInstantiateMsg {
        factory: copy_str(contract_addr),
        sender_addr: copy_str(&sender_addr),
        recipient_addr: copy_str(&recipient_addr),
        dest_chain: copy_str(&dest_chain),
    };
    let label = String::from_str("forwarder-").concat(salt_hex.as_str());
    let wasm = FactoryMsg::Instantiate2 {
        admin: Some(copy_str(contract_addr)),
        code_id: state.config.forwarder_code_id,
        label,
        msg: init,
        funds: Vec::new(),
        salt: vstd::slice::slice_to_vec(salt.as_slice()),
    };
    resp.messages.push(SubMsg { id: reply_id, msg: wasm, reply_on: ReplyOn::Success });
    let ghost attrs_expected = seq![
        ("action"@, "create_forwarder"@),
        ("reply_id"@, dec(reply_id as nat)),
        ("predicted"@, predicted@),
        ("sender_addr"@, sender_addr@),
        ("dest_chain"@, dest_chain@),
        ("recipient_addr"@, recipient_addr@),
        ("salt"@, hex_lower(salt@)),
    ];
    assert(attr_pairs(resp.attributes@) =~= attrs_expected);
    let ghost old_pending = state.pending@;
    state.pending.push(
        PendingEntry {
            reply_id,
            pending: PendingForwarder { salt, sender_addr, recipient_addr, dest_chain, predicted },
        },
    );
    state.next_reply_id = reply_id + 1;
    assert(state.pending@.take(old_pending.len() as int) =~= old_pending);
    Ok(resp)
}


// ---------------------------------------------------------------- reply

/// The contract address that the reply to creation `id` reports (`r` is
/// `Ok` with it), or the error that the reply gives before the host checks it.
pub open spec fn reply_address_outcome(
    state: FactoryState,
    id: u64,
    outcome: SubMsgOutcome,
    r: Result<String, ContractError>,
) -> bool {
    if !state.has_pending(id) {
        r == Err::<String, ContractError>(ContractError::PendingNotFound)
    } else {
        match outcome {
            SubMsgOutcome::Failure(e) => r == Err::<String, ContractError>(ContractError::Instantiate2(e)),
            SubMsgOutcome::Success { data: None } => r == Err::<String, ContractError>(
                ContractError::NoInstantiateData,
            ),
            SubMsgOutcome::Success { data: Some(d) } => match instantiate_reply_address(d@) {
                Ok(a) => r matches Ok(s) && s@ == a,
                Err(t) => r matches Err(ContractError::ParseReply(m)) && m@ == t,
            },
        }
    }
}

/// The contract address reported in the reply to creation `id`, which the
/// host must validate; or the error the reply gives before that.
pub fn reply_contract_address(state: &FactoryState, id: u64, outcome: &SubMsgOutcome) -> (r: Result<
    String,
    ContractError,
>)
    requires
        state.wf(),
    ensures
        reply_address_outcome(*state, id, *outcome, r),
{
    if state.find_pending(id).is_none() {
        return Err(ContractError::PendingNotFound);
    }
    let data = match outcome {
        SubMsgOutcome::Success { data: Some(d) } => d,
        SubMsgOutcome::Success { data: None } => {
            return Err(ContractError::NoInstantiateData);
        },
        SubMsgOutcome::Failure(e) => {
            return Err(ContractError::Instantiate2(copy_str(e)));
        },
    };
    match parse_instantiate_reply(data.as_slice()) {
        Ok(a) => Ok(a),
        Err(t) => Err(ContractError::ParseReply(t)),
    }
}

/// The registry entry recorded for a confirmed pending creation.
pub open spec fn confirmed_entry(p: PendingForwarder, height: u64) -> ForwarderEntry {
    ForwarderEntry {
        salt: p.salt,
        record: ForwarderRecord {
            address: p.predicted,
            sender_addr: p.sender_addr,
            recipient_addr: p.recipient_addr,
            dest_chain: p.dest_chain,
            created_height: height,
        },
    }
}

/// What the reply to creation `id` does: refused (state unchanged) as
/// `reply_address_outcome` says, or when the host refuses the reported
/// address, or when it differs from the prediction; otherwise the forwarder is
/// registered under its salt at the predicted address and the creation is no
/// longer pending.
pub open spec fn reply_effect(
    pre: FactoryState,
    post: FactoryState,
    id: u64,
    outcome: SubMsgOutcome,
    address_check: Result<(), cosmwasm_std::StdError>,
    height: u64,
    r: Result<Response<FactoryMsg>, ContractError>,
) -> bool {
    let i = pre.pending_index(id);
    let p = pre.pending@[i].pending;
    if !pre.has_pending(id) {
        post == pre && r == Err::<Response<FactoryMsg>, ContractError>(ContractError::PendingNotFound)
    } else {
        match outcome {
            SubMsgOutcome::Failure(e) => post == pre && r == Err::<Response<FactoryMsg>, ContractError>(
                ContractError::Instantiate2(e),
            ),
            SubMsgOutcome::Success { data: None } => post == pre && r == Err::<Response<FactoryMsg>, ContractError>(
                ContractError::NoInstantiateData,
            ),
            SubMsgOutcome::Success { data: Some(d) } => match instantiate_reply_address(d@) {
                Err(t) => post == pre && (r matches Err(ContractError::ParseReply(m)) && m@ == t),
                Ok(actual) => if address_check is Err {
                    post == pre && r == Err::<Response<FactoryMsg>, ContractError>(
                        ContractError::Std(StdFailure::Host(address_check->Err_0)),
                    )
                } else if actual != p.predicted@ {
                    post == pre && (r matches Err(ContractError::AddressMismatch { predicted, actual: a })
                        && predicted == p.predicted && a@ == actual)
                } else {
                    r matches Ok(resp) && {
                        &&& post.config == pre.config
                        &&& post.next_reply_id == pre.next_reply_id
                        &&& post.forwarders@ == registry_insert(pre.forwarders@, confirmed_entry(p, height))
                        &&& post.pending@ == pre.pending@.remove(i)
                        &&& resp.messages@.len() == 0
                        &&& attr_pairs(resp.attributes@) == seq![
                            ("action"@, "create_forwarder_reply"@),
                            ("reply_id"@, dec(id as nat)),
                            ("forwarder"@, actual),
                            ("salt"@, hex_lower(p.salt@)),
                        ]
                    }
                },
            },
        }
    }
}

/// Handles the reply to creation `id` at block `height`. `address_check` is
/// the host's validation of the address that `reply_contract_address` reports.
pub fn reply(
    state: &mut FactoryState,
    id: u64,
    outcome: SubMsgOutcome,
    address_check: Result<(), cosmwasm_std::StdError>,
    height: u64,
) -> (r: Result<Response<FactoryMsg>, ContractError>)
    requires
        old(state).wf(),
    ensures
        final(state).wf(),
        reply_effect(*old(state), *final(state), id, outcome, address_check, height, r),
{
    let actual = match reply_contract_address(state, id, &outcome) {
        Ok(a) => a,
        Err(e) => {
            return Err(e);
        },
    };
    if let Err(e) = address_check {
        return Err(ContractError::Std(StdFailure::Host(e)));
    }
    let i = state.find_pending(id).unwrap();
    if !str_eq(&actual, &state.pending[i].pending.predicted) {
        return Err(
            ContractError::AddressMismatch { predicted: copy_str(&state.pending[i].pending.predicted), actual },
        );
    }
    let ghost pre = *state;
    let entry = state.pending.remove(i);
    let p = entry.pending;
    let salt_hex = hex_encode(p.salt.as_slice());
    let mut resp = empty_response();
    resp.attributes.push(attr_lit("action", "create_forwarder_reply"));
    resp.attributes.push(attr("reply_id", u128_to_string(id as u128)));
    resp.attributes.push(attr("forwarder", actual));
    resp.attributes.push(attr("salt", salt_hex));
    let ghost pv = p;
    let record = ForwarderRecord {
        address: p.predicted,
        sender_addr: p.sender_addr,
        recipient_addr: p.recipient_addr,
        dest_chain: p.dest_chain,
        created_height: height,
    };
    save_forwarder(&mut state.forwarders, ForwarderEntry { salt: p.salt, record });
    proof {
        assert(confirmed_entry(pv, height) == ForwarderEntry { salt: pv.salt, record: ForwarderRecord {
            address: pv.predicted,
            sender_addr: pv.sender_addr,
            recipient_addr: pv.recipient_addr,
            dest_chain: pv.dest_chain,
            created_height: height,
        } });
        assert forall|a: int, b: int| 0 <= a < b < state.pending@.len() implies #[trigger] state.pending@[a].reply_id
            != #[trigger] state.pending@[b].reply_id by {
            let a0 = if a < i { a } else { a + 1 };
            let b0 = if b < i { b } else { b + 1 };
            assert(state.pending@[a] == pre.pending@[a0]);
            assert(state.pending@[b] == pre.pending@[b0]);
        }
        assert forall|a: int| 0 <= a < state.pending@.len() implies #[trigger] state.pending@[a].reply_id
            < state.next_reply_id by {
            let a0 = if a < i { a } else { a + 1 };
            assert(state.pending@[a] == pre.pending@[a0]);
        }
    }
    assert(attr_pairs(resp.attributes@) =~= seq![
        ("action"@, "create_forwarder_reply"@),
        ("reply_id"@, dec(id as nat)),
        ("forwarder"@, pv.predicted@),
        ("salt"@, hex_lower(pv.salt@)),
    ]);
    Ok(resp)
}


// ---------------------------------------------------------------- migrate

/// Migrates the factory to `new_version`. `stored` is the version record
/// that cw2 holds; it must name this contract.
pub fn migrate(stored: &ContractVersion, new_version: &str, _msg: MigrateMsg) -> (r: Result<
    Response<FactoryMsg>,
    ContractError,
>)
    ensures
        if stored.contract@ != CONTRACT_NAME@ {
            r matches Err(ContractError::Std(StdFailure::Generic { msg })) && msg@ == "unexpected contract name: "@
                + stored.contract@
        } else {
            r matches Ok(resp) && resp.messages@.len() == 0 && attr_pairs(resp.attributes@) == seq![
                ("action"@, "migrate"@),
                ("from_version"@, stored.version@),
                ("to_version"@, new_version@),
            ]
        },
{
    let name = String::from_str(CONTRACT_NAME);
    if !str_eq(&stored.contract, &name) {
        let msg = String::from_str("unexpected contract name: ").concat(stored.contract.as_str());
        return Err(ContractError::Std(StdFailure::Generic { msg }));
    }
    let mut resp = empty_response();
    resp.attributes.push(attr_lit("action", "migrate"));
    resp.attributes.push(attr("from_version", copy_str(&stored.version)));
    resp.attributes.push(attr_lit("to_version", new_version));
    assert(attr_pairs(resp.attributes@) =~= seq![
        ("action"@, "migrate"@),
        ("from_version"@, stored.version@),
        ("to_version"@, new_version@),
    ]);
    Ok(resp)
}

// ---------------------------------------------------------------- queries

/// The shared settings as every forwarder reads them.
pub open spec fn config_response_of(c: FactoryConfig) -> FactoryConfigResponse {
    FactoryConfigResponse {
        owner: c.owner,
        forwarder_code_id: c.forwarder_code_id,
        skip_relayer_addr: c.skip_relayer_addr,
        skip_entrypoint_addr: c.skip_entrypoint_addr,
    }
}

/// Answers `QueryMsg::Config`.
pub fn query_config(state: &FactoryState) -> (r: FactoryConfigResponse)
    ensures
        r == config_response_of(state.config),
{
    FactoryConfigResponse {
        owner: copy_str(&state.config.owner),
        forwarder_code_id: state.config.forwarder_code_id,
        skip_relayer_addr: copy_str(&state.config.skip_relayer_addr),
        skip_entrypoint_addr: copy_str(&state.config.skip_entrypoint_addr),
    }
}

/// Answers `QueryMsg::ForwarderAddress`: the predicted address of the route's
/// forwarder (`predicted`, see `predict_canonical_address`) and whether it has
/// been created.
pub fn query_forwarder_address(
    state: &FactoryState,
    sender_addr: &String,
    dest_chain: &String,
    recipient_addr: &String,
    predicted: Result<String, StdFailure>,
) -> (r: Result<ForwarderAddressResponse, StdFailure>)
    ensures
        match predicted {
            Err(e) => r == Err::<ForwarderAddressResponse, StdFailure>(e),
            Ok(p) => r == Ok::<ForwarderAddressResponse, StdFailure>(
                ForwarderAddressResponse {
                    address: p,
                    exists: state.has_forwarder(route_salt(sender_addr@, dest_chain@, recipient_addr@)),
                },
            ),
        },
{
    let salt = make_salt(sender_addr, dest_chain, recipient_addr);
    let address = match predicted {
        Ok(p) => p,
        Err(e) => {
            return Err(e);
        },
    };
    let exists = state.forwarder_exists(salt.as_slice());
    Ok(ForwarderAddressResponse { address, exists })
}

/// The salt after which a page starts: the hex-decoded `start_after`, none
/// where it is absent or not hex.
pub open spec fn start_key(start_after: Option<String>) -> Option<Seq<u8>> {
    match start_after {
        Some(s) => hex_decoded(encode_utf8(s@)),
        None => None,
    }
}

/// `f` is the first registry position whose salt sorts after `start`.
pub open spec fn is_page_start(fw: Seq<ForwarderEntry>, start: Seq<u8>, f: int) -> bool {
    &&& 0 <= f <= fw.len()
    &&& forall|i: int| 0 <= i < f ==> !bytes_lt(start, #[trigger] fw[i].salt@)
    &&& forall|i: int| f <= i < fw.len() ==> bytes_lt(start, #[trigger] fw[i].salt@)
}

/// The first registry position a page lists.
pub open spec fn page_from(fw: Seq<ForwarderEntry>, start: Option<Seq<u8>>) -> int {
    match start {
        None => 0,
        Some(k) => choose|f: int| is_page_start(fw, k, f),
    }
}

/// A registry entry as it is listed.
pub open spec fn info_of(e: ForwarderEntry) -> ForwarderInfo {
    ForwarderInfo {
        address: e.record.address,
        sender_addr: e.record.sender_addr,
        recipient_addr: e.record.recipient_addr,
        dest_chain: e.record.dest_chain,
        created_height: e.record.created_height,
    }
}

/// `page` lists, in ascending salt order, the first `page_limit(limit)`
/// forwarders whose salt sorts after the decoded `start_after`.
pub open spec fn forwarders_page(
    state: FactoryState,
    start_after: Option<String>,
    limit: Option<u32>,
    page: Seq<ForwarderInfo>,
) -> bool {
    let from = page_from(state.forwarders@, start_key(start_after));
    let n = min_nat((state.forwarders@.len() - from) as nat, page_limit(limit));
    &&& page.len() == n
    &&& forall|k: int| 0 <= k < n ==> #[trigger] page[k] == info_of(state.forwarders@[from + k])
}

/// In a sorted registry every key has a place where the page after it starts.
proof fn lemma_page_start_exists(fw: Seq<ForwarderEntry>, key: Seq<u8>)
    requires
        registry_sorted(fw),
    ensures
        exists|f: int| is_page_start(fw, key, f),
    decreases fw.len(),
{
    if fw.len() == 0 {
        assert(is_page_start(fw, key, 0));
    } else {
        let init = fw.drop_last();
        let n = init.len() as int;
        assert forall|i: int, j: int| 0 <= i < j < init.len() implies bytes_lt(
            #[trigger] init[i].salt@,
            #[trigger] init[j].salt@,
        ) by {
            assert(init[i] == fw[i] && init[j] == fw[j]);
        }
        lemma_page_start_exists(init, key);
        let f = choose|f: int| is_page_start(init, key, f);
        if f < n {
            assert(bytes_lt(key, init[f].salt@));
            assert(bytes_lt(fw[f].salt@, fw[n].salt@));
            lemma_bytes_lt_transitive(key, fw[f].salt@, fw[n].salt@);
            assert forall|i: int| f <= i < fw.len() implies bytes_lt(key, #[trigger] fw[i].salt@) by {
                if i < n {
                    assert(init[i] == fw[i]);
                }
            }
            assert forall|i: int| 0 <= i < f implies !bytes_lt(key, #[trigger] fw[i].salt@) by {
                assert(init[i] == fw[i]);
            }
            assert(is_page_start(fw, key, f));
        } else if bytes_lt(key, fw[n].salt@) {
            assert forall|i: int| 0 <= i < f implies !bytes_lt(key, #[trigger] fw[i].salt@) by {
                assert(init[i] == fw[i]);
            }
            assert(is_page_start(fw, key, f));
        } else {
            assert forall|i: int| 0 <= i < f + 1 implies !bytes_lt(key, #[trigger] fw[i].salt@) by {
                if i < n {
                    assert(init[i] == fw[i]);
                }
            }
            assert(is_page_start(fw, key, f + 1));
        }
    }
}

/// The two places a page could start coincide.
proof fn lemma_page_start_unique(fw: Seq<ForwarderEntry>, start: Seq<u8>, f: int, g: int)
    requires
        is_page_start(fw, start, f),
        is_page_start(fw, start, g),
    ensures
        f == g,
{
    if f < g {
        assert(bytes_lt(start, fw[f].salt@));
    } else if g < f {
        assert(bytes_lt(start, fw[g].salt@));
    }
}

/// Answers `QueryMsg::Forwarders`.
pub fn query_forwarders(state: &FactoryState, start_after: Option<String>, limit: Option<u32>) -> (r:
    ForwardersResponse)
    requires
        state.wf(),
    ensures
        forwarders_page(*state, start_after, limit, r.forwarders@),
{
    let lim: usize = match limit {
        Some(l) => if l > MAX_LIMIT { MAX_LIMIT as usize } else { l as usize },
        None => DEFAULT_LIMIT as usize,
    };
    let start: Option<Vec<u8>> = match &start_after {
        Some(s) => hex_decode(s.as_str().as_bytes()),
        None => None,
    };
    let ghost fw = state.forwarders@;
    let len = state.forwarders.len();
    let mut from: usize = 0;
    match &start {
        Some(k) => {
            while from < len && !bytes_less(k.as_slice(), state.forwarders[from].salt.as_slice())
                invariant
                    fw == state.forwarders@,
                    len == fw.len(),
                    from <= len,
                    forall|i: int| 0 <= i < from ==> !bytes_lt(k@, #[trigger] fw[i].salt@),
                decreases len - from,
            {
                from = from + 1;
            }
            proof {
                assert forall|i: int| from <= i < fw.len() implies bytes_lt(k@, #[trigger] fw[i].salt@) by {
                    if i > from {
                        lemma_bytes_lt_transitive(k@, fw[from as int].salt@, fw[i].salt@);
                    }
                }
                assert(is_page_start(fw, k@, from as int));
                let c = choose|f: int| is_page_start(fw, k@, f);
                lemma_page_start_unique(fw, k@, from as int, c);
            }
        },
        None => {},
    }
    assert(from == page_from(fw, start_key(start_after)));
    let mut out: Vec<ForwarderInfo> = Vec::new();
    let mut n: usize = 0;
    while from + n < len && n < lim
        invariant
            fw == state.forwarders@,
            len == fw.len(),
            from <= len,
            from + n <= len,
            n <= lim,
            lim == page_limit(limit),
            out@.len() == n,
            forall|k: int| 0 <= k < n ==> #[trigger] out@[k] == info_of(fw[from + k]),
        decreases len - n,
    {
        let e = &state.forwarders[from + n];
        out.push(
            ForwarderInfo {
                address: copy_str(&e.record.address),
                sender_addr: copy_str(&e.record.sender_addr),
                recipient_addr: copy_str(&e.record.recipient_addr),
                dest_chain: copy_str(&e.record.dest_chain),
                created_height: e.record.created_height,
            },
        );
        n = n + 1;
    }
    ForwardersResponse { forwarders: out }
}

/// Answers a query. `predicted` is the predicted address of the route that a
/// `ForwarderAddress` query names (read by that query only).
pub fn query(state: &FactoryState, msg: QueryMsg, predicted: Result<String, StdFailure>) -> (r: Result<
    QueryAnswer,
    StdFailure,
>)
    requires
        state.wf(),
    ensures
        match msg {
            QueryMsg::Config {} => r == Ok::<QueryAnswer, StdFailure>(QueryAnswer::Config(config_response_of(state.config))),
            QueryMsg::ForwarderAddress { sender_addr, dest_chain, recipient_addr } => match predicted {
                Err(e) => r == Err::<QueryAnswer, StdFailure>(e),
                Ok(p) => r == Ok::<QueryAnswer, StdFailure>(
                    QueryAnswer::ForwarderAddress(
                        ForwarderAddressResponse {
                            address: p,
                            exists: state.has_forwarder(route_salt(sender_addr@, dest_chain@, recipient_addr@)),
                        },
                    ),
                ),
            },
            QueryMsg::Forwarders { start_after, limit } => r matches Ok(QueryAnswer::Forwarders(page))
                && forwarders_page(*state, start_after, limit, page.forwarders@),
        },
{
    match msg {
        QueryMsg::Config {} => Ok(QueryAnswer::Config(query_config(state))),
        QueryMsg::ForwarderAddress { sender_addr, dest_chain, recipient_addr } => {
            let a = query_forwarder_address(state, &sender_addr, &dest_chain, &recipient_addr, predicted)?;
            Ok(QueryAnswer::ForwarderAddress(a))
        },
        QueryMsg::Forwarders { start_after, limit } => Ok(
            QueryAnswer::Forwarders(query_forwarders(state, start_after, limit)),
        ),
    }
}

// ---------------------------------------------------------------- dispatch

/// What executing `msg` does, message by message.
pub open spec fn execute_effect(
    pre: FactoryState,
    post: FactoryState,
    contract_addr: String,
    sender: Seq<char>,
    msg: ExecuteMsg,
    predicted: Result<String, StdFailure>,
    checks: AddressChecks,
    r: Result<Response<FactoryMsg>, ContractError>,
) -> bool {
    match msg {
        ExecuteMsg::CreateForwarder { sender_addr, dest_chain, recipient_addr } => create_forwarder_effect(
            pre,
            post,
            contract_addr,
            sender,
            sender_addr,
            dest_chain,
            recipient_addr,
            predicted,
            r,
        ),
        ExecuteMsg::UpdateConfig { owner, forwarder_code_id, skip_relayer_addr, skip_entrypoint_addr } =>
            update_config_effect(
            pre,
            post,
            sender,
            owner,
            forwarder_code_id,
            skip_relayer_addr,
            skip_entrypoint_addr,
            checks,
            r,
        ),
    }
}

/// Executes `msg` sent by `sender` to the factory at `contract_addr`.
/// `predicted` is the predicted address of the route that `CreateForwarder`
/// names (read by it only); `checks` the host's validation of the addresses
/// that `UpdateConfig` names (read by it only).
pub fn execute(
    state: &mut FactoryState,
    contract_addr: &String,
    sender: &String,
    msg: ExecuteMsg,
    predicted: Result<String, StdFailure>,
    checks: AddressChecks,
) -> (r: Result<Response<FactoryMsg>, ContractError>)
    requires
        old(state).wf(),
        msg is CreateForwarder ==> old(state).next_reply_id < u64::MAX,
    ensures
        final(state).wf(),
        execute_effect(*old(state), *final(state), *contract_addr, sender@, msg, predicted, checks, r),
{
    match msg {
        ExecuteMsg::CreateForwarder { sender_addr, dest_chain, recipient_addr } => execute_create_forwarder(
            state,
            contract_addr,
            sender,
            sender_addr,
            dest_chain,
            recipient_addr,
            predicted,
        ),
        ExecuteMsg::UpdateConfig { owner, forwarder_code_id, skip_relayer_addr, skip_entrypoint_addr } =>
            execute_update_config(
            state,
            sender,
            owner,
            forwarder_code_id,
            skip_relayer_addr,
            skip_entrypoint_addr,
            checks,
        ),
    }
}


// ---------------------------------------------------------------- laws

/// For a sorted registry, every key has a place.
pub proof fn lemma_insert_position_exists(fw: Seq<ForwarderEntry>, key: Seq<u8>)
    requires
        registry_sorted(fw),
    ensures
        exists|p: int| insert_position(fw, key, p),
    decreases fw.len(),
{
    if fw.len() == 0 {
        assert(insert_position(fw, key, 0));
    } else {
        let init = fw.drop_last();
        assert(registry_sorted(init)) by {
            assert forall|i: int, j: int| 0 <= i < j < init.len() implies bytes_lt(
                #[trigger] init[i].salt@,
                #[trigger] init[j].salt@,
            ) by {
                assert(init[i] == fw[i] && init[j] == fw[j]);
            }
        }
        lemma_insert_position_exists(init, key);
        let q = choose|p: int| insert_position(init, key, p);
        let last = fw.len() - 1;
        if bytes_lt(fw[last].salt@, key) {
            assert forall|i: int| 0 <= i < fw.len() implies bytes_lt(#[trigger] fw[i].salt@, key) by {
                if i < last {
                    lemma_bytes_lt_transitive(fw[i].salt@, fw[last].salt@, key);
                }
            }
            assert(insert_position(fw, key, fw.len() as int));
        } else {
            assert forall|i: int| 0 <= i < q implies bytes_lt(#[trigger] fw[i].salt@, key) by {
                assert(init[i] == fw[i]);
            }
            assert forall|i: int| q <= i < fw.len() implies !bytes_lt(#[trigger] fw[i].salt@, key) by {
                if i < last {
                    assert(init[i] == fw[i]);
                }
            }
            assert(insert_position(fw, key, q));
        }
    }
}

/// Saving an entry registers its salt.
pub proof fn lemma_registry_insert_holds_entry(fw: Seq<ForwarderEntry>, entry: ForwarderEntry)
    requires
        registry_sorted(fw),
    ensures
        exists|i: int| 0 <= i < registry_insert(fw, entry).len() && #[trigger] registry_insert(fw, entry)[i] == entry,
{
    lemma_insert_position_exists(fw, entry.salt@);
    let p = choose|p: int| insert_position(fw, entry.salt@, p);
    assert(registry_insert(fw, entry)[p] == entry);
}

/// A number below 2^32 is the sum of its four base-256 digits.
proof fn lemma_be32_digits(m: nat)
    by (nonlinear_arith)
    requires
        m < 4294967296,
    ensures
        m == (m / 16777216) * 16777216 + ((m / 65536) % 256) * 65536 + ((m / 256) % 256) * 256 + m % 256,
        m / 16777216 < 256,
{
}

/// The bytes of a four-byte big-endian length give back the length.
proof fn lemma_be32_injective(m: nat, n: nat)
    requires
        m < 4294967296,
        n < 4294967296,
        be32(m) == be32(n),
    ensures
        m == n,
{
    lemma_be32_digits(m);
    lemma_be32_digits(n);
    let (m0, m1, m2, m3) = (m / 16777216, (m / 65536) % 256, (m / 256) % 256, m % 256);
    let (n0, n1, n2, n3) = (n / 16777216, (n / 65536) % 256, (n / 256) % 256, n % 256);
    assert(m % 4294967296 == m);
    assert(n % 4294967296 == n);
    assert(be32(m)[0] == m0 as u8 && be32(n)[0] == n0 as u8);
    assert(be32(m)[1] == m1 as u8 && be32(n)[1] == n1 as u8);
    assert(be32(m)[2] == m2 as u8 && be32(n)[2] == n2 as u8);
    assert(be32(m)[3] == m3 as u8 && be32(n)[3] == n3 as u8);
    assert(m0 == n0);
    assert(m1 == n1);
    assert(m2 == n2);
    assert(m3 == n3);
}

/// A framed field can be read back from the front of what follows it.
proof fn lemma_framed_prefix(a: Seq<u8>, x: Seq<u8>, b: Seq<u8>, y: Seq<u8>)
    requires
        a.len() < 4294967296,
        b.len() < 4294967296,
        framed(a) + x == framed(b) + y,
    ensures
        a == b,
        x == y,
{
    let l = framed(a) + x;
    let r = framed(b) + y;
    assert(be32(a.len()) =~= l.subrange(0, 4));
    assert(be32(b.len()) =~= r.subrange(0, 4));
    lemma_be32_injective(a.len(), b.len());
    assert(a =~= l.subrange(4, 4 + a.len() as int));
    assert(b =~= r.subrange(4, 4 + b.len() as int));
    assert(x =~= l.subrange(4 + a.len() as int, l.len() as int));
    assert(y =~= r.subrange(4 + b.len() as int, r.len() as int));
}

/// Length-prefixing makes the salt's preimage determine the route: two routes
/// whose fields are each under 2^32 bytes long share a preimage only if they
/// are the same route.
pub proof fn route_preimage_is_injective(
    s1: Seq<char>,
    d1: Seq<char>,
    r1: Seq<char>,
    s2: Seq<char>,
    d2: Seq<char>,
    r2: Seq<char>,
)
    requires
        encode_utf8(s1).len() < 4294967296,
        encode_utf8(d1).len() < 4294967296,
        encode_utf8(r1).len() < 4294967296,
        encode_utf8(s2).len() < 4294967296,
        encode_utf8(d2).len() < 4294967296,
        encode_utf8(r2).len() < 4294967296,
        salt_preimage(s1, d1, r1) == salt_preimage(s2, d2, r2),
    ensures
        s1 == s2,
        d1 == d2,
        r1 == r2,
{
    let (e1, f1, g1) = (encode_utf8(s1), encode_utf8(d1), encode_utf8(r1));
    let (e2, f2, g2) = (encode_utf8(s2), encode_utf8(d2), encode_utf8(r2));
    assert(salt_preimage(s1, d1, r1) =~= framed(e1) + (framed(f1) + framed(g1)));
    assert(salt_preimage(s2, d2, r2) =~= framed(e2) + (framed(f2) + framed(g2)));
    lemma_framed_prefix(e1, framed(f1) + framed(g1), e2, framed(f2) + framed(g2));
    lemma_framed_prefix(f1, framed(g1), f2, framed(g2));
    assert(framed(g1) + Seq::<u8>::empty() =~= framed(g1));
    assert(framed(g2) + Seq::<u8>::empty() =~= framed(g2));
    lemma_framed_prefix(g1, Seq::<u8>::empty(), g2, Seq::<u8>::empty());
    encode_utf8_decode_utf8(s1);
    encode_utf8_decode_utf8(s2);
    encode_utf8_decode_utf8(d1);
    encode_utf8_decode_utf8(d2);
    encode_utf8_decode_utf8(r1);
    encode_utf8_decode_utf8(r2);
}

/// The instantiate2 guarantee: once the owner's creation of a route's
/// forwarder is confirmed by its reply, the forwarder is registered under the
/// route's salt at exactly the predicted address, the address query for the
/// route reports that it exists, and creating it again is refused.
pub proof fn confirmed_creation_registers_predicted_address(
    s0: FactoryState,
    s1: FactoryState,
    s2: FactoryState,
    contract_addr: String,
    sender: Seq<char>,
    sender_addr: String,
    dest_chain: String,
    recipient_addr: String,
    predicted: Result<String, StdFailure>,
    r1: Result<Response<FactoryMsg>, ContractError>,
    outcome: SubMsgOutcome,
    address_check: Result<(), cosmwasm_std::StdError>,
    height: u64,
    r2: Result<Response<FactoryMsg>, ContractError>,
    again: Result<String, StdFailure>,
    r3: Result<Response<FactoryMsg>, ContractError>,
    s3: FactoryState,
)
    requires
        s0.wf(),
        s1.wf(),
        create_forwarder_effect(s0, s1, contract_addr, sender, sender_addr, dest_chain, recipient_addr, predicted, r1),
        r1 is Ok,
        reply_effect(s1, s2, s0.next_reply_id, outcome, address_check, height, r2),
        r2 is Ok,
        create_forwarder_effect(s2, s3, contract_addr, sender, sender_addr, dest_chain, recipient_addr, again, r3),
    ensures
        exists|i: int|
            0 <= i < s2.forwarders@.len() && #[trigger] s2.forwarders@[i].salt@ == route_salt(
                sender_addr@,
                dest_chain@,
                recipient_addr@,
            ) && s2.forwarders@[i].record.address == predicted->Ok_0,
        s2.has_forwarder(route_salt(sender_addr@, dest_chain@, recipient_addr@)),
        r3 == Err::<Response<FactoryMsg>, ContractError>(ContractError::ForwarderExists),
{
    let id = s0.next_reply_id;
    let last = s1.pending@.len() - 1;
    assert(s1.pending_at(id, last));
    let k = s1.pending_index(id);
    if k != last {
        if k < last {
            assert(s1.pending@[k].reply_id != s1.pending@[last].reply_id);
        } else {
            assert(s1.pending@[last].reply_id != s1.pending@[k].reply_id);
        }
    }
    let entry = confirmed_entry(s1.pending@[k].pending, height);
    lemma_registry_insert_holds_entry(s1.forwarders@, entry);
    let i = choose|i: int|
        0 <= i < registry_insert(s1.forwarders@, entry).len() && #[trigger] registry_insert(s1.forwarders@, entry)[i]
            == entry;
    assert(s2.forwarders@[i] == entry);
    assert(s2.config == s0.config);
}

/// A reply changes the registry only by saving the confirmed forwarder: every
/// forwarder registered before is still registered under the same salt.
pub proof fn reply_keeps_registered_forwarders(
    pre: FactoryState,
    post: FactoryState,
    id: u64,
    outcome: SubMsgOutcome,
    address_check: Result<(), cosmwasm_std::StdError>,
    height: u64,
    r: Result<Response<FactoryMsg>, ContractError>,
    salt: Seq<u8>,
)
    requires
        pre.wf(),
        reply_effect(pre, post, id, outcome, address_check, height, r),
        pre.has_forwarder(salt),
    ensures
        post.has_forwarder(salt),
{
    if r is Ok {
        let entry = confirmed_entry(pre.pending@[pre.pending_index(id)].pending, height);
        let fw = pre.forwarders@;
        lemma_insert_position_exists(fw, entry.salt@);
        let p = choose|p: int| insert_position(fw, entry.salt@, p);
        let j = choose|j: int| 0 <= j < fw.len() && #[trigger] fw[j].salt@ == salt;
        if p < fw.len() && fw[p].salt@ == entry.salt@ {
            if j == p {
                assert(post.forwarders@[p].salt@ == salt);
            } else {
                assert(post.forwarders@[j] == fw[j]);
            }
        } else {
            if j < p {
                assert(post.forwarders@[j] == fw[j]);
            } else {
                assert(post.forwarders@[j + 1] == fw[j]);
            }
        }
    }
}

/// Pages of forwarders chain: handing back as `start_after` the hex-encoded
/// salt of the last forwarder a page listed gives the page that continues
/// right after it, in salt order.
pub proof fn forwarder_pages_chain(
    state: FactoryState,
    start_after: Option<String>,
    limit: Option<u32>,
    page: Seq<ForwarderInfo>,
    next_start: String,
    next_limit: Option<u32>,
    next_page: Seq<ForwarderInfo>,
)
    requires
        state.wf(),
        forwarders_page(state, start_after, limit, page),
        page.len() > 0,
        next_start@ == hex_lower(
            state.forwarders@[page_from(state.forwarders@, start_key(start_after)) + page.len() - 1].salt@,
        ),
        forwarders_page(state, Some(next_start), next_limit, next_page),
    ensures
        ({
            let after = page_from(state.forwarders@, start_key(start_after)) + page.len();
            &&& next_page.len() == min_nat((state.forwarders@.len() - after) as nat, page_limit(next_limit))
            &&& forall|k: int| 0 <= k < next_page.len() ==> #[trigger] next_page[k] == info_of(
                state.forwarders@[after + k],
            )
        }),
{
    let fw = state.forwarders@;
    let from = page_from(fw, start_key(start_after));
    if let Some(k) = start_key(start_after) {
        lemma_page_start_exists(fw, k);
    }
    assert(0 <= from <= fw.len());
    let last = from + page.len() - 1;
    assert(last < fw.len());
    let key = fw[last].salt@;
    lemma_hex_lower_decodes(key);
    assert(start_key(Some(next_start)) == Some(key));
    lemma_page_after(fw, last);
}

/// The page after the salt of the entry at `idx` starts right after it.
proof fn lemma_page_after(fw: Seq<ForwarderEntry>, idx: int)
    requires
        registry_sorted(fw),
        0 <= idx < fw.len(),
    ensures
        page_from(fw, Some(fw[idx].salt@)) == idx + 1,
{
    let key = fw[idx].salt@;
    assert forall|i: int| 0 <= i < idx + 1 implies !bytes_lt(key, #[trigger] fw[i].salt@) by {
        if i == idx {
            lemma_bytes_lt_irreflexive(key);
        } else {
            lemma_bytes_lt_total(fw[i].salt@, key);
        }
    }
    assert(is_page_start(fw, key, idx + 1));
    let c = choose|f: int| is_page_start(fw, key, f);
    lemma_page_start_unique(fw, key, idx + 1, c);
}

/// Every registry entry is saved under the salt of its own route.
pub open spec fn salted_by_route(state: FactoryState) -> bool {
    forall|i: int|
        0 <= i < state.forwarders@.len() ==> #[trigger] state.forwarders@[i].salt@ == route_salt(
            state.forwarders@[i].record.sender_addr@,
            state.forwarders@[i].record.dest_chain@,
            state.forwarders@[i].record.recipient_addr@,
        )
}

/// The hex salt of the route of a listed forwarder.
pub open spec fn info_salt_hex(info: ForwarderInfo) -> Seq<char> {
    hex_lower(route_salt(info.sender_addr@, info.dest_chain@, info.recipient_addr@))
}

/// `pages` is a walk through the forwarders with `limit`: the first page has
/// no start, each later page starts after the hex salt of the route of the
/// last forwarder of the page before, every page but the last is full, and the
/// last is not.
pub open spec fn page_walk(
    state: FactoryState,
    limit: Option<u32>,
    starts: Seq<Option<String>>,
    pages: Seq<Seq<ForwarderInfo>>,
) -> bool {
    &&& pages.len() > 0
    &&& starts.len() == pages.len()
    &&& starts[0] is None
    &&& forall|k: int| 0 <= k < pages.len() ==> #[trigger] forwarders_page(state, starts[k], limit, pages[k])
    &&& forall|k: int|
        0 <= k < pages.len() - 1 ==> #[trigger] pages[k].len() == page_limit(limit) && (starts[k + 1] matches Some(
            s,
        ) && s@ == info_salt_hex(pages[k].last()))
    &&& pages.last().len() < page_limit(limit)
}

/// The pages of a walk from page `k` on list the registry from where page `k` starts.
proof fn lemma_walk_suffix(
    state: FactoryState,
    limit: Option<u32>,
    starts: Seq<Option<String>>,
    pages: Seq<Seq<ForwarderInfo>>,
    k: int,
)
    requires
        state.wf(),
        salted_by_route(state),
        page_walk(state, limit, starts, pages),
        0 <= k < pages.len(),
    ensures
        ({
            let fw = state.forwarders@;
            let f = page_from(fw, start_key(starts[k]));
            &&& 0 <= f <= fw.len()
            &&& pages.subrange(k, pages.len() as int).flatten() =~= Seq::new(
                (fw.len() - f) as nat,
                |i: int| info_of(fw[f + i]),
            )
        }),
    decreases pages.len() - k,
{
    let fw = state.forwarders@;
    let n = pages.len() as int;
    let f = page_from(fw, start_key(starts[k]));
    if let Some(key) = start_key(starts[k]) {
        lemma_page_start_exists(fw, key);
    }
    assert(forwarders_page(state, starts[k], limit, pages[k]));
    let rest = pages.subrange(k, n);
    assert(rest.first() == pages[k]);
    assert(rest.drop_first() =~= pages.subrange(k + 1, n));
    if k == n - 1 {
        assert(pages.subrange(k + 1, n).flatten() =~= Seq::<ForwarderInfo>::empty());
        assert(rest.flatten() =~= pages[k] + Seq::<ForwarderInfo>::empty());
    } else {
        assert(pages[k].len() == page_limit(limit) && (starts[k + 1] matches Some(s) && s@ == info_salt_hex(
            pages[k].last(),
        )));
        let len = pages[k].len() as int;
        let last = f + len - 1;
        let s = starts[k + 1]->Some_0;
        assert(pages[k].last() == pages[k][len - 1]);
        assert(pages[k][len - 1] == info_of(fw[last]));
        assert(fw[last].salt@ == route_salt(
            fw[last].record.sender_addr@,
            fw[last].record.dest_chain@,
            fw[last].record.recipient_addr@,
        ));
        lemma_hex_lower_decodes(fw[last].salt@);
        assert(start_key(starts[k + 1]) == Some(fw[last].salt@));
        lemma_page_after(fw, last);
        lemma_walk_suffix(state, limit, starts, pages, k + 1);
        let tail = pages.subrange(k + 1, n).flatten();
        assert(rest.flatten() == pages[k] + tail);
        assert(pages[k] + tail =~= Seq::new((fw.len() - f) as nat, |i: int| info_of(fw[f + i])));
    }
}

/// Paging through every forwarder: a walk of pages that starts with no
/// `start_after`, hands back each time the hex salt of the route of the last
/// forwarder listed, and stops at the first page that is not full lists every
/// registered forwarder exactly once, in salt order (where each forwarder is
/// saved under the salt of its route).
pub proof fn forwarder_pages_cover_registry(
    state: FactoryState,
    limit: Option<u32>,
    starts: Seq<Option<String>>,
    pages: Seq<Seq<ForwarderInfo>>,
)
    requires
        state.wf(),
        salted_by_route(state),
        page_walk(state, limit, starts, pages),
    ensures
        pages.flatten() == Seq::new(state.forwarders@.len(), |i: int| info_of(state.forwarders@[i])),
{
    lemma_walk_suffix(state, limit, starts, pages, 0);
    assert(pages.subrange(0, pages.len() as int) =~= pages);
    assert(page_from(state.forwarders@, start_key(starts[0])) == 0);
}

/// Changing the shared settings leaves every created forwarder, every pending
/// creation and the next reply id as they were: a new code id only changes the
/// addresses predicted for forwarders created later.
pub proof fn settings_update_keeps_forwarders(
    pre: FactoryState,
    post: FactoryState,
    sender: Seq<char>,
    owner: Option<String>,
    forwarder_code_id: Option<u64>,
    skip_relayer_addr: Option<String>,
    skip_entrypoint_addr: Option<String>,
    checks: AddressChecks,
    r: Result<Response<FactoryMsg>, ContractError>,
)
    requires
        update_config_effect(
            pre,
            post,
            sender,
            owner,
            forwarder_code_id,
            skip_relayer_addr,
            skip_entrypoint_addr,
            checks,
            r,
        ),
    ensures
        post.forwarders == pre.forwarders,
        post.pending == pre.pending,
        post.next_reply_id == pre.next_reply_id,
{
}

/// One transaction of the factory: a message (accepted or refused) or a reply.
pub open spec fn factory_step(pre: FactoryState, post: FactoryState) -> bool {
    ||| exists|
        contract_addr: String,
        sender: Seq<char>,
        msg: ExecuteMsg,
        predicted: Result<String, StdFailure>,
        checks: AddressChecks,
        r: Result<Response<FactoryMsg>, ContractError>,
    | #[trigger] execute_effect(pre, post, contract_addr, sender, msg, predicted, checks, r)
    ||| exists|
        id: u64,
        outcome: SubMsgOutcome,
        address_check: Result<(), cosmwasm_std::StdError>,
        height: u64,
        r: Result<Response<FactoryMsg>, ContractError>,
    | #[trigger] reply_effect(pre, post, id, outcome, address_check, height, r)
}

/// Every pending creation carries the salt of its own route.
pub open spec fn pending_salted_by_route(state: FactoryState) -> bool {
    forall|i: int|
        0 <= i < state.pending@.len() ==> #[trigger] state.pending@[i].pending.salt@ == route_salt(
            state.pending@[i].pending.sender_addr@,
            state.pending@[i].pending.dest_chain@,
            state.pending@[i].pending.recipient_addr@,
        )
}

/// Every entry of `registry_insert(fw, entry)` is an entry of `fw` or `entry`.
proof fn lemma_registry_insert_entries(fw: Seq<ForwarderEntry>, entry: ForwarderEntry)
    requires
        registry_sorted(fw),
    ensures
        forall|j: int|
            0 <= j < registry_insert(fw, entry).len() ==> #[trigger] registry_insert(fw, entry)[j] == entry
                || exists|m: int| 0 <= m < fw.len() && registry_insert(fw, entry)[j] == fw[m],
{
    lemma_insert_position_exists(fw, entry.salt@);
    let p = choose|p: int| insert_position(fw, entry.salt@, p);
    let res = registry_insert(fw, entry);
    assert forall|j: int| 0 <= j < res.len() implies #[trigger] res[j] == entry || exists|m: int|
        0 <= m < fw.len() && res[j] == fw[m] by {
        if p < fw.len() && fw[p].salt@ == entry.salt@ {
            if j != p {
                assert(res[j] == fw[j]);
            }
        } else {
            if j < p {
                assert(res[j] == fw[j]);
            } else if j > p {
                assert(res[j] == fw[j - 1]);
            }
        }
    }
}

/// Every forwarder stays saved under the salt of its route, and every pending
/// creation carries the salt of its route, through every transaction: the
/// creation records the route's salt, the reply saves the forwarder under it,
/// and nothing else touches the registry. (`instantiate` starts with neither.)
pub proof fn routes_stay_salted(pre: FactoryState, post: FactoryState)
    requires
        pre.wf(),
        salted_by_route(pre),
        pending_salted_by_route(pre),
        factory_step(pre, post),
    ensures
        salted_by_route(post),
        pending_salted_by_route(post),
{
    if exists|
        contract_addr: String,
        sender: Seq<char>,
        msg: ExecuteMsg,
        predicted: Result<String, StdFailure>,
        checks: AddressChecks,
        r: Result<Response<FactoryMsg>, ContractError>,
    | #[trigger] execute_effect(pre, post, contract_addr, sender, msg, predicted, checks, r) {
        let (contract_addr, sender, msg, predicted, checks, r) = choose|
            contract_addr: String,
            sender: Seq<char>,
            msg: ExecuteMsg,
            predicted: Result<String, StdFailure>,
            checks: AddressChecks,
            r: Result<Response<FactoryMsg>, ContractError>,
        | #[trigger] execute_effect(pre, post, contract_addr, sender, msg, predicted, checks, r);
        match msg {
            ExecuteMsg::CreateForwarder { sender_addr, dest_chain, recipient_addr } => {
                creation_keeps_routes_salted(
                    pre,
                    post,
                    contract_addr,
                    sender,
                    sender_addr,
                    dest_chain,
                    recipient_addr,
                    predicted,
                    r,
                );
            },
            ExecuteMsg::UpdateConfig { owner, forwarder_code_id, skip_relayer_addr, skip_entrypoint_addr } => {
                settings_update_keeps_forwarders(
                    pre,
                    post,
                    sender,
                    owner,
                    forwarder_code_id,
                    skip_relayer_addr,
                    skip_entrypoint_addr,
                    checks,
                    r,
                );
                assert forall|i: int| 0 <= i < post.pending@.len() implies #[trigger] post.pending@[i].pending.salt@
                    == route_salt(
                    post.pending@[i].pending.sender_addr@,
                    post.pending@[i].pending.dest_chain@,
                    post.pending@[i].pending.recipient_addr@,
                ) by {
                    assert(post.pending@[i] == pre.pending@[i]);
                }
                assert forall|i: int| 0 <= i < post.forwarders@.len() implies #[trigger] post.forwarders@[i].salt@
                    == route_salt(
                    post.forwarders@[i].record.sender_addr@,
                    post.forwarders@[i].record.dest_chain@,
                    post.forwarders@[i].record.recipient_addr@,
                ) by {
                    assert(post.forwarders@[i] == pre.forwarders@[i]);
                }
            },
        }
    } else {
        let (id, outcome, address_check, height, r) = choose|
            id: u64,
            outcome: SubMsgOutcome,
            address_check: Result<(), cosmwasm_std::StdError>,
            height: u64,
            r: Result<Response<FactoryMsg>, ContractError>,
        | #[trigger] reply_effect(pre, post, id, outcome, address_check, height, r);
        reply_keeps_routes_salted(pre, post, id, outcome, address_check, height, r);
    }
}

/// A creation keeps every pending creation under the salt of its route.
#[verifier::spinoff_prover]
proof fn creation_keeps_routes_salted(
    pre: FactoryState,
    post: FactoryState,
    contract_addr: String,
    sender: Seq<char>,
    sender_addr: String,
    dest_chain: String,
    recipient_addr: String,
    predicted: Result<String, StdFailure>,
    r: Result<Response<FactoryMsg>, ContractError>,
)
    requires
        salted_by_route(pre),
        pending_salted_by_route(pre),
        create_forwarder_effect(pre, post, contract_addr, sender, sender_addr, dest_chain, recipient_addr, predicted, r),
    ensures
        salted_by_route(post),
        pending_salted_by_route(post),
{
    if r is Ok {
        let n = pre.pending@.len() as int;
        assert forall|i: int| 0 <= i < post.pending@.len() implies #[trigger] post.pending@[i].pending.salt@
            == route_salt(
            post.pending@[i].pending.sender_addr@,
            post.pending@[i].pending.dest_chain@,
            post.pending@[i].pending.recipient_addr@,
        ) by {
            if i < n {
                assert(post.pending@[i] == post.pending@.take(n)[i]);
            } else {
                assert(post.pending@[i] == post.pending@.last());
            }
        }
    }
}

/// A reply keeps every forwarder and every pending creation under the salt of its route.
#[verifier::spinoff_prover]
proof fn reply_keeps_routes_salted(
    pre: FactoryState,
    post: FactoryState,
    id: u64,
    outcome: SubMsgOutcome,
    address_check: Result<(), cosmwasm_std::StdError>,
    height: u64,
    r: Result<Response<FactoryMsg>, ContractError>,
)
    requires
        pre.wf(),
        salted_by_route(pre),
        pending_salted_by_route(pre),
        reply_effect(pre, post, id, outcome, address_check, height, r),
    ensures
        salted_by_route(post),
        pending_salted_by_route(post),
{
    if r is Ok {
        let i = pre.pending_index(id);
        let p = pre.pending@[i].pending;
        let e = confirmed_entry(p, height);
        assert(pre.pending@[i].pending.salt@ == route_salt(p.sender_addr@, p.dest_chain@, p.recipient_addr@));
        lemma_registry_insert_entries(pre.forwarders@, e);
        assert forall|j: int| 0 <= j < post.forwarders@.len() implies #[trigger] post.forwarders@[j].salt@
            == route_salt(
            post.forwarders@[j].record.sender_addr@,
            post.forwarders@[j].record.dest_chain@,
            post.forwarders@[j].record.recipient_addr@,
        ) by {
            assert(post.forwarders@[j] == registry_insert(pre.forwarders@, e)[j]);
            if post.forwarders@[j] != e {
                let m = choose|m: int| 0 <= m < pre.forwarders@.len() && registry_insert(pre.forwarders@, e)[j]
                    == pre.forwarders@[m];
                assert(pre.forwarders@[m].salt@ == route_salt(
                    pre.forwarders@[m].record.sender_addr@,
                    pre.forwarders@[m].record.dest_chain@,
                    pre.forwarders@[m].record.recipient_addr@,
                ));
            }
        }
        assert forall|j: int| 0 <= j < post.pending@.len() implies #[trigger] post.pending@[j].pending.salt@
            == route_salt(
            post.pending@[j].pending.sender_addr@,
            post.pending@[j].pending.dest_chain@,
            post.pending@[j].pending.recipient_addr@,
        ) by {
            if j < i {
                assert(post.pending@[j] == pre.pending@[j]);
            } else {
                assert(post.pending@[j] == pre.pending@[j + 1]);
            }
        }
    }
}

/// The predicted address of a route depends on nothing but the code's
/// checksum, the factory's canonical address and the route: two predictions
/// from the same three agree.
pub proof fn prediction_depends_only_on_code_factory_and_route(
    checksum: Vec<u8>,
    creator: Vec<u8>,
    sender_addr: Seq<char>,
    dest_chain: Seq<char>,
    recipient_addr: Seq<char>,
    r1: Result<Vec<u8>, StdFailure>,
    r2: Result<Vec<u8>, StdFailure>,
)
    requires
        predicted_canonical(Ok(checksum), Ok(creator), route_salt(sender_addr, dest_chain, recipient_addr), r1),
        predicted_canonical(Ok(checksum), Ok(creator), route_salt(sender_addr, dest_chain, recipient_addr), r2),
    ensures
        r1 is Ok <==> r2 is Ok,
        r1 matches Ok(a1) ==> (r2 matches Ok(a2) && a1@ == a2@),
{
}

/// Page sizes: a page of forwarders holds at most 20 forwarders when no
/// limit is given, otherwise at most the limit, and never more than 100; a
/// first page (no `start_after`) holds exactly that many where there are
/// enough forwarders, and all of them otherwise; and a page shorter than that
/// reaches the last forwarder in salt order.
pub proof fn forwarder_pages_are_as_long_as_asked(
    state: FactoryState,
    start_after: Option<String>,
    limit: Option<u32>,
    page: Seq<ForwarderInfo>,
)
    requires
        state.wf(),
        forwarders_page(state, start_after, limit, page),
    ensures
        ({
            let cap: nat = match limit {
                None => 20,
                Some(l) => if l <= 100 { l as nat } else { 100 },
            };
            &&& page.len() <= cap
            &&& start_after is None ==> page.len() == if state.forwarders@.len() < cap {
                state.forwarders@.len()
            } else {
                cap
            }
            &&& page.len() < cap && page.len() > 0 ==> page.last() == info_of(state.forwarders@.last())
        }),
{
    if let Some(k) = start_key(start_after) {
        lemma_page_start_exists(state.forwarders@, k);
    }
}

} // verus!
