use vstd::prelude::*;
use vstd::string::StringExecFns;

verus! {

/// The decimal digit character for `d` (which must be below 10).
pub open spec fn digit_char(d: nat) -> char {
    if d == 0 { '0' }
    else if d == 1 { '1' }
    else if d == 2 { '2' }
    else if d == 3 { '3' }
    else if d == 4 { '4' }
    else if d == 5 { '5' }
    else if d == 6 { '6' }
    else if d == 7 { '7' }
    else if d == 8 { '8' }
    else { '9' }
}

/// The decimal rendering of `n`, most significant digit first, without
/// leading zeros (zero is rendered as `"0"`).
pub open spec fn dec(n: nat) -> Seq<char>
    decreases n,
{
    if n < 10 {
        seq![digit_char(n)]
    } else {
        dec(n / 10).push(digit_char(n % 10))
    }
}

fn digit_str(d: u128) -> (s: &'static str)
    requires
        d < 10,
    ensures
        s@ == seq![digit_char(d as nat)],
{
    proof {
        reveal_strlit("0");
        reveal_strlit("1");
        reveal_strlit("2");
        reveal_strlit("3");
        reveal_strlit("4");
        reveal_strlit("5");
        reveal_strlit("6");
        reveal_strlit("7");
        reveal_strlit("8");
        reveal_strlit("9");
    }
    if d == 0 { "0" }
    else if d == 1 { "1" }
    else if d == 2 { "2" }
    else if d == 3 { "3" }
    else if d == 4 { "4" }
    else if d == 5 { "5" }
    else if d == 6 { "6" }
    else if d == 7 { "7" }
    else if d == 8 { "8" }
    else { "9" }
}

/// Renders `n` in decimal, as `to_string` does for unsigned integers.
pub fn u128_to_string(n: u128) -> (s: String)
    ensures
        s@ == dec(n as nat),
    decreases n,
{
    if n < 10 {
        String::from_str(digit_str(n))
    } else {
        let mut s = u128_to_string(n / 10);
        s.append(digit_str(n % 10));
        s
    }
}


/// `StdError`, the error type of cosmwasm-std, as Verus sees it: opaque.
#[verifier::external_type_specification]
#[verifier::external_body]
pub struct ExStdError(cosmwasm_std::StdError);

/// A failure that the contracts report as a cosmwasm `StdError`.
#[derive(Debug, PartialEq)]
pub enum StdFailure {
    /// A `StdError::GenericErr` raised by the contract logic itself, with its message.
    Generic { msg: String },
    /// An error handed back by the host (address validation, a bank or wasm query).
    Host(cosmwasm_std::StdError),
}

/// A native token amount.
#[derive(Debug, PartialEq, Eq)]
pub struct Coin {
    pub denom: String,
    pub amount: u128,
}

/// A key/value attribute of a response.
#[derive(Debug, PartialEq, Eq)]
pub struct Attribute {
    pub key: String,
    pub value: String,
}

/// When the runtime calls back into the contract after a sub-message.
#[derive(Debug, Clone, Copy, PartialEq, Eq)]
pub enum ReplyOn {
    Always,
    Error,
    Success,
    Never,
}

/// A message dispatched after the handler returns.
#[derive(Debug, PartialEq)]
pub struct SubMsg<M> {
    pub id: u64,
    pub msg: M,
    pub reply_on: ReplyOn,
}

/// What a handler hands back to the runtime: messages to dispatch, then attributes.
#[derive(Debug, PartialEq)]
pub struct Response<M> {
    pub messages: Vec<SubMsg<M>>,
    pub attributes: Vec<Attribute>,
}

/// The block a message is executed in: its height and the index of the
/// transaction within it, where the runtime gives one.
#[derive(Debug, Clone, Copy, PartialEq, Eq)]
pub struct BlockInfo {
    pub height: u64,
    pub tx_index: Option<u32>,
}

/// How a sub-message that asked for a reply ended.
#[derive(Debug, PartialEq, Eq)]
pub enum SubMsgOutcome {
    /// It succeeded; `data` is what it returned, if anything.
    Success { data: Option<Vec<u8>> },
    /// It failed with this error text.
    Failure(String),
}

/// The index of the transaction, or 0 where there is none.
pub open spec fn tx_index_or_zero(b: BlockInfo) -> nat {
    match b.tx_index {
        Some(i) => i as nat,
        None => 0,
    }
}

/// The attributes of a response as key/value character sequences.
pub open spec fn attr_pairs(attrs: Seq<Attribute>) -> Seq<(Seq<char>, Seq<char>)> {
    attrs.map_values(|a: Attribute| (a.key@, a.value@))
}

/// The coin as a (denom, amount) pair.
pub open spec fn coin_view(c: Coin) -> (Seq<char>, u128) {
    (c.denom@, c.amount)
}

impl Coin {
    /// A field-by-field copy.
    pub fn copy(&self) -> (c: Coin)
        ensures
            c == *self,
    {
        Coin { denom: self.denom.clone(), amount: self.amount }
    }
}

/// An attribute whose value is a string literal.
pub fn attr_lit(key: &str, value: &str) -> (a: Attribute)
    ensures
        a.key@ == key@,
        a.value@ == value@,
{
    Attribute { key: String::from_str(key), value: String::from_str(value) }
}

/// An attribute with a computed value.
pub fn attr(key: &str, value: String) -> (a: Attribute)
    ensures
        a.key@ == key@,
        a.value == value,
{
    Attribute { key: String::from_str(key), value }
}

/// A response with no messages and no attributes.
pub fn empty_response<M>() -> (r: Response<M>)
    ensures
        r.messages@.len() == 0,
        r.attributes@.len() == 0,
{
    Response { messages: Vec::new(), attributes: Vec::new() }
}

/// The version record that cw2 keeps for a contract.
#[derive(Debug, PartialEq, Eq)]
pub struct ContractVersion {
    pub contract: String,
    pub version: String,
}

/// `ToString::to_string` on a `StdError`, which renders it through its
/// `Display` impl. Nothing is claimed of the text: the error is opaque here.
#[verifier::external_body]
pub(crate) fn std_error_text(e: &cosmwasm_std::StdError) -> String {
    e.to_string()
}

/// `bytes` begins with `prefix`.
pub open spec fn has_prefix(bytes: Seq<u8>, prefix: Seq<u8>) -> bool {
    bytes.len() >= prefix.len() && bytes.subrange(0, prefix.len() as int) == prefix
}

/// A copy of `s`.
pub fn copy_str(s: &String) -> (r: String)
    ensures
        r == *s,
{
    s.clone()
}

/// Whether two strings hold the same characters.
pub fn str_eq(a: &String, b: &String) -> (r: bool)
    ensures
        r == (a@ == b@),
{
    *a == *b
}

} // verus!
