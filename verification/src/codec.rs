//! Byte and text encodings computed by outside crates (hex, bech32, sha2,
//! cosmwasm-std, cw-utils), each behind a wrapper that states what it returns.

use bech32::{FromBase32, ToBase32};
use sha2::Digest;
use std::str::FromStr;
use vstd::prelude::*;
use vstd::utf8::{decode_utf8, encode_utf8, is_ascii_chars, is_ascii_chars_encode_utf8, valid_utf8};

verus! {

// ---------------------------------------------------------------- hex

/// The value of one hex digit, as `hex` reads it (either case).
pub open spec fn hex_nibble(c: u8) -> Option<u8> {
    if 48 <= c <= 57 {
        Some((c - 48) as u8)
    } else if 97 <= c <= 102 {
        Some((c - 87) as u8)
    } else if 65 <= c <= 70 {
        Some((c - 55) as u8)
    } else {
        None
    }
}

/// The bytes that a hex text stands for: an even number of hex digits, two per byte.
pub open spec fn hex_decoded(text: Seq<u8>) -> Option<Seq<u8>> {
    if text.len() % 2 == 0 && forall|i: int| 0 <= i < text.len() ==> hex_nibble(#[trigger] text[i]) is Some {
        Some(
            Seq::new(
                text.len() / 2,
                |k: int| (hex_nibble(text[2 * k]).unwrap() * 16 + hex_nibble(text[2 * k + 1]).unwrap()) as u8,
            ),
        )
    } else {
        None
    }
}

/// The lower-case hex digit for `n < 16`.
pub open spec fn hex_digit(n: u8) -> char {
    seq!['0', '1', '2', '3', '4', '5', '6', '7', '8', '9', 'a', 'b', 'c', 'd', 'e', 'f'][n as int]
}

/// `data` in lower-case hex, two digits per byte, high nibble first.
pub open spec fn hex_lower(data: Seq<u8>) -> Seq<char> {
    Seq::new(
        2 * data.len(),
        |i: int| if i % 2 == 0 { hex_digit(data[i / 2] / 16) } else { hex_digit(data[i / 2] % 16) },
    )
}

/// Each lower-case hex digit is ASCII and reads back as its value.
proof fn lemma_hex_digit_reads_back(n: u8)
    requires
        n < 16,
    ensures
        hex_digit(n) <= '\u{7f}',
        hex_nibble(hex_digit(n) as u8) == Some(n),
{
    let digits = seq!['0', '1', '2', '3', '4', '5', '6', '7', '8', '9', 'a', 'b', 'c', 'd', 'e', 'f'];
    assert(hex_digit(n) == digits[n as int]);
    if n < 10 {
        assert(digits[n as int] as u32 == 48 + n) by {
            if n == 0 {} else if n == 1 {} else if n == 2 {} else if n == 3 {} else if n == 4 {}
            else if n == 5 {} else if n == 6 {} else if n == 7 {} else if n == 8 {} else {}
        }
    } else {
        assert(digits[n as int] as u32 == 87 + n) by {
            if n == 10 {} else if n == 11 {} else if n == 12 {} else if n == 13 {} else if n == 14 {} else {}
        }
    }
}

/// Hex text that `hex_encode` writes decodes back to the bytes it was written from.
pub proof fn lemma_hex_lower_decodes(data: Seq<u8>)
    ensures
        hex_decoded(encode_utf8(hex_lower(data))) == Some(data),
{
    let t = hex_lower(data);
    assert forall|i: int| 0 <= i < t.len() implies '\0' <= #[trigger] t[i] <= '\u{7f}'
        && hex_nibble(t[i] as u8) == Some(if i % 2 == 0 { data[i / 2] / 16 } else { data[i / 2] % 16 }) by {
        if i % 2 == 0 {
            lemma_hex_digit_reads_back(data[i / 2] / 16);
        } else {
            lemma_hex_digit_reads_back(data[i / 2] % 16);
        }
    }
    assert(is_ascii_chars(t));
    is_ascii_chars_encode_utf8(t);
    let bytes = encode_utf8(t);
    assert forall|i: int| 0 <= i < bytes.len() implies hex_nibble(#[trigger] bytes[i]) is Some by {
        assert(t[i] as u8 == bytes[i]);
    }
    let decoded = hex_decoded(bytes).unwrap();
    assert forall|k: int| 0 <= k < data.len() implies #[trigger] decoded[k] == data[k] by {
        assert(t[2 * k] as u8 == bytes[2 * k]);
        assert(t[2 * k + 1] as u8 == bytes[2 * k + 1]);
        assert((2 * k) % 2 == 0 && (2 * k) / 2 == k);
        assert((2 * k + 1) % 2 == 1 && (2 * k + 1) / 2 == k);
        let d = data[k];
        assert((d / 16) * 16 + d % 16 == d);
    }
    assert(decoded =~= data);
}

/// `hex::decode`. Claimed: it succeeds exactly on an even count of hex digits
/// of either case and yields two digits per byte, high nibble first.
#[verifier::external_body]
pub(crate) fn hex_decode(text: &[u8]) -> (r: Option<Vec<u8>>)
    ensures
        match r {
            Some(bytes) => hex_decoded(text@) == Some(bytes@),
            None => hex_decoded(text@) is None,
        },
{
    hex::decode(text).ok()
}

/// `hex::encode`. Claimed: lower-case hex, two digits per byte, high nibble first.
#[verifier::external_body]
pub(crate) fn hex_encode(data: &[u8]) -> (s: String)
    ensures
        s@ == hex_lower(data@),
{
    hex::encode(data)
}

// ---------------------------------------------------------------- UTF-8

/// `String::from_utf8`. Claimed, as std documents: it succeeds exactly on
/// valid UTF-8 and the string holds the characters that the bytes encode.
#[verifier::external_body]
pub(crate) fn string_from_utf8(bytes: Vec<u8>) -> (r: Option<String>)
    ensures
        r is Some <==> valid_utf8(bytes@),
        r matches Some(s) ==> s@ == decode_utf8(bytes@),
{
    String::from_utf8(bytes).ok()
}

// ---------------------------------------------------------------- Uint128

/// Whether `c` is an ASCII decimal digit.
pub open spec fn is_decimal_digit(c: char) -> bool {
    '0' <= c <= '9'
}

/// The number written by the decimal digits `s`.
pub open spec fn digits_value(s: Seq<char>) -> nat
    decreases s.len(),
{
    if s.len() == 0 {
        0
    } else {
        digits_value(s.drop_last()) * 10 + (s.last() as nat - '0' as nat) as nat
    }
}

/// What `u128::from_str` accepts: an optional `+`, then one or more decimal
/// digits whose value fits in 128 bits.
pub open spec fn u128_text(s: Seq<char>) -> Option<u128> {
    let body = if s.len() > 0 && s[0] == '+' { s.drop_first() } else { s };
    if body.len() > 0 && (forall|i: int| 0 <= i < body.len() ==> is_decimal_digit(#[trigger] body[i]))
        && digits_value(body) <= u128::MAX {
        Some(digits_value(body) as u128)
    } else {
        None
    }
}

/// `cosmwasm_std::Uint128::from_str`, which defers to `u128::from_str`.
/// Claimed: the result is `u128_text(s)`.
#[verifier::external_body]
pub(crate) fn parse_uint128(s: &str) -> (r: Option<u128>)
    ensures
        r == u128_text(s@),
{
    cosmwasm_std::Uint128::from_str(s).ok().map(|u| u.u128())
}

// ---------------------------------------------------------------- hashes and addresses

/// The SHA-256 digest of `data`.
pub uninterp spec fn sha256_digest(data: Seq<u8>) -> Seq<u8>;

/// `sha2::Sha256::digest`. Claimed: the digest of `data`, 32 bytes long.
#[verifier::external_body]
pub(crate) fn sha256(data: &[u8]) -> (r: Vec<u8>)
    ensures
        r@ == sha256_digest(data@),
        r@.len() == 32,
{
    sha2::Sha256::digest(data).to_vec()
}

/// `n` modulo 256^width as `width` big-endian bytes.
pub open spec fn be_bytes(n: nat, width: nat) -> Seq<u8>
    decreases width,
{
    if width == 0 {
        Seq::empty()
    } else {
        be_bytes(n / 256, (width - 1) as nat).push((n % 256) as u8)
    }
}

/// A field as instantiate2 frames it: its length in eight big-endian bytes, then its bytes.
pub open spec fn framed64(part: Seq<u8>) -> Seq<u8> {
    be_bytes(part.len(), 8) + part
}

/// What instantiate2 hashes under the type `module`: `wasm`, a zero byte,
/// then the checksum, the creator, the salt and an empty message, each framed.
pub open spec fn instantiate2_key(checksum: Seq<u8>, creator: Seq<u8>, salt: Seq<u8>) -> Seq<u8> {
    seq![119u8, 97u8, 115u8, 109u8, 0u8] + framed64(checksum) + framed64(creator) + framed64(salt) + framed64(
        Seq::empty(),
    )
}

/// The canonical address that `cosmwasm_std::instantiate2_address` derives
/// from a code checksum, a creator and a salt: SHA-256 of the SHA-256 digest
/// of `module` followed by the key.
pub open spec fn instantiate2_hash(checksum: Seq<u8>, creator: Seq<u8>, salt: Seq<u8>) -> Seq<u8> {
    sha256_digest(sha256_digest(seq![109u8, 111u8, 100u8, 117u8, 108u8, 101u8]) + instantiate2_key(checksum, creator, salt))
}

/// `cosmwasm_std::instantiate2_address`, with the error given by its text.
/// Claimed: a checksum other than 32 bytes is refused first, then a salt that
/// is empty or over 64 bytes; otherwise the 32-byte `instantiate2_hash`
/// (its `hash` helper is two SHA-256 digests, as `instantiate2_hash` writes).
#[verifier::external_body]
pub(crate) fn instantiate2_address(checksum: &[u8], creator: &[u8], salt: &[u8]) -> (r: Result<Vec<u8>, String>)
    ensures
        match r {
            Ok(a) => {
                &&& checksum@.len() == 32
                &&& 1 <= salt@.len() <= 64
                &&& a@ == instantiate2_hash(checksum@, creator@, salt@)
                &&& a@.len() == 32
            },
            Err(e) => if checksum@.len() != 32 {
                e@ == "invalid checksum length"@
            } else {
                &&& salt@.len() == 0 || salt@.len() > 64
                &&& e@ == "invalid salt length"@
            },
        },
{
    cosmwasm_std::instantiate2_address(checksum, &cosmwasm_std::CanonicalAddr::from(creator), salt)
        .map(|a| a.0.0)
        .map_err(|e| e.to_string())
}

/// The contract address of an instantiate reply's data (`Ok`), or the text
/// of the error that `cw_utils::parse_instantiate_response_data` reports.
pub uninterp spec fn instantiate_reply_address(data: Seq<u8>) -> Result<Seq<char>, Seq<char>>;

/// `cw_utils::parse_instantiate_response_data`, keeping the contract address.
/// Claimed: the result is `instantiate_reply_address(data)`.
#[verifier::external_body]
pub(crate) fn parse_instantiate_reply(data: &[u8]) -> (r: Result<String, String>)
    ensures
        match r {
            Ok(a) => instantiate_reply_address(data@) == Ok::<Seq<char>, Seq<char>>(a@),
            Err(e) => instantiate_reply_address(data@) == Err::<Seq<char>, Seq<char>>(e@),
        },
{
    cw_utils::parse_instantiate_response_data(data).map(|m| m.contract_address).map_err(|e| e.to_string())
}

// ---------------------------------------------------------------- bech32

/// All values are 5-bit groups.
pub open spec fn all_groups(groups: Seq<u8>) -> bool {
    forall|i: int| 0 <= i < groups.len() ==> #[trigger] groups[i] < 32
}

/// The data part (5-bit groups, checksum removed) of a bech32 or bech32m
/// text as `bech32::decode` reads it, or `None` where it reports an error.
pub uninterp spec fn bech32_payload(text: Seq<char>) -> Option<Seq<u8>>;

/// The bytes that `Vec::<u8>::from_base32` regroups from 5-bit groups, or
/// `None` where it reports bad padding.
pub uninterp spec fn base32_to_bytes(groups: Seq<u8>) -> Option<Seq<u8>>;

/// The 5-bit groups that `ToBase32::to_base32` regroups bytes into.
pub uninterp spec fn bytes_to_base32(bytes: Seq<u8>) -> Seq<u8>;

/// The text that `bech32::encode(hrp, groups, Variant::Bech32)` writes, or
/// `None` where it reports an error.
pub uninterp spec fn bech32_text(hrp: Seq<char>, groups: Seq<u8>) -> Option<Seq<char>>;

/// A human-readable part that `bech32::encode` accepts as it stands: 1 to 83
/// printable ASCII characters, none of them upper case.
pub open spec fn lower_hrp(hrp: Seq<char>) -> bool {
    &&& 1 <= hrp.len() <= 83
    &&& forall|i: int| 0 <= i < hrp.len() ==> 33 <= #[trigger] (hrp[i] as u32) <= 126
    &&& forall|i: int| 0 <= i < hrp.len() ==> !('A' <= #[trigger] hrp[i] <= 'Z')
}

/// `bech32::decode`, keeping the data part as 5-bit values.
/// Claimed: the result is `bech32_payload(text)`, and each value is below 32.
#[verifier::external_body]
pub(crate) fn bech32_decode(text: &str) -> (r: Option<Vec<u8>>)
    ensures
        match r {
            Some(groups) => bech32_payload(text@) == Some(groups@) && all_groups(groups@),
            None => bech32_payload(text@) is None,
        },
{
    bech32::decode(text).ok().map(|(_, data, _)| data.into_iter().map(|g| g.to_u8()).collect())
}

/// `Vec::<u8>::from_base32`. Claimed: the result is `base32_to_bytes(groups)`.
#[verifier::external_body]
pub(crate) fn base32_decode(groups: &[u8]) -> (r: Option<Vec<u8>>)
    requires
        all_groups(groups@),
    ensures
        match r {
            Some(bytes) => base32_to_bytes(groups@) == Some(bytes@),
            None => base32_to_bytes(groups@) is None,
        },
{
    let data: Vec<bech32::u5> = groups.iter().map(|g| bech32::u5::try_from_u8(*g).unwrap()).collect();
    Vec::<u8>::from_base32(&data).ok()
}

/// `ToBase32::to_base32`. Claimed: the result is `bytes_to_base32(bytes)`,
/// each value below 32.
#[verifier::external_body]
pub(crate) fn base32_encode(bytes: &[u8]) -> (r: Vec<u8>)
    ensures
        r@ == bytes_to_base32(bytes@),
        all_groups(r@),
{
    bytes.to_base32().into_iter().map(|g| g.to_u8()).collect()
}

/// `bech32::encode` with the Bech32 variant. Claimed: the result is
/// `bech32_text(hrp, groups)`; for a lower-case valid `hrp` it succeeds and
/// the text begins with `hrp` and the separator `1`.
#[verifier::external_body]
pub(crate) fn bech32_encode(hrp: &str, groups: &[u8]) -> (r: Option<String>)
    requires
        all_groups(groups@),
    ensures
        match r {
            Some(s) => bech32_text(hrp@, groups@) == Some(s@),
            None => bech32_text(hrp@, groups@) is None,
        },
        lower_hrp(hrp@) ==> r is Some,
        lower_hrp(hrp@) ==> r.unwrap()@.len() > hrp@.len() && r.unwrap()@.subrange(0, hrp@.len() as int + 1)
            == hrp@.push('1'),
{
    let data: Vec<bech32::u5> = groups.iter().map(|g| bech32::u5::try_from_u8(*g).unwrap()).collect();
    bech32::encode(hrp, data, bech32::Variant::Bech32).ok()
}

} // verus!
