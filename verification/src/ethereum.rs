//! Ethereum's hash, its record encoding and its trie proofs, as the `alloy`
//! crates compute them. The functions of this file are not proved: each
//! states what is taken on trust of the call it makes.

use crate::field::be_value;
use crate::text::decimal_digits;
use crate::trie_proof::walk_stops;
use vstd::prelude::*;

verus! {

/// A 20-byte account address.
pub type Address = [u8; 20];

/// A 32-byte word: a hash, a trie root or a storage key.
pub type B256 = [u8; 32];

/// A 256-bit unsigned integer, as its 32 big-endian bytes.
pub type U256 = [u8; 32];

/// The record that the state trie holds for an account.
#[derive(Clone, Copy, Debug, PartialEq, Eq)]
pub struct TrieAccount {
    /// The number of transactions sent from the account.
    pub nonce: u64,
    /// The account's balance.
    pub balance: U256,
    /// The root of the account's own storage trie.
    pub storage_root: B256,
    /// The hash of the account's code.
    pub code_hash: B256,
}

/// The Keccak-256 digest of `data`, as `alloy_primitives::keccak256` computes
/// it.
pub uninterp spec fn keccak256_digest(data: Seq<u8>) -> Seq<u8>;

/// The bytes that `alloy_rlp::Encodable::encode` writes for an
/// `alloy_trie::TrieAccount` with these four fields.
pub uninterp spec fn rlp_account(
    nonce: u64,
    balance: Seq<u8>,
    storage_root: Seq<u8>,
    code_hash: Seq<u8>,
) -> Seq<u8>;

/// The bytes without the zero bytes that they begin with.
pub open spec fn trim_zeros(bytes: Seq<u8>) -> Seq<u8>
    decreases bytes.len(),
{
    if bytes.len() > 0 && bytes[0] == 0 {
        trim_zeros(bytes.drop_first())
    } else {
        bytes
    }
}

/// The encoding of the 256-bit integer with these big-endian bytes: the
/// bytes without leading zeros, alone where that is one byte below 0x80, else
/// after the byte 0x80 plus their number; the byte 0x80 for zero.
pub open spec fn rlp_word(value: Seq<u8>) -> Seq<u8> {
    let digits = trim_zeros(value);
    if digits.len() == 1 && digits[0] < 0x80 {
        digits
    } else {
        seq![(0x80 + digits.len()) as u8] + digits
    }
}

/// What `alloy_trie::proof::verify_proof` says of a proof that `value` stands
/// under the 32-byte `key` in the trie with this `root`: `None` where it
/// accepts the proof, else the text of its error.
pub uninterp spec fn trie_proof_outcome(
    root: Seq<u8>,
    key: Seq<u8>,
    value: Seq<u8>,
    proof: Seq<Seq<u8>>,
) -> Option<Seq<char>>;

/// Formats the `alloy_primitives::U256` with the big-endian bytes `value` with
/// `{:?}`, that is with `<alloy_primitives::U256 as core::fmt::Debug>::fmt`.
/// Taken on trust: it writes the number in decimal, without leading zeros.
#[verifier::external_body]
pub(crate) fn debug_uint(value: &U256) -> (text: String)
    ensures
        text@ == decimal_digits(be_value(value@)),
{
    format!("{:?}", alloy_primitives::U256::from_be_bytes(*value))
}

/// Calls `alloy_primitives::keccak256`. Taken on trust: the digest depends on
/// the bytes of `data` alone.
#[verifier::external_body]
pub(crate) fn keccak256(data: &[u8]) -> (digest: B256)
    ensures
        digest@ == keccak256_digest(data@),
{
    alloy_primitives::keccak256(data).0
}

/// Calls `alloy_rlp::Encodable::encode` on the `alloy_trie::TrieAccount` with
/// the fields of `account`. Taken on trust: the bytes written depend on the
/// four fields alone.
#[verifier::external_body]
pub(crate) fn rlp_encode_account(account: &TrieAccount) -> (out: Vec<u8>)
    ensures
        out@ == rlp_account(
            account.nonce,
            account.balance@,
            account.storage_root@,
            account.code_hash@,
        ),
{
    let record = alloy_trie::TrieAccount {
        nonce: account.nonce,
        balance: alloy_primitives::U256::from_be_bytes(account.balance),
        storage_root: alloy_primitives::B256::new(account.storage_root),
        code_hash: alloy_primitives::B256::new(account.code_hash),
    };
    let mut out = Vec::new();
    alloy_rlp::Encodable::encode(&record, &mut out);
    out
}

/// Calls `alloy_rlp::Encodable::encode` on the `alloy_primitives::U256` with
/// the big-endian bytes `value`. Taken on trust: it writes the number's bytes
/// without leading zeros, alone where that is one byte below 0x80, else after
/// one byte that is 0x80 plus their number.
#[verifier::external_body]
pub(crate) fn rlp_encode_word(value: &U256) -> (out: Vec<u8>)
    ensures
        out@ == rlp_word(value@),
{
    let mut out = Vec::new();
    alloy_rlp::Encodable::encode(&alloy_primitives::U256::from_be_bytes(*value), &mut out);
    out
}

/// Calls `alloy_trie::proof::verify_proof` with the nibbles of `key`, with
/// `value` as the value that is expected to be present, and with the nodes of
/// `proof` in their order. An error comes back as the text that the error
/// displays. Taken on trust: whether the proof is accepted, and the error's
/// text, depend on the four arguments alone; and the call returns on every
/// proof that `walk_stops` does not hold of. The trie crate stops the program
/// in three places: where it decodes a leaf or an extension whose path has
/// more than 64 nibbles, where the path walked would pass 64 nibbles, and
/// where an extension that a branch holds in place leads to anything but a
/// branch. `walk_stops` follows its walk to these places.
#[verifier::external_body]
pub(crate) fn check_trie_proof(root: &B256, key: &B256, value: Vec<u8>, proof: &Vec<Vec<u8>>) -> (r:
    Result<(), String>)
    requires
        !walk_stops(root@, key@, proof.deep_view()),
    ensures
        match r {
            Ok(_) => trie_proof_outcome(root@, key@, value@, proof.deep_view()) is None,
            Err(reason) => trie_proof_outcome(root@, key@, value@, proof.deep_view()) == Some(
                reason@,
            ),
        },
{
    let nodes: Vec<alloy_primitives::Bytes> = proof.iter().map(
        |node| alloy_primitives::Bytes::copy_from_slice(node),
    ).collect();
    alloy_trie::proof::verify_proof(
        alloy_primitives::B256::new(*root),
        alloy_trie::Nibbles::unpack(key),
        Some(value),
        &nodes,
    ).map_err(|error| error.to_string())
}

} // verus!
