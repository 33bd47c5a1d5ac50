//! Verification of a contract's storage slots against an execution state
//! root, and their preparation for the Merkle fold.

use crate::ethereum::{
    debug_uint, keccak256, keccak256_digest, rlp_account, rlp_encode_account, rlp_encode_word,
    rlp_word, Address, TrieAccount, B256, U256,
};
use crate::field::{
    be_value, field_modulus, le_value, lemma_le_value_injective, lemma_le_value_order,
    lemma_modulus_bytes, FieldElement, FieldError, MODULUS_LE,
};
use crate::merkle::{
    collision_free, compute_merkle_tree_depth_and_size, leaves_of, lemma_fold_computes_root,
    lemma_root_binds_leaves, lemma_small_roots, merkle_root, merkle_tree_depth, pairs, tree_depth,
    FoldView, LeafPreimage, MerkleFold, MerkleZeros, MAX_TREE_DEPTH,
};
use crate::text::{
    debug_str, decimal_digits, hex_text, push_decimal, push_hex, str_debug_text,
};
use crate::trie_proof::{proof_fault, trie_accepts, trie_refuses, verify_trie_proof};
use vstd::prelude::*;
use vstd::string::StringExecFns;

verus! {

/// The index, in the source contract's storage layout, of the mapping from an
/// account to the tokens it has locked.
pub const SOURCE_CONTRACT_LOCKED_TOKENS_STORAGE_INDEX: u8 = 1;

/// One storage slot of the contract, with the proof that it holds its value.
#[derive(Clone, Debug, PartialEq, Eq)]
pub struct StorageSlot {
    /// The slot's key in the contract's storage trie.
    pub key: B256,
    /// The value that the slot is claimed to hold.
    pub expected_value: U256,
    /// The account whose entry in the mapping the slot is claimed to be.
    pub slot_key_address: Address,
    /// The nodes of the storage trie from its root to the slot.
    pub mpt_proof: Vec<Vec<u8>>,
}

/// A contract's account record and some of its storage slots, each with its
/// proof.
#[derive(Clone, Debug, PartialEq, Eq)]
pub struct ContractStorage {
    /// The contract's address.
    pub address: Address,
    /// The nodes of the state trie from its root to the account.
    pub mpt_proof: Vec<Vec<u8>>,
    /// The account record that the state trie is claimed to hold.
    pub expected_value: TrieAccount,
    /// The slots, in the order in which they become leaves.
    pub storage_slots: Vec<StorageSlot>,
}

/// What is kept of a storage slot once it has been verified.
#[derive(Clone, Copy, Debug, PartialEq, Eq)]
pub struct VerifiedContractStorageSlot {
    /// The account whose entry in the mapping the slot is.
    pub slot_key_address: Address,
    /// The value that the slot holds.
    pub value: U256,
}

/// Why a contract's storage was not verified.
#[derive(Clone, Debug, PartialEq, Eq)]
pub enum MptError {
    /// The account record is not proved to stand in the state trie.
    InvalidAccountProof { address: Address, reason: String },
    /// A slot's value is not proved to stand in the contract's storage trie.
    InvalidStorageSlotProof { slot_key: B256, reason: String },
    /// A slot's key is not the place of its account in the mapping.
    InvalidStorageSlotAddressMapping {
        slot_key: B256,
        address: Address,
        computed_address_slot_key: B256,
    },
    /// A slot's address and value do not fit into field elements.
    MerkleHashError { address: Address, value: U256, reason: String },
    /// The slots ask for a deeper tree than is allowed.
    ExceedsMaxTreeDepth { slots: usize, requested_depth: usize, max_depth: usize },
}

/// An `MptError`, with sequences for its bytes and texts.
pub enum MptFault {
    InvalidAccountProof { address: Seq<u8>, reason: Seq<char> },
    InvalidStorageSlotProof { slot_key: Seq<u8>, reason: Seq<char> },
    InvalidStorageSlotAddressMapping {
        slot_key: Seq<u8>,
        address: Seq<u8>,
        computed_address_slot_key: Seq<u8>,
    },
    MerkleHashError { address: Seq<u8>, value: Seq<u8>, reason: Seq<char> },
    ExceedsMaxTreeDepth { slots: nat, requested_depth: nat, max_depth: nat },
}

impl View for MptError {
    type V = MptFault;

    open spec fn view(&self) -> MptFault {
        match *self {
            MptError::InvalidAccountProof { address, reason } => MptFault::InvalidAccountProof {
                address: address@,
                reason: reason@,
            },
            MptError::InvalidStorageSlotProof {
                slot_key,
                reason,
            } => MptFault::InvalidStorageSlotProof { slot_key: slot_key@, reason: reason@ },
            MptError::InvalidStorageSlotAddressMapping {
                slot_key,
                address,
                computed_address_slot_key,
            } => MptFault::InvalidStorageSlotAddressMapping {
                slot_key: slot_key@,
                address: address@,
                computed_address_slot_key: computed_address_slot_key@,
            },
            MptError::MerkleHashError { address, value, reason } => MptFault::MerkleHashError {
                address: address@,
                value: value@,
                reason: reason@,
            },
            MptError::ExceedsMaxTreeDepth {
                slots,
                requested_depth,
                max_depth,
            } => MptFault::ExceedsMaxTreeDepth {
                slots: slots as nat,
                requested_depth: requested_depth as nat,
                max_depth: max_depth as nat,
            },
        }
    }
}

/// The line of text that tells of a fault.
pub open spec fn fault_text(fault: MptFault) -> Seq<char> {
    match fault {
        MptFault::InvalidAccountProof { address, reason } => "MPT account proof failed for "@
            + hex_text(address) + ": "@ + str_debug_text(reason),
        MptFault::InvalidStorageSlotProof {
            slot_key,
            reason,
        } => "MPT storage proof failed for slot "@ + hex_text(slot_key) + ": "@ + str_debug_text(
            reason,
        ),
        MptFault::InvalidStorageSlotAddressMapping {
            slot_key,
            address,
            computed_address_slot_key,
        } => "MPT invalid storage slot address, expected "@ + hex_text(slot_key)
            + ", but for address '"@ + hex_text(address) + "', this slot '"@ + hex_text(
            computed_address_slot_key,
        ) + "' was computed"@,
        MptFault::MerkleHashError {
            address,
            value,
            reason,
        } => "MPT error computing merkle hash of verified slots, address "@ + hex_text(address)
            + " and value "@ + decimal_digits(be_value(value)) + ": "@ + str_debug_text(reason),
        MptFault::ExceedsMaxTreeDepth { slots, requested_depth, max_depth } => "Merkle tree depth "@
            + decimal_digits(requested_depth) + " (derived from contract storage slots = "@
            + decimal_digits(slots) + ") exceeds the maximum allowed depth of "@ + decimal_digits(
            max_depth,
        ),
    }
}

impl MptError {
    /// The error as a line of text.
    pub fn message(&self) -> (text: String)
        ensures
            text@ == fault_text(self@),
    {
        let mut text = String::new();
        match self {
            MptError::InvalidAccountProof { address, reason } => {
                text.append("MPT account proof failed for ");
                push_hex(&mut text, address.as_slice());
                text.append(": ");
                text.append(debug_str(reason.as_str()).as_str());
            },
            MptError::InvalidStorageSlotProof { slot_key, reason } => {
                text.append("MPT storage proof failed for slot ");
                push_hex(&mut text, slot_key.as_slice());
                text.append(": ");
                text.append(debug_str(reason.as_str()).as_str());
            },
            MptError::InvalidStorageSlotAddressMapping {
                slot_key,
                address,
                computed_address_slot_key,
            } => {
                text.append("MPT invalid storage slot address, expected ");
                push_hex(&mut text, slot_key.as_slice());
                text.append(", but for address '");
                push_hex(&mut text, address.as_slice());
                text.append("', this slot '");
                push_hex(&mut text, computed_address_slot_key.as_slice());
                text.append("' was computed");
            },
            MptError::MerkleHashError { address, value, reason } => {
                text.append("MPT error computing merkle hash of verified slots, address ");
                push_hex(&mut text, address.as_slice());
                text.append(" and value ");
                text.append(debug_uint(value).as_str());
                text.append(": ");
                text.append(debug_str(reason.as_str()).as_str());
            },
            MptError::ExceedsMaxTreeDepth { slots, requested_depth, max_depth } => {
                text.append("Merkle tree depth ");
                push_decimal(&mut text, *requested_depth as u64);
                text.append(" (derived from contract storage slots = ");
                push_decimal(&mut text, *slots as u64);
                text.append(") exceeds the maximum allowed depth of ");
                push_decimal(&mut text, *max_depth as u64);
            },
        }
        assert(text@ =~= fault_text(self@));
        text
    }
}

/// `n` zero bytes.
pub open spec fn zero_bytes(n: nat) -> Seq<u8> {
    Seq::new(n, |i: int| 0u8)
}

/// The 64 bytes whose hash is the place of `address` in the mapping at
/// `storage_index`: the address and the index, each padded on the left to 32
/// bytes.
pub open spec fn mapping_preimage(address: Seq<u8>, storage_index: u8) -> Seq<u8> {
    zero_bytes(12) + address + zero_bytes(31) + seq![storage_index]
}

/// The key of the storage slot that holds the entry of `address` in the
/// mapping at `storage_index`.
pub open spec fn storage_location(address: Seq<u8>, storage_index: u8) -> Seq<u8> {
    keccak256_digest(mapping_preimage(address, storage_index))
}

/// The key of the storage slot that holds the entry of `address` in the
/// mapping that the contract keeps at `storage_index`.
pub fn get_storage_location_for_key(address: Address, storage_index: u8) -> (key: B256)
    ensures
        key@ == storage_location(address@, storage_index),
{
    let mut preimage = [0u8; 64];
    let mut i: usize = 0;
    while i < 20
        invariant
            i <= 20,
            forall|j: int| 0 <= j < 12 ==> preimage@[j] == 0,
            forall|j: int| 0 <= j < i ==> preimage@[12 + j] == address@[j],
            forall|j: int| 32 <= j < 64 ==> preimage@[j] == 0,
        decreases 20 - i,
    {
        preimage[12 + i] = address[i];
        i = i + 1;
    }
    preimage[63] = storage_index;
    assert(preimage@ =~= mapping_preimage(address@, storage_index));
    keccak256(preimage.as_slice())
}

/// The 32 bytes of a slot's first field element: the address, then the most
/// significant byte of the value, then zeros.
pub open spec fn first_field_bytes(address: Seq<u8>, value: Seq<u8>) -> Seq<u8> {
    address + seq![value[0]] + zero_bytes(11)
}

/// The 32 bytes of a slot's second field element: the value without its most
/// significant byte, then a zero.
pub open spec fn second_field_bytes(value: Seq<u8>) -> Seq<u8> {
    value.skip(1) + zero_bytes(1)
}

/// The pair of numbers whose hash is the Merkle leaf of the slot of `address`
/// that holds `value`.
pub open spec fn leaf_pair(address: Seq<u8>, value: Seq<u8>) -> (nat, nat) {
    (le_value(first_field_bytes(address, value)), le_value(second_field_bytes(value)))
}

/// 32 bytes that end in a zero spell a number below the modulus.
proof fn lemma_top_byte_zero_is_canonical(bytes: Seq<u8>)
    requires
        bytes.len() == 32,
        bytes[31] == 0,
    ensures
        le_value(bytes) < field_modulus(),
{
    lemma_modulus_bytes();
    assert(bytes.skip(32) =~= MODULUS_LE@.skip(32));
    lemma_le_value_order(bytes, MODULUS_LE@, 31);
}

/// Lays the address and the value of a storage slot out as the two field
/// elements whose hash is the slot's Merkle leaf. Every address and value fit.
pub fn hash_storage_slot(address: &Address, value: &U256) -> (r: Result<LeafPreimage, FieldError>)
    ensures
        r is Ok,
        r->Ok_0@ == leaf_pair(address@, value@),
{
    let mut first_field_bytes = [0u8; 32];
    let mut i: usize = 0;
    while i < 20
        invariant
            i <= 20,
            forall|j: int| 0 <= j < i ==> first_field_bytes@[j] == address@[j],
            forall|j: int| 20 <= j < 32 ==> first_field_bytes@[j] == 0,
        decreases 20 - i,
    {
        first_field_bytes[i] = address[i];
        i = i + 1;
    }
    first_field_bytes[20] = value[0];
    assert(first_field_bytes@ =~= self::first_field_bytes(address@, value@));

    let mut second_field_bytes = [0u8; 32];
    let mut k: usize = 0;
    while k < 31
        invariant
            k <= 31,
            forall|j: int| 0 <= j < k ==> second_field_bytes@[j] == value@[j + 1],
            second_field_bytes@[31] == 0,
        decreases 31 - k,
    {
        second_field_bytes[k] = value[k + 1];
        k = k + 1;
    }
    assert(second_field_bytes@ =~= self::second_field_bytes(value@));

    proof {
        lemma_top_byte_zero_is_canonical(first_field_bytes@);
        lemma_top_byte_zero_is_canonical(second_field_bytes@);
    }
    match FieldElement::from_bytes(&first_field_bytes) {
        Err(error) => Err(error),
        Ok(first) => match FieldElement::from_bytes(&second_field_bytes) {
            Err(error) => Err(error),
            Ok(second) => Ok(LeafPreimage { first, second }),
        },
    }
}

/// Whether two 32-byte words are the same.
pub fn words_equal(a: &B256, b: &B256) -> (same: bool)
    ensures
        same == (a@ == b@),
{
    let mut i: usize = 0;
    while i < 32
        invariant
            i <= 32,
            forall|j: int| 0 <= j < i ==> a@[j] == b@[j],
        decreases 32 - i,
    {
        if a[i] != b[i] {
            return false;
        }
        i = i + 1;
    }
    assert(a@ =~= b@);
    true
}

/// What is wrong with the account proof, if anything: the account record, as
/// it is encoded for the trie, must stand in the trie with the execution
/// state root under the hash of the contract's address.
pub open spec fn account_proof_outcome(
    execution_state_root: Seq<u8>,
    contract_storage: ContractStorage,
) -> Option<Seq<char>> {
    proof_fault(
        execution_state_root,
        keccak256_digest(contract_storage.address@),
        rlp_account(
            contract_storage.expected_value.nonce,
            contract_storage.expected_value.balance@,
            contract_storage.expected_value.storage_root@,
            contract_storage.expected_value.code_hash@,
        ),
        contract_storage.mpt_proof.deep_view(),
    )
}

/// What is wrong with one slot, if anything. The slot's key must be the place
/// of its account in the mapping; then its value must be proved to stand
/// under that key in the trie with the account's storage root.
pub open spec fn slot_fault(storage_root: Seq<u8>, slot: StorageSlot) -> Option<MptFault> {
    let computed = storage_location(
        slot.slot_key_address@,
        SOURCE_CONTRACT_LOCKED_TOKENS_STORAGE_INDEX,
    );
    if computed != slot.key@ {
        Some(
            MptFault::InvalidStorageSlotAddressMapping {
                slot_key: slot.key@,
                address: slot.slot_key_address@,
                computed_address_slot_key: computed,
            },
        )
    } else {
        match proof_fault(
            storage_root,
            keccak256_digest(slot.key@),
            rlp_word(slot.expected_value@),
            slot.mpt_proof.deep_view(),
        ) {
            Some(reason) => Some(
                MptFault::InvalidStorageSlotProof { slot_key: slot.key@, reason },
            ),
            None => None,
        }
    }
}

/// The fault of the first slot that has one.
pub open spec fn first_slot_fault(storage_root: Seq<u8>, slots: Seq<StorageSlot>) -> Option<
    MptFault,
>
    decreases slots.len(),
{
    if slots.len() == 0 {
        None
    } else {
        match slot_fault(storage_root, slots[0]) {
            Some(fault) => Some(fault),
            None => first_slot_fault(storage_root, slots.drop_first()),
        }
    }
}

/// The fault of the first slot that has one is what its name says: where it
/// is a fault, it is the fault of some slot before which no slot has a
/// fault; where it is none, no slot has a fault.
pub proof fn lemma_first_slot_fault_is_first(storage_root: Seq<u8>, slots: Seq<StorageSlot>)
    ensures
        match first_slot_fault(storage_root, slots) {
            Some(fault) => exists|i: int|
                0 <= i < slots.len() && #[trigger] slot_fault(storage_root, slots[i]) == Some(fault)
                    && forall|j: int|
                    0 <= j < i ==> #[trigger] slot_fault(storage_root, slots[j]) is None,
            None => forall|i: int|
                0 <= i < slots.len() ==> #[trigger] slot_fault(storage_root, slots[i]) is None,
        },
    decreases slots.len(),
{
    if slots.len() > 0 {
        let rest = slots.drop_first();
        lemma_first_slot_fault_is_first(storage_root, rest);
        assert forall|i: int| 0 <= i < rest.len() implies rest[i] == slots[i + 1] by {}
        match slot_fault(storage_root, slots[0]) {
            Some(fault) => {
                assert(slot_fault(storage_root, slots[0]) == Some(fault));
            },
            None => {
                match first_slot_fault(storage_root, rest) {
                    Some(fault) => {
                        let i = choose|i: int|
                            0 <= i < rest.len() && #[trigger] slot_fault(storage_root, rest[i])
                                == Some(fault) && forall|j: int|
                                0 <= j < i ==> #[trigger] slot_fault(storage_root, rest[j])
                                    is None;
                        assert(slot_fault(storage_root, slots[i + 1]) == Some(fault));
                        assert forall|j: int| 0 <= j < i + 1 implies #[trigger] slot_fault(
                            storage_root,
                            slots[j],
                        ) is None by {
                            if j > 0 {
                                assert(slot_fault(storage_root, rest[j - 1]) is None);
                            }
                        }
                    },
                    None => {
                        assert forall|i: int| 0 <= i < slots.len() implies #[trigger] slot_fault(
                            storage_root,
                            slots[i],
                        ) is None by {
                            if i > 0 {
                                assert(slot_fault(storage_root, rest[i - 1]) is None);
                            }
                        }
                    },
                }
            },
        }
    }
}

/// The first thing that is wrong with a contract's storage, if anything: the
/// account proof, then the depth of the tree, then the slots in their order.
pub open spec fn first_fault(execution_state_root: Seq<u8>, contract_storage: ContractStorage)
    -> Option<MptFault> {
    let slots = contract_storage.storage_slots@;
    match account_proof_outcome(execution_state_root, contract_storage) {
        Some(reason) => Some(
            MptFault::InvalidAccountProof { address: contract_storage.address@, reason },
        ),
        None => if tree_depth(slots.len()) > MAX_TREE_DEPTH {
            Some(
                MptFault::ExceedsMaxTreeDepth {
                    slots: slots.len(),
                    requested_depth: tree_depth(slots.len()),
                    max_depth: MAX_TREE_DEPTH as nat,
                },
            )
        } else {
            first_slot_fault(contract_storage.expected_value.storage_root@, slots)
        },
    }
}

/// The leaf preimages of the slots, in their order.
pub open spec fn leaf_pairs(slots: Seq<StorageSlot>) -> Seq<(nat, nat)> {
    Seq::new(slots.len(), |i: int| leaf_pair(slots[i].slot_key_address@, slots[i].expected_value@))
}

/// What the verification of a contract's storage comes to: the first thing
/// that is wrong, or the state in which the fold over the slots' leaf
/// preimages starts.
pub open spec fn verification(
    execution_state_root: Seq<u8>,
    contract_storage: ContractStorage,
    zeros: Seq<nat>,
) -> Result<FoldView, MptFault> {
    match first_fault(execution_state_root, contract_storage) {
        Some(fault) => Err(fault),
        None => Ok(FoldView::start(leaf_pairs(contract_storage.storage_slots@), zeros)),
    }
}

/// A slot's address and value can be read back from its leaf preimage: two
/// slots with one preimage have one address and one value.
pub proof fn lemma_leaf_pair_injective(
    address: Seq<u8>,
    value: Seq<u8>,
    other_address: Seq<u8>,
    other_value: Seq<u8>,
)
    requires
        address.len() == 20,
        other_address.len() == 20,
        value.len() == 32,
        other_value.len() == 32,
        leaf_pair(address, value) == leaf_pair(other_address, other_value),
    ensures
        address == other_address,
        value == other_value,
{
    let first = first_field_bytes(address, value);
    let other_first = first_field_bytes(other_address, other_value);
    let second = second_field_bytes(value);
    let other_second = second_field_bytes(other_value);
    lemma_le_value_injective(first, other_first);
    lemma_le_value_injective(second, other_second);
    assert forall|i: int| 0 <= i < 20 implies address[i] == other_address[i] by {
        assert(first[i] == other_first[i]);
    }
    assert(address =~= other_address);
    assert forall|i: int| 0 <= i < 32 implies value[i] == other_value[i] by {
        if i == 0 {
            assert(first[20] == other_first[20]);
        } else {
            assert(second[i - 1] == other_second[i - 1]);
        }
    }
    assert(value =~= other_value);
}

/// The root stands for the slots: under a hash without collisions, two
/// sequences of as many slots whose leaves fold into one root hold the same
/// addresses and values, slot for slot.
pub proof fn lemma_root_binds_slots(
    h: spec_fn(nat, nat) -> nat,
    slots: Seq<StorageSlot>,
    others: Seq<StorageSlot>,
    zeros: Seq<nat>,
)
    requires
        collision_free(h),
        slots.len() == others.len(),
        merkle_root(h, leaves_of(h, leaf_pairs(slots)), zeros) == merkle_root(
            h,
            leaves_of(h, leaf_pairs(others)),
            zeros,
        ),
    ensures
        forall|i: int|
            0 <= i < slots.len() ==> {
                &&& (#[trigger] slots[i]).slot_key_address@ == others[i].slot_key_address@
                &&& slots[i].expected_value@ == others[i].expected_value@
            },
{
    let leaves = leaves_of(h, leaf_pairs(slots));
    let other_leaves = leaves_of(h, leaf_pairs(others));
    lemma_root_binds_leaves(h, leaves, other_leaves, zeros);
    assert forall|i: int| 0 <= i < slots.len() implies {
        &&& (#[trigger] slots[i]).slot_key_address@ == others[i].slot_key_address@
        &&& slots[i].expected_value@ == others[i].expected_value@
    } by {
        let pair = leaf_pairs(slots)[i];
        let other_pair = leaf_pairs(others)[i];
        assert(leaves[i] == h(pair.0, pair.1));
        assert(other_leaves[i] == h(other_pair.0, other_pair.1));
        assert(pair == other_pair);
        lemma_leaf_pair_injective(
            slots[i].slot_key_address@,
            slots[i].expected_value@,
            others[i].slot_key_address@,
            others[i].expected_value@,
        );
    }
}

/// A slot whose key was changed is caught: where a slot has nothing wrong,
/// the same slot under any other key is faulted for its address mapping.
pub proof fn lemma_changed_key_is_caught(storage_root: Seq<u8>, slot: StorageSlot, key: B256)
    requires
        slot_fault(storage_root, slot) is None,
        key@ != slot.key@,
    ensures
        slot_fault(storage_root, StorageSlot { key, ..slot }) == Some(
            MptFault::InvalidStorageSlotAddressMapping {
                slot_key: key@,
                address: slot.slot_key_address@,
                computed_address_slot_key: slot.key@,
            },
        ),
{
}

/// A slot whose address was changed is caught: where a slot has nothing
/// wrong, the same slot under an address with another place in the mapping is
/// faulted for its address mapping.
pub proof fn lemma_changed_address_is_caught(
    storage_root: Seq<u8>,
    slot: StorageSlot,
    address: Address,
)
    requires
        slot_fault(storage_root, slot) is None,
        storage_location(address@, SOURCE_CONTRACT_LOCKED_TOKENS_STORAGE_INDEX) != storage_location(
            slot.slot_key_address@,
            SOURCE_CONTRACT_LOCKED_TOKENS_STORAGE_INDEX,
        ),
    ensures
        slot_fault(storage_root, StorageSlot { slot_key_address: address, ..slot }) == Some(
            MptFault::InvalidStorageSlotAddressMapping {
                slot_key: slot.key@,
                address: address@,
                computed_address_slot_key: storage_location(
                    address@,
                    SOURCE_CONTRACT_LOCKED_TOKENS_STORAGE_INDEX,
                ),
            },
        ),
{
}

/// Whether the trie crate accepts the account proof: the account record, as
/// it is encoded for the trie, under the hash of the contract's address in
/// the trie with the execution state root.
pub open spec fn account_accepted(execution_state_root: Seq<u8>, contract_storage: ContractStorage)
    -> bool {
    trie_accepts(
        execution_state_root,
        keccak256_digest(contract_storage.address@),
        rlp_account(
            contract_storage.expected_value.nonce,
            contract_storage.expected_value.balance@,
            contract_storage.expected_value.storage_root@,
            contract_storage.expected_value.code_hash@,
        ),
        contract_storage.mpt_proof.deep_view(),
    )
}

/// Whether the slot's key is the place of its account in the mapping.
pub open spec fn slot_mapped(slot: StorageSlot) -> bool {
    slot.key@ == storage_location(
        slot.slot_key_address@,
        SOURCE_CONTRACT_LOCKED_TOKENS_STORAGE_INDEX,
    )
}

/// Whether the slot passes both checks: its key is the place of its account
/// in the mapping, and the trie crate accepts the proof of its value under
/// the hash of its key in the trie with the storage root.
pub open spec fn slot_accepted(storage_root: Seq<u8>, slot: StorageSlot) -> bool {
    slot_mapped(slot) && trie_accepts(
        storage_root,
        keccak256_digest(slot.key@),
        rlp_word(slot.expected_value@),
        slot.mpt_proof.deep_view(),
    )
}

/// The fault of the first faulty slot is the fault returned for the slots:
/// where no slot before the `i`th has a fault and the `i`th has one, that is
/// the first fault, whatever the later slots hold.
pub proof fn lemma_first_slot_fault_at(storage_root: Seq<u8>, slots: Seq<StorageSlot>, i: int)
    requires
        0 <= i < slots.len(),
        forall|j: int| 0 <= j < i ==> #[trigger] slot_fault(storage_root, slots[j]) is None,
        slot_fault(storage_root, slots[i]) is Some,
    ensures
        first_slot_fault(storage_root, slots) == slot_fault(storage_root, slots[i]),
    decreases i,
{
    if i > 0 {
        let rest = slots.drop_first();
        assert(slot_fault(storage_root, slots[0]) is None);
        assert forall|j: int| 0 <= j < i - 1 implies #[trigger] slot_fault(
            storage_root,
            rest[j],
        ) is None by {
            assert(rest[j] == slots[j + 1]);
        }
        assert(rest[i - 1] == slots[i]);
        lemma_first_slot_fault_at(storage_root, rest, i - 1);
    }
}

/// A slot never gives the fault of the depth.
pub proof fn lemma_slots_give_no_depth_fault(storage_root: Seq<u8>, slots: Seq<StorageSlot>)
    ensures
        !(first_slot_fault(storage_root, slots) matches Some(
            MptFault::ExceedsMaxTreeDepth { .. },
        )),
    decreases slots.len(),
{
    if slots.len() > 0 {
        lemma_slots_give_no_depth_fault(storage_root, slots.drop_first());
    }
}

/// An account proof that the trie crate refuses is the error, with the trie
/// crate's reason: whatever the slots hold, the verification comes to the
/// fault of the account proof, with the contract's address and the text of
/// the trie crate's error.
pub proof fn lemma_refused_account_proof(
    execution_state_root: Seq<u8>,
    contract_storage: ContractStorage,
    zeros: Seq<nat>,
    reason: Seq<char>,
)
    requires
        trie_refuses(
            execution_state_root,
            keccak256_digest(contract_storage.address@),
            rlp_account(
                contract_storage.expected_value.nonce,
                contract_storage.expected_value.balance@,
                contract_storage.expected_value.storage_root@,
                contract_storage.expected_value.code_hash@,
            ),
            contract_storage.mpt_proof.deep_view(),
            reason,
        ),
    ensures
        verification(execution_state_root, contract_storage, zeros) == Err::<FoldView, MptFault>(
            MptFault::InvalidAccountProof { address: contract_storage.address@, reason },
        ),
{
}

/// The mapping fault of the first faulty slot is the error: where the
/// account proof is accepted, the tree is not too deep and the slots before
/// the `i`th pass both checks, an `i`th slot whose key is not the place of its
/// account in the mapping gives the fault of its mapping, with its key, its
/// address and the key computed, whatever its proof and the later slots hold.
pub proof fn lemma_unmapped_slot_is_the_fault(
    execution_state_root: Seq<u8>,
    contract_storage: ContractStorage,
    zeros: Seq<nat>,
    i: int,
)
    requires
        account_accepted(execution_state_root, contract_storage),
        tree_depth(contract_storage.storage_slots@.len()) <= MAX_TREE_DEPTH,
        0 <= i < contract_storage.storage_slots@.len(),
        forall|j: int|
            0 <= j < i ==> #[trigger] slot_accepted(
                contract_storage.expected_value.storage_root@,
                contract_storage.storage_slots@[j],
            ),
        !slot_mapped(contract_storage.storage_slots@[i]),
    ensures
        verification(execution_state_root, contract_storage, zeros) == Err::<FoldView, MptFault>(
            MptFault::InvalidStorageSlotAddressMapping {
                slot_key: contract_storage.storage_slots@[i].key@,
                address: contract_storage.storage_slots@[i].slot_key_address@,
                computed_address_slot_key: storage_location(
                    contract_storage.storage_slots@[i].slot_key_address@,
                    SOURCE_CONTRACT_LOCKED_TOKENS_STORAGE_INDEX,
                ),
            },
        ),
{
    let storage_root = contract_storage.expected_value.storage_root@;
    let slots = contract_storage.storage_slots@;
    assert forall|j: int| 0 <= j < i implies #[trigger] slot_fault(storage_root, slots[j])
        is None by {
        assert(slot_accepted(storage_root, slots[j]));
    }
    lemma_first_slot_fault_at(storage_root, slots, i);
}

/// A slot proof that the trie crate refuses is the error, with the trie
/// crate's reason: where the account proof is accepted, the tree is not too
/// deep and the slots before the `i`th pass both checks, an `i`th slot with
/// the right key whose proof the trie crate refuses under the account's
/// storage root gives the fault of its proof, with its key and the text of the
/// trie crate's error.
pub proof fn lemma_refused_slot_proof_is_the_fault(
    execution_state_root: Seq<u8>,
    contract_storage: ContractStorage,
    zeros: Seq<nat>,
    i: int,
    reason: Seq<char>,
)
    requires
        account_accepted(execution_state_root, contract_storage),
        tree_depth(contract_storage.storage_slots@.len()) <= MAX_TREE_DEPTH,
        0 <= i < contract_storage.storage_slots@.len(),
        forall|j: int|
            0 <= j < i ==> #[trigger] slot_accepted(
                contract_storage.expected_value.storage_root@,
                contract_storage.storage_slots@[j],
            ),
        slot_mapped(contract_storage.storage_slots@[i]),
        trie_refuses(
            contract_storage.expected_value.storage_root@,
            keccak256_digest(contract_storage.storage_slots@[i].key@),
            rlp_word(contract_storage.storage_slots@[i].expected_value@),
            contract_storage.storage_slots@[i].mpt_proof.deep_view(),
            reason,
        ),
    ensures
        verification(execution_state_root, contract_storage, zeros) == Err::<FoldView, MptFault>(
            MptFault::InvalidStorageSlotProof {
                slot_key: contract_storage.storage_slots@[i].key@,
                reason,
            },
        ),
{
    let storage_root = contract_storage.expected_value.storage_root@;
    let slots = contract_storage.storage_slots@;
    assert forall|j: int| 0 <= j < i implies #[trigger] slot_fault(storage_root, slots[j])
        is None by {
        assert(slot_accepted(storage_root, slots[j]));
    }
    lemma_first_slot_fault_at(storage_root, slots, i);
}

/// The depth is the fault exactly where the tree is too deep: where the
/// account proof is accepted, slots that ask for a tree deeper than
/// `MAX_TREE_DEPTH` give the fault of the depth, with their number, the depth
/// they ask for and the maximum, whatever they hold; and slots that ask for
/// no more never give it.
pub proof fn lemma_depth_fault_exactly(
    execution_state_root: Seq<u8>,
    contract_storage: ContractStorage,
    zeros: Seq<nat>,
)
    requires
        account_accepted(execution_state_root, contract_storage),
    ensures
        tree_depth(contract_storage.storage_slots@.len()) > MAX_TREE_DEPTH ==> verification(
            execution_state_root,
            contract_storage,
            zeros,
        ) == Err::<FoldView, MptFault>(
            MptFault::ExceedsMaxTreeDepth {
                slots: contract_storage.storage_slots@.len(),
                requested_depth: tree_depth(contract_storage.storage_slots@.len()),
                max_depth: MAX_TREE_DEPTH as nat,
            },
        ),
        tree_depth(contract_storage.storage_slots@.len()) <= MAX_TREE_DEPTH ==> !(verification(
            execution_state_root,
            contract_storage,
            zeros,
        ) matches Err(MptFault::ExceedsMaxTreeDepth { .. })),
{
    lemma_slots_give_no_depth_fault(
        contract_storage.expected_value.storage_root@,
        contract_storage.storage_slots@,
    );
}

/// A storage that passes every check verifies: where the trie crate accepts
/// the account proof, the tree is not too deep and every slot passes both
/// checks, the verification starts the fold over the slots' leaf preimages in
/// the order of the slots; and the fold, fed the hash `h` of each pair it
/// names, ends with the Merkle root of the leaves that `h` makes of them.
pub proof fn lemma_accepted_storage_verifies(
    h: spec_fn(nat, nat) -> nat,
    execution_state_root: Seq<u8>,
    contract_storage: ContractStorage,
    zeros: Seq<nat>,
)
    requires
        zeros.len() >= MAX_TREE_DEPTH,
        account_accepted(execution_state_root, contract_storage),
        tree_depth(contract_storage.storage_slots@.len()) <= MAX_TREE_DEPTH,
        forall|j: int|
            0 <= j < contract_storage.storage_slots@.len() ==> #[trigger] slot_accepted(
                contract_storage.expected_value.storage_root@,
                contract_storage.storage_slots@[j],
            ),
    ensures
        verification(execution_state_root, contract_storage, zeros) == Ok::<FoldView, MptFault>(
            FoldView::start(leaf_pairs(contract_storage.storage_slots@), zeros),
        ),
        FoldView::start(leaf_pairs(contract_storage.storage_slots@), zeros).run(h) == merkle_root(
            h,
            leaves_of(h, leaf_pairs(contract_storage.storage_slots@)),
            zeros,
        ),
{
    let storage_root = contract_storage.expected_value.storage_root@;
    let slots = contract_storage.storage_slots@;
    lemma_first_slot_fault_is_first(storage_root, slots);
    assert forall|j: int| 0 <= j < slots.len() implies #[trigger] slot_fault(
        storage_root,
        slots[j],
    ) is None by {
        assert(slot_accepted(storage_root, slots[j]));
    }
    lemma_fold_computes_root(h, leaf_pairs(slots), zeros);
}

/// Padding is not a leaf, and the order of the leaves counts. For three
/// slots and for the same three with a fourth, all passing every check, the
/// folds end with the roots of three leaves padded in the fourth place with
/// the padding constant of the leaves, and of the four leaves; for two slots
/// in the one and the other order, with the hash of the two leaves in the one
/// and the other order. Under a hash without collisions the first two roots
/// differ unless the fourth leaf is the padding constant, and the last two
/// differ unless the two leaves are the same.
pub proof fn lemma_roots_of_few_slots(
    h: spec_fn(nat, nat) -> nat,
    first: StorageSlot,
    second: StorageSlot,
    third: StorageSlot,
    fourth: StorageSlot,
    zeros: Seq<nat>,
)
    requires
        zeros.len() >= MAX_TREE_DEPTH,
    ensures
        ({
            let leaf = |slot: StorageSlot|
                h(
                    leaf_pair(slot.slot_key_address@, slot.expected_value@).0,
                    leaf_pair(slot.slot_key_address@, slot.expected_value@).1,
                );
            let root = |slots: Seq<StorageSlot>| FoldView::start(leaf_pairs(slots), zeros).run(h);
            &&& root(seq![first]) == leaf(first)
            &&& root(seq![first, second]) == h(leaf(first), leaf(second))
            &&& root(seq![second, first]) == h(leaf(second), leaf(first))
            &&& root(seq![first, second, third]) == h(
                h(leaf(first), leaf(second)),
                h(leaf(third), zeros[0]),
            )
            &&& root(seq![first, second, third, fourth]) == h(
                h(leaf(first), leaf(second)),
                h(leaf(third), leaf(fourth)),
            )
            &&& collision_free(h) && leaf(fourth) != zeros[0] ==> root(
                seq![first, second, third],
            ) != root(seq![first, second, third, fourth])
            &&& collision_free(h) && leaf(first) != leaf(second) ==> root(seq![first, second])
                != root(seq![second, first])
        }),
{
    let leaf = |slot: StorageSlot|
        h(
            leaf_pair(slot.slot_key_address@, slot.expected_value@).0,
            leaf_pair(slot.slot_key_address@, slot.expected_value@).1,
        );
    let a = leaf(first);
    let b = leaf(second);
    let c = leaf(third);
    let d = leaf(fourth);
    lemma_small_roots(h, a, b, c, d, zeros);
    lemma_small_roots(h, b, a, c, d, zeros);
    assert(leaves_of(h, leaf_pairs(seq![first])) =~= seq![a]);
    assert(leaves_of(h, leaf_pairs(seq![first, second])) =~= seq![a, b]);
    assert(leaves_of(h, leaf_pairs(seq![second, first])) =~= seq![b, a]);
    assert(leaves_of(h, leaf_pairs(seq![first, second, third])) =~= seq![a, b, c]);
    assert(leaves_of(h, leaf_pairs(seq![first, second, third, fourth])) =~= seq![a, b, c, d]);
    reveal_with_fuel(tree_depth, 4);
    lemma_fold_computes_root(h, leaf_pairs(seq![first]), zeros);
    lemma_fold_computes_root(h, leaf_pairs(seq![first, second]), zeros);
    lemma_fold_computes_root(h, leaf_pairs(seq![second, first]), zeros);
    lemma_fold_computes_root(h, leaf_pairs(seq![first, second, third]), zeros);
    lemma_fold_computes_root(h, leaf_pairs(seq![first, second, third, fourth]), zeros);
}

/// Verification is repeatable: verifying the same storage against the same
/// root comes to the same outcome each time, and two folds that it starts,
/// fed the same hash, end with the same root.
pub proof fn lemma_verification_is_repeatable(
    h: spec_fn(nat, nat) -> nat,
    execution_state_root: Seq<u8>,
    contract_storage: ContractStorage,
    zeros: Seq<nat>,
    first: Result<FoldView, MptFault>,
    second: Result<FoldView, MptFault>,
)
    requires
        first == verification(execution_state_root, contract_storage, zeros),
        second == verification(execution_state_root, contract_storage, zeros),
    ensures
        first == second,
        first is Ok ==> first->Ok_0.run(h) == second->Ok_0.run(h),
{
}

/// What a verified storage folds into: where nothing is wrong with a
/// contract's storage, the fold that its verification starts, fed the hash
/// `h` of each pair it names, ends with the Merkle root of the leaves that
/// `h` makes of the slots' preimages, in the order of the slots. With one
/// slot the root is that slot's leaf.
pub proof fn lemma_verified_storage_root(
    h: spec_fn(nat, nat) -> nat,
    execution_state_root: Seq<u8>,
    contract_storage: ContractStorage,
    zeros: Seq<nat>,
)
    requires
        first_fault(execution_state_root, contract_storage) is None,
        zeros.len() >= MAX_TREE_DEPTH,
    ensures
        verification(execution_state_root, contract_storage, zeros) is Ok,
        verification(execution_state_root, contract_storage, zeros)->Ok_0.run(h) == merkle_root(
            h,
            leaves_of(h, leaf_pairs(contract_storage.storage_slots@)),
            zeros,
        ),
        contract_storage.storage_slots@.len() == 1 ==> merkle_root(
            h,
            leaves_of(h, leaf_pairs(contract_storage.storage_slots@)),
            zeros,
        ) == h(
            leaf_pairs(contract_storage.storage_slots@)[0].0,
            leaf_pairs(contract_storage.storage_slots@)[0].1,
        ),
{
    lemma_fold_computes_root(h, leaf_pairs(contract_storage.storage_slots@), zeros);
}

/// Verifies a contract's storage slots against the execution state root and
/// starts the fold of the verified slots into their Merkle root.
///
/// The account record must stand in the state trie under the hash of the
/// contract's address. The slots must not ask for a tree deeper than
/// `MAX_TREE_DEPTH`; this is settled before any slot is looked at. Each slot,
/// in the order given, must have the key of its account's entry in the
/// mapping, and its value must stand in the contract's storage trie under the
/// hash of that key. The trie crate checks each proof, and where it refuses
/// one its error is the reason; a proof on which it would stop the program is
/// refused without it. The first thing wrong is the error
/// returned. Where nothing is wrong the fold starts over the slots' leaf
/// preimages, in the order of the slots, and no hash of the sponge has been
/// asked for yet.
pub fn verify_storage_slot_proofs(
    execution_state_root: B256,
    contract_storage: ContractStorage,
    zeros: MerkleZeros,
) -> (r: Result<MerkleFold, MptError>)
    ensures
        match r {
            Ok(fold) => {
                &&& verification(execution_state_root@, contract_storage, zeros@) == Ok::<
                    FoldView,
                    MptFault,
                >(fold@)
                &&& fold@.well_formed()
            },
            Err(error) => verification(execution_state_root@, contract_storage, zeros@) == Err::<
                FoldView,
                MptFault,
            >(error@),
        },
{
    let address_hash = keccak256(contract_storage.address.as_slice());
    let rlp_encoded_trie_account = rlp_encode_account(&contract_storage.expected_value);
    match verify_trie_proof(
        &execution_state_root,
        &address_hash,
        rlp_encoded_trie_account,
        &contract_storage.mpt_proof,
    ) {
        Err(reason) => {
            return Err(MptError::InvalidAccountProof { address: contract_storage.address, reason });
        },
        Ok(_) => {},
    }

    let n_leaves = contract_storage.storage_slots.len();
    let depth = merkle_tree_depth(n_leaves);
    if depth > MAX_TREE_DEPTH {
        return Err(
            MptError::ExceedsMaxTreeDepth {
                slots: n_leaves,
                requested_depth: depth,
                max_depth: MAX_TREE_DEPTH,
            },
        );
    }
    let (_, padded_size) = compute_merkle_tree_depth_and_size(n_leaves);
    let storage_root = contract_storage.expected_value.storage_root;
    let ghost slots = contract_storage.storage_slots@;
    let mut preimages: Vec<LeafPreimage> = Vec::with_capacity(padded_size);
    let mut i: usize = 0;
    assert(slots.skip(0) =~= slots);
    while i < n_leaves
        invariant
            i <= n_leaves,
            n_leaves == slots.len(),
            slots == contract_storage.storage_slots@,
            storage_root == contract_storage.expected_value.storage_root,
            account_proof_outcome(execution_state_root@, contract_storage) is None,
            tree_depth(slots.len()) <= MAX_TREE_DEPTH,
            first_slot_fault(storage_root@, slots) == first_slot_fault(
                storage_root@,
                slots.skip(i as int),
            ),
            preimages@.len() == i,
            forall|j: int|
                0 <= j < i ==> (#[trigger] preimages@[j])@ == leaf_pair(
                    slots[j].slot_key_address@,
                    slots[j].expected_value@,
                ),
        decreases n_leaves - i,
    {
        let slot = &contract_storage.storage_slots[i];
        proof {
            assert(slots.skip(i as int)[0] == slots[i as int]);
            assert(slots.skip(i as int).drop_first() =~= slots.skip(i + 1));
            assert(first_slot_fault(storage_root@, slots.skip(i as int)) == match slot_fault(
                storage_root@,
                slots[i as int],
            ) {
                Some(fault) => Some(fault),
                None => first_slot_fault(storage_root@, slots.skip(i + 1)),
            });
        }
        let key = slot.key;
        let value = slot.expected_value;
        let key_hash = keccak256(key.as_slice());
        let rlp_encoded_value = rlp_encode_word(&value);

        let address = slot.slot_key_address;
        let computed_address_slot_key = get_storage_location_for_key(
            address,
            SOURCE_CONTRACT_LOCKED_TOKENS_STORAGE_INDEX,
        );
        if !words_equal(&computed_address_slot_key, &key) {
            return Err(
                MptError::InvalidStorageSlotAddressMapping {
                    slot_key: key,
                    address,
                    computed_address_slot_key,
                },
            );
        }
        match verify_trie_proof(&storage_root, &key_hash, rlp_encoded_value, &slot.mpt_proof) {
            Err(reason) => {
                return Err(MptError::InvalidStorageSlotProof { slot_key: key, reason });
            },
            Ok(_) => {},
        }
        let preimage = match hash_storage_slot(&address, &value) {
            Ok(preimage) => preimage,
            Err(error) => {
                return Err(MptError::MerkleHashError { address, value, reason: error.message() });
            },
        };
        preimages.push(preimage);
        i = i + 1;
    }
    assert(slots.skip(n_leaves as int).len() == 0);
    assert(pairs(preimages@) =~= leaf_pairs(slots));
    match MerkleFold::new(preimages, zeros) {
        Some(fold) => Ok(fold),
        None => Err(
            MptError::ExceedsMaxTreeDepth {
                slots: n_leaves,
                requested_depth: depth,
                max_depth: MAX_TREE_DEPTH,
            },
        ),
    }
}

} // verus!
