//! Proof bundles as entities of the store: what is written for a bundle, and
//! how the bundle that covers a block is asked for.

use crate::text::{decimal_digits, push_decimal};
use vstd::prelude::*;
use vstd::string::StringExecFns;

verus! {

/// The time, in seconds, for which a proof bundle is of use.
pub const ETH_CONSENSUS_PROOF_TTL: u64 = 24 * 60 * 60;

/// The time for which the store keeps a proof bundle: half the time for which
/// it is of use, rounded up.
pub const ETH_CONSENSUS_PROOF_BTL: u64 = (ETH_CONSENSUS_PROOF_TTL + 1) / 2;

/// A proof bundle, by the window of blocks that it covers.
#[derive(Clone, Copy, Debug, PartialEq, Eq)]
pub struct EthConsensusProofBundleAndWindow {
    pub input_block_number: u64,
    pub output_block_number: u64,
}

/// A text tag of an entity.
#[derive(Clone, Debug, PartialEq, Eq)]
pub struct StringAnnotation {
    pub key: String,
    pub value: String,
}

/// A number tag of an entity.
#[derive(Clone, Debug, PartialEq, Eq)]
pub struct NumericAnnotation {
    pub key: String,
    pub value: u64,
}

/// An entity to write to the store.
#[derive(Clone, Debug, PartialEq, Eq)]
pub struct EntityCreate {
    /// The entity's payload.
    pub data: Vec<u8>,
    /// The time for which the store is to keep the entity.
    pub btl: u64,
    pub string_annotations: Vec<StringAnnotation>,
    pub numeric_annotations: Vec<NumericAnnotation>,
}

/// The identifier of a bundle: its two block numbers in decimal, with an
/// underscore between them.
pub open spec fn bundle_id_text(bundle: EthConsensusProofBundleAndWindow) -> Seq<char> {
    decimal_digits(bundle.input_block_number as nat) + "_"@ + decimal_digits(
        bundle.output_block_number as nat,
    )
}

/// Whether `entity` is the entity of `bundle` with the payload `data`: kept
/// for `ETH_CONSENSUS_PROOF_BTL`, tagged with the bundle's identifier under
/// `id`, and with its two block numbers under `inputBlockNumber` and
/// `outputBlockNumber`, in this order.
pub open spec fn is_bundle_entity(
    entity: EntityCreate,
    bundle: EthConsensusProofBundleAndWindow,
    data: Seq<u8>,
) -> bool {
    &&& entity.data@ == data
    &&& entity.btl == ETH_CONSENSUS_PROOF_BTL
    &&& entity.string_annotations@.len() == 1
    &&& entity.string_annotations@[0].key@ == "id"@
    &&& entity.string_annotations@[0].value@ == bundle_id_text(bundle)
    &&& entity.numeric_annotations@.len() == 2
    &&& entity.numeric_annotations@[0].key@ == "inputBlockNumber"@
    &&& entity.numeric_annotations@[0].value == bundle.input_block_number
    &&& entity.numeric_annotations@[1].key@ == "outputBlockNumber"@
    &&& entity.numeric_annotations@[1].value == bundle.output_block_number
}

/// The entity to write for `proof_bundle`, whose serialised form is
/// `serialised_data`.
pub fn create_eth_consensus_proof_bundle_entity(
    proof_bundle: EthConsensusProofBundleAndWindow,
    serialised_data: Vec<u8>,
) -> (entity: EntityCreate)
    ensures
        is_bundle_entity(entity, proof_bundle, serialised_data@),
{
    let mut id = String::new();
    push_decimal(&mut id, proof_bundle.input_block_number);
    id.append("_");
    push_decimal(&mut id, proof_bundle.output_block_number);
    assert(id@ =~= bundle_id_text(proof_bundle));

    let mut string_annotations: Vec<StringAnnotation> = Vec::new();
    string_annotations.push(StringAnnotation { key: String::from_str("id"), value: id });
    let mut numeric_annotations: Vec<NumericAnnotation> = Vec::new();
    numeric_annotations.push(
        NumericAnnotation {
            key: String::from_str("inputBlockNumber"),
            value: proof_bundle.input_block_number,
        },
    );
    numeric_annotations.push(
        NumericAnnotation {
            key: String::from_str("outputBlockNumber"),
            value: proof_bundle.output_block_number,
        },
    );
    EntityCreate {
        data: serialised_data,
        btl: ETH_CONSENSUS_PROOF_BTL,
        string_annotations,
        numeric_annotations,
    }
}

/// The question for the bundles whose window holds a block.
#[derive(Clone, Copy, Debug, PartialEq, Eq)]
pub struct BlockRangeQuery {
    pub target_block_number: u64,
}

/// The question in the store's language, for the block number `target`.
pub open spec fn query_text(target: u64) -> Seq<char> {
    let number = decimal_digits(target as nat);
    "(inputBlockNumber < "@ + number + " || inputBlockNumber = "@ + number
        + ") && (outputBlockNumber > "@ + number + " || outputBlockNumber = "@ + number + ")"@
}

impl BlockRangeQuery {
    /// Whether the window of `bundle` holds the block: the bundle starts at
    /// or before it and ends at or after it.
    pub open spec fn covers(self, bundle: EthConsensusProofBundleAndWindow) -> bool {
        bundle.input_block_number <= self.target_block_number <= bundle.output_block_number
    }

    /// Whether the window of `bundle` holds the block.
    pub fn matches(&self, bundle: &EthConsensusProofBundleAndWindow) -> (held: bool)
        ensures
            held == self.covers(*bundle),
    {
        bundle.input_block_number <= self.target_block_number && self.target_block_number
            <= bundle.output_block_number
    }

    /// The question in the store's language.
    pub fn text(&self) -> (text: String)
        ensures
            text@ == query_text(self.target_block_number),
    {
        let target = self.target_block_number;
        let mut text = String::new();
        text.append("(inputBlockNumber < ");
        push_decimal(&mut text, target);
        text.append(" || inputBlockNumber = ");
        push_decimal(&mut text, target);
        text.append(") && (outputBlockNumber > ");
        push_decimal(&mut text, target);
        text.append(" || outputBlockNumber = ");
        push_decimal(&mut text, target);
        text.append(")");
        assert(text@ =~= query_text(target));
        text
    }
}

/// The question to put to the store for the bundle that covers the block
/// `target_block_number`.
pub fn get_eth_consensus_proof_bundle_entity(target_block_number: u64) -> (query: BlockRangeQuery)
    ensures
        query.target_block_number == target_block_number,
{
    BlockRangeQuery { target_block_number }
}

} // verus!
