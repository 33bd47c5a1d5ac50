use alloy_primitives::keccak256;
use consensus_mpt::field::FieldElement;
use consensus_mpt::merkle::{
    compute_merkle_tree_depth_and_size, merkle_tree_depth, FoldAction, LeafPreimage, MerkleFold,
    MerkleZeros, MAX_TREE_DEPTH,
};

fn element(tag: u8) -> FieldElement {
    let mut bytes = [0u8; 32];
    bytes[0] = tag;
    bytes[1] = 0xa5;
    FieldElement::from_bytes(&bytes).unwrap()
}

fn zero_of(level: usize) -> FieldElement {
    let mut bytes = [0u8; 32];
    bytes[0] = level as u8;
    bytes[2] = 0x5a;
    FieldElement::from_bytes(&bytes).unwrap()
}

fn zeros() -> MerkleZeros {
    MerkleZeros::new((0..=MAX_TREE_DEPTH).map(zero_of).collect()).unwrap()
}

/// A hash that stands in for the sponge: Keccak-256 of the two elements'
/// bytes, with the top byte cleared so that the digest is in the field.
fn stand_in(left: &FieldElement, right: &FieldElement) -> FieldElement {
    let mut data = Vec::new();
    data.extend_from_slice(&left.to_bytes());
    data.extend_from_slice(&right.to_bytes());
    let mut digest = keccak256(&data).0;
    digest[31] = 0;
    FieldElement::from_bytes(&digest).unwrap()
}

fn preimage(tag: u8) -> LeafPreimage {
    LeafPreimage { first: element(tag), second: element(tag.wrapping_add(100)) }
}

fn leaf(tag: u8) -> FieldElement {
    let p = preimage(tag);
    stand_in(&p.first, &p.second)
}

/// Runs a fold to its end and returns the root with the pairs it named.
fn run(mut fold: MerkleFold) -> ([u8; 32], Vec<(FieldElement, FieldElement)>) {
    let mut asked = Vec::new();
    loop {
        match fold.action() {
            FoldAction::Hash(left, right) => {
                asked.push((left, right));
                fold = fold.advance(stand_in(&left, &right));
            }
            FoldAction::Done(root) => return (root, asked),
        }
    }
}

fn root_of(tags: &[u8]) -> [u8; 32] {
    run(MerkleFold::new(tags.iter().map(|t| preimage(*t)).collect(), zeros()).unwrap()).0
}

#[test]
fn depth_is_the_rounded_up_logarithm() {
    assert_eq!(merkle_tree_depth(0), 0);
    assert_eq!(merkle_tree_depth(1), 0);
    assert_eq!(merkle_tree_depth(2), 1);
    assert_eq!(merkle_tree_depth(3), 2);
    assert_eq!(merkle_tree_depth(4), 2);
    assert_eq!(merkle_tree_depth(5), 3);
    assert_eq!(merkle_tree_depth(8), 3);
    assert_eq!(merkle_tree_depth(9), 4);
    assert_eq!(merkle_tree_depth(65536), 16);
    assert_eq!(merkle_tree_depth(65537), 17);
    assert_eq!(merkle_tree_depth(usize::MAX), usize::BITS as usize);
}

#[test]
fn padded_size_is_the_next_power_of_two() {
    assert_eq!(compute_merkle_tree_depth_and_size(0), (0, 1));
    assert_eq!(compute_merkle_tree_depth_and_size(1), (0, 1));
    assert_eq!(compute_merkle_tree_depth_and_size(2), (1, 2));
    assert_eq!(compute_merkle_tree_depth_and_size(3), (2, 4));
    assert_eq!(compute_merkle_tree_depth_and_size(4), (2, 4));
    assert_eq!(compute_merkle_tree_depth_and_size(5), (3, 8));
    assert_eq!(compute_merkle_tree_depth_and_size(1000), (10, 1024));
    assert_eq!(compute_merkle_tree_depth_and_size(65536), (16, 65536));
}

#[test]
fn max_tree_depth_is_sixteen() {
    assert_eq!(MAX_TREE_DEPTH, 16);
}

#[test]
fn a_table_of_zeros_needs_a_constant_for_each_level() {
    assert!(MerkleZeros::new((0..MAX_TREE_DEPTH - 1).map(zero_of).collect()).is_none());
    let table = MerkleZeros::new((0..MAX_TREE_DEPTH).map(zero_of).collect()).unwrap();
    assert_eq!(table.len(), MAX_TREE_DEPTH);
    assert_eq!(table.get(0), Some(zero_of(0)));
    assert_eq!(table.get(15), Some(zero_of(15)));
    assert_eq!(table.get(16), None);
}

#[test]
fn too_many_leaves_start_no_fold() {
    let too_many: Vec<LeafPreimage> = (0..65537).map(|_| preimage(1)).collect();
    assert!(MerkleFold::new(too_many, zeros()).is_none());
    let just_enough: Vec<LeafPreimage> = (0..65536).map(|_| preimage(1)).collect();
    assert!(MerkleFold::new(just_enough, zeros()).is_some());
}

#[test]
fn without_leaves_the_root_is_the_first_zero() {
    let fold = MerkleFold::new(Vec::new(), zeros()).unwrap();
    assert_eq!(fold.action(), FoldAction::Done(zero_of(0).to_digest()));
    let (root, asked) = run(fold);
    assert_eq!(root, zero_of(0).to_digest());
    assert!(asked.is_empty());
}

#[test]
fn one_leaf_is_the_root() {
    let fold = MerkleFold::new(vec![preimage(7)], zeros()).unwrap();
    assert_eq!(fold.action(), FoldAction::Hash(element(7), element(107)));
    let (root, asked) = run(fold);
    assert_eq!(asked, vec![(element(7), element(107))]);
    assert_eq!(root, leaf(7).to_digest());
}

#[test]
fn two_leaves_fold_once() {
    let (root, asked) = run(MerkleFold::new(vec![preimage(1), preimage(2)], zeros()).unwrap());
    assert_eq!(
        asked,
        vec![(element(1), element(101)), (element(2), element(102)), (leaf(1), leaf(2))]
    );
    assert_eq!(root, stand_in(&leaf(1), &leaf(2)).to_digest());
}

#[test]
fn three_leaves_are_padded_with_the_zero_of_the_leaves() {
    let (root, asked) =
        run(MerkleFold::new(vec![preimage(1), preimage(2), preimage(3)], zeros()).unwrap());
    let left = stand_in(&leaf(1), &leaf(2));
    let right = stand_in(&leaf(3), &zero_of(0));
    assert_eq!(asked.len(), 6);
    assert_eq!(asked[3], (leaf(1), leaf(2)));
    assert_eq!(asked[4], (leaf(3), zero_of(0)));
    assert_eq!(asked[5], (left, right));
    assert_eq!(root, stand_in(&left, &right).to_digest());
}

#[test]
fn five_leaves_are_padded_at_two_levels() {
    let (root, asked) = run(MerkleFold::new((1..=5).map(preimage).collect(), zeros()).unwrap());
    let a = stand_in(&leaf(1), &leaf(2));
    let b = stand_in(&leaf(3), &leaf(4));
    let c = stand_in(&leaf(5), &zero_of(0));
    let ab = stand_in(&a, &b);
    let c_padded = stand_in(&c, &zero_of(1));
    assert_eq!(asked.len(), 5 + 3 + 2 + 1);
    assert_eq!(asked[9], (c, zero_of(1)));
    assert_eq!(root, stand_in(&ab, &c_padded).to_digest());
}

#[test]
fn the_order_of_the_leaves_changes_the_root() {
    assert_ne!(root_of(&[1, 2]), root_of(&[2, 1]));
    assert_ne!(root_of(&[1, 2, 3]), root_of(&[1, 3, 2]));
    assert_eq!(root_of(&[1, 2, 3]), root_of(&[1, 2, 3]));
}

#[test]
fn a_fourth_leaf_is_told_apart_from_padding() {
    assert_ne!(root_of(&[1, 2, 3]), root_of(&[1, 2, 3, 4]));
}

#[test]
fn padding_is_the_zero_of_the_leaves_as_a_fourth_leaf() {
    let three = MerkleFold::new((1..=3).map(preimage).collect(), zeros()).unwrap();
    let (root_of_three, _) = run(three);

    // Four leaves, the fourth being the zero constant of the leaves.
    let mut fold = MerkleFold::new((1..=4).map(preimage).collect(), zeros()).unwrap();
    let mut answered = 0;
    let root_of_four = loop {
        match fold.action() {
            FoldAction::Hash(left, right) => {
                let digest = if answered == 3 { zero_of(0) } else { stand_in(&left, &right) };
                answered += 1;
                fold = fold.advance(digest);
            }
            FoldAction::Done(root) => break root,
        }
    };
    assert_eq!(root_of_three, root_of_four);
}

#[test]
fn a_finished_fold_stays_finished() {
    let mut fold = MerkleFold::new(vec![preimage(9)], zeros()).unwrap();
    fold = fold.advance(leaf(9));
    let done = fold.action();
    assert_eq!(done, FoldAction::Done(leaf(9).to_digest()));
    fold = fold.advance(element(1));
    assert_eq!(fold.action(), done);
}
