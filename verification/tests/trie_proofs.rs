use alloy_primitives::{keccak256, Bytes, B256};
use alloy_trie::proof::ProofRetainer;
use alloy_trie::{HashBuilder, Nibbles};
use consensus_mpt::trie_proof::{
    count_items, find_item, nibble_of, node_step, proof_stops, read_item, read_shape, refers_to,
    verify_trie_proof, Item, NodeShape, Step, KEY_NIBBLES,
};

const STOPS: &str = "proof node cannot be decoded";

fn reference(tag: u8) -> Vec<u8> {
    let mut item = vec![0xa0];
    item.extend_from_slice(&[tag; 32]);
    item
}

/// A branch with the given children, the others and the value being empty.
fn branch(children: &[(usize, Vec<u8>)]) -> Vec<u8> {
    let mut payload = Vec::new();
    for index in 0..16 {
        match children.iter().find(|(at, _)| *at == index) {
            Some((_, child)) => payload.extend_from_slice(child),
            None => payload.push(0x80),
        }
    }
    payload.push(0x80);
    list(payload)
}

fn list(payload: Vec<u8>) -> Vec<u8> {
    let mut node = Vec::new();
    if payload.len() < 56 {
        node.push(0xc0 + payload.len() as u8);
    } else if payload.len() < 256 {
        node.extend_from_slice(&[0xf8, payload.len() as u8]);
    } else {
        node.extend_from_slice(&[0xf9, (payload.len() / 256) as u8, (payload.len() % 256) as u8]);
    }
    node.extend_from_slice(&payload);
    node
}

fn string(payload: &[u8]) -> Vec<u8> {
    let mut item = Vec::new();
    if payload.len() == 1 && payload[0] < 0x80 {
        item.push(payload[0]);
    } else if payload.len() < 56 {
        item.push(0x80 + payload.len() as u8);
        item.extend_from_slice(payload);
    } else {
        item.extend_from_slice(&[0xb8, payload.len() as u8]);
        item.extend_from_slice(payload);
    }
    item
}

/// A leaf or an extension: a path with its flag byte, and a second item.
fn pair(path: &[u8], second: Vec<u8>) -> Vec<u8> {
    let mut payload = string(path);
    payload.extend_from_slice(&second);
    list(payload)
}

fn trie(mut entries: Vec<([u8; 32], Vec<u8>)>, target: [u8; 32]) -> ([u8; 32], Vec<Vec<u8>>) {
    entries.sort();
    let retainer = ProofRetainer::from_iter([Nibbles::unpack(target)]);
    let mut builder = HashBuilder::default().with_proof_retainer(retainer);
    for (key, entry) in &entries {
        builder.add_leaf(Nibbles::unpack(key), entry);
    }
    let root = builder.root().0;
    let proof = builder
        .take_proof_nodes()
        .matching_nodes_sorted(&Nibbles::unpack(target))
        .into_iter()
        .map(|(_, node)| node.to_vec())
        .collect();
    (root, proof)
}

/// The nodes of a proof that stand on their own: those of 32 bytes or more.
fn standing(proof: Vec<Vec<u8>>) -> Vec<Vec<u8>> {
    proof.into_iter().filter(|node| node.len() >= 32).collect()
}

fn whole(node: &Vec<u8>) -> NodeShape {
    read_shape(node, 0, node.len())
}

#[test]
fn a_key_has_sixty_four_nibbles() {
    assert_eq!(KEY_NIBBLES, 64);
    let mut key = [0u8; 32];
    key[0] = 0xab;
    key[31] = 0xcd;
    assert_eq!(nibble_of(&key, 0), 0xa);
    assert_eq!(nibble_of(&key, 1), 0xb);
    assert_eq!(nibble_of(&key, 62), 0xc);
    assert_eq!(nibble_of(&key, 63), 0xd);
}

#[test]
fn items_are_read_by_their_first_byte() {
    let bytes = vec![0x05, 0x80, 0x82, 0xaa, 0xbb, 0xc2, 0x01, 0x02, 0xc0];
    assert_eq!(read_item(&bytes, 0, 9), Some(Item { list: false, payload_at: 0, end: 1 }));
    assert_eq!(read_item(&bytes, 1, 9), Some(Item { list: false, payload_at: 2, end: 2 }));
    assert_eq!(read_item(&bytes, 2, 9), Some(Item { list: false, payload_at: 3, end: 5 }));
    assert_eq!(read_item(&bytes, 5, 9), Some(Item { list: true, payload_at: 6, end: 8 }));
    assert_eq!(read_item(&bytes, 8, 9), Some(Item { list: true, payload_at: 9, end: 9 }));
    assert_eq!(count_items(&bytes, 0, 9), Some(5));
    assert_eq!(count_items(&bytes, 2, 8), Some(2));
    assert_eq!(count_items(&bytes, 3, 3), Some(0));
    assert_eq!(find_item(&bytes, 0, 9, 0), (0, 1));
    assert_eq!(find_item(&bytes, 0, 9, 2), (2, 5));
    assert_eq!(find_item(&bytes, 0, 9, 4), (8, 9));
}

#[test]
fn an_item_must_lie_before_the_end() {
    let bytes = vec![0x82, 0xaa, 0xbb];
    assert_eq!(read_item(&bytes, 0, 3), Some(Item { list: false, payload_at: 1, end: 3 }));
    assert_eq!(read_item(&bytes, 0, 2), None);
    assert_eq!(read_item(&bytes, 0, 4), None);
    assert_eq!(read_item(&bytes, 3, 3), None);
    assert_eq!(read_item(&vec![0x83, 0xaa, 0xbb], 0, 3), None);
    assert_eq!(count_items(&bytes, 0, 2), None);
    assert_eq!(count_items(&bytes, 2, 1), None);
}

#[test]
fn items_are_read_as_the_decoder_reads_them() {
    // One byte below 0x80 stands alone, not after a header.
    assert_eq!(read_item(&vec![0x81, 0x7f], 0, 2), None);
    assert_eq!(read_item(&vec![0x81], 0, 1), None);
    assert_eq!(read_item(&vec![0x81, 0x80], 0, 2), Some(Item { list: false, payload_at: 1, end: 2 }));
    // A length below 56 is not written in the long form.
    let mut short = vec![0xb8, 55];
    short.extend_from_slice(&[7; 55]);
    assert_eq!(read_item(&short, 0, 57), None);
    let mut long = vec![0xb8, 56];
    long.extend_from_slice(&[7; 56]);
    assert_eq!(read_item(&long, 0, 58), Some(Item { list: false, payload_at: 2, end: 58 }));
    // A length has no leading zero.
    let mut padded = vec![0xb9, 0, 56];
    padded.extend_from_slice(&[7; 56]);
    assert_eq!(read_item(&padded, 0, 59), None);
    // Lengths of up to eight bytes are read.
    let mut three = vec![0xfa, 0x01, 0x00, 0x00];
    three.extend_from_slice(&vec![0x80; 65536]);
    assert_eq!(read_item(&three, 0, three.len()), Some(Item { list: true, payload_at: 4, end: 65540 }));
    assert_eq!(read_item(&three, 0, three.len() - 1), None);
    assert_eq!(read_item(&vec![0xbf, 0xff, 0xff, 0xff, 0xff, 0xff, 0xff, 0xff, 0xff, 1], 0, 10), None);
    assert_eq!(read_item(&vec![0xff, 1, 0, 0, 0, 0, 0, 0], 0, 8), None);
}

#[test]
fn headers_are_read_as_the_rlp_crate_reads_them() {
    // What is read here is what the RLP crate reads.
    let mut dice = Dice(0x1234_5678_9abc_def1);
    for _ in 0..20_000 {
        let len = dice.roll(70) as usize;
        let mut bytes = dice.bytes(len);
        if !bytes.is_empty() && dice.roll(2) == 0 {
            bytes[0] = [0x80, 0x81, 0xb7, 0xb8, 0xb9, 0xc0, 0xc1, 0xf7, 0xf8, 0xf9][dice.roll(10) as usize];
        }
        if bytes.len() > 1 && dice.roll(2) == 0 {
            bytes[1] = dice.roll(70) as u8;
        }
        let mut rest = &bytes[..];
        let theirs = alloy_rlp::Header::decode(&mut rest);
        match read_item(&bytes, 0, bytes.len()) {
            Some(item) => {
                let header = theirs.unwrap();
                assert_eq!(header.list, item.list);
                assert_eq!(header.payload_length, item.end - item.payload_at);
                assert_eq!(bytes.len() - rest.len(), item.payload_at);
            }
            None => assert!(theirs.is_err()),
        }
    }
}

#[test]
fn nodes_are_read_as_the_decoder_reads_them() {
    assert_eq!(whole(&Vec::new()), NodeShape::Fails);
    assert_eq!(whole(&vec![0x80]), NodeShape::Empty);
    assert_eq!(whole(&vec![0x05]), NodeShape::Fails);
    assert_eq!(whole(&vec![0xc0]), NodeShape::Fails);
    assert_eq!(whole(&list(vec![0x80; 3])), NodeShape::Fails);
    assert_eq!(whole(&list(vec![0x80; 16])), NodeShape::Fails);
    assert_eq!(whole(&list(vec![0x80; 18])), NodeShape::Fails);
    assert_eq!(whole(&branch(&[])), NodeShape::Branch { at: 1, end: 18 });
    assert_eq!(whole(&branch(&[(3, reference(1))])), NodeShape::Branch { at: 1, end: 50 });
    // A branch with a value, and a branch with a child of more than 33 bytes.
    let mut valued = vec![0x80; 16];
    valued.push(0x01);
    assert_eq!(whole(&list(valued)), NodeShape::Fails);
    assert_eq!(whole(&branch(&[(3, string(&[7; 33]))])), NodeShape::Fails);

    assert_eq!(whole(&pair(&[0x20, 0x12, 0x34], vec![0x83, 1, 2, 3])), NodeShape::Leaf { nibbles: 4 });
    assert_eq!(whole(&pair(&[0x35, 0x12], vec![0x01])), NodeShape::Leaf { nibbles: 3 });
    assert_eq!(whole(&pair(&[0x20], list(vec![0x01]))), NodeShape::Fails);
    assert_eq!(
        whole(&pair(&[0x00, 0x12], reference(4))),
        NodeShape::Extension { nibbles: 2, child_at: 4, child_end: 37 }
    );
    assert_eq!(
        whole(&pair(&[0x17], branch(&[]))),
        NodeShape::Extension { nibbles: 1, child_at: 2, child_end: 20 }
    );
    assert_eq!(whole(&pair(&[0x00], string(&[7; 33]))), NodeShape::Fails);
    assert_eq!(whole(&pair(&[0x40], vec![0x01])), NodeShape::Fails);
    assert_eq!(whole(&list(vec![0x80, 0x01])), NodeShape::Fails);
    assert_eq!(whole(&list(vec![0xc1, 0x20, 0x01])), NodeShape::Fails);
}

#[test]
fn a_path_of_more_than_a_key_stops_the_decoder() {
    let mut even = vec![0x20];
    even.extend_from_slice(&[0x11; 32]);
    assert_eq!(whole(&pair(&even, vec![0x01])), NodeShape::Leaf { nibbles: 64 });
    even.push(0x11);
    assert_eq!(whole(&pair(&even, vec![0x01])), NodeShape::Stops);
    let mut odd = vec![0x31];
    odd.extend_from_slice(&[0x11; 31]);
    assert_eq!(whole(&pair(&odd, vec![0x01])), NodeShape::Leaf { nibbles: 63 });
    odd.push(0x11);
    assert_eq!(whole(&pair(&odd, vec![0x01])), NodeShape::Stops);
    // The path is read before the second item is.
    assert_eq!(whole(&pair(&odd, list(vec![0x01]))), NodeShape::Stops);
}

#[test]
fn the_walk_follows_the_key_through_a_branch() {
    let key = [0x37u8; 32];
    let short = pair(&[0x20], vec![0x07]);
    let long = pair(&[0x20, 0xaa, 0xbb], vec![0x07]);
    // The child under the key's nibble is a reference; a leaf stands beside it.
    let node = branch(&[(0, long.clone()), (3, reference(1)), (9, short.clone())]);
    assert_eq!(
        node_step(&node, 0, node.len(), &key, 0),
        Step::Goes { walked: 1, child_at: 10, child_end: 43 }
    );
    // At an odd place the key's nibble is 7: no child is there.
    assert_eq!(node_step(&node, 0, node.len(), &key, 1), Step::Ends);
    // The child under the key's nibble is a leaf in place.
    let node = branch(&[(3, long.clone())]);
    assert_eq!(node_step(&node, 0, node.len(), &key, 0), Step::Ends);
    assert_eq!(node_step(&node, 0, node.len(), &key, 58), Step::Ends);
    assert_eq!(node_step(&node, 0, node.len(), &key, 60), Step::Stops);
    // A leaf that is not under the key's nibble does not count.
    let node = branch(&[(4, long), (3, reference(1))]);
    assert_eq!(
        node_step(&node, 0, node.len(), &key, 62),
        Step::Goes { walked: 63, child_at: 4, child_end: 37 }
    );
    // At the end of the key a branch leads nowhere.
    assert_eq!(node_step(&node, 0, node.len(), &key, 64), Step::Ends);
}

#[test]
fn the_walk_goes_through_nodes_in_place() {
    let key = [0x33u8; 32];
    let leaf = pair(&[0x20], vec![0x07]);
    let inner = branch(&[(3, leaf.clone())]);
    // A branch in place in a branch.
    let node = branch(&[(3, inner.clone())]);
    assert_eq!(node_step(&node, 0, node.len(), &key, 0), Step::Ends);
    // An extension in place that leads to a branch in place.
    let extension = pair(&[0x13], inner.clone());
    assert!(extension.len() < 33);
    let node = branch(&[(3, extension)]);
    assert_eq!(node_step(&node, 0, node.len(), &key, 0), Step::Ends);
    assert_eq!(node_step(&node, 0, node.len(), &key, 62), Step::Ends);
    assert_eq!(node_step(&node, 0, node.len(), &key, 63), Step::Stops);
    // An extension in place that leads to a leaf, to nothing, to a reference.
    for child in [leaf.clone(), vec![0x80], pair(&[0x00], vec![0x80])] {
        let node = branch(&[(3, pair(&[0x00], child))]);
        assert_eq!(node_step(&node, 0, node.len(), &key, 0), Step::Stops);
    }
    // An extension in place whose child the decoder gives an error on.
    let node = branch(&[(3, pair(&[0x00], vec![0x05]))]);
    assert_eq!(node_step(&node, 0, node.len(), &key, 0), Step::Ends);
    // An extension that stands on its own and holds its branch in place.
    let node = pair(&[0x00, 0x33], inner);
    assert_eq!(node_step(&node, 0, node.len(), &key, 0), Step::Ends);
    let node = pair(&[0x00, 0x33], leaf);
    assert_eq!(node_step(&node, 0, node.len(), &key, 0), Step::Ends);
    assert_eq!(node_step(&node, 0, node.len(), &key, 63), Step::Stops);
}

#[test]
fn a_node_is_referred_to_by_its_hash_or_by_itself() {
    let short = vec![0xc2, 0x20, 0x01];
    assert!(refers_to(&short.clone(), &short));
    assert!(!refers_to(&vec![0xc2, 0x20, 0x02], &short));
    assert!(!refers_to(&vec![0xc2, 0x20], &short));
    let long = branch(&[(1, reference(5))]);
    let mut by_hash = vec![0xa0];
    by_hash.extend_from_slice(&keccak256(&long).0);
    assert!(refers_to(&by_hash, &long));
    assert!(!refers_to(&long.clone(), &long));
    by_hash[32] ^= 1;
    assert!(!refers_to(&by_hash, &long));
    by_hash[32] ^= 1;
    by_hash[0] = 0xa1;
    assert!(!refers_to(&by_hash, &long));
}

#[test]
fn a_proof_made_from_a_trie_is_accepted() {
    let entries: Vec<([u8; 32], Vec<u8>)> =
        (0u8..50).map(|i| (keccak256([i]).0, vec![i, i, i])).collect();
    let target = keccak256([17u8]).0;
    let (root, proof) = trie(entries, target);
    assert!(proof.len() >= 2);
    assert!(!proof_stops(&root, &target, &proof));
    assert_eq!(verify_trie_proof(&root, &target, vec![17, 17, 17], &proof), Ok(()));
}

#[test]
fn the_trie_crates_own_errors_come_back() {
    let entries: Vec<([u8; 32], Vec<u8>)> =
        (0u8..50).map(|i| (keccak256([i]).0, vec![i, i, i])).collect();
    let target = keccak256([17u8]).0;
    let (root, proof) = trie(entries, target);
    let theirs = |root: [u8; 32], key: [u8; 32], value: Vec<u8>, proof: &Vec<Vec<u8>>| {
        let nodes: Vec<Bytes> = proof.iter().map(|node| Bytes::copy_from_slice(node)).collect();
        alloy_trie::proof::verify_proof(B256::new(root), Nibbles::unpack(key), Some(value), &nodes)
            .map_err(|error| error.to_string())
    };

    let wrong_value = verify_trie_proof(&root, &target, vec![17, 17, 18], &proof);
    assert!(wrong_value.clone().unwrap_err().starts_with("value mismatch"));
    assert_eq!(wrong_value, theirs(root, target, vec![17, 17, 18], &proof));

    let other_key = keccak256([18u8]).0;
    assert_eq!(
        verify_trie_proof(&root, &other_key, vec![17, 17, 17], &proof),
        theirs(root, other_key, vec![17, 17, 17], &proof)
    );
    let mut other_root = root;
    other_root[31] ^= 1;
    assert_eq!(
        verify_trie_proof(&other_root, &target, vec![17, 17, 17], &proof),
        theirs(other_root, target, vec![17, 17, 17], &proof)
    );
    let truncated = proof[..1].to_vec();
    assert_eq!(
        verify_trie_proof(&root, &target, vec![17, 17, 17], &truncated),
        theirs(root, target, vec![17, 17, 17], &truncated)
    );
    let empty = verify_trie_proof(&root, &target, vec![17, 17, 17], &Vec::new());
    assert!(empty.unwrap_err().starts_with("root mismatch"));

    // Nodes that the decoder gives an error on: no list, a list of three
    // items, a branch whose child is a string.
    for node in [string(&[7; 40]), list(vec![0x80; 40]), branch(&[(1, string(&[7; 20])), (2, reference(1))])] {
        let root = keccak256(&node).0;
        let proof = vec![node];
        let ours = verify_trie_proof(&root, &target, vec![1], &proof);
        assert!(ours.is_err());
        assert_ne!(ours, Err(STOPS.to_string()));
        assert_eq!(ours, theirs(root, target, vec![1], &proof));
    }
}

#[test]
fn leaves_held_in_place_are_accepted() {
    // Eight keys that differ in their last byte only, with values of one byte:
    // the leaves are short enough to stand inside their branch.
    let key = |last: u8| {
        let mut key = [0x33u8; 32];
        key[31] = last;
        key
    };
    let entries: Vec<([u8; 32], Vec<u8>)> =
        (0u8..8).map(|i| (key(i * 0x10 + 5), vec![i + 1])).collect();
    let target = key(0x35);
    let (root, proof) = trie(entries, target);
    let proof = standing(proof);
    assert_eq!(proof.len(), 2);
    assert_eq!(verify_trie_proof(&root, &target, vec![4], &proof), Ok(()));
    assert!(verify_trie_proof(&root, &target, vec![5], &proof).is_err());
}

#[test]
fn an_extension_whose_branch_stands_in_place_is_accepted() {
    // Two keys that differ in their last nibble, with values of one byte: the
    // branch with its two leaves stands inside the extension above it.
    let key = |last: u8| {
        let mut key = [0x44u8; 32];
        key[31] = last;
        key
    };
    let entries = vec![(key(0x41), vec![0x0a]), (key(0x47), vec![0x0b])];
    let (root, proof) = trie(entries, key(0x47));
    let proof = standing(proof);
    assert_eq!(proof.len(), 1);
    assert_eq!(proof[0].len(), 56);
    assert!(matches!(whole(&proof[0]), NodeShape::Extension { nibbles: 63, .. }));
    assert!(!proof_stops(&root, &key(0x47), &proof));
    assert_eq!(verify_trie_proof(&root, &key(0x47), vec![0x0b], &proof), Ok(()));
    assert_eq!(verify_trie_proof(&root, &key(0x41), vec![0x0a], &proof), Ok(()));
    assert!(verify_trie_proof(&root, &key(0x47), vec![0x0a], &proof).is_err());
}

#[test]
fn a_sibling_leaf_in_place_beside_the_path_is_accepted() {
    // Two keys that share their first ten nibbles. The one has a value of one
    // byte, so that its leaf stands inside the branch; the other has a long
    // value, and the path to it goes on through the branch.
    let mut sibling = [0x55u8; 32];
    sibling[5] = 0x15;
    let mut target = [0x55u8; 32];
    target[5] = 0x25;
    let value: Vec<u8> = (0u8..40).collect();
    let entries = vec![(sibling, vec![0x01]), (target, value.clone())];
    let (root, proof) = trie(entries, target);
    let proof = standing(proof);
    assert_eq!(proof.len(), 3);
    assert!(matches!(whole(&proof[0]), NodeShape::Extension { nibbles: 10, .. }));
    assert!(matches!(whole(&proof[1]), NodeShape::Branch { .. }));
    assert!(matches!(whole(&proof[2]), NodeShape::Leaf { nibbles: 53 }));
    // The sibling stands in the branch as a leaf of 53 nibbles.
    let place = find_item(&proof[1], 2, proof[1].len(), 1);
    assert!(place.1 - place.0 < 32);
    assert_eq!(read_shape(&proof[1], place.0, place.1), NodeShape::Leaf { nibbles: 53 });
    assert!(!proof_stops(&root, &target, &proof));
    assert_eq!(verify_trie_proof(&root, &target, value, &proof), Ok(()));
}

#[test]
fn a_path_longer_than_a_key_is_refused() {
    let mut path = vec![0x20];
    path.extend_from_slice(&[0x11; 40]);
    let node = pair(&path, vec![0x01]);
    let root = keccak256(&node).0;
    assert_eq!(
        verify_trie_proof(&root, &[0x11; 32], vec![1], &vec![node.clone()]),
        Err(STOPS.to_string())
    );
    // Under another root the node is never decoded, and the trie crate answers.
    let elsewhere = verify_trie_proof(&[9; 32], &[0x11; 32], vec![1], &vec![node]);
    assert!(elsewhere.unwrap_err().starts_with("value mismatch"));
}

#[test]
fn an_extension_in_place_that_leads_to_a_leaf_is_refused() {
    let extension = pair(&[0x00], pair(&[0x20], vec![0x01]));
    let node = branch(&[(0, reference(7)), (1, extension)]);
    assert!(node.len() >= 32);
    let root = keccak256(&node).0;
    assert_eq!(
        verify_trie_proof(&root, &[0x11; 32], vec![1], &vec![node.clone()]),
        Err(STOPS.to_string())
    );
    // The key leads past the extension: the trie crate answers.
    let past = verify_trie_proof(&root, &[0x01; 32], vec![1], &vec![node.clone()]);
    assert!(past.is_err());
    assert_ne!(past, Err(STOPS.to_string()));
    let beside = verify_trie_proof(&root, &[0x21; 32], vec![1], &vec![node]);
    assert_ne!(beside, Err(STOPS.to_string()));
}

#[test]
fn paths_that_exceed_a_key_are_refused() {
    let value: Vec<u8> = (1u8..=40).collect();
    let leaf = pair(&[0x20, 0x11, 0x11], string(&value));
    assert!(leaf.len() >= 32);
    let mut path = vec![0x00];
    path.extend_from_slice(&[0x11; 32]);
    let mut child = vec![0xa0];
    child.extend_from_slice(&keccak256(&leaf).0);
    let extension = pair(&path, child);
    let root = keccak256(&extension).0;
    assert_eq!(
        verify_trie_proof(&root, &[0x11; 32], value.clone(), &vec![extension.clone(), leaf]),
        Err(STOPS.to_string())
    );
    // A node that the extension does not refer to is never walked.
    let other = pair(&[0x20, 0x11, 0x12], string(&value));
    let unlinked = verify_trie_proof(&root, &[0x11; 32], value, &vec![extension, other]);
    assert!(unlinked.unwrap_err().starts_with("value mismatch"));
}

/// A small generator of numbers for the crafted proofs below.
struct Dice(u64);

impl Dice {
    fn roll(&mut self, sides: u64) -> u64 {
        self.0 ^= self.0 << 13;
        self.0 ^= self.0 >> 7;
        self.0 ^= self.0 << 17;
        self.0 % sides
    }

    fn bytes(&mut self, n: usize) -> Vec<u8> {
        (0..n).map(|_| self.roll(256) as u8).collect()
    }
}

fn nibble(key: &[u8; 32], at: usize) -> u8 {
    if at % 2 == 0 {
        key[(at / 2) % 32] >> 4
    } else {
        key[(at / 2) % 32] & 0x0f
    }
}

/// The path item of a leaf or an extension over the given nibbles.
fn path_item(leaf: bool, nibbles: &[u8]) -> Vec<u8> {
    let flag = if leaf { 2u8 } else { 0u8 };
    let mut bytes = Vec::new();
    let rest = if nibbles.len() % 2 == 1 {
        bytes.push((flag + 1) * 16 + nibbles[0]);
        &nibbles[1..]
    } else {
        bytes.push(flag * 16);
        nibbles
    };
    for pair in rest.chunks(2) {
        bytes.push(pair[0] * 16 + pair[1]);
    }
    string(&bytes)
}

/// How a node is held by the node above it: by its hash, or as it is where it
/// is short.
fn held(node: &[u8]) -> Vec<u8> {
    if node.len() < 32 {
        node.to_vec()
    } else {
        let mut item = vec![0xa0];
        item.extend_from_slice(&keccak256(node).0);
        item
    }
}

/// Something for a place in a branch that the key does not lead to.
fn stray_child(dice: &mut Dice) -> Vec<u8> {
    match dice.roll(8) {
        0 | 1 | 2 => vec![0x80],
        3 => reference(dice.roll(256) as u8),
        4 => {
            let path_len = dice.roll(6) as usize;
            let path = dice.bytes(path_len).iter().map(|b| b & 0x0f).collect::<Vec<u8>>();
            let value_len = 1 + dice.roll(4) as usize;
            let mut payload = path_item(true, &path);
            payload.extend_from_slice(&string(&dice.bytes(value_len)));
            list(payload)
        }
        5 => {
            let mut payload = path_item(false, &[dice.roll(16) as u8]);
            let inner_len = dice.roll(20) as usize;
            payload.extend_from_slice(&list(dice.bytes(inner_len)));
            list(payload)
        }
        6 => {
            let len = dice.roll(34) as usize;
            list(dice.bytes(len))
        }
        _ => {
            let len = dice.roll(40) as usize;
            string(&dice.bytes(len))
        }
    }
}

/// A chain of nodes towards the key, with faults thrown in: paths that are
/// too long or lead elsewhere, children held in place, stray items.
fn crafted_proof(dice: &mut Dice, key: &[u8; 32]) -> ([u8; 32], Vec<u8>, Vec<Vec<u8>>) {
    // The kinds of the nodes from the top: 0 branch, 1 extension, 2 leaf.
    let mut plan: Vec<(u8, usize, usize)> = Vec::new();
    let mut at = 0usize;
    let steps = 1 + dice.roll(6) as usize;
    for step in 0..steps {
        let kind = if step + 1 == steps { 2 - (dice.roll(5) / 4) as u8 } else { dice.roll(2) as u8 };
        let len = match kind {
            0 => 1,
            1 => {
                let most = if dice.roll(10) == 0 { 70 } else { 12 };
                1 + dice.roll(most) as usize
            }
            _ => match dice.roll(10) {
                0 => dice.roll(80) as usize,
                1 => 64usize.saturating_sub(at) + 1 + dice.roll(3) as usize,
                _ => 64usize.saturating_sub(at),
            },
        };
        plan.push((kind, at, len));
        at += len;
    }
    let value_len = 1 + dice.roll(40) as usize;
    let value = dice.bytes(value_len);

    let mut nodes: Vec<Vec<u8>> = Vec::new();
    let mut below: Vec<u8> = string(&value);
    for (kind, at, len) in plan.iter().rev() {
        let nibbles: Vec<u8> = (0..*len)
            .map(|i| if dice.roll(50) == 0 { dice.roll(16) as u8 } else { nibble(key, at + i) })
            .collect();
        let node = match kind {
            0 => {
                let mut payload = Vec::new();
                for index in 0..16u8 {
                    if index == nibble(key, *at) {
                        payload.extend_from_slice(&below);
                    } else {
                        payload.extend_from_slice(&stray_child(dice));
                    }
                }
                payload.extend_from_slice(&if dice.roll(20) == 0 { dice.bytes(2) } else { vec![0x80] });
                list(payload)
            }
            1 => {
                let mut payload = path_item(false, &nibbles);
                payload.extend_from_slice(&below);
                list(payload)
            }
            _ => {
                let mut payload = path_item(true, &nibbles);
                payload.extend_from_slice(&string(&value));
                if dice.roll(30) == 0 {
                    payload.extend_from_slice(&dice.bytes(3));
                }
                list(payload)
            }
        };
        below = held(&node);
        if node.len() >= 32 || dice.roll(4) == 0 {
            nodes.push(node);
        }
    }
    nodes.reverse();
    if dice.roll(12) == 0 && !nodes.is_empty() {
        let which = dice.roll(nodes.len() as u64) as usize;
        if !nodes[which].is_empty() {
            let place = dice.roll(nodes[which].len() as u64) as usize;
            nodes[which][place] ^= 1 << dice.roll(8);
        }
    }
    let root = match nodes.first() {
        Some(node) => keccak256(node).0,
        None => [0u8; 32],
    };
    (root, value, nodes)
}

/// Puts crafted proofs to the check and counts what comes of them: proofs
/// accepted, proofs refused because the walk would stop, proofs refused by
/// the trie crate.
fn answers(seed: u64) -> (u32, u32, u32) {
    let mut dice = Dice(seed);
    let mut accepted = 0;
    let mut refused_for_stopping = 0;
    let mut refused_otherwise = 0;
    for _ in 0..3_000 {
        let mut key = [0u8; 32];
        key.copy_from_slice(&dice.bytes(32));
        let (root, value, proof) = crafted_proof(&mut dice, &key);
        match verify_trie_proof(&root, &key, value, &proof) {
            Ok(()) => {
                accepted += 1;
            }
            Err(reason) => {
                if reason == STOPS {
                    refused_for_stopping += 1;
                } else {
                    refused_otherwise += 1;
                }
            }
        }
    }
    (accepted, refused_for_stopping, refused_otherwise)
}

#[test]
fn crafted_proofs_are_answered() {
    let (accepted, refused_for_stopping, refused_otherwise) = answers(0x9e37_79b9_7f4a_7c15);
    assert!(accepted > 10);
    assert!(refused_for_stopping > 10);
    assert!(refused_otherwise > 10);
}

#[test]
fn more_crafted_proofs_are_answered() {
    let (accepted, refused_for_stopping, refused_otherwise) = answers(0x0123_4567_89ab_cdef);
    assert!(accepted > 10);
    assert!(refused_for_stopping > 10);
    assert!(refused_otherwise > 10);
}

#[test]
fn yet_more_crafted_proofs_are_answered() {
    let (accepted, refused_for_stopping, refused_otherwise) = answers(0xfeed_face_cafe_beef);
    assert!(accepted + refused_for_stopping + refused_otherwise == 3_000);
}
