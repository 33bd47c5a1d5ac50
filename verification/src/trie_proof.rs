//! Trie proofs: the walk that the trie crate makes through a proof, followed
//! here far enough to tell whether it would stop the program, and the check
//! of a proof on which it does not.
//!
//! The trie crate goes through the nodes of a proof in their order. It takes
//! a node where the node is what the node before it refers to, decodes it,
//! and follows the key: through a branch by the key's next nibble, through an
//! extension or a leaf by the node's path. It stops the program in three
//! places: where it decodes a leaf or an extension whose path has more than
//! 64 nibbles, where the path walked would pass 64 nibbles, and where an
//! extension that a branch holds in place leads to anything but a branch.
//! Everywhere else it answers. A proof that leads it to one of the three
//! places is refused here; every other proof is handed to it.

use crate::ethereum::{check_trie_proof, keccak256, keccak256_digest, trie_proof_outcome, B256};
use vstd::prelude::*;
use vstd::string::StringExecFns;

verus! {

/// The number of nibbles in a key.
pub const KEY_NIBBLES: usize = 64;

/// The number that the `n` bytes from `at` spell, most significant first.
pub open spec fn be_number(s: Seq<u8>, at: int, n: nat) -> nat
    decreases n,
{
    if n == 0 {
        0
    } else {
        be_number(s, at, (n - 1) as nat) * 256 + s[at + n - 1] as nat
    }
}

/// More bytes spell no smaller a number.
pub proof fn lemma_be_number_grows(s: Seq<u8>, at: int, m: nat, n: nat)
    requires
        m <= n,
    ensures
        be_number(s, at, m) <= be_number(s, at, n),
    decreases n,
{
    if m < n {
        lemma_be_number_grows(s, at, m, (n - 1) as nat);
    }
}

/// The item that starts at `at` within the bytes up to `end`, as the trie
/// crate's decoder reads its header: whether the item is a list, where its
/// payload starts and where the item ends. There is none where the decoder
/// gives an error: where the item does not lie before `end`, where one byte
/// below 0x80 is written after a header, where a length is written with a
/// leading zero, and where a length below 56 is written in the long form.
pub open spec fn item_at(s: Seq<u8>, at: int, end: int) -> Option<(bool, int, int)> {
    if !(0 <= at < end <= s.len()) {
        None
    } else {
        let b = s[at];
        if b < 0x80 {
            Some((false, at, at + 1))
        } else if b <= 0xb7 {
            let payload = b - 0x80;
            if payload == 1 && (at + 1 >= end || s[at + 1] < 0x80) {
                None
            } else if at + 1 + payload > end {
                None
            } else {
                Some((false, at + 1, at + 1 + payload))
            }
        } else if 0xc0 <= b <= 0xf7 {
            let payload = b - 0xc0;
            if at + 1 + payload > end {
                None
            } else {
                Some((true, at + 1, at + 1 + payload))
            }
        } else {
            let list = b >= 0xf8;
            let width: int = if list {
                b - 0xf7
            } else {
                b - 0xb7
            };
            if at + 1 + width > end {
                None
            } else if s[at + 1] == 0 {
                None
            } else {
                let payload = be_number(s, at + 1, width as nat);
                if payload < 56 || at + 1 + width + payload > end {
                    None
                } else {
                    Some((list, at + 1 + width, at + 1 + width + payload))
                }
            }
        }
    }
}

/// The number of items that fill the bytes from `at` to `end`; none where the
/// decoder gives an error on one of them.
pub open spec fn item_count(s: Seq<u8>, at: int, end: int) -> Option<nat>
    decreases end - at,
{
    if at >= end {
        if at == end {
            Some(0)
        } else {
            None
        }
    } else {
        match item_at(s, at, end) {
            Some((_, _, next)) => if next > at {
                match item_count(s, next, end) {
                    Some(n) => Some(n + 1),
                    None => None,
                }
            } else {
                None
            },
            None => None,
        }
    }
}

/// Where the `n`th of the items from `at` to `end` starts and ends.
pub open spec fn item_place(s: Seq<u8>, at: int, end: int, n: nat) -> (int, int)
    decreases n,
{
    match item_at(s, at, end) {
        Some((_, _, next)) => if n == 0 {
            (at, next)
        } else {
            item_place(s, next, end, (n - 1) as nat)
        },
        None => (at, at),
    }
}

/// What the trie crate's decoder makes of a node.
pub enum Shape {
    /// The decoder gives an error.
    Fails,
    /// The decoder stops the program.
    Stops,
    /// The empty node.
    Empty,
    /// A branch, whose 17 items fill the bytes from `at` to `end`.
    Branch { at: int, end: int },
    /// A leaf with a path of so many nibbles.
    Leaf { nibbles: int },
    /// An extension with a path of so many nibbles, and the place of its
    /// child.
    Extension { nibbles: int, child_at: int, child_end: int },
}

/// Whether the 17 items from `at` to `end` are those of a branch: each of the
/// first 16 is no longer than 33 bytes, and the last is the empty string.
pub open spec fn branch_decodes(s: Seq<u8>, at: int, end: int) -> bool {
    &&& forall|i: nat|
        i < 16 ==> (#[trigger] item_place(s, at, end, i)).1 - item_place(s, at, end, i).0 <= 33
    &&& item_place(s, at, end, 16).1 - item_place(s, at, end, 16).0 == 1
    &&& s[item_place(s, at, end, 16).0] == 0x80
}

/// What the decoder makes of the two items from `at` to `end`. The first is
/// the path: a string whose first byte tells in its high nibble whether the
/// node is a leaf (2 or 3) and whether the number of nibbles is odd (1 or 3).
/// The decoder stops where the path has more than 64 nibbles, before it looks
/// at the second item. A leaf's second item is a string; an extension's is no
/// longer than 33 bytes.
pub open spec fn pair_shape(s: Seq<u8>, at: int, end: int) -> Shape {
    let path = item_place(s, at, end, 0);
    let second = item_place(s, at, end, 1);
    match item_at(s, path.0, path.1) {
        Some((false, payload_at, payload_end)) => {
            let bytes = payload_end - payload_at;
            if bytes == 0 {
                Shape::Fails
            } else {
                let flag = s[payload_at] / 16;
                let nibbles = 2 * (bytes - 1) + flag % 2;
                if flag > 3 {
                    Shape::Fails
                } else if nibbles > KEY_NIBBLES {
                    Shape::Stops
                } else if flag >= 2 {
                    match item_at(s, second.0, second.1) {
                        Some((false, _, _)) => Shape::Leaf { nibbles },
                        _ => Shape::Fails,
                    }
                } else if second.1 - second.0 <= 33 {
                    Shape::Extension { nibbles, child_at: second.0, child_end: second.1 }
                } else {
                    Shape::Fails
                }
            }
        },
        _ => Shape::Fails,
    }
}

/// What the decoder makes of the node in the bytes from `at` to `end`.
pub open spec fn shape(s: Seq<u8>, at: int, end: int) -> Shape {
    match item_at(s, at, end) {
        None => Shape::Fails,
        Some((false, payload_at, item_end)) => if payload_at == item_end {
            Shape::Empty
        } else {
            Shape::Fails
        },
        Some((true, payload_at, item_end)) => match item_count(s, payload_at, item_end) {
            None => Shape::Fails,
            Some(count) => if count == 17 {
                if branch_decodes(s, payload_at, item_end) {
                    Shape::Branch { at: payload_at, end: item_end }
                } else {
                    Shape::Fails
                }
            } else if count == 2 {
                pair_shape(s, payload_at, item_end)
            } else {
                Shape::Fails
            },
        },
    }
}

/// The `i`th nibble of the key.
pub open spec fn key_nibble(key: Seq<u8>, i: int) -> nat {
    if i % 2 == 0 {
        (key[i / 2] / 16) as nat
    } else {
        (key[i / 2] % 16) as nat
    }
}

/// What the walk comes to at a node.
pub enum Walk {
    /// The trie crate stops the program.
    Stops,
    /// The walk ends: with an error, with a value, or off the key.
    Ends,
    /// The walk goes on to the node that `child` refers to, with so many
    /// nibbles walked.
    Goes { walked: int, child: Seq<u8> },
}

/// The walk through a branch whose items fill the bytes from `at` to `end`,
/// with `walked` nibbles of the key behind it. Only the child under the
/// key's next nibble counts. An empty child ends the walk; a child of 33 bytes
/// refers to the next node; any other child is a node held in place. Behind a
/// leaf or an extension in place the path walked must not pass 64 nibbles, and
/// an extension in place must lead to a branch, or the program stops. The
/// tests on the places of a node in place hold of every node; they let the
/// walk be seen to end.
pub open spec fn branch_walk(s: Seq<u8>, at: int, end: int, key: Seq<u8>, walked: int) -> Walk
    decreases end - at,
{
    if walked >= KEY_NIBBLES {
        Walk::Ends
    } else {
        let child = item_place(s, at, end, key_nibble(key, walked));
        let size = child.1 - child.0;
        if size == 1 && s[child.0] == 0x80 {
            Walk::Ends
        } else if size == 33 {
            Walk::Goes { walked: walked + 1, child: s.subrange(child.0, child.1) }
        } else {
            match shape(s, child.0, child.1) {
                Shape::Fails => Walk::Ends,
                Shape::Stops => Walk::Stops,
                Shape::Empty => Walk::Ends,
                Shape::Branch { at: inner_at, end: inner_end } => if at <= inner_at && inner_end
                    <= end && inner_end - inner_at < end - at {
                    branch_walk(s, inner_at, inner_end, key, walked + 1)
                } else {
                    Walk::Ends
                },
                Shape::Leaf { nibbles } => if walked + 1 + nibbles > KEY_NIBBLES {
                    Walk::Stops
                } else {
                    Walk::Ends
                },
                Shape::Extension { nibbles, child_at, child_end } => if walked + 1 + nibbles
                    > KEY_NIBBLES {
                    Walk::Stops
                } else {
                    match shape(s, child_at, child_end) {
                        Shape::Fails => Walk::Ends,
                        Shape::Branch { at: inner_at, end: inner_end } => if at <= inner_at
                            && inner_end <= end && inner_end - inner_at < end - at {
                            branch_walk(s, inner_at, inner_end, key, walked + 1 + nibbles)
                        } else {
                            Walk::Ends
                        },
                        _ => Walk::Stops,
                    }
                },
            }
        }
    }
}

/// The walk through the node in the bytes from `at` to `end`, with `walked`
/// nibbles of the key behind it. Behind a leaf or an extension the path
/// walked must not pass 64 nibbles, or the program stops. A leaf ends the
/// walk; an extension goes on to the node that its child of 33 bytes refers
/// to, or through the child that it holds in place.
pub open spec fn node_walk(s: Seq<u8>, at: int, end: int, key: Seq<u8>, walked: int) -> Walk
    decreases end - at,
{
    match shape(s, at, end) {
        Shape::Fails => Walk::Ends,
        Shape::Stops => Walk::Stops,
        Shape::Empty => Walk::Ends,
        Shape::Branch { at: inner_at, end: inner_end } => branch_walk(
            s,
            inner_at,
            inner_end,
            key,
            walked,
        ),
        Shape::Leaf { nibbles } => if walked + nibbles > KEY_NIBBLES {
            Walk::Stops
        } else {
            Walk::Ends
        },
        Shape::Extension { nibbles, child_at, child_end } => if walked + nibbles > KEY_NIBBLES {
            Walk::Stops
        } else if child_end - child_at == 33 {
            Walk::Goes { walked: walked + nibbles, child: s.subrange(child_at, child_end) }
        } else if at <= child_at <= child_end <= end && child_end - child_at < end - at {
            node_walk(s, child_at, child_end, key, walked + nibbles)
        } else {
            Walk::Ends
        },
    }
}

/// What refers to a node: the node itself where it is shorter than 32 bytes,
/// else the byte 0xa0 and the node's Keccak-256 digest.
pub open spec fn reference_of(node: Seq<u8>) -> Seq<u8> {
    if node.len() < 32 {
        node
    } else {
        seq![0xa0u8] + keccak256_digest(node)
    }
}

/// Whether the walk stops the program at or after the `i`th node of the
/// proof, which `expected` refers to, with `walked` nibbles of the key behind
/// it. A node that is not what `expected` refers to ends the walk.
pub open spec fn walk_stops_from(
    proof: Seq<Seq<u8>>,
    key: Seq<u8>,
    i: int,
    walked: int,
    expected: Seq<u8>,
) -> bool
    decreases proof.len() - i,
{
    if i < 0 || i >= proof.len() {
        false
    } else if reference_of(proof[i]) != expected {
        false
    } else {
        match node_walk(proof[i], 0, proof[i].len() as int, key, walked) {
            Walk::Stops => true,
            Walk::Ends => false,
            Walk::Goes { walked, child } => walk_stops_from(proof, key, i + 1, walked, child),
        }
    }
}

/// Whether the trie crate stops the program on this proof for this key under
/// this root. Without a node, or with the empty node first, it answers at
/// once; else it walks from the node that the root refers to.
pub open spec fn walk_stops(root: Seq<u8>, key: Seq<u8>, proof: Seq<Seq<u8>>) -> bool {
    &&& proof.len() > 0
    &&& proof[0] != seq![0x80u8]
    &&& walk_stops_from(proof, key, 0, 0, seq![0xa0u8] + root)
}

/// An item, by whether it is a list, where its payload starts and where the
/// item ends.
#[derive(Clone, Copy, Debug, PartialEq, Eq)]
pub struct Item {
    pub list: bool,
    pub payload_at: usize,
    pub end: usize,
}

/// The item that starts at `at` within the bytes up to `end`.
pub fn read_item(s: &Vec<u8>, at: usize, end: usize) -> (r: Option<Item>)
    ensures
        match r {
            Some(item) => item_at(s@, at as int, end as int) == Some(
                (item.list, item.payload_at as int, item.end as int),
            ) && at <= item.payload_at <= item.end <= end <= s@.len() && at < item.end,
            None => item_at(s@, at as int, end as int) is None,
        },
{
    if at >= end || end > s.len() {
        return None;
    }
    let b = s[at];
    let room = end - at - 1;
    if b < 0x80 {
        return Some(Item { list: false, payload_at: at, end: at + 1 });
    }
    if b <= 0xb7 {
        let payload = (b - 0x80) as usize;
        if payload == 1 && (room == 0 || s[at + 1] < 0x80) {
            return None;
        }
        if payload > room {
            return None;
        }
        return Some(Item { list: false, payload_at: at + 1, end: at + 1 + payload });
    }
    if 0xc0 <= b && b <= 0xf7 {
        let payload = (b - 0xc0) as usize;
        if payload > room {
            return None;
        }
        return Some(Item { list: true, payload_at: at + 1, end: at + 1 + payload });
    }
    let list = b >= 0xf8;
    let width = if list {
        (b - 0xf7) as usize
    } else {
        (b - 0xb7) as usize
    };
    if width > room {
        return None;
    }
    if s[at + 1] == 0 {
        return None;
    }
    let mut payload: usize = 0;
    let mut i: usize = 0;
    while i < width
        invariant
            i <= width <= 8,
            width <= room,
            room == end - at - 1,
            at < end <= s@.len(),
            b == s@[at as int],
            b > 0xb7 && !(0xc0 <= b <= 0xf7),
            list == (b >= 0xf8),
            width == if list {
                b - 0xf7
            } else {
                b - 0xb7
            },
            s@[at + 1] != 0,
            payload == be_number(s@, at + 1, i as nat),
            payload <= room,
        decreases width - i,
    {
        let wide: u128 = (payload as u128) * 256 + (s[at + 1 + i] as u128);
        assert(wide == be_number(s@, at + 1, (i + 1) as nat));
        if wide > room as u128 {
            proof {
                lemma_be_number_grows(s@, at + 1, (i + 1) as nat, width as nat);
            }
            return None;
        }
        payload = wide as usize;
        i = i + 1;
    }
    if payload < 56 || payload > room - width {
        return None;
    }
    Some(Item { list, payload_at: at + 1 + width, end: at + 1 + width + payload })
}

/// The number of items that fill the bytes from `at` to `end`.
pub fn count_items(s: &Vec<u8>, at: usize, end: usize) -> (r: Option<usize>)
    ensures
        match r {
            Some(n) => item_count(s@, at as int, end as int) == Some(n as nat),
            None => item_count(s@, at as int, end as int) is None,
        },
{
    if at > end {
        return None;
    }
    let mut here: usize = at;
    let mut seen: usize = 0;
    while here < end
        invariant
            at <= here <= end,
            seen <= here - at,
            item_count(s@, at as int, end as int) == match item_count(
                s@,
                here as int,
                end as int,
            ) {
                Some(n) => Some(n + seen as nat),
                None => None,
            },
        decreases end - here,
    {
        match read_item(s, here, end) {
            None => {
                return None;
            },
            Some(item) => {
                here = item.end;
                seen = seen + 1;
            },
        }
    }
    Some(seen)
}

/// Where items fill the bytes from `at` to `end`, each of the first `count`
/// of them has its place within these bytes.
pub proof fn lemma_item_place_within(s: Seq<u8>, at: int, end: int, n: nat)
    requires
        item_count(s, at, end) is Some,
        n < item_count(s, at, end)->Some_0,
    ensures
        at <= item_place(s, at, end, n).0 < item_place(s, at, end, n).1 <= end <= s.len(),
        item_at(s, item_place(s, at, end, n).0, end) is Some,
        item_at(s, item_place(s, at, end, n).0, end)->Some_0.2 == item_place(s, at, end, n).1,
    decreases n,
{
    if n > 0 {
        let next = item_at(s, at, end)->Some_0.2;
        lemma_item_place_within(s, next, end, (n - 1) as nat);
    }
}

/// Where the `n`th of the items from `at` to `end` starts and ends.
pub fn find_item(s: &Vec<u8>, at: usize, end: usize, n: usize) -> (r: (usize, usize))
    requires
        item_count(s@, at as int, end as int) is Some,
        n < item_count(s@, at as int, end as int)->Some_0,
    ensures
        (r.0 as int, r.1 as int) == item_place(s@, at as int, end as int, n as nat),
        at <= r.0 < r.1 <= end <= s@.len(),
{
    proof {
        lemma_item_place_within(s@, at as int, end as int, n as nat);
    }
    let mut here: usize = at;
    let mut left: usize = n;
    loop
        invariant
            at <= here <= end <= s@.len(),
            left <= n,
            item_count(s@, here as int, end as int) is Some,
            left < item_count(s@, here as int, end as int)->Some_0,
            item_place(s@, at as int, end as int, n as nat) == item_place(
                s@,
                here as int,
                end as int,
                left as nat,
            ),
        decreases left,
    {
        match read_item(s, here, end) {
            None => {
                return (here, here);
            },
            Some(item) => {
                if left == 0 {
                    return (here, item.end);
                }
                here = item.end;
                left = left - 1;
            },
        }
    }
}

/// What the decoder makes of a node, by places in the node's bytes.
#[derive(Clone, Copy, Debug, PartialEq, Eq)]
pub enum NodeShape {
    Fails,
    Stops,
    Empty,
    Branch { at: usize, end: usize },
    Leaf { nibbles: usize },
    Extension { nibbles: usize, child_at: usize, child_end: usize },
}

impl View for NodeShape {
    type V = Shape;

    open spec fn view(&self) -> Shape {
        match *self {
            NodeShape::Fails => Shape::Fails,
            NodeShape::Stops => Shape::Stops,
            NodeShape::Empty => Shape::Empty,
            NodeShape::Branch { at, end } => Shape::Branch { at: at as int, end: end as int },
            NodeShape::Leaf { nibbles } => Shape::Leaf { nibbles: nibbles as int },
            NodeShape::Extension { nibbles, child_at, child_end } => Shape::Extension {
                nibbles: nibbles as int,
                child_at: child_at as int,
                child_end: child_end as int,
            },
        }
    }
}

/// What holds of the places in a shape that was read from the bytes from
/// `at` to `end`: a branch's items and an extension's child lie within these
/// bytes and are fewer than they, and no path has more than 64 nibbles.
pub open spec fn shape_within(shape: Shape, at: int, end: int) -> bool {
    match shape {
        Shape::Branch { at: inner_at, end: inner_end } => at < inner_at <= inner_end <= end,
        Shape::Leaf { nibbles } => 0 <= nibbles <= KEY_NIBBLES,
        Shape::Extension { nibbles, child_at, child_end } => 0 <= nibbles <= KEY_NIBBLES && at
            < child_at < child_end <= end,
        _ => true,
    }
}

/// The places in a shape lie in the node: whatever the bytes, a branch's
/// items and an extension's child lie within the bytes that the shape was read
/// from and are fewer than they. So the walk never leaves off for the places
/// of a node in place.
pub proof fn lemma_shape_within(s: Seq<u8>, at: int, end: int)
    ensures
        shape_within(shape(s, at, end), at, end),
{
    match item_at(s, at, end) {
        Some((true, payload_at, item_end)) => {
            if item_count(s, payload_at, item_end) == Some(2nat) {
                lemma_item_place_within(s, payload_at, item_end, 0);
                lemma_item_place_within(s, payload_at, item_end, 1);
            }
        },
        _ => {},
    }
}

/// What the decoder makes of the two items from `at` to `end`.
fn read_pair(s: &Vec<u8>, at: usize, end: usize) -> (r: NodeShape)
    requires
        item_count(s@, at as int, end as int) == Some(2nat),
    ensures
        r@ == pair_shape(s@, at as int, end as int),
        shape_within(r@, at as int - 1, end as int),
{
    let path = find_item(s, at, end, 0);
    let second = find_item(s, at, end, 1);
    match read_item(s, path.0, path.1) {
        Some(item) => {
            if item.list || item.end == item.payload_at {
                return NodeShape::Fails;
            }
            let bytes = item.end - item.payload_at;
            let flag = s[item.payload_at] / 16;
            if flag > 3 {
                return NodeShape::Fails;
            }
            let odd = (flag % 2) as usize;
            if bytes - 1 > 32 || (bytes - 1 == 32 && odd == 1) {
                return NodeShape::Stops;
            }
            let nibbles = 2 * (bytes - 1) + odd;
            if flag >= 2 {
                match read_item(s, second.0, second.1) {
                    Some(value) => if value.list {
                        NodeShape::Fails
                    } else {
                        NodeShape::Leaf { nibbles }
                    },
                    None => NodeShape::Fails,
                }
            } else if second.1 - second.0 <= 33 {
                NodeShape::Extension { nibbles, child_at: second.0, child_end: second.1 }
            } else {
                NodeShape::Fails
            }
        },
        None => NodeShape::Fails,
    }
}

/// Whether the 17 items from `at` to `end` are those of a branch.
fn read_branch(s: &Vec<u8>, at: usize, end: usize) -> (r: bool)
    requires
        item_count(s@, at as int, end as int) == Some(17nat),
    ensures
        r == branch_decodes(s@, at as int, end as int),
{
    let mut i: usize = 0;
    while i < 16
        invariant
            i <= 16,
            item_count(s@, at as int, end as int) == Some(17nat),
            forall|j: nat|
                j < i ==> (#[trigger] item_place(s@, at as int, end as int, j)).1 - item_place(
                    s@,
                    at as int,
                    end as int,
                    j,
                ).0 <= 33,
        decreases 16 - i,
    {
        let child = find_item(s, at, end, i);
        if child.1 - child.0 > 33 {
            return false;
        }
        i = i + 1;
    }
    let last = find_item(s, at, end, 16);
    last.1 - last.0 == 1 && s[last.0] == 0x80
}

/// What the decoder makes of the node in the bytes from `at` to `end`.
pub fn read_shape(s: &Vec<u8>, at: usize, end: usize) -> (r: NodeShape)
    ensures
        r@ == shape(s@, at as int, end as int),
        shape_within(r@, at as int, end as int),
{
    match read_item(s, at, end) {
        None => NodeShape::Fails,
        Some(item) => {
            if !item.list {
                if item.payload_at == item.end {
                    return NodeShape::Empty;
                }
                return NodeShape::Fails;
            }
            match count_items(s, item.payload_at, item.end) {
                None => NodeShape::Fails,
                Some(count) => {
                    if count == 17 {
                        if read_branch(s, item.payload_at, item.end) {
                            NodeShape::Branch { at: item.payload_at, end: item.end }
                        } else {
                            NodeShape::Fails
                        }
                    } else if count == 2 {
                        read_pair(s, item.payload_at, item.end)
                    } else {
                        NodeShape::Fails
                    }
                },
            }
        },
    }
}

/// What the walk comes to at a node, by places in the node's bytes.
#[derive(Clone, Copy, Debug, PartialEq, Eq)]
pub enum Step {
    Stops,
    Ends,
    Goes { walked: usize, child_at: usize, child_end: usize },
}

/// The walk that a step stands for in the bytes `s`.
pub open spec fn step_walk(step: Step, s: Seq<u8>) -> Walk {
    match step {
        Step::Stops => Walk::Stops,
        Step::Ends => Walk::Ends,
        Step::Goes { walked, child_at, child_end } => Walk::Goes {
            walked: walked as int,
            child: s.subrange(child_at as int, child_end as int),
        },
    }
}

/// What holds of a step that goes on: no more than 64 nibbles are walked, and
/// the child's 33 bytes lie in the node.
pub open spec fn step_within(step: Step, s: Seq<u8>) -> bool {
    match step {
        Step::Goes { walked, child_at, child_end } => walked <= KEY_NIBBLES && child_at + 33
            == child_end <= s.len(),
        _ => true,
    }
}

/// The `i`th nibble of the key.
pub fn nibble_of(key: &B256, i: usize) -> (nibble: usize)
    requires
        i < KEY_NIBBLES,
    ensures
        nibble == key_nibble(key@, i as int),
        nibble < 16,
{
    let byte = key[i / 2];
    if i % 2 == 0 {
        (byte / 16) as usize
    } else {
        (byte % 16) as usize
    }
}

/// The walk through a branch whose items fill the bytes from `at` to `end`.
pub fn branch_step(s: &Vec<u8>, at: usize, end: usize, key: &B256, walked: usize) -> (r: Step)
    requires
        item_count(s@, at as int, end as int) == Some(17nat),
        walked <= KEY_NIBBLES,
    ensures
        step_walk(r, s@) == branch_walk(s@, at as int, end as int, key@, walked as int),
        step_within(r, s@),
    decreases end - at,
{
    if walked >= KEY_NIBBLES {
        return Step::Ends;
    }
    let child = find_item(s, at, end, nibble_of(key, walked));
    let size = child.1 - child.0;
    if size == 1 && s[child.0] == 0x80 {
        return Step::Ends;
    }
    if size == 33 {
        return Step::Goes { walked: walked + 1, child_at: child.0, child_end: child.1 };
    }
    match read_shape(s, child.0, child.1) {
        NodeShape::Fails => Step::Ends,
        NodeShape::Stops => Step::Stops,
        NodeShape::Empty => Step::Ends,
        NodeShape::Branch { at: inner_at, end: inner_end } => {
            proof {
                lemma_branch_has_items(s@, child.0 as int, child.1 as int);
            }
            branch_step(s, inner_at, inner_end, key, walked + 1)
        },
        NodeShape::Leaf { nibbles } => if nibbles > KEY_NIBBLES - walked - 1 {
            Step::Stops
        } else {
            Step::Ends
        },
        NodeShape::Extension { nibbles, child_at, child_end } => {
            if nibbles > KEY_NIBBLES - walked - 1 {
                return Step::Stops;
            }
            match read_shape(s, child_at, child_end) {
                NodeShape::Fails => Step::Ends,
                NodeShape::Branch { at: inner_at, end: inner_end } => {
                    proof {
                        lemma_branch_has_items(s@, child_at as int, child_end as int);
                    }
                    branch_step(s, inner_at, inner_end, key, walked + 1 + nibbles)
                },
                _ => Step::Stops,
            }
        },
    }
}

/// A node that decodes as a branch has 17 items.
pub proof fn lemma_branch_has_items(s: Seq<u8>, at: int, end: int)
    requires
        shape(s, at, end) is Branch,
    ensures
        item_count(s, shape(s, at, end)->Branch_at, shape(s, at, end)->Branch_end) == Some(
            17nat,
        ),
{
}

/// The walk through the node in the bytes from `at` to `end`.
pub fn node_step(s: &Vec<u8>, at: usize, end: usize, key: &B256, walked: usize) -> (r: Step)
    requires
        walked <= KEY_NIBBLES,
    ensures
        step_walk(r, s@) == node_walk(s@, at as int, end as int, key@, walked as int),
        step_within(r, s@),
    decreases end - at,
{
    match read_shape(s, at, end) {
        NodeShape::Fails => Step::Ends,
        NodeShape::Stops => Step::Stops,
        NodeShape::Empty => Step::Ends,
        NodeShape::Branch { at: inner_at, end: inner_end } => {
            proof {
                lemma_branch_has_items(s@, at as int, end as int);
            }
            branch_step(s, inner_at, inner_end, key, walked)
        },
        NodeShape::Leaf { nibbles } => if nibbles > KEY_NIBBLES - walked {
            Step::Stops
        } else {
            Step::Ends
        },
        NodeShape::Extension { nibbles, child_at, child_end } => {
            if nibbles > KEY_NIBBLES - walked {
                Step::Stops
            } else if child_end - child_at == 33 {
                Step::Goes { walked: walked + nibbles, child_at, child_end }
            } else {
                node_step(s, child_at, child_end, key, walked + nibbles)
            }
        },
    }
}

/// Whether `expected` is what refers to `node`.
pub fn refers_to(expected: &Vec<u8>, node: &Vec<u8>) -> (r: bool)
    ensures
        r == (reference_of(node@) == expected@),
{
    if node.len() < 32 {
        if expected.len() != node.len() {
            return false;
        }
        let mut i: usize = 0;
        while i < node.len()
            invariant
                i <= node.len(),
                expected.len() == node.len(),
                node.len() < 32,
                forall|j: int| 0 <= j < i ==> node@[j] == expected@[j],
            decreases node.len() - i,
        {
            if node[i] != expected[i] {
                return false;
            }
            i = i + 1;
        }
        assert(node@ =~= expected@);
        true
    } else {
        let digest = keccak256(node.as_slice());
        assert(digest@.len() == 32);
        assert(reference_of(node@) == seq![0xa0u8] + digest@);
        assert(reference_of(node@).len() == 33);
        if expected.len() != 33 || expected[0] != 0xa0 {
            assert(reference_of(node@)[0] == 0xa0u8);
            return false;
        }
        let mut i: usize = 0;
        while i < 32
            invariant
                i <= 32,
                expected.len() == 33,
                digest@.len() == 32,
                reference_of(node@) == seq![0xa0u8] + digest@,
                forall|j: int| 0 <= j < i ==> digest@[j] == expected@[j + 1],
            decreases 32 - i,
        {
            if digest[i] != expected[i + 1] {
                proof {
                    let reference = seq![0xa0u8] + digest@;
                    assert(reference[i as int + 1] == digest@[i as int]);
                    assert(reference[i as int + 1] != expected@[i as int + 1]);
                }
                return false;
            }
            i = i + 1;
        }
        assert(reference_of(node@) =~= expected@);
        true
    }
}

/// Whether the trie crate stops the program on this proof for this key under
/// this root.
pub fn proof_stops(root: &B256, key: &B256, proof: &Vec<Vec<u8>>) -> (stops: bool)
    ensures
        stops == walk_stops(root@, key@, proof.deep_view()),
{
    let ghost nodes = proof.deep_view();
    if proof.len() == 0 {
        return false;
    }
    assert(nodes[0] == proof[0]@);
    if proof[0].len() == 1 && proof[0][0] == 0x80 {
        assert(nodes[0] =~= seq![0x80u8]);
        return false;
    }
    assert(nodes[0] != seq![0x80u8]) by {
        if nodes[0] == seq![0x80u8] {
            assert(seq![0x80u8].len() == 1);
            assert(seq![0x80u8][0] == 0x80u8);
        }
    }
    let mut expected: Vec<u8> = Vec::with_capacity(33);
    expected.push(0xa0);
    let mut k: usize = 0;
    while k < 32
        invariant
            k <= 32,
            expected@.len() == k + 1,
            expected@[0] == 0xa0,
            forall|j: int| 0 <= j < k ==> expected@[j + 1] == root@[j],
        decreases 32 - k,
    {
        expected.push(root[k]);
        k = k + 1;
    }
    assert(expected@ =~= seq![0xa0u8] + root@);
    let mut walked: usize = 0;
    let mut i: usize = 0;
    while i < proof.len()
        invariant
            i <= proof.len(),
            nodes == proof.deep_view(),
            nodes.len() == proof.len(),
            walked <= KEY_NIBBLES,
            walk_stops_from(nodes, key@, 0, 0, seq![0xa0u8] + root@) == walk_stops_from(
                nodes,
                key@,
                i as int,
                walked as int,
                expected@,
            ),
        decreases proof.len() - i,
    {
        let node = &proof[i];
        assert(nodes[i as int] == node@);
        if !refers_to(&expected, node) {
            return false;
        }
        match node_step(node, 0, node.len(), key, walked) {
            Step::Stops => {
                return true;
            },
            Step::Ends => {
                return false;
            },
            Step::Goes { walked: further, child_at, child_end } => {
                let mut child: Vec<u8> = Vec::with_capacity(33);
                let mut j: usize = child_at;
                while j < child_end
                    invariant
                        child_at <= j <= child_end <= node@.len(),
                        child@ == node@.subrange(child_at as int, j as int),
                    decreases child_end - j,
                {
                    child.push(node[j]);
                    assert(child@ =~= node@.subrange(child_at as int, j + 1));
                    j = j + 1;
                }
                expected = child;
                walked = further;
            },
        }
        i = i + 1;
    }
    false
}

/// What is wrong with a proof that `value` stands under `key` in the trie
/// with this `root`, if anything: what the trie crate says of it, or, where
/// the trie crate would stop the program on it, that it would.
pub open spec fn proof_fault(root: Seq<u8>, key: Seq<u8>, value: Seq<u8>, proof: Seq<Seq<u8>>)
    -> Option<Seq<char>> {
    if walk_stops(root, key, proof) {
        Some("proof node cannot be decoded"@)
    } else {
        trie_proof_outcome(root, key, value, proof)
    }
}

/// Whether the trie crate answers on the proof and accepts it.
pub open spec fn trie_accepts(root: Seq<u8>, key: Seq<u8>, value: Seq<u8>, proof: Seq<Seq<u8>>)
    -> bool {
    !walk_stops(root, key, proof) && trie_proof_outcome(root, key, value, proof) is None
}

/// Whether the trie crate answers on the proof and refuses it with an error
/// of this text.
pub open spec fn trie_refuses(
    root: Seq<u8>,
    key: Seq<u8>,
    value: Seq<u8>,
    proof: Seq<Seq<u8>>,
    reason: Seq<char>,
) -> bool {
    !walk_stops(root, key, proof) && trie_proof_outcome(root, key, value, proof) == Some(reason)
}

/// Wherever the trie crate answers, its answer stands: on a proof on which it
/// does not stop, what is wrong is what it says.
pub proof fn lemma_fault_is_the_trie_crates(
    root: Seq<u8>,
    key: Seq<u8>,
    value: Seq<u8>,
    proof: Seq<Seq<u8>>,
)
    requires
        !walk_stops(root, key, proof),
    ensures
        proof_fault(root, key, value, proof) == trie_proof_outcome(root, key, value, proof),
{
}

/// Checks a proof that `value` stands under the 32-byte `key` in the trie
/// with this `root`. The trie crate checks it, and its answer is returned; a
/// proof on which it would stop the program is refused without it.
pub fn verify_trie_proof(root: &B256, key: &B256, value: Vec<u8>, proof: &Vec<Vec<u8>>) -> (r:
    Result<(), String>)
    ensures
        match r {
            Ok(_) => proof_fault(root@, key@, value@, proof.deep_view()) is None,
            Err(reason) => proof_fault(root@, key@, value@, proof.deep_view()) == Some(reason@),
        },
{
    if proof_stops(root, key, proof) {
        return Err(String::from_str("proof node cannot be decoded"));
    }
    check_trie_proof(root, key, value, proof)
}

} // verus!
