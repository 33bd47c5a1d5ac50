//! Fixed-depth Merkle aggregation of verified storage slots.
//!
//! The sponge hash itself is computed by the caller. The fold is a state
//! machine: each state either names the pair of field elements to hash next or
//! carries the finished root, and the digest of the named pair moves it on.

use crate::field::{be_value, FieldElement};
use vstd::arithmetic::power2::{lemma2_to64, lemma_pow2_strictly_increases, lemma_pow2_unfold, pow2};
use vstd::prelude::*;

verus! {

/// Largest tree depth that a set of storage slots may ask for.
pub const MAX_TREE_DEPTH: usize = 16;

/// The depth of the smallest complete binary tree with room for `n` leaves:
/// the number of times `n` has to be halved, rounding up, to reach one.
pub open spec fn tree_depth(n: nat) -> nat
    decreases n,
{
    if n <= 1 {
        0
    } else {
        1 + tree_depth(((n + 1) / 2) as nat)
    }
}

/// `tree_depth(n)` is the least `d` with `n <= 2^d`.
pub proof fn lemma_tree_depth_is_least(n: nat)
    ensures
        n <= pow2(tree_depth(n)),
        tree_depth(n) > 0 ==> pow2((tree_depth(n) - 1) as nat) < n,
    decreases n,
{
    lemma2_to64();
    if n > 1 {
        let half = ((n + 1) / 2) as nat;
        lemma_tree_depth_is_least(half);
        let d = tree_depth(half);
        lemma_pow2_unfold(d + 1);
        if d > 0 {
            lemma_pow2_unfold(d);
        }
    }
}

/// A number of leaves that fits in 64 bits asks for a depth of at most 64.
pub proof fn lemma_tree_depth_bound(n: nat)
    requires
        n <= u64::MAX,
    ensures
        tree_depth(n) <= 64,
{
    lemma_tree_depth_is_least(n);
    lemma2_to64();
    if tree_depth(n) > 64 {
        lemma_pow2_strictly_increases(64, (tree_depth(n) - 1) as nat);
    }
}

/// The depth of the tree that holds `n_leaves` leaves.
pub fn merkle_tree_depth(n_leaves: usize) -> (depth: usize)
    ensures
        depth == tree_depth(n_leaves as nat),
        depth <= 64,
{
    proof {
        lemma_tree_depth_bound(n_leaves as nat);
    }
    let mut depth: usize = 0;
    let mut width: usize = n_leaves;
    while width > 1
        invariant
            depth + tree_depth(width as nat) == tree_depth(n_leaves as nat),
            tree_depth(n_leaves as nat) <= 64,
        decreases width,
    {
        width = width / 2 + width % 2;
        depth = depth + 1;
    }
    depth
}

/// Depth and padded size of the tree for `n_leaves` leaves: the padded size is
/// the least power of two that is at least `n_leaves`, the depth its logarithm.
/// Without leaves the depth is 0 and the padded size 1.
pub fn compute_merkle_tree_depth_and_size(n_leaves: usize) -> (r: (usize, usize))
    requires
        tree_depth(n_leaves as nat) < usize::BITS,
    ensures
        r.0 == tree_depth(n_leaves as nat),
        r.1 == pow2(r.0 as nat),
        n_leaves <= r.1,
{
    let depth = merkle_tree_depth(n_leaves);
    let mut size: usize = 1;
    let mut level: usize = 0;
    proof {
        lemma2_to64();
        lemma_tree_depth_is_least(n_leaves as nat);
    }
    while level < depth
        invariant
            level <= depth,
            depth < usize::BITS,
            size == pow2(level as nat),
        decreases depth - level,
    {
        proof {
            lemma_pow2_unfold((level + 1) as nat);
            lemma_pow2_strictly_increases((level + 1) as nat, usize::BITS as nat);
            lemma2_to64();
        }
        size = size * 2;
        level = level + 1;
    }
    (depth, size)
}

/// The two field elements whose hash is the Merkle leaf of one storage slot.
#[derive(Clone, Copy, Debug, PartialEq, Eq)]
pub struct LeafPreimage {
    /// The slot's address, followed by the most significant byte of its value.
    pub first: FieldElement,
    /// The other 31 bytes of the slot's value.
    pub second: FieldElement,
}

impl View for LeafPreimage {
    type V = (nat, nat);

    open spec fn view(&self) -> (nat, nat) {
        (self.first@, self.second@)
    }
}

/// The numbers that a sequence of field elements stands for.
pub open spec fn values(elements: Seq<FieldElement>) -> Seq<nat> {
    Seq::new(elements.len(), |i: int| elements[i]@)
}

/// The pairs of numbers that a sequence of leaf preimages stands for.
pub open spec fn pairs(preimages: Seq<LeafPreimage>) -> Seq<(nat, nat)> {
    Seq::new(preimages.len(), |i: int| preimages[i]@)
}

/// The padding constants of the tree, one for each level, the leaves' first.
pub struct MerkleZeros {
    levels: Vec<FieldElement>,
}

impl View for MerkleZeros {
    type V = Seq<nat>;

    closed spec fn view(&self) -> Seq<nat> {
        values(self.levels@)
    }
}

impl MerkleZeros {
    #[verifier::type_invariant]
    closed spec fn well_formed(self) -> bool {
        self.levels@.len() >= MAX_TREE_DEPTH
    }

    /// Takes a table of padding constants. A table is taken exactly when it
    /// has a constant for each level below `MAX_TREE_DEPTH`.
    pub fn new(levels: Vec<FieldElement>) -> (r: Option<MerkleZeros>)
        ensures
            r is Some <==> levels@.len() >= MAX_TREE_DEPTH,
            r is Some ==> r->Some_0@ == values(levels@),
    {
        if levels.len() >= MAX_TREE_DEPTH {
            Some(MerkleZeros { levels })
        } else {
            None
        }
    }

    /// The number of constants in the table, at least `MAX_TREE_DEPTH`.
    pub fn len(&self) -> (n: usize)
        ensures
            n == self@.len(),
            n >= MAX_TREE_DEPTH,
    {
        proof {
            use_type_invariant(self);
        }
        self.levels.len()
    }

    /// The padding constant of `level`.
    pub fn get(&self, level: usize) -> (zero: Option<FieldElement>)
        ensures
            zero is Some <==> level < self@.len(),
            zero is Some ==> zero->Some_0@ == self@[level as int],
    {
        if level < self.levels.len() {
            Some(self.levels[level])
        } else {
            None
        }
    }
}

/// What a fold holds, as numbers.
#[verifier::ext_equal]
pub struct FoldView {
    /// The padding constants, the leaves' first.
    pub zeros: Seq<nat>,
    /// The depth of the tree.
    pub depth: nat,
    /// The leaf preimages, in the order of the slots.
    pub inputs: Seq<(nat, nat)>,
    /// 0 while the leaves are hashed; `s` while level `s` is built from the
    /// level below it; `depth + 1` when the root stands.
    pub stage: nat,
    /// The finished level below the one that is built.
    pub nodes: Seq<nat>,
    /// The nodes of the level that is built, as far as they are known.
    pub next: Seq<nat>,
}

impl FoldView {
    /// The number of hashes that the stage takes.
    pub open spec fn stage_len(self) -> nat {
        if self.stage == 0 {
            self.inputs.len()
        } else {
            (self.nodes.len() + 1) / 2
        }
    }

    /// Whether the root stands.
    pub open spec fn done(self) -> bool {
        self.stage > self.depth
    }

    /// The pair to hash next. A position past the end of the level below
    /// holds that level's padding constant.
    pub open spec fn pending(self) -> (nat, nat) {
        let i = self.next.len() as int;
        if self.stage == 0 {
            self.inputs[i]
        } else {
            (
                self.nodes[2 * i],
                if 2 * i + 1 < self.nodes.len() {
                    self.nodes[2 * i + 1]
                } else {
                    self.zeros[self.stage - 1]
                },
            )
        }
    }

    /// The root: the one node of the top level, or the padding constant of the
    /// leaves where there is no leaf.
    pub open spec fn root(self) -> nat {
        if self.nodes.len() > 0 {
            self.nodes[0]
        } else {
            self.zeros[0]
        }
    }

    /// The state after `digest` came in as the hash of the pending pair. A
    /// fold whose root stands stays as it is.
    pub open spec fn advance(self, digest: nat) -> FoldView {
        if self.done() {
            self
        } else if self.next.len() + 1 >= self.stage_len() {
            FoldView {
                stage: self.stage + 1,
                nodes: self.next.push(digest),
                next: Seq::empty(),
                ..self
            }
        } else {
            FoldView { next: self.next.push(digest), ..self }
        }
    }

    /// The state in which a fold over `inputs` starts.
    pub open spec fn start(inputs: Seq<(nat, nat)>, zeros: Seq<nat>) -> FoldView {
        FoldView {
            zeros,
            depth: tree_depth(inputs.len()),
            inputs,
            stage: if inputs.len() == 0 {
                1
            } else {
                0
            },
            nodes: Seq::empty(),
            next: Seq::empty(),
        }
    }

    /// What holds of every state that a fold passes through: the tree is as
    /// deep as the leaves ask and no deeper than allowed, each level above
    /// the leaves is as wide as its place in the tree asks, and a hash is
    /// outstanding until the root stands.
    pub open spec fn well_formed(self) -> bool {
        &&& self.depth == tree_depth(self.inputs.len())
        &&& self.depth <= MAX_TREE_DEPTH
        &&& self.zeros.len() >= MAX_TREE_DEPTH
        &&& self.stage <= self.depth + 1
        &&& self.stage == 0 ==> self.nodes.len() == 0 && self.inputs.len() > 0
        &&& self.stage > 0 ==> tree_depth(self.nodes.len()) + self.stage == self.depth + 1
        &&& self.stage > 0 ==> (self.nodes.len() == 0 <==> self.inputs.len() == 0)
        &&& !self.done() ==> self.next.len() < self.stage_len()
        &&& self.done() ==> self.next.len() == 0
    }
}

/// Whether `h` never gives two different pairs the same hash.
pub open spec fn collision_free(h: spec_fn(nat, nat) -> nat) -> bool {
    forall|a: nat, b: nat, c: nat, d: nat|
        #![trigger h(a, b), h(c, d)]
        h(a, b) == h(c, d) ==> a == c && b == d
}

/// The leaves that `h` makes of the leaf preimages.
pub open spec fn leaves_of(h: spec_fn(nat, nat) -> nat, inputs: Seq<(nat, nat)>) -> Seq<nat> {
    Seq::new(inputs.len(), |i: int| h(inputs[i].0, inputs[i].1))
}

/// The level above `nodes`: the hashes of its nodes in pairs, from the left.
/// A last node without a partner is paired with `zero`.
pub open spec fn next_level(h: spec_fn(nat, nat) -> nat, nodes: Seq<nat>, zero: nat) -> Seq<nat> {
    Seq::new(
        (nodes.len() + 1) / 2,
        |i: int|
            h(
                nodes[2 * i],
                if 2 * i + 1 < nodes.len() {
                    nodes[2 * i + 1]
                } else {
                    zero
                },
            ),
    )
}

/// The top of the tree over `nodes`, where `nodes` stand at `level`: the
/// levels above are taken until at most one node is left.
pub open spec fn fold_up(
    h: spec_fn(nat, nat) -> nat,
    nodes: Seq<nat>,
    zeros: Seq<nat>,
    level: nat,
) -> Seq<nat>
    decreases nodes.len(),
{
    if nodes.len() <= 1 {
        nodes
    } else {
        fold_up(h, next_level(h, nodes, zeros[level as int]), zeros, level + 1)
    }
}

/// The one node of `top`, or the padding constant of the leaves where `top`
/// is empty.
pub open spec fn root_of(top: Seq<nat>, zeros: Seq<nat>) -> nat {
    if top.len() > 0 {
        top[0]
    } else {
        zeros[0]
    }
}

/// The Merkle root of `leaves` under the hash `h`, with the padding constants
/// `zeros`.
pub open spec fn merkle_root(h: spec_fn(nat, nat) -> nat, leaves: Seq<nat>, zeros: Seq<nat>)
    -> nat {
    root_of(fold_up(h, leaves, zeros, 0), zeros)
}

/// The top of a tree has one node, or none where there are no leaves.
pub proof fn lemma_fold_up_len(
    h: spec_fn(nat, nat) -> nat,
    nodes: Seq<nat>,
    zeros: Seq<nat>,
    level: nat,
)
    ensures
        fold_up(h, nodes, zeros, level).len() == if nodes.len() == 0 {
            0nat
        } else {
            1nat
        },
    decreases nodes.len(),
{
    if nodes.len() > 1 {
        lemma_fold_up_len(h, next_level(h, nodes, zeros[level as int]), zeros, level + 1);
    }
}

/// Under a hash without collisions, two levels of one width with the same
/// level above them are the same.
pub proof fn lemma_next_level_injective(
    h: spec_fn(nat, nat) -> nat,
    a: Seq<nat>,
    b: Seq<nat>,
    zero: nat,
)
    requires
        collision_free(h),
        a.len() == b.len(),
        next_level(h, a, zero) == next_level(h, b, zero),
    ensures
        a == b,
{
    let up_a = next_level(h, a, zero);
    let up_b = next_level(h, b, zero);
    assert forall|j: int| 0 <= j < a.len() implies a[j] == b[j] by {
        let i = j / 2;
        assert(0 <= i < up_a.len());
        assert(up_a[i] == up_b[i]);
        let right_a = if 2 * i + 1 < a.len() {
            a[2 * i + 1]
        } else {
            zero
        };
        let right_b = if 2 * i + 1 < b.len() {
            b[2 * i + 1]
        } else {
            zero
        };
        assert(h(a[2 * i], right_a) == h(b[2 * i], right_b));
        assert(a[2 * i] == b[2 * i] && right_a == right_b);
    }
    assert(a =~= b);
}

/// Under a hash without collisions, two levels of one width under the same
/// top are the same.
pub proof fn lemma_fold_up_injective(
    h: spec_fn(nat, nat) -> nat,
    a: Seq<nat>,
    b: Seq<nat>,
    zeros: Seq<nat>,
    level: nat,
)
    requires
        collision_free(h),
        a.len() == b.len(),
        fold_up(h, a, zeros, level) == fold_up(h, b, zeros, level),
    ensures
        a == b,
    decreases a.len(),
{
    if a.len() > 1 {
        let zero = zeros[level as int];
        lemma_fold_up_injective(
            h,
            next_level(h, a, zero),
            next_level(h, b, zero),
            zeros,
            level + 1,
        );
        lemma_next_level_injective(h, a, b, zero);
    }
}

/// The root tells sequences of leaves apart: under a hash without
/// collisions, two sequences of as many leaves with one root are the same
/// sequence. So a root stands for its leaves in their order.
pub proof fn lemma_root_binds_leaves(
    h: spec_fn(nat, nat) -> nat,
    a: Seq<nat>,
    b: Seq<nat>,
    zeros: Seq<nat>,
)
    requires
        collision_free(h),
        a.len() == b.len(),
        merkle_root(h, a, zeros) == merkle_root(h, b, zeros),
    ensures
        a == b,
{
    lemma_fold_up_len(h, a, zeros, 0);
    lemma_fold_up_len(h, b, zeros, 0);
    if a.len() > 0 {
        assert(fold_up(h, a, zeros, 0) =~= fold_up(h, b, zeros, 0));
        lemma_fold_up_injective(h, a, b, zeros, 0);
    } else {
        assert(a =~= b);
    }
}

/// The roots of up to four leaves, written out: one leaf is its own root;
/// two leaves are hashed once; three leaves are padded with the padding
/// constant of the leaves in the fourth place; four leaves are hashed in
/// pairs, and the pairs once more.
pub proof fn lemma_small_roots(
    h: spec_fn(nat, nat) -> nat,
    a: nat,
    b: nat,
    c: nat,
    d: nat,
    zeros: Seq<nat>,
)
    requires
        zeros.len() >= 2,
    ensures
        merkle_root(h, seq![a], zeros) == a,
        merkle_root(h, seq![a, b], zeros) == h(a, b),
        merkle_root(h, seq![a, b, c], zeros) == h(h(a, b), h(c, zeros[0])),
        merkle_root(h, seq![a, b, c, d], zeros) == h(h(a, b), h(c, d)),
{
    let zero = zeros[0];
    lemma_root_of_pair(h, a, b, zeros, 0);
    lemma_root_of_pair(h, h(a, b), h(c, zero), zeros, 1);
    lemma_root_of_pair(h, h(a, b), h(c, d), zeros, 1);
    let padded = seq![h(a, b), h(c, zero)];
    assert(next_level(h, seq![a, b, c], zero) =~= padded);
    assert(fold_up(h, seq![a, b, c], zeros, 0) == fold_up(h, padded, zeros, 1));
    let full = seq![h(a, b), h(c, d)];
    assert(next_level(h, seq![a, b, c, d], zero) =~= full);
    assert(fold_up(h, seq![a, b, c, d], zeros, 0) == fold_up(h, full, zeros, 1));
}

/// Two nodes at a level fold into their hash.
proof fn lemma_root_of_pair(
    h: spec_fn(nat, nat) -> nat,
    a: nat,
    b: nat,
    zeros: Seq<nat>,
    level: nat,
)
    ensures
        fold_up(h, seq![a, b], zeros, level) == seq![h(a, b)],
{
    let up = seq![h(a, b)];
    assert(next_level(h, seq![a, b], zeros[level as int]) =~= up);
    assert(fold_up(h, up, zeros, level + 1) == up);
    assert(fold_up(h, seq![a, b], zeros, level) == fold_up(h, up, zeros, level + 1));
}

/// The root depends on the order of the leaves: under a hash without
/// collisions, two different leaves give one root in one order and another
/// root in the other.
pub proof fn lemma_leaf_order_changes_root(
    h: spec_fn(nat, nat) -> nat,
    first: nat,
    second: nat,
    zeros: Seq<nat>,
)
    requires
        collision_free(h),
        first != second,
    ensures
        merkle_root(h, seq![first, second], zeros) != merkle_root(
            h,
            seq![second, first],
            zeros,
        ),
{
    let a = seq![first, second];
    let b = seq![second, first];
    if merkle_root(h, a, zeros) == merkle_root(h, b, zeros) {
        lemma_root_binds_leaves(h, a, b, zeros);
        assert(a[0] == b[0]);
    }
}

/// Padding stands for a leaf that is the padding constant: an odd number of
/// leaves, three or more, has the root that it has with the leaves' padding
/// constant added as one more leaf.
pub proof fn lemma_padding_is_zero_leaf(
    h: spec_fn(nat, nat) -> nat,
    leaves: Seq<nat>,
    zeros: Seq<nat>,
)
    requires
        zeros.len() > 0,
        leaves.len() % 2 == 1,
        leaves.len() >= 3,
    ensures
        merkle_root(h, leaves, zeros) == merkle_root(h, leaves.push(zeros[0]), zeros),
{
    let padded = leaves.push(zeros[0]);
    assert(next_level(h, leaves, zeros[0]) =~= next_level(h, padded, zeros[0]));
}

/// Padding is told apart from a leaf: under a hash without collisions, an odd
/// number of leaves, three or more, has another root than it has with one
/// more leaf, unless that leaf is the leaves' padding constant.
pub proof fn lemma_leaf_differs_from_padding(
    h: spec_fn(nat, nat) -> nat,
    leaves: Seq<nat>,
    leaf: nat,
    zeros: Seq<nat>,
)
    requires
        collision_free(h),
        zeros.len() > 0,
        leaves.len() % 2 == 1,
        leaves.len() >= 3,
        leaf != zeros[0],
    ensures
        merkle_root(h, leaves, zeros) != merkle_root(h, leaves.push(leaf), zeros),
{
    lemma_padding_is_zero_leaf(h, leaves, zeros);
    let padded = leaves.push(zeros[0]);
    let longer = leaves.push(leaf);
    if merkle_root(h, padded, zeros) == merkle_root(h, longer, zeros) {
        lemma_root_binds_leaves(h, padded, longer, zeros);
        assert(padded[leaves.len() as int] == longer[leaves.len() as int]);
    }
}

impl FoldView {
    /// The digest that the hash `h` gives for the pending pair.
    pub open spec fn answer(self, h: spec_fn(nat, nat) -> nat) -> nat {
        h(self.pending().0, self.pending().1)
    }

    /// The root that the fold ends with where each digest that comes in is
    /// the hash `h` of the pair that was pending.
    pub open spec fn run(self, h: spec_fn(nat, nat) -> nat) -> nat
        decreases self.depth + 1 - self.stage, self.stage_len() - self.next.len(),
    {
        if self.done() {
            self.root()
        } else {
            self.advance(self.answer(h)).run(h)
        }
    }

    /// A digest that comes in leaves the fold well formed.
    pub proof fn lemma_advance_well_formed(self, digest: nat)
        requires
            self.well_formed(),
        ensures
            self.advance(digest).well_formed(),
    {
    }

    /// From a level that stands, the fold ends with the top of the tree over
    /// that level.
    pub proof fn lemma_run_from_level(self, h: spec_fn(nat, nat) -> nat)
        requires
            self.well_formed(),
            self.stage >= 1,
            self.next == next_level(h, self.nodes, self.zeros[self.stage - 1]).take(
                self.next.len() as int,
            ),
        ensures
            self.run(h) == root_of(
                fold_up(h, self.nodes, self.zeros, (self.stage - 1) as nat),
                self.zeros,
            ),
        decreases self.depth + 1 - self.stage, self.stage_len() - self.next.len(),
    {
        if !self.done() {
            let zero = self.zeros[self.stage - 1];
            let full = next_level(h, self.nodes, zero);
            let i = self.next.len() as int;
            let after = self.advance(self.answer(h));
            self.lemma_advance_well_formed(self.answer(h));
            assert(full[i] == self.answer(h));
            assert(self.next.push(self.answer(h)) =~= full.take(i + 1));
            if i + 1 >= self.stage_len() {
                assert(full.take(i + 1) =~= full);
                assert(after.next =~= next_level(
                    h,
                    after.nodes,
                    after.zeros[after.stage - 1],
                ).take(0));
            }
            after.lemma_run_from_level(h);
        }
    }

    /// While the leaves are hashed, the fold ends with the Merkle root of the
    /// leaves that `h` makes of all the leaf preimages.
    pub proof fn lemma_run_from_leaves(self, h: spec_fn(nat, nat) -> nat)
        requires
            self.well_formed(),
            self.stage == 0,
            self.next == leaves_of(h, self.inputs).take(self.next.len() as int),
        ensures
            self.run(h) == merkle_root(h, leaves_of(h, self.inputs), self.zeros),
        decreases self.inputs.len() - self.next.len(),
    {
        let full = leaves_of(h, self.inputs);
        let i = self.next.len() as int;
        let after = self.advance(self.answer(h));
        self.lemma_advance_well_formed(self.answer(h));
        assert(full[i] == self.answer(h));
        assert(self.next.push(self.answer(h)) =~= full.take(i + 1));
        if i + 1 >= self.stage_len() {
            assert(full.take(i + 1) =~= full);
            assert(after.next =~= next_level(h, after.nodes, after.zeros[0]).take(0));
            after.lemma_run_from_level(h);
        } else {
            after.lemma_run_from_leaves(h);
        }
    }
}

/// The fold computes the Merkle root: started over leaf preimages that ask
/// for a tree of allowed depth, and fed the hash `h` of each pair it names,
/// the fold ends with the Merkle root of the leaves that `h` makes of the
/// preimages.
pub proof fn lemma_fold_computes_root(
    h: spec_fn(nat, nat) -> nat,
    inputs: Seq<(nat, nat)>,
    zeros: Seq<nat>,
)
    requires
        tree_depth(inputs.len()) <= MAX_TREE_DEPTH,
        zeros.len() >= MAX_TREE_DEPTH,
    ensures
        FoldView::start(inputs, zeros).well_formed(),
        FoldView::start(inputs, zeros).run(h) == merkle_root(h, leaves_of(h, inputs), zeros),
{
    let start = FoldView::start(inputs, zeros);
    if inputs.len() == 0 {
        assert(start.done());
        assert(leaves_of(h, inputs).len() == 0);
    } else {
        assert(start.next =~= leaves_of(h, inputs).take(0));
        start.lemma_run_from_leaves(h);
    }
}

/// The next thing for the caller of a fold to do.
#[derive(Clone, Copy, Debug, PartialEq, Eq)]
pub enum FoldAction {
    /// Hash these two field elements, in this order, and hand the digest in.
    Hash(FieldElement, FieldElement),
    /// The fold is over: this is the root, as a big-endian digest.
    Done([u8; 32]),
}

/// A fold of leaf preimages into a Merkle root, waiting for the digest of the
/// pair it named last.
pub struct MerkleFold {
    zeros: Vec<FieldElement>,
    depth: usize,
    inputs: Vec<LeafPreimage>,
    stage: usize,
    nodes: Vec<FieldElement>,
    next: Vec<FieldElement>,
}

impl View for MerkleFold {
    type V = FoldView;

    closed spec fn view(&self) -> FoldView {
        FoldView {
            zeros: values(self.zeros@),
            depth: self.depth as nat,
            inputs: pairs(self.inputs@),
            stage: self.stage as nat,
            nodes: values(self.nodes@),
            next: values(self.next@),
        }
    }
}

impl MerkleFold {
    #[verifier::type_invariant]
    closed spec fn inv(self) -> bool {
        self@.well_formed()
    }

    /// Starts a fold over `inputs`. There is a fold exactly when the tree for
    /// so many leaves is at most `MAX_TREE_DEPTH` deep.
    pub fn new(inputs: Vec<LeafPreimage>, zeros: MerkleZeros) -> (r: Option<MerkleFold>)
        ensures
            r is Some <==> tree_depth(inputs@.len()) <= MAX_TREE_DEPTH,
            r is Some ==> r->Some_0@ == FoldView::start(pairs(inputs@), zeros@),
            r is Some ==> r->Some_0@.well_formed(),
    {
        proof {
            use_type_invariant(&zeros);
        }
        let depth = merkle_tree_depth(inputs.len());
        if depth > MAX_TREE_DEPTH {
            return None;
        }
        let stage: usize = if inputs.len() == 0 {
            1
        } else {
            0
        };
        let fold = MerkleFold {
            zeros: zeros.levels,
            depth,
            inputs,
            stage,
            nodes: Vec::new(),
            next: Vec::new(),
        };
        assert(fold@ =~= FoldView::start(pairs(inputs@), zeros@));
        Some(fold)
    }

    /// What the fold asks for: the pair to hash next, or the root.
    pub fn action(&self) -> (a: FoldAction)
        ensures
            self@.well_formed(),
            match a {
                FoldAction::Hash(left, right) => !self@.done() && self@.pending() == (
                    left@,
                    right@,
                ),
                FoldAction::Done(digest) => self@.done() && be_value(digest@) == self@.root(),
            },
    {
        proof {
            use_type_invariant(self);
        }
        if self.stage == 0 {
            let preimage = &self.inputs[self.next.len()];
            FoldAction::Hash(preimage.first, preimage.second)
        } else if self.stage <= self.depth {
            let i = self.next.len();
            let width = self.nodes.len();
            assert(i < (width + 1) / 2) by {
                assert(self@.next.len() == i);
                assert(self@.nodes.len() == width);
                assert(self@.stage_len() == (width + 1) / 2);
            }
            let left = self.nodes[2 * i];
            let right = if 2 * i + 1 < width {
                self.nodes[2 * i + 1]
            } else {
                self.zeros[self.stage - 1]
            };
            FoldAction::Hash(left, right)
        } else {
            let root = if self.nodes.len() > 0 {
                self.nodes[0]
            } else {
                self.zeros[0]
            };
            FoldAction::Done(root.to_digest())
        }
    }

    /// Takes `digest` as the hash of the pair that `action` names and moves
    /// on. A fold whose root stands stays as it is.
    pub fn advance(self, digest: FieldElement) -> (after: MerkleFold)
        ensures
            after@ == self@.advance(digest@),
            after@.well_formed(),
    {
        proof {
            use_type_invariant(&self);
        }
        if self.stage > self.depth {
            return self;
        }
        let stage_len = if self.stage == 0 {
            self.inputs.len()
        } else {
            self.nodes.len() / 2 + self.nodes.len() % 2
        };
        let mut next = self.next;
        next.push(digest);
        let after = if next.len() == stage_len {
            MerkleFold {
                zeros: self.zeros,
                depth: self.depth,
                inputs: self.inputs,
                stage: self.stage + 1,
                nodes: next,
                next: Vec::new(),
            }
        } else {
            MerkleFold {
                zeros: self.zeros,
                depth: self.depth,
                inputs: self.inputs,
                stage: self.stage,
                nodes: self.nodes,
                next,
            }
        };
        assert(after@ =~= self@.advance(digest@));
        after
    }
}

} // verus!
