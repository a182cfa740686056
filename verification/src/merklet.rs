//! The Merkle tree: node model, node construction, and the bottom-up builder.
//!
//! A tree is built once from an ordered, non-empty sequence of hashable
//! items and is never mutated afterwards. Every node caches its digest:
//! a leaf's digest is the digest of its item, a branch's digest is the
//! digest of its children's digests concatenated left-then-right.

use std::rc::Rc;
use vstd::prelude::*;
use crate::hashing::sha256;
use crate::hashing::sha256_of;

verus! {

/// Relies on `std::rc::Rc::clone`: the new handle points at the same value
/// as the old one (vstd models an `Rc` by the value it points at).
#[verifier::external_body]
fn rc_clone<T>(v: &Rc<T>) -> (res: Rc<T>)
    ensures
        res == *v,
{
    Rc::clone(v)
}

/// Capability of leaf content: anything that can digest its own content.
///
/// `digest_spec` is the digest as a mathematical value; `hash2` must
/// return exactly those bytes. Digesting is total and deterministic:
/// it depends on the value's content alone.
pub trait Hash2 {
    /// The digest of this value's content, as a byte sequence. The default
    /// is the empty sequence; an implementation meant to be reasoned about
    /// says here what its digest is.
    open spec fn digest_spec(&self) -> Seq<u8> {
        Seq::empty()
    }

    /// Compute the digest of this value's content.
    fn hash2(&self) -> (r: Vec<u8>)
        ensures
            r@ == self.digest_spec(),
    ;
}

/// What a node holds next: either a branch with two children, or a leaf
/// with a shared handle on one item.
pub enum MerkleChild<T: Hash2> {
    Branch(MerkleBranch<T>),
    Leaf(Rc<T>),
}

/// A branch: exactly two children, order-significant.
pub struct MerkleBranch<T: Hash2> {
    pub left: Rc<MerkleNode<T>>,
    pub right: Rc<MerkleNode<T>>,
}

/// A node of the tree, with its digest cached at construction.
pub struct MerkleNode<T: Hash2> {
    pub hash: Vec<u8>,
    pub next: MerkleChild<T>,
}

impl<T: Hash2> Hash2 for MerkleBranch<T> {
    /// A branch digests its children's cached digests, left bytes first.
    open spec fn digest_spec(&self) -> Seq<u8> {
        sha256_of(self.left.hash@ + self.right.hash@)
    }

    fn hash2(&self) -> (r: Vec<u8>)
        ensures
            r@ == self.digest_spec(),
    {
        let mut concatenated: Vec<u8> = Vec::new();
        let left_digest: &Vec<u8> = &self.left.hash;
        let right_digest: &Vec<u8> = &self.right.hash;
        let mut i: usize = 0;
        while i < left_digest.len()
            invariant
                i <= left_digest@.len(),
                concatenated@ == left_digest@.take(i as int),
            decreases left_digest@.len() - i,
        {
            concatenated.push(left_digest[i]);
            i = i + 1;
        }
        let mut j: usize = 0;
        while j < right_digest.len()
            invariant
                j <= right_digest@.len(),
                concatenated@ == left_digest@ + right_digest@.take(j as int),
            decreases right_digest@.len() - j,
        {
            concatenated.push(right_digest[j]);
            j = j + 1;
        }
        proof {
            assert(concatenated@ =~= self.left.hash@ + self.right.hash@);
        }
        sha256(concatenated.as_slice())
    }
}

impl<T: Hash2> Hash2 for MerkleChild<T> {
    /// A branch digests its children's cached digests; a leaf digests
    /// the item it holds.
    open spec fn digest_spec(&self) -> Seq<u8> {
        match self {
            MerkleChild::Branch(branch) => branch.digest_spec(),
            MerkleChild::Leaf(leaf) => leaf.digest_spec(),
        }
    }

    fn hash2(&self) -> (r: Vec<u8>)
        ensures
            r@ == self.digest_spec(),
    {
        match self {
            MerkleChild::Branch(branch) => branch.hash2(),
            MerkleChild::Leaf(leaf) => leaf.hash2(),
        }
    }
}

impl<T: Hash2> Hash2 for MerkleNode<T> {
    /// A node's digest is the digest of what it holds.
    open spec fn digest_spec(&self) -> Seq<u8> {
        self.next.digest_spec()
    }

    fn hash2(&self) -> (r: Vec<u8>)
        ensures
            r@ == self.digest_spec(),
    {
        self.next.hash2()
    }
}

impl<T: Hash2> MerkleNode<T> {
    /// Well-formedness: the cached digest is the digest of what the node
    /// holds, recursively in both children of every branch.
    pub open spec fn inv(self) -> bool
        decreases self,
    {
        &&& self.hash@ == self.next.digest_spec()
        &&& match self.next {
            MerkleChild::Branch(branch) => branch.left.inv() && branch.right.inv(),
            MerkleChild::Leaf(_) => true,
        }
    }
}

impl<T: Hash2> MerkleNode<T> {
    /// Whether this node is a leaf.
    pub fn is_leaf(&self) -> (r: bool)
        ensures
            r == (self.next matches MerkleChild::Leaf(_)),
    {
        match &self.next {
            MerkleChild::Leaf(_) => true,
            MerkleChild::Branch(_) => false,
        }
    }

    /// Whether this node is a branch.
    pub fn is_branch(&self) -> (r: bool)
        ensures
            r == (self.next matches MerkleChild::Branch(_)),
    {
        match &self.next {
            MerkleChild::Leaf(_) => false,
            MerkleChild::Branch(_) => true,
        }
    }

    /// The left child of a branch; `None` on a leaf.
    pub fn get_left_child(&self) -> (r: Option<Rc<MerkleNode<T>>>)
        ensures
            match self.next {
                MerkleChild::Branch(branch) => r matches Some(c) && c == branch.left,
                MerkleChild::Leaf(_) => r is None,
            },
    {
        match &self.next {
            MerkleChild::Branch(branch) => Some(rc_clone(&branch.left)),
            MerkleChild::Leaf(_) => None,
        }
    }

    /// The right child of a branch; `None` on a leaf.
    pub fn get_right_child(&self) -> (r: Option<Rc<MerkleNode<T>>>)
        ensures
            match self.next {
                MerkleChild::Branch(branch) => r matches Some(c) && c == branch.right,
                MerkleChild::Leaf(_) => r is None,
            },
    {
        match &self.next {
            MerkleChild::Branch(branch) => Some(rc_clone(&branch.right)),
            MerkleChild::Leaf(_) => None,
        }
    }

    /// The item a leaf holds; `None` on a branch.
    pub fn get_leaf_data(&self) -> (r: Option<Rc<T>>)
        ensures
            match self.next {
                MerkleChild::Leaf(leaf) => r matches Some(d) && d == leaf,
                MerkleChild::Branch(_) => r is None,
            },
    {
        match &self.next {
            MerkleChild::Leaf(leaf) => Some(rc_clone(leaf)),
            MerkleChild::Branch(_) => None,
        }
    }
}

/// Builds a branch node over two children: their cached digests are
/// concatenated, left bytes first, and digested again.
pub fn make_branch_node<T: Hash2>(
    left_node: Rc<MerkleNode<T>>,
    right_node: Rc<MerkleNode<T>>,
) -> (node: Rc<MerkleNode<T>>)
    ensures
        node.hash@ == sha256_of(left_node.hash@ + right_node.hash@),
        node.next matches MerkleChild::Branch(b) && b.left == left_node && b.right == right_node,
        left_node.inv() && right_node.inv() ==> node.inv(),
{
    let branch = MerkleBranch {
        left: left_node,
        right: right_node,
    };
    let hash = branch.hash2();
    Rc::new(MerkleNode { hash, next: MerkleChild::Branch(branch) })
}

/// Builds a leaf node: the item's own digest, cached.
pub fn make_leaf_node<T: Hash2>(leaf: T) -> (node: MerkleNode<T>)
    ensures
        node.hash@ == leaf.digest_spec(),
        node.next matches MerkleChild::Leaf(l) && *l == leaf,
        node.inv(),
{
    let hash = leaf.hash2();
    MerkleNode { hash, next: MerkleChild::Leaf(Rc::new(leaf)) }
}

/// Why building a tree can fail: the only rejected input is the empty one,
/// since a Merkle tree over zero elements has no meaningful root.
#[derive(Clone, Copy, Debug, PartialEq, Eq, Structural)]
pub enum MerkleError {
    EmptyInput,
}

/// The digest of the pair at slot `k` when a level `ds` is reduced:
/// the digests at `2k` and `2k + 1` concatenated and digested again.
/// A trailing node with no partner is paired with itself.
pub open spec fn pair_digest(ds: Seq<Seq<u8>>, k: int) -> Seq<u8> {
    if 2 * k + 1 < ds.len() {
        sha256_of(ds[2 * k] + ds[2 * k + 1])
    } else {
        sha256_of(ds[2 * k] + ds[2 * k])
    }
}

/// One step of the bottom-up reduction: the digests of the next level,
/// in order, built from non-overlapping pairs of the level `ds`.
pub open spec fn level_up(ds: Seq<Seq<u8>>) -> Seq<Seq<u8>> {
    Seq::new((ds.len() + 1) / 2, |k: int| pair_digest(ds, k))
}

/// The root digest that the builder commits to over a non-empty level of
/// digests `ds`: reduce level by level until one digest remains.
pub open spec fn root_digest(ds: Seq<Seq<u8>>) -> Seq<u8>
    recommends
        ds.len() > 0,
    decreases ds.len(),
{
    if ds.len() <= 1 {
        ds[0]
    } else {
        root_digest(level_up(ds))
    }
}

/// The cached digests of a level of nodes, in order.
pub open spec fn node_digests<T: Hash2>(ns: Seq<Rc<MerkleNode<T>>>) -> Seq<Seq<u8>> {
    Seq::new(ns.len(), |i: int| ns[i].hash@)
}

/// The digests of a sequence of leaf items, in order.
pub open spec fn leaf_digests<T: Hash2>(items: Seq<T>) -> Seq<Seq<u8>> {
    Seq::new(items.len(), |i: int| items[i].digest_spec())
}

/// How one reduction step pairs the nodes of a level `ns`: the branch at
/// slot `k` of the next level has the nodes at `2k` and `2k + 1` as its
/// left and right child; a trailing node with no partner stands as both
/// children of its branch (the odd-node-out policy).
pub open spec fn is_pair_node<T: Hash2>(
    ns: Seq<Rc<MerkleNode<T>>>,
    k: int,
    b: MerkleNode<T>,
) -> bool {
    b.next matches MerkleChild::Branch(br) && br.left == ns[2 * k] && br.right == (
    if 2 * k + 1 < ns.len() {
        ns[2 * k + 1]
    } else {
        ns[2 * k]
    })
}

/// Whether `bs` is the level built over the level `ns` by one reduction
/// step: one branch per non-overlapping pair, in order.
pub open spec fn is_level_up_nodes<T: Hash2>(
    ns: Seq<Rc<MerkleNode<T>>>,
    bs: Seq<Rc<MerkleNode<T>>>,
) -> bool {
    &&& bs.len() == (ns.len() + 1) / 2
    &&& forall|k: int| 0 <= k < bs.len() ==> is_pair_node(ns, k, *#[trigger] bs[k])
}

/// Whether `root` is what the bottom-up reduction builds over the level
/// `ns`: a level of one node is itself the root, and a longer level is
/// reduced step by step until one node remains.
pub open spec fn is_built_from<T: Hash2>(ns: Seq<Rc<MerkleNode<T>>>, root: MerkleNode<T>) -> bool
    decreases ns.len(),
{
    if ns.len() == 1 {
        root == ns[0]
    } else if ns.len() >= 2 {
        exists|bs: Seq<Rc<MerkleNode<T>>>|
            #[trigger] is_level_up_nodes(ns, bs) && is_built_from(bs, root)
    } else {
        false
    }
}

/// Reduces a non-empty level of well-formed nodes to the root: scans
/// left to right in non-overlapping pairs, builds a branch over each pair
/// (a trailing node with no partner becomes both children of its branch),
/// and repeats on the new level until one node remains. A level of one
/// node is itself the root, with no branch wrapped around it.
pub fn build_merkle_branches<T: Hash2>(nodes: &Vec<Rc<MerkleNode<T>>>) -> (root: Rc<MerkleNode<T>>)
    requires
        nodes@.len() > 0,
        forall|i: int| 0 <= i < nodes@.len() ==> (#[trigger] nodes@[i]).inv(),
    ensures
        root.inv(),
        root.hash@ == root_digest(node_digests(nodes@)),
        nodes@.len() == 1 ==> root == nodes@[0],
        nodes@.len() >= 2 ==> (root.next matches MerkleChild::Branch(_)),
        is_built_from(nodes@, *root),
    decreases nodes@.len(),
{
    if nodes.len() == 1 {
        return rc_clone(&nodes[0]);
    }
    let ghost ds: Seq<Seq<u8>> = node_digests(nodes@);
    let mut branch_level: Vec<Rc<MerkleNode<T>>> = Vec::new();
    let mut i: usize = 0;
    while i < nodes.len()
        invariant
            nodes@.len() >= 2,
            forall|j: int| 0 <= j < nodes@.len() ==> (#[trigger] nodes@[j]).inv(),
            ds == node_digests(nodes@),
            i <= nodes@.len(),
            i % 2 == 0 || i == nodes@.len(),
            branch_level@.len() == (i + 1) / 2,
            forall|k: int|
                0 <= k < branch_level@.len() ==> (#[trigger] branch_level@[k]).inv()
                    && branch_level@[k].hash@ == pair_digest(ds, k)
                    && is_pair_node(nodes@, k, *branch_level@[k]),
        decreases nodes@.len() - i,
    {
        let left_node = rc_clone(&nodes[i]);
        if i + 1 < nodes.len() {
            let right_node = rc_clone(&nodes[i + 1]);
            branch_level.push(make_branch_node(left_node, right_node));
            i = i + 2;
        } else {
            let right_node = rc_clone(&left_node);
            branch_level.push(make_branch_node(left_node, right_node));
            i = i + 1;
        }
    }
    proof {
        assert(node_digests(branch_level@) =~= level_up(ds));
        assert(is_level_up_nodes(nodes@, branch_level@));
    }
    let root = build_merkle_branches(&branch_level);
    root
}

/// Whether `ns` is the leaf level over the items `items`: one leaf node
/// per item, in input order, each holding its item and caching that
/// item's own digest.
pub open spec fn is_leaf_level<T: Hash2>(items: Seq<T>, ns: Seq<Rc<MerkleNode<T>>>) -> bool {
    &&& ns.len() == items.len()
    &&& forall|j: int|
        0 <= j < ns.len() ==> ((#[trigger] ns[j]).next matches MerkleChild::Leaf(l) && *l
            == items[j] && ns[j].hash@ == items[j].digest_spec())
}

/// Builds a fresh Merkle tree over `leaves`, in their order, and returns
/// its root node. Each leaf value becomes one leaf node; the levels above
/// are built as `build_merkle_branches` says. An empty input has no
/// meaningful root and is rejected.
pub fn new_merkle_tree<T: Hash2>(leaves: Vec<T>) -> (r: Result<
    Rc<MerkleNode<T>>,
    MerkleError,
>)
    ensures
        r is Ok <==> leaves@.len() > 0,
        r is Err ==> r->Err_0 == MerkleError::EmptyInput,
        r matches Ok(root) ==> root.inv() && root.hash@ == root_digest(leaf_digests(leaves@)),
        leaves@.len() == 1 ==> (r matches Ok(root) && root.next matches MerkleChild::Leaf(l)
            && *l == leaves@[0]),
        leaves@.len() >= 2 ==> (r matches Ok(root) && root.next matches MerkleChild::Branch(_)),
        r matches Ok(root) ==> exists|lns: Seq<Rc<MerkleNode<T>>>|
            #[trigger] is_leaf_level(leaves@, lns) && is_built_from(lns, *root),
{
    if leaves.len() == 0 {
        return Err(MerkleError::EmptyInput);
    }
    let ghost all_leaves: Seq<T> = leaves@;
    let mut rest = leaves;
    let mut leaf_nodes: Vec<Rc<MerkleNode<T>>> = Vec::new();
    while rest.len() > 0
        invariant
            leaf_nodes@.len() + rest@.len() == all_leaves.len(),
            rest@ == all_leaves.skip(leaf_nodes@.len() as int),
            forall|j: int|
                0 <= j < leaf_nodes@.len() ==> (#[trigger] leaf_nodes@[j]).inv()
                    && leaf_nodes@[j].hash@ == all_leaves[j].digest_spec()
                    && (leaf_nodes@[j].next matches MerkleChild::Leaf(l) && *l == all_leaves[j]),
        decreases rest@.len(),
    {
        let ghost done = leaf_nodes@.len() as int;
        let item = rest.remove(0);
        proof {
            assert(item == all_leaves[done]);
            assert(rest@ =~= all_leaves.skip(done + 1));
        }
        leaf_nodes.push(Rc::new(make_leaf_node(item)));
    }
    proof {
        assert(node_digests(leaf_nodes@) =~= leaf_digests(all_leaves));
        assert(is_leaf_level(all_leaves, leaf_nodes@));
    }
    Ok(build_merkle_branches(&leaf_nodes))
}

/// Order sensitivity of the branch combination: two distinct digests of
/// equal width concatenate to distinct byte strings in the two orders, so
/// a branch hands the digest primitive a different input when its
/// children are swapped. (That the two branch digests themselves then
/// differ is collision-freedom of the primitive, which is assumed of a
/// cryptographic hash, not stated of it.)
pub proof fn lemma_concat_order_distinct(a: Seq<u8>, b: Seq<u8>)
    requires
        a.len() == b.len(),
        a != b,
    ensures
        a + b != b + a,
{
    assert(exists|i: int| 0 <= i < a.len() && a[i] != b[i]) by {
        if forall|i: int| 0 <= i < a.len() ==> a[i] == b[i] {
            assert(a =~= b);
            assert(false);
        }
    }
    let i = choose|i: int| 0 <= i < a.len() && a[i] != b[i];
    assert((a + b)[i] == a[i]);
    assert((b + a)[i] == b[i]);
}

/// The root digest over exactly two digests is the digest of their
/// concatenation, left-then-right.
pub proof fn lemma_pair_root(a: Seq<u8>, b: Seq<u8>)
    ensures
        root_digest(seq![a, b]) == sha256_of(a + b),
{
    let ds = seq![a, b];
    let lvl = level_up(ds);
    assert(lvl.len() == 1);
    assert(lvl[0] == pair_digest(ds, 0));
    assert(pair_digest(ds, 0) == sha256_of(a + b));
    assert(root_digest(lvl) == lvl[0]);
    assert(root_digest(ds) == root_digest(lvl));
}

/// Non-commutativity of content order: the trees over two distinct
/// equal-width leaf digests, taken in the two orders, commit to the
/// digests of two distinct byte strings. (Their root digests differ
/// whenever the primitive maps those distinct inputs apart, which is
/// assumed of a cryptographic hash, not stated of it.)
pub proof fn lemma_two_leaf_order_sensitive(a: Seq<u8>, b: Seq<u8>)
    requires
        a.len() == b.len(),
        a != b,
    ensures
        root_digest(seq![a, b]) == sha256_of(a + b),
        root_digest(seq![b, a]) == sha256_of(b + a),
        a + b != b + a,
{
    lemma_concat_order_distinct(a, b);
    lemma_pair_root(a, b);
    lemma_pair_root(b, a);
}

/// Odd-node-out duplication: when a level holds an odd number of digests,
/// the reduction pairs the trailing digest with itself, so the last slot
/// of the next level is the digest of that digest repeated twice.
pub proof fn lemma_odd_level_duplicates_last(ds: Seq<Seq<u8>>)
    requires
        ds.len() % 2 == 1,
    ensures
        level_up(ds).len() == (ds.len() + 1) / 2,
        level_up(ds).last() == sha256_of(ds.last() + ds.last()),
{
    let n = ds.len() as int;
    let k = (n - 1) / 2;
    assert(2 * k == n - 1);
    assert(level_up(ds).last() == level_up(ds)[k]);
    assert(level_up(ds)[k] == pair_digest(ds, k));
    assert(pair_digest(ds, k) == sha256_of(ds[n - 1] + ds[n - 1]));
}

/// Odd-node-out duplication, structurally: when a level holds an odd
/// number of nodes, the last branch of the level built over it has the
/// trailing node as both its left and its right child.
pub proof fn lemma_odd_level_pairs_last_with_itself<T: Hash2>(
    ns: Seq<Rc<MerkleNode<T>>>,
    bs: Seq<Rc<MerkleNode<T>>>,
)
    requires
        ns.len() % 2 == 1,
        is_level_up_nodes(ns, bs),
    ensures
        bs.last().next matches MerkleChild::Branch(br) && br.left == ns.last() && br.right
            == ns.last(),
{
    let n = ns.len() as int;
    let k = (n - 1) / 2;
    assert(2 * k == n - 1);
    assert(is_pair_node(ns, k, *bs[k]));
}

/// Determinism: the root digest is a function of the ordered leaf digests
/// alone, so building twice over equal digest sequences commits to the
/// same root.
pub proof fn lemma_root_digest_deterministic(ds1: Seq<Seq<u8>>, ds2: Seq<Seq<u8>>)
    requires
        ds1.len() == ds2.len(),
        forall|i: int| 0 <= i < ds1.len() ==> ds1[i] == ds2[i],
    ensures
        root_digest(ds1) == root_digest(ds2),
{
    assert(ds1 =~= ds2);
}

} // verus!
