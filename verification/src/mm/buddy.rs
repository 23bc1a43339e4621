//! Buddy tree: hands out and takes back naturally aligned power-of-two blocks of a region.
//!
//! The tree is a complete binary tree stored level by level (the root at index 0, the
//! children of node `i` at `2i + 1` and `2i + 2`). Each node holds the size class of the
//! largest block still free in its subtree: `0` when nothing is free, and `MAX_LEVEL - depth`
//! when the whole node is free. A block of order `o` is a node at depth `MAX_LEVEL - 1 - o`.
use vstd::prelude::*;
use vstd::arithmetic::power2::{pow2, lemma2_to64, lemma_pow2_unfold, lemma_pow2_strictly_increases, lemma_pow2_adds, lemma_pow2_pos};
use vstd::arithmetic::div_mod::{lemma_div_by_multiple, lemma_mod_multiples_basic, lemma_div_is_ordered, lemma_fundamental_div_mod, lemma_div_by_multiple_is_strongly_ordered};
use vstd::arithmetic::mul::{lemma_mul_strict_inequality, lemma_mul_is_commutative};
use vstd::bits::{lemma_usize_shl_is_mul, lemma_usize_shr_is_div};

verus! {

/// Amount of levels in the tree.
pub const MAX_LEVEL: usize = 18;

/// Amount of nodes: `2^MAX_LEVEL - 1`.
pub const NODE_COUNT: usize = 262143;

/// Max offset: `2^(MAX_LEVEL - 1) - 1`.
pub const MAX_OFFSET: usize = 131071;

/// Index of the first leaf: the leaves are the last `2^(MAX_LEVEL - 1)` nodes.
pub const FIRST_LEAF: usize = 131071;

/// The parent of node `i`.
pub open spec fn parent(i: int) -> int {
    (i - 1) / 2
}

/// The depth of node `i`: `0` for the root.
pub open spec fn depth(i: int) -> nat
    decreases i,
{
    if i <= 0 {
        0
    } else {
        1 + depth(parent(i))
    }
}

/// The size class of node `i` when it is completely free.
pub open spec fn full(i: int) -> int {
    MAX_LEVEL - depth(i)
}

/// `i` is a node of the tree.
pub open spec fn is_node(i: int) -> bool {
    0 <= i < NODE_COUNT
}

/// `j` is `i` or lies below `i`.
pub open spec fn in_subtree(i: int, j: int) -> bool
    decreases j,
{
    if j == i {
        true
    } else if j < i || j <= 0 {
        false
    } else {
        in_subtree(i, parent(j))
    }
}

/// The size class of the largest free block below `i` when the nodes in `a` are allocated.
pub open spec fn avail(a: Set<int>, i: int) -> int
    decreases NODE_COUNT - i,
{
    if !is_node(i) || a.contains(i) {
        0
    } else if i >= FIRST_LEAF {
        1
    } else {
        let l = avail(a, 2 * i + 1);
        let r = avail(a, 2 * i + 2);
        if l == full(i) - 1 && r == full(i) - 1 {
            full(i)
        } else if l >= r {
            l
        } else {
            r
        }
    }
}

/// Node `n` can be handed out: no allocated node lies above it, at it, or below it.
pub open spec fn free(a: Set<int>, n: int) -> bool {
    &&& is_node(n)
    &&& forall|x: int| #[trigger] a.contains(x) ==> !in_subtree(x, n) && !in_subtree(n, x)
}

/// Every member of `a` is a node, and no member lies below another.
pub open spec fn antichain(a: Set<int>) -> bool {
    &&& forall|x: int| #[trigger] a.contains(x) ==> is_node(x)
    &&& forall|x: int, y: int| a.contains(x) && a.contains(y) && x != y ==> !#[trigger] in_subtree(x, y)
}

/// A block of `2^order` units at unit offset `offset` that the tree can hold.
pub open spec fn valid_block(order: int, offset: int) -> bool {
    &&& 0 <= order < MAX_LEVEL
    &&& 0 <= offset < pow2((MAX_LEVEL - 1) as nat)
    &&& offset % pow2(order as nat) as int == 0
}

/// The node that stands for the block of `2^order` units at unit offset `offset`.
pub open spec fn block_node(order: int, offset: int) -> int {
    pow2((MAX_LEVEL - 1 - order) as nat) - 1 + offset / pow2(order as nat) as int
}

/// The ancestor of `j` at depth `d` (or `j` itself when it is not deeper than `d`).
pub open spec fn anc(j: int, d: nat) -> int
    decreases j,
{
    if j <= 0 || depth(j) <= d {
        j
    } else {
        anc(parent(j), d)
    }
}

proof fn lemma_children(i: int)
    requires
        0 <= i,
    ensures
        parent(2 * i + 1) == i,
        parent(2 * i + 2) == i,
        depth(2 * i + 1) == depth(i) + 1,
        depth(2 * i + 2) == depth(i) + 1,
{
    assert(parent(2 * i + 1) == i);
    assert(parent(2 * i + 2) == i);
}

/// The nodes at depth `d` are the indices `2^d - 1 .. 2^(d+1) - 1`.
proof fn lemma_depth_bounds(i: int)
    requires
        0 <= i,
    ensures
        pow2(depth(i)) - 1 <= i < pow2(depth(i) + 1) - 1,
    decreases i,
{
    if i == 0 {
        lemma2_to64();
    } else {
        let p = parent(i);
        lemma_depth_bounds(p);
        lemma_pow2_unfold(depth(i));
        lemma_pow2_unfold(depth(i) + 1);
    }
}

proof fn lemma_depth_range(i: int, d: nat)
    requires
        0 <= i,
        pow2(d) - 1 <= i < pow2(d + 1) - 1,
    ensures
        depth(i) == d,
{
    lemma_depth_bounds(i);
    if depth(i) < d {
        lemma_pow2_strictly_increases(depth(i), d);
        if depth(i) + 1 < d {
            lemma_pow2_strictly_increases(depth(i) + 1, d);
        }
    } else if depth(i) > d {
        lemma_pow2_strictly_increases(d, depth(i));
        if d + 1 < depth(i) {
            lemma_pow2_strictly_increases(d + 1, depth(i));
        }
    }
}

/// Leaves are exactly the nodes from `FIRST_LEAF` on, at the deepest level.
proof fn lemma_node_depth(i: int)
    requires
        is_node(i),
    ensures
        depth(i) < MAX_LEVEL,
        i >= FIRST_LEAF <==> depth(i) == MAX_LEVEL - 1,
{
    lemma2_to64();
    lemma_depth_bounds(i);
    if depth(i) >= MAX_LEVEL {
        lemma_pow2_strictly_increases(18, depth(i));
    }
    if i >= FIRST_LEAF {
        lemma_depth_range(i, 17);
    }
    if depth(i) == 17 {
        assert(i >= FIRST_LEAF);
    }
}

proof fn lemma_subtree_le(i: int, j: int)
    requires
        in_subtree(i, j),
    ensures
        i <= j,
        i >= 0 ==> depth(i) <= depth(j),
        i >= 0 && depth(i) == depth(j) ==> i == j,
    decreases j,
{
    if j != i {
        lemma_subtree_le(i, parent(j));
    }
}

proof fn lemma_subtree_trans(i: int, j: int, k: int)
    requires
        in_subtree(i, j),
        in_subtree(j, k),
    ensures
        in_subtree(i, k),
    decreases k,
{
    if k != j {
        lemma_subtree_trans(i, j, parent(k));
    }
}

proof fn lemma_subtree_root(j: int)
    requires
        0 <= j,
    ensures
        in_subtree(0, j),
    decreases j,
{
    if j > 0 {
        lemma_subtree_root(parent(j));
    }
}

/// A node strictly below `i` is below one of its children.
proof fn lemma_subtree_split(i: int, j: int)
    requires
        0 <= i,
        in_subtree(i, j),
        j != i,
    ensures
        in_subtree(2 * i + 1, j) || in_subtree(2 * i + 2, j),
    decreases j,
{
    let p = parent(j);
    if p != i {
        lemma_subtree_split(i, p);
        lemma_subtree_le(i, p);
    }
}

/// The subtree of a child lies in the subtree of its parent.
proof fn lemma_subtree_child(i: int, j: int)
    requires
        0 <= i,
        in_subtree(2 * i + 1, j) || in_subtree(2 * i + 2, j),
    ensures
        in_subtree(i, j),
        j != i,
{
    lemma_children(i);
    reveal_with_fuel(in_subtree, 2);
    assert(in_subtree(i, 2 * i + 1));
    assert(in_subtree(i, 2 * i + 2));
    if in_subtree(2 * i + 1, j) {
        lemma_subtree_trans(i, 2 * i + 1, j);
        lemma_subtree_le(2 * i + 1, j);
    } else {
        lemma_subtree_trans(i, 2 * i + 2, j);
        lemma_subtree_le(2 * i + 2, j);
    }
}

/// Every member of `a` is a node.
pub open spec fn nodes(a: Set<int>) -> bool {
    forall|x: int| #[trigger] a.contains(x) ==> is_node(x)
}

/// Nothing in the subtree of `i` is allocated.
pub open spec fn subtree_free(a: Set<int>, i: int) -> bool {
    forall|x: int| #[trigger] a.contains(x) ==> !in_subtree(i, x)
}

/// A node's size class lies between `0` and its full size, and reaches the full size exactly
/// when nothing below it is allocated.
proof fn lemma_avail_bounds(a: Set<int>, i: int)
    requires
        is_node(i),
        nodes(a),
    ensures
        1 <= full(i) <= MAX_LEVEL,
        0 <= avail(a, i) <= full(i),
        (avail(a, i) == full(i)) == subtree_free(a, i),
    decreases NODE_COUNT - i,
{
    lemma_node_depth(i);
    if a.contains(i) {
        assert(in_subtree(i, i));
    } else if i >= FIRST_LEAF {
        assert forall|x: int| #[trigger] a.contains(x) implies !in_subtree(i, x) by {
            if in_subtree(i, x) && x != i {
                lemma_subtree_split(i, x);
                if in_subtree(2 * i + 1, x) {
                    lemma_subtree_le(2 * i + 1, x);
                } else {
                    lemma_subtree_le(2 * i + 2, x);
                }
            }
        }
    } else {
        lemma_children(i);
        lemma_avail_bounds(a, 2 * i + 1);
        lemma_avail_bounds(a, 2 * i + 2);
        if subtree_free(a, i) {
            assert forall|x: int| #[trigger] a.contains(x) implies !in_subtree(2 * i + 1, x)
                && !in_subtree(2 * i + 2, x) by {
                if in_subtree(2 * i + 1, x) || in_subtree(2 * i + 2, x) {
                    lemma_subtree_child(i, x);
                }
            }
        }
        if subtree_free(a, 2 * i + 1) && subtree_free(a, 2 * i + 2) {
            assert forall|x: int| #[trigger] a.contains(x) implies !in_subtree(i, x) by {
                if in_subtree(i, x) && x != i {
                    lemma_subtree_split(i, x);
                }
            }
        }
    }
}

/// The size class of a node depends only on what is allocated in its subtree.
proof fn lemma_avail_frame(a: Set<int>, b: Set<int>, i: int)
    requires
        forall|x: int| #[trigger] in_subtree(i, x) ==> (a.contains(x) == b.contains(x)),
    ensures
        avail(a, i) == avail(b, i),
    decreases NODE_COUNT - i,
{
    assert(in_subtree(i, i));
    if is_node(i) && !a.contains(i) && i < FIRST_LEAF {
        assert forall|x: int| #[trigger] in_subtree(2 * i + 1, x) implies (a.contains(x) == b.contains(x)) by {
            lemma_subtree_child(i, x);
        }
        assert forall|x: int| #[trigger] in_subtree(2 * i + 2, x) implies (a.contains(x) == b.contains(x)) by {
            lemma_subtree_child(i, x);
        }
        lemma_avail_frame(a, b, 2 * i + 1);
        lemma_avail_frame(a, b, 2 * i + 2);
    }
}

/// A node `j` below `i` that nothing allocated covers, on the way down from `i` or below `j`,
/// makes the size class of `i` at least that of `j`.
proof fn lemma_free_below(a: Set<int>, i: int, j: int)
    requires
        is_node(i),
        is_node(j),
        nodes(a),
        in_subtree(i, j),
        forall|x: int| #[trigger] a.contains(x) ==> !(in_subtree(i, x) && in_subtree(x, j)) && !in_subtree(j, x),
    ensures
        avail(a, i) >= full(j),
    decreases NODE_COUNT - i,
{
    lemma_avail_bounds(a, i);
    lemma_node_depth(i);
    assert(in_subtree(i, i));
    if j == i {
        assert(subtree_free(a, i));
    } else {
        lemma_subtree_split(i, j);
        lemma_subtree_le(i, j);
        lemma_node_depth(j);
        assert(!a.contains(i));
        if i >= FIRST_LEAF {
            if in_subtree(2 * i + 1, j) {
                lemma_subtree_le(2 * i + 1, j);
            } else {
                lemma_subtree_le(2 * i + 2, j);
            }
        } else {
            lemma_children(i);
            let c = if in_subtree(2 * i + 1, j) { 2 * i + 1 } else { 2 * i + 2 };
            assert forall|x: int| #[trigger] a.contains(x) implies !(in_subtree(c, x) && in_subtree(x, j)) by {
                if in_subtree(c, x) {
                    lemma_subtree_child(i, x);
                }
            }
            lemma_free_below(a, c, j);
            lemma_avail_bounds(a, 2 * i + 1);
            lemma_avail_bounds(a, 2 * i + 2);
        }
    }
}

proof fn lemma_anc(j: int, d: nat)
    requires
        0 <= j,
        d <= depth(j),
    ensures
        0 <= anc(j, d),
        depth(anc(j, d)) == d,
        in_subtree(anc(j, d), j),
    decreases j,
{
    if j > 0 && depth(j) > d {
        let p = parent(j);
        lemma_anc(p, d);
        reveal_with_fuel(in_subtree, 2);
        assert(in_subtree(p, j));
        lemma_subtree_trans(anc(p, d), p, j);
    }
}

proof fn lemma_anc_step(j: int, d: nat)
    requires
        0 <= j,
        d + 1 <= depth(j),
    ensures
        parent(anc(j, d + 1)) == anc(j, d),
    decreases j,
{
    let p = parent(j);
    if depth(j) > d + 1 {
        lemma_anc_step(p, d);
    } else {
        assert(anc(p, d) == p);
    }
}

/// The node of a block: where it sits in its level, and that it is a node at the level of
/// its order.
proof fn lemma_block_node(order: int, offset: int)
    requires
        valid_block(order, offset),
    ensures
        0 <= offset / pow2(order as nat) as int,
        (offset / pow2(order as nat) as int) * (pow2(order as nat) as int) == offset,
        (offset / pow2(order as nat) as int) <= offset,
        (offset / pow2(order as nat) as int) < pow2((MAX_LEVEL - 1 - order) as nat),
        is_node(block_node(order, offset)),
        depth(block_node(order, offset)) == MAX_LEVEL - 1 - order,
{
    let m = pow2(order as nat) as int;
    let t = (MAX_LEVEL - 1 - order) as nat;
    let k = offset / m;
    lemma_pow2_pos(order as nat);
    lemma_pow2_pos(t);
    lemma_fundamental_div_mod(offset, m);
    lemma_mul_is_commutative(k, m);
    lemma_pow2_adds(t, order as nat);
    if k >= pow2(t) {
        vstd::arithmetic::mul::lemma_mul_inequality(pow2(t) as int, k, m);
    }
    if k > offset {
        vstd::arithmetic::mul::lemma_mul_inequality(1, m, k);
    }
    lemma_pow2_unfold(t + 1);
    lemma_depth_range(block_node(order, offset), t);
    lemma2_to64();
    if t + 1 < 18 {
        lemma_pow2_strictly_increases(t + 1, 18);
    }
}

/// The buddy tree.
pub struct Tree {
    entries: Vec<u8>,
    /// The allocated blocks, each named by its node.
    allocated: Ghost<Set<int>>,
}

impl View for Tree {
    type V = Set<int>;

    /// The allocated blocks, each named by its node (see `block_node`).
    closed spec fn view(&self) -> Set<int> {
        self.allocated@
    }
}

impl Tree {
    /// The size classes stored in the nodes, root first.
    pub closed spec fn spec_entries(&self) -> Seq<u8> {
        self.entries@
    }

    /// Every node holds the size class of the largest block still free below it.
    pub closed spec fn wf(&self) -> bool {
        &&& self.entries@.len() == NODE_COUNT
        &&& antichain(self.allocated@)
        &&& forall|i: int| is_node(i) ==> #[trigger] self.entries@[i] == avail(self.allocated@, i)
    }

    proof fn lemma_wf_antichain(&self)
        requires
            self.wf(),
        ensures
            antichain(self@),
    {
    }

    /// The node bytes follow from the allocated blocks: each node holds the size class of the
    /// largest block still free below it.
    pub proof fn lemma_wf_entries(&self)
        requires
            self.wf(),
        ensures
            self.spec_entries().len() == NODE_COUNT,
            forall|i: int| is_node(i) ==> #[trigger] self.spec_entries()[i] == avail(self@, i),
    {
    }

    /// Creates a tree in which the whole region is free.
    pub fn new() -> (r: Self)
        ensures
            r.wf(),
            r@ == Set::<int>::empty(),
    {
        let mut entries: Vec<u8> = Vec::new();
        let mut level: usize = 0;
        proof {
            lemma2_to64();
        }
        while level < MAX_LEVEL
            invariant
                level <= MAX_LEVEL,
                entries@.len() == pow2(level as nat) - 1,
                forall|i: int| 0 <= i < entries@.len() ==> #[trigger] entries@[i] == full(i),
            decreases MAX_LEVEL - level,
        {
            proof {
                lemma2_to64();
                lemma_usize_shl_is_mul(1, level);
                if level < 17 {
                    lemma_pow2_strictly_increases(level as nat, 17);
                }
            }
            let count: usize = 1 << level;
            let size: u8 = (MAX_LEVEL - level) as u8;
            let mut k: usize = 0;
            while k < count
                invariant
                    level < MAX_LEVEL,
                    k <= count,
                    count == pow2(level as nat),
                    size == MAX_LEVEL - level,
                    entries@.len() == pow2(level as nat) - 1 + k,
                    forall|i: int| 0 <= i < entries@.len() ==> #[trigger] entries@[i] == full(i),
                decreases count - k,
            {
                proof {
                    lemma_pow2_unfold(level as nat + 1);
                    lemma_depth_range(entries@.len() as int, level as nat);
                }
                entries.push(size);
                k = k + 1;
            }
            proof {
                lemma_pow2_unfold(level as nat + 1);
            }
            level = level + 1;
        }
        let r = Tree { entries, allocated: Ghost(Set::empty()) };
        proof {
            assert forall|i: int| is_node(i) implies #[trigger] r.entries@[i] == avail(r.allocated@, i) by {
                lemma_avail_bounds(Set::empty(), i);
            }
        }
        r
    }

    /// Allocate in tree: hands out the lowest free block of `2^order` units, and returns its
    /// offset in units; `None` when no block of that order is free.
    pub fn allocate(&mut self, order: usize) -> (r: Option<usize>)
        requires
            old(self).wf(),
            order < 255,
        ensures
            final(self).wf(),
            r is None <==> forall|off: int|
                valid_block(order as int, off) ==> !#[trigger] free(old(self)@, block_node(order as int, off)),
            r is None ==> final(self)@ == old(self)@,
            r matches Some(off) ==> valid_block(order as int, off as int) && free(
                old(self)@,
                block_node(order as int, off as int),
            ) && final(self)@ == old(self)@.insert(block_node(order as int, off as int)),
            r matches Some(off) ==> forall|o: int|
                valid_block(order as int, o) && o < off ==> !#[trigger] free(old(self)@, block_node(order as int, o)),
    {
        let ghost a = self.allocated@;
        proof {
            lemma_avail_bounds(a, 0);
            assert(self.entries@[0] == avail(a, 0));
        }
        if self.entries[0] < 1 + order as u8 {
            proof {
                assert forall|off: int| valid_block(order as int, off) implies !#[trigger] free(a, block_node(order as int, off)) by {
                    let j = block_node(order as int, off);
                    lemma_block_node(order as int, off);
                    if free(a, j) {
                        lemma_subtree_root(j);
                        lemma_free_below(a, 0, j);
                    }
                }
            }
            return None;
        }
        let wanted_level = MAX_LEVEL - 1 - order;
        let mut index: usize = 0;
        let mut level: usize = 0;
        proof {
            assert forall|x: int| a.contains(x) implies !in_subtree(x, 0) by {
                if in_subtree(x, 0) {
                    lemma_subtree_le(x, 0);
                }
            }
            assert forall|j: int| #[trigger] free(a, j) && depth(j) == wanted_level implies anc(j, 0) >= 0 by {
                lemma_anc(j, 0);
            }
        }
        while level < wanted_level
            invariant
                self.wf(),
                self.allocated@ == a,
                order < MAX_LEVEL,
                wanted_level == MAX_LEVEL - 1 - order,
                level <= wanted_level,
                is_node(index as int),
                depth(index as int) == level,
                avail(a, index as int) > order,
                forall|x: int| a.contains(x) ==> !in_subtree(x, index as int),
                forall|j: int| #[trigger] free(a, j) && depth(j) == wanted_level ==> anc(j, level as nat) >= index,
            decreases wanted_level - level,
        {
            proof {
                lemma_node_depth(index as int);
                lemma_children(index as int);
            }
            let left_index = self.left_index(index);
            let right_index = self.right_index(index);
            proof {
                lemma_avail_bounds(a, index as int);
                lemma_avail_bounds(a, left_index as int);
                lemma_avail_bounds(a, right_index as int);
                assert(self.entries@[left_index as int] == avail(a, left_index as int));
            }
            let go_left = self.entries[left_index] > order as u8;
            let ghost old_index = index;
            index = if go_left {
                left_index
            } else {
                right_index
            };
            proof {
                assert(!a.contains(index as int));
                assert forall|x: int| a.contains(x) implies !in_subtree(x, index as int) by {
                    if in_subtree(x, index as int) && x != index {
                        assert(in_subtree(x, old_index as int));
                    }
                }
                assert forall|j: int| #[trigger] free(a, j) && depth(j) == wanted_level implies anc(j, (level + 1) as nat) >= index by {
                    lemma_anc_step(j, level as nat);
                    lemma_anc(j, (level + 1) as nat);
                    let y = anc(j, (level + 1) as nat);
                    if !go_left && y == left_index {
                        lemma_node_depth(j);
                        lemma_subtree_le(y, j);
                        assert forall|x: int| #[trigger] a.contains(x) implies !(in_subtree(y, x) && in_subtree(x, j)) && !in_subtree(j, x) by {}
                        lemma_free_below(a, y, j);
                    }
                }
            }
            level = level + 1;
        }
        proof {
            lemma_node_depth(index as int);
            lemma_avail_bounds(a, index as int);
            assert(free(a, index as int));
        }
        let ghost n = index as int;
        proof {
            lemma2_to64();
            lemma_usize_shl_is_mul(1, wanted_level);
            lemma_depth_bounds(n);
            lemma_pow2_unfold(wanted_level as nat + 1);
        }
        let first_index_in_this_level: usize = (1 << wanted_level) - 1;
        let index_in_this_level = index - first_index_in_this_level;
        proof {
            let k = index_in_this_level as int;
            let m = pow2(order as nat) as int;
            lemma_pow2_pos(order as nat);
            lemma_pow2_adds(wanted_level as nat, order as nat);
            lemma_mul_strict_inequality(k, pow2(wanted_level as nat) as int, m);
            lemma_mul_is_commutative(pow2(wanted_level as nat) as int, m);
            lemma_usize_shl_is_mul(index_in_this_level, order);
            lemma_mod_multiples_basic(k, m);
            lemma_div_by_multiple(k, m);
        }
        let offset = index_in_this_level << order;
        proof {
            assert(valid_block(order as int, offset as int));
            assert(block_node(order as int, offset as int) == n);
            assert forall|o: int| valid_block(order as int, o) && o < offset implies !#[trigger] free(a, block_node(order as int, o)) by {
                let j = block_node(order as int, o);
                lemma_block_node(order as int, o);
                let m = pow2(order as nat) as int;
                if o / m >= index_in_this_level {
                    vstd::arithmetic::mul::lemma_mul_inequality(index_in_this_level as int, o / m, m);
                }
                if free(a, j) {
                    assert(anc(j, wanted_level as nat) == j);
                }
            }
        }

        // Update the values in the tree so that each node still contains the largest available
        // power of two size in their subtree.
        let ghost a2 = a.insert(n);
        self.entries.set(index, 0);
        self.allocated = Ghost(a2);
        proof {
            assert forall|i: int| is_node(i) && !(in_subtree(i, index as int) && i != index) implies #[trigger] self.entries@[i] == avail(a2, i) by {
                if i != n {
                    assert forall|x: int| #[trigger] in_subtree(i, x) implies (a.contains(x) == a2.contains(x)) by {}
                    lemma_avail_frame(a, a2, i);
                }
            }
        }
        while index > 0
            invariant
                self.entries@.len() == NODE_COUNT,
                self.allocated@ == a2,
                a2 == a.insert(n),
                antichain(a),
                free(a, n),
                is_node(index as int),
                in_subtree(index as int, n),
                forall|i: int| is_node(i) && !(in_subtree(i, index as int) && i != index) ==> #[trigger] self.entries@[i] == avail(a2, i),
            decreases index,
        {
            let ghost c = index as int;
            index = self.parent_index(index);
            let ghost p = index as int;
            proof {
                lemma_children(p);
                assert(c == 2 * p + 1 || c == 2 * p + 2);
            }
            let left_index = self.left_index(index);
            let right_index = self.right_index(index);
            proof {
                lemma_subtree_le(c, n);
                reveal_with_fuel(in_subtree, 2);
                assert(in_subtree(p, c));
                lemma_subtree_trans(p, c, n);
                assert(!(in_subtree(left_index as int, c) && left_index != c)) by {
                    if in_subtree(left_index as int, c) && left_index != c {
                        lemma_subtree_le(left_index as int, p);
                    }
                }
                assert(!(in_subtree(right_index as int, c) && right_index != c)) by {
                    if in_subtree(right_index as int, c) && right_index != c {
                        lemma_subtree_le(right_index as int, c);
                    }
                }
            }
            let l = self.entries[left_index];
            let r = self.entries[right_index];
            let max = if l >= r {
                l
            } else {
                r
            };
            proof {
                assert(!a.contains(p));
                assert(a2.contains(n));
                assert(nodes(a2));
                lemma_avail_bounds(a2, c);
                assert(!subtree_free(a2, c));
                lemma_node_depth(c);
                assert(avail(a2, p) == max);
            }
            self.entries.set(index, max);
            proof {
                assert forall|i: int| is_node(i) && !(in_subtree(i, index as int) && i != index) implies #[trigger] self.entries@[i] == avail(a2, i) by {
                    if i != p {
                        if in_subtree(i, c) && i != c {
                            assert(in_subtree(i, p));
                        }
                    }
                }
            }
        }
        proof {
            assert forall|i: int| is_node(i) implies #[trigger] self.entries@[i] == avail(a2, i) by {
                if in_subtree(i, 0) {
                    lemma_subtree_le(i, 0);
                }
            }
            assert(free(old(self)@, block_node(order as int, offset as int)));
        }
        Some(offset)
    }

    /// Deallocate in tree: takes back the block of `2^order` units at `offset`, which must be
    /// allocated.
    pub fn dealloc(&mut self, order: usize, offset: usize)
        requires
            old(self).wf(),
            valid_block(order as int, offset as int),
            old(self)@.contains(block_node(order as int, offset as int)),
        ensures
            final(self).wf(),
            final(self)@ == old(self)@.remove(block_node(order as int, offset as int)),
    {
        let ghost a = self.allocated@;
        let ghost n = block_node(order as int, offset as int);
        proof {
            lemma_block_node(order as int, offset as int);
            lemma2_to64();
            lemma_usize_shr_is_div(offset, order);
        }
        // Calculate the index at which this allocation happened.
        let mut size = (order + 1) as u8;
        let wanted_level = MAX_LEVEL - size as usize;
        let index_in_this_level = offset >> order;
        proof {
            lemma_usize_shl_is_mul(1, wanted_level);
            if wanted_level < 17 {
                lemma_pow2_strictly_increases(wanted_level as nat, 17);
            }
        }
        let first_index_in_this_level: usize = (1 << wanted_level) - 1;
        let mut index = index_in_this_level + first_index_in_this_level;
        proof {
            assert(index == n);
            lemma_node_depth(n);
        }

        // Update value in the tree to undo the allocation.
        let ghost a2 = a.remove(n);
        self.entries.set(index, size);
        self.allocated = Ghost(a2);
        proof {
            assert(subtree_free(a2, n));
            lemma_avail_bounds(a2, n);
            assert forall|i: int| is_node(i) && !(in_subtree(i, index as int) && i != index) implies #[trigger] self.entries@[i] == avail(a2, i) by {
                if i != n {
                    assert forall|x: int| #[trigger] in_subtree(i, x) implies (a.contains(x) == a2.contains(x)) by {}
                    lemma_avail_frame(a, a2, i);
                }
            }
        }

        // Update all parents in the tree.
        while index > 0
            invariant
                self.entries@.len() == NODE_COUNT,
                self.allocated@ == a2,
                a2 == a.remove(n),
                antichain(a),
                a.contains(n),
                is_node(index as int),
                in_subtree(index as int, n),
                size == full(index as int),
                forall|i: int| is_node(i) && !(in_subtree(i, index as int) && i != index) ==> #[trigger] self.entries@[i] == avail(a2, i),
            decreases index,
        {
            let ghost c = index as int;
            index = self.parent_index(index);
            let ghost p = index as int;
            proof {
                lemma_children(p);
                lemma_node_depth(c);
                assert(c == 2 * p + 1 || c == 2 * p + 2);
            }
            size = size + 1;
            let left_index = self.left_index(index);
            let right_index = self.right_index(index);
            proof {
                lemma_subtree_le(c, n);
                reveal_with_fuel(in_subtree, 2);
                assert(in_subtree(p, c));
                lemma_subtree_trans(p, c, n);
                assert(!(in_subtree(left_index as int, c) && left_index != c)) by {
                    if in_subtree(left_index as int, c) && left_index != c {
                        lemma_subtree_le(left_index as int, p);
                    }
                }
                assert(!(in_subtree(right_index as int, c) && right_index != c)) by {
                    if in_subtree(right_index as int, c) && right_index != c {
                        lemma_subtree_le(right_index as int, c);
                    }
                }
            }
            let l = self.entries[left_index];
            let r = self.entries[right_index];
            // This node becomes a complete node again if both the children are complete nodes.
            let value = if l == r && l == size - 1 {
                size
            } else if l >= r {
                l
            } else {
                r
            };
            proof {
                assert(!a2.contains(p));
                lemma_node_depth(p);
                assert(avail(a2, p) == value);
            }
            self.entries.set(index, value);
            proof {
                assert forall|i: int| is_node(i) && !(in_subtree(i, index as int) && i != index) implies #[trigger] self.entries@[i] == avail(a2, i) by {
                    if i != p {
                        if in_subtree(i, c) && i != c {
                            assert(in_subtree(i, p));
                        }
                    }
                }
            }
        }
        proof {
            assert forall|i: int| is_node(i) implies #[trigger] self.entries@[i] == avail(a2, i) by {
                if in_subtree(i, 0) {
                    lemma_subtree_le(i, 0);
                }
            }
        }
    }

    /// Left index of a node.
    fn left_index(&self, index: usize) -> (r: usize)
        requires
            index < FIRST_LEAF,
        ensures
            r == 2 * index + 1,
    {
        assert((index << 1usize) | 1usize == 2 * index + 1) by (bit_vector)
            requires
                index < 131071usize,
        ;
        (index << 1) | 1
    }

    /// Right index of a node.
    fn right_index(&self, index: usize) -> (r: usize)
        requires
            index < FIRST_LEAF,
        ensures
            r == 2 * index + 2,
    {
        self.left_index(index) + 1
    }

    /// Parent index of a node.
    fn parent_index(&self, index: usize) -> (r: usize)
        requires
            0 < index < NODE_COUNT,
        ensures
            r == parent(index as int),
    {
        let next = index + 1;
        assert(next >> 1usize == next / 2) by (bit_vector);
        (next >> 1) - 1
    }
}

/// The first unit covered by node `j`.
pub open spec fn node_lo(j: int) -> int {
    (j - (pow2(depth(j)) - 1)) * pow2((MAX_LEVEL - 1 - depth(j)) as nat)
}

/// One past the last unit covered by node `j`.
pub open spec fn node_hi(j: int) -> int {
    node_lo(j) + pow2((MAX_LEVEL - 1 - depth(j)) as nat)
}

proof fn lemma_range_parent(j: int)
    requires
        is_node(j),
        j > 0,
    ensures
        node_lo(parent(j)) <= node_lo(j),
        node_hi(j) <= node_hi(parent(j)),
{
    let p = parent(j);
    let t = depth(j);
    lemma_node_depth(j);
    lemma_depth_bounds(j);
    lemma_depth_bounds(p);
    lemma_pow2_unfold(t);
    lemma_pow2_unfold((MAX_LEVEL - t) as nat);
    let k = j - (pow2(t) - 1);
    let kp = p - (pow2((t - 1) as nat) - 1);
    let m = pow2((MAX_LEVEL - 1 - t) as nat) as int;
    lemma_pow2_pos((MAX_LEVEL - 1 - t) as nat);
    assert(k == 2 * kp || k == 2 * kp + 1);
    assert(node_lo(j) == k * m);
    assert(node_lo(p) == kp * (2 * m));
    assert(kp * (2 * m) <= k * m && k * m + m <= kp * (2 * m) + 2 * m) by (nonlinear_arith)
        requires
            k == 2 * kp || k == 2 * kp + 1,
            m >= 1,
    ;
}

proof fn lemma_range_anc(j: int, d: nat)
    requires
        is_node(j),
        d <= depth(j),
    ensures
        node_lo(anc(j, d)) <= node_lo(j),
        node_hi(j) <= node_hi(anc(j, d)),
    decreases j,
{
    if j > 0 && depth(j) > d {
        let p = parent(j);
        lemma_range_parent(j);
        lemma_range_anc(p, d);
    }
}

proof fn lemma_same_depth_disjoint(x: int, y: int)
    requires
        is_node(x),
        is_node(y),
        depth(x) == depth(y),
        x < y,
    ensures
        node_hi(x) <= node_lo(y),
{
    let m = pow2((MAX_LEVEL - 1 - depth(x)) as nat) as int;
    let kx = x - (pow2(depth(x)) - 1);
    let ky = y - (pow2(depth(y)) - 1);
    assert(kx * m + m <= ky * m) by (nonlinear_arith)
        requires
            kx < ky,
            m >= 0,
    ;
}

/// The node of a block covers exactly the block's units.
proof fn lemma_block_range(order: int, offset: int)
    requires
        valid_block(order, offset),
    ensures
        node_lo(block_node(order, offset)) == offset,
        node_hi(block_node(order, offset)) == offset + pow2(order as nat),
{
    lemma_block_node(order, offset);
}

/// Two distinct nodes neither of which lies below the other cover disjoint units.
proof fn lemma_unrelated_disjoint(x: int, y: int)
    requires
        is_node(x),
        is_node(y),
        x != y,
        !in_subtree(x, y),
        !in_subtree(y, x),
    ensures
        node_hi(x) <= node_lo(y) || node_hi(y) <= node_lo(x),
{
    lemma_node_depth(x);
    lemma_node_depth(y);
    if depth(x) <= depth(y) {
        let z = anc(y, depth(x));
        lemma_anc(y, depth(x));
        lemma_range_anc(y, depth(x));
        lemma_subtree_le(z, y);
        if z < x {
            lemma_same_depth_disjoint(z, x);
        } else if z > x {
            lemma_same_depth_disjoint(x, z);
        }
    } else {
        let z = anc(x, depth(y));
        lemma_anc(x, depth(y));
        lemma_range_anc(x, depth(y));
        lemma_subtree_le(z, x);
        if z < y {
            lemma_same_depth_disjoint(z, y);
        } else if z > y {
            lemma_same_depth_disjoint(y, z);
        }
    }
}

/// Allocated blocks never overlap: two distinct blocks that are both allocated cover
/// disjoint ranges of units.
pub proof fn lemma_allocated_blocks_disjoint(t: &Tree, o1: int, off1: int, o2: int, off2: int)
    requires
        t.wf(),
        valid_block(o1, off1),
        valid_block(o2, off2),
        t@.contains(block_node(o1, off1)),
        t@.contains(block_node(o2, off2)),
        o1 != o2 || off1 != off2,
    ensures
        off1 + pow2(o1 as nat) <= off2 || off2 + pow2(o2 as nat) <= off1,
{
    let n1 = block_node(o1, off1);
    let n2 = block_node(o2, off2);
    lemma_block_range(o1, off1);
    lemma_block_range(o2, off2);
    lemma_block_node(o1, off1);
    lemma_block_node(o2, off2);
    t.lemma_wf_antichain();
    lemma_unrelated_disjoint(n1, n2);
}

/// A freed block can be handed out again: once it is taken back, nothing allocated covers it.
pub proof fn lemma_freed_block_is_free(t: &Tree, order: int, offset: int)
    requires
        t.wf(),
        valid_block(order, offset),
        t@.contains(block_node(order, offset)),
    ensures
        free(t@.remove(block_node(order, offset)), block_node(order, offset)),
{
    lemma_block_node(order, offset);
    t.lemma_wf_antichain();
}

/// Taking back the block just handed out restores the set of allocated blocks.
pub proof fn lemma_dealloc_undoes_allocate(a: Set<int>, order: int, offset: int)
    requires
        free(a, block_node(order, offset)),
    ensures
        a.insert(block_node(order, offset)).remove(block_node(order, offset)) == a,
{
    let n = block_node(order, offset);
    assert(!a.contains(n)) by {
        if a.contains(n) {
            assert(in_subtree(n, n));
        }
    }
    assert(a.insert(n).remove(n) =~= a);
}

/// The contents of a well-formed tree are determined by its allocated blocks, so undoing an
/// allocation restores the tree exactly.
pub proof fn lemma_state_determined_by_view(t1: &Tree, t2: &Tree)
    requires
        t1.wf(),
        t2.wf(),
        t1@ == t2@,
    ensures
        t1.spec_entries() == t2.spec_entries(),
{
    t1.lemma_wf_entries();
    t2.lemma_wf_entries();
    assert(t1.spec_entries() =~= t2.spec_entries());
}

} // verus!
