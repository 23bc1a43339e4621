//! AVL interval tree of free intervals, used to hand out and take back address ranges.
use vstd::prelude::*;
use vstd::arithmetic::power2::{pow2, lemma2_to64, lemma_pow2_unfold, lemma_pow2_strictly_increases};
use vstd::relations::injective_on;
use vstd::set_lib::{set_int_range, lemma_int_range, lemma_len_subset, lemma_map_size, lemma_set_disjoint_lens};

verus! {

/// A node of the tree: one free interval, its subtrees, the largest interval length in its
/// subtree and its height.
#[derive(Debug, PartialEq, Eq)]
pub struct Node {
    pub interval_start: usize,
    pub interval_len: usize,
    pub left: Option<Box<Node>>,
    pub right: Option<Box<Node>>,
    pub max_len: usize,
    pub height: u8,
}

/// Which part of a subtree holds the best fit.
#[derive(PartialEq, Eq, Structural)]
pub enum Choice {
    Me,
    Left,
    Right,
}

/// The intervals stored in a subtree, as a map from start to length.
spec fn tree_map(t: Option<Box<Node>>) -> Map<usize, usize>
    decreases t,
{
    match t {
        None => Map::empty(),
        Some(n) => tree_map(n.left).union_prefer_right(tree_map(n.right)).insert(
            n.interval_start,
            n.interval_len,
        ),
    }
}

/// Height field of a subtree (zero for an empty one).
pub open spec fn ht(t: Option<Box<Node>>) -> int {
    match t {
        None => 0,
        Some(n) => n.height as int,
    }
}

/// Maximum length field of a subtree (zero for an empty one).
pub open spec fn ml(t: Option<Box<Node>>) -> int {
    match t {
        None => 0,
        Some(n) => n.max_len as int,
    }
}

/// Where a fit of `w` starts when it is searched for in the subtree `t`: at each node, the
/// smallest of the node's own interval and the largest intervals of its two subtrees that is
/// long enough is taken (the node first, then the left subtree, on a tie), and the fit is cut
/// from the end of the interval that is reached that way.
spec fn fit_start(t: Option<Box<Node>>, w: int) -> int
    decreases t,
{
    match t {
        None => 0,
        Some(n) => {
            let me = n.interval_len as int;
            let left = ml(n.left);
            let right = ml(n.right);
            if me >= w && (left < w || me <= left) && (right < w || me <= right) {
                n.interval_start + me - w
            } else if left >= w && (right < w || left <= right) {
                fit_start(n.left, w)
            } else {
                fit_start(n.right, w)
            }
        },
    }
}

/// Where a fit of `w` is searched for at node `n`: the node itself when its interval is the
/// smallest long enough one among its own and the largest of its two subtrees, else the left
/// subtree when that is the smallest long enough, else the right subtree.
pub open spec fn fit_side(n: Node, w: int) -> Choice {
    let me = n.interval_len as int;
    let left = ml(n.left);
    let right = ml(n.right);
    if me >= w && (left < w || me <= left) && (right < w || me <= right) {
        Choice::Me
    } else if left >= w && (right < w || left <= right) {
        Choice::Left
    } else {
        Choice::Right
    }
}

/// The shape left after a fit of `w` was cut at node `n` into `after`: when the node's own
/// interval is longer than `w`, it shrinks in place (same start, subtrees and height, `w`
/// shorter); when the fit comes from a subtree, the node keeps its interval, its height and
/// its other subtree. Either way the node's largest length is recomputed.
pub open spec fn fit_shape(n: Node, w: int, after: Option<Box<Node>>) -> bool {
    (fit_side(n, w) == Choice::Me && n.interval_len > w) || fit_side(n, w) != Choice::Me ==> (
    after matches Some(a) && {
        &&& a.interval_start == n.interval_start
        &&& a.height == n.height
        &&& a.max_len == max2(a.interval_len as int, max2(ml(a.left), ml(a.right)))
        &&& fit_side(n, w) == Choice::Me ==> a.interval_len == n.interval_len - w && a.left == n.left
            && a.right == n.right
        &&& fit_side(n, w) == Choice::Left ==> a.interval_len == n.interval_len && a.right == n.right
        &&& fit_side(n, w) == Choice::Right ==> a.interval_len == n.interval_len && a.left == n.left
    })
}

pub open spec fn max2(a: int, b: int) -> int {
    if a >= b {
        a
    } else {
        b
    }
}

/// The node's own interval lies strictly between the intervals of its subtrees.
spec fn ordered(n: Node) -> bool {
    &&& n.interval_len > 0
    &&& n.interval_start + n.interval_len <= usize::MAX
    &&& forall|k: usize| #[trigger]
        tree_map(n.left).contains_key(k) ==> k + tree_map(n.left)[k] <= n.interval_start
    &&& forall|k: usize| #[trigger]
        tree_map(n.right).contains_key(k) ==> n.interval_start + n.interval_len <= k
}

/// The cached fields of a node: the maximum length is exact, the height bounds its children's.
spec fn fields_ok(n: Node) -> bool {
    &&& n.max_len == max2(n.interval_len as int, max2(ml(n.left), ml(n.right)))
    &&& n.height >= 1 + max2(ht(n.left), ht(n.right))
}

/// AVL balance: at every node the height is exact and the heights of the two subtrees differ
/// by at most one.
spec fn balanced(t: Option<Box<Node>>) -> bool
    decreases t,
{
    match t {
        None => true,
        Some(n) => {
            &&& balanced(n.left)
            &&& balanced(n.right)
            &&& n.height == 1 + max2(ht(n.left), ht(n.right))
            &&& -1 <= ht(n.left) - ht(n.right) <= 1
        },
    }
}

spec fn wf(t: Option<Box<Node>>) -> bool
    decreases t,
{
    match t {
        None => true,
        Some(n) => wf(n.left) && wf(n.right) && ordered(*n) && fields_ok(*n),
    }
}

/// Two intervals do not overlap.
pub open spec fn disjoint(s1: int, l1: int, s2: int, l2: int) -> bool {
    s1 + l1 <= s2 || s2 + l2 <= s1
}

/// The interval `[s, s + len)` does not overlap any interval of the map.
pub open spec fn disjoint_from_all(m: Map<usize, usize>, s: int, len: int) -> bool {
    forall|k: usize| #[trigger] m.contains_key(k) ==> disjoint(k as int, m[k] as int, s, len)
}

/// The map describes non-empty, pairwise disjoint intervals inside the address space.
pub open spec fn valid_intervals(m: Map<usize, usize>) -> bool {
    &&& m.dom().finite()
    &&& forall|k: usize| #[trigger] m.contains_key(k) ==> m[k] > 0 && k + m[k] <= usize::MAX
    &&& forall|k1: usize, k2: usize|
        #![trigger m.contains_key(k1), m.contains_key(k2)]
        m.contains_key(k1) && m.contains_key(k2) && k1 != k2 ==> disjoint(
            k1 as int,
            m[k1] as int,
            k2 as int,
            m[k2] as int,
        )
}

/// The set of addresses covered by the intervals of the map.
pub open spec fn covered(m: Map<usize, usize>) -> Set<int> {
    Set::new(|a: int| exists|k: usize| #[trigger] m.contains_key(k) && k <= a < k + m[k])
}

/// The set of addresses `[s, s + len)`.
pub open spec fn range_set(s: int, len: int) -> Set<int> {
    Set::new(|a: int| s <= a < s + len)
}

/// What taking `wanted_len` from the end of the interval starting at `k` leaves.
pub open spec fn carve(m: Map<usize, usize>, k: usize, wanted_len: int) -> Map<usize, usize> {
    if m[k] > wanted_len {
        m.insert(k, (m[k] - wanted_len) as usize)
    } else {
        m.remove(k)
    }
}

/// Whether some interval of the map ends at `e`.
pub open spec fn has_end(m: Map<usize, usize>, e: int) -> bool {
    exists|k: usize| #[trigger] m.contains_key(k) && k + m[k] == e
}

/// The interval of the map that ends at `e` (meaningful when `has_end(m, e)`).
pub open spec fn end_key(m: Map<usize, usize>, e: int) -> usize {
    choose|k: usize| #[trigger] m.contains_key(k) && k + m[k] == e
}

/// The intervals after `[s, s + len)` was given back: it is merged with the interval that
/// starts at its end and with the interval that ends at its start, where those exist.
pub open spec fn returned(m: Map<usize, usize>, s: int, len: int) -> Map<usize, usize> {
    let e = (s + len) as usize;
    let l1 = if m.contains_key(e) {
        len + m[e]
    } else {
        len
    };
    let m1 = m.remove(e);
    if has_end(m1, s) {
        let k = end_key(m1, s);
        m1.insert(k, (m1[k] + l1) as usize)
    } else {
        m1.insert(s as usize, l1 as usize)
    }
}

proof fn lemma_wf_facts(t: Option<Box<Node>>)
    requires
        wf(t),
    ensures
        valid_intervals(tree_map(t)),
        forall|k: usize| #[trigger] tree_map(t).contains_key(k) ==> tree_map(t)[k] <= ml(t),
        ht(t) >= 0,
        t is Some ==> ht(t) >= 1,
        t is None ==> tree_map(t) =~= Map::empty(),
    decreases t,
{
    match t {
        None => {
            assert(tree_map(t) == Map::<usize, usize>::empty());
            assert(Map::<usize, usize>::empty().dom().finite());
            assert(tree_map(t).dom().finite());
        },
        Some(n) => {
            lemma_wf_facts(n.left);
            lemma_wf_facts(n.right);
            let ml_ = tree_map(n.left);
            let mr = tree_map(n.right);
            let m = tree_map(t);
            assert(m =~= ml_.union_prefer_right(mr).insert(n.interval_start, n.interval_len));
            assert(m.dom() =~= ml_.dom().union(mr.dom()).insert(n.interval_start));
            assert(m.dom().finite());
            assert forall|k: usize| #[trigger] m.contains_key(k) implies m[k] > 0 && k + m[k]
                <= usize::MAX && m[k] <= ml(t) by {
                if k == n.interval_start {
                } else if mr.contains_key(k) {
                } else {
                    assert(ml_.contains_key(k));
                }
            }
            assert forall|k1: usize, k2: usize|
                m.contains_key(k1) && m.contains_key(k2) && k1 != k2 implies disjoint(
                k1 as int,
                m[k1] as int,
                k2 as int,
                m[k2] as int,
            ) by {
                if k1 == n.interval_start {
                    if mr.contains_key(k2) {
                    } else {
                        assert(ml_.contains_key(k2));
                    }
                } else if k2 == n.interval_start {
                    if mr.contains_key(k1) {
                    } else {
                        assert(ml_.contains_key(k1));
                    }
                } else if mr.contains_key(k1) {
                    if mr.contains_key(k2) {
                    } else {
                        assert(ml_.contains_key(k2));
                    }
                } else {
                    assert(ml_.contains_key(k1));
                    if mr.contains_key(k2) {
                    } else {
                        assert(ml_.contains_key(k2));
                    }
                }
            }
        },
    }
}

/// A well formed, balanced subtree of height `h` holds at least `2^(h/2) - 1` intervals.
proof fn lemma_balanced_count(t: Option<Box<Node>>)
    requires
        wf(t),
        balanced(t),
    ensures
        tree_map(t).dom().finite(),
        tree_map(t).dom().len() + 1 >= pow2((ht(t) / 2) as nat),
    decreases t,
{
    lemma_wf_facts(t);
    match t {
        None => {
            assert(tree_map(t).dom() =~= Set::<usize>::empty());
            lemma2_to64();
        },
        Some(n) => {
            lemma_balanced_count(n.left);
            lemma_balanced_count(n.right);
            lemma_node_keys(*n);
            let dl = tree_map(n.left).dom();
            let dr = tree_map(n.right).dom();
            assert(dl.disjoint(dr));
            lemma_set_disjoint_lens(dl, dr);
            assert(tree_map(t).dom() =~= (dl + dr).insert(n.interval_start));
            assert(!(dl + dr).contains(n.interval_start));
            let h = ht(t);
            let hl = ht(n.left);
            let hr = ht(n.right);
            if h >= 2 {
                let e = ((h - 2) / 2) as nat;
                lemma_pow2_unfold(e + 1);
                if e < hl / 2 {
                    lemma_pow2_strictly_increases(e, (hl / 2) as nat);
                }
                if e < hr / 2 {
                    lemma_pow2_strictly_increases(e, (hr / 2) as nat);
                }
            } else {
                lemma2_to64();
            }
        },
    }
}

impl Node {
    /// Safe height getter.
    fn height(n: &Option<Box<Node>>) -> (r: u8)
        ensures
            r == ht(*n),
    {
        match n {
            None => 0,
            Some(n) => n.height,
        }
    }

    /// Safe max_len getter.
    fn max_len(n: &Option<Box<Node>>) -> (r: usize)
        ensures
            r == ml(*n),
    {
        match n {
            None => 0,
            Some(n) => n.max_len,
        }
    }

    /// Calculates balance factor.
    fn balance_factor(&self) -> (r: isize)
        ensures
            r == ht(self.left) - ht(self.right),
    {
        let lh = Self::height(&self.left) as isize;
        let rh = Self::height(&self.right) as isize;
        lh - rh
    }

    /// Update height.
    fn update_height(&mut self)
        requires
            1 + max2(ht(old(self).left), ht(old(self).right)) <= 255,
        ensures
            final(self).height == 1 + max2(ht(old(self).left), ht(old(self).right)),
            final(self).interval_start == old(self).interval_start,
            final(self).interval_len == old(self).interval_len,
            final(self).left == old(self).left,
            final(self).right == old(self).right,
            final(self).max_len == old(self).max_len,
    {
        let l = Self::height(&self.left);
        let r = Self::height(&self.right);
        self.height = 1 + if l >= r {
            l
        } else {
            r
        };
    }

    /// Update max length.
    fn update_max_len(&mut self)
        ensures
            final(self).max_len == max2(
                old(self).interval_len as int,
                max2(ml(old(self).left), ml(old(self).right)),
            ),
            final(self).interval_start == old(self).interval_start,
            final(self).interval_len == old(self).interval_len,
            final(self).left == old(self).left,
            final(self).right == old(self).right,
            final(self).height == old(self).height,
    {
        let l = Self::max_len(&self.left);
        let r = Self::max_len(&self.right);
        let children = if l >= r {
            l
        } else {
            r
        };
        self.max_len = if self.interval_len >= children {
            self.interval_len
        } else {
            children
        };
    }

    /// Update additional data fields: as height and max length.
    fn update_fields(&mut self)
        requires
            1 + max2(ht(old(self).left), ht(old(self).right)) <= 255,
        ensures
            final(self).height == 1 + max2(ht(old(self).left), ht(old(self).right)),
            final(self).max_len == max2(
                old(self).interval_len as int,
                max2(ml(old(self).left), ml(old(self).right)),
            ),
            final(self).interval_start == old(self).interval_start,
            final(self).interval_len == old(self).interval_len,
            final(self).left == old(self).left,
            final(self).right == old(self).right,
    {
        self.update_height();
        self.update_max_len();
    }
}


proof fn lemma_rotation_map(
    m_l: Map<usize, usize>,
    m_rl: Map<usize, usize>,
    m_rr: Map<usize, usize>,
    a: usize,
    la: usize,
    b: usize,
    lb: usize,
)
    requires
        a < b,
        forall|k: usize| #[trigger] m_l.contains_key(k) ==> k < a,
        forall|k: usize| #[trigger] m_rl.contains_key(k) ==> a < k < b,
        forall|k: usize| #[trigger] m_rr.contains_key(k) ==> b < k,
    ensures
        m_l.union_prefer_right(m_rl.union_prefer_right(m_rr).insert(b, lb)).insert(a, la)
            =~= m_l.union_prefer_right(m_rl).insert(a, la).union_prefer_right(m_rr).insert(b, lb),
{
    let x = m_l.union_prefer_right(m_rl.union_prefer_right(m_rr).insert(b, lb)).insert(a, la);
    let y = m_l.union_prefer_right(m_rl).insert(a, la).union_prefer_right(m_rr).insert(b, lb);
    assert forall|k: usize| #[trigger] x.contains_key(k) == y.contains_key(k) by {}
    assert forall|k: usize| x.contains_key(k) implies #[trigger] x[k] == y[k] by {
        if k == a {
        } else if k == b {
        } else if m_rr.contains_key(k) {
        } else if m_rl.contains_key(k) {
        } else {
        }
    }
}

/// Facts about the keys of a well formed node's subtrees, in the strict form the rotations need.
proof fn lemma_node_keys(n: Node)
    requires
        wf(n.left),
        wf(n.right),
        ordered(n),
    ensures
        forall|k: usize| #[trigger] tree_map(n.left).contains_key(k) ==> k < n.interval_start,
        forall|k: usize| #[trigger] tree_map(n.right).contains_key(k) ==> n.interval_start < k,
{
    lemma_wf_facts(n.left);
    lemma_wf_facts(n.right);
}

impl Node {
    /// Left rotation. Returns the new root.
    fn rotate_left(root: Box<Node>) -> (r: Box<Node>)
        requires
            root.right is Some,
            wf(root.left),
            wf(root.right),
            ordered(*root),
            ht(root.left) <= 253,
            ht(root.right) <= 254,
        ensures
            wf(Some(r)),
            tree_map(Some(r)) == tree_map(Some(root)),
            r.height == 1 + max2(
                1 + max2(ht(root.left), ht(root.right->0.left)),
                ht(root.right->0.right),
            ),
            r.right == root.right->0.right,
            r.left is Some,
            r.left->0.left == root.left,
            r.left->0.right == root.right->0.left,
            r.left->0.height == 1 + max2(ht(root.left), ht(root.right->0.left)),
    {
        let ghost old_root = *root;
        let mut root = root;
        let mut new_root = root.right.take().unwrap();
        let ghost r0 = *new_root;
        proof {
            lemma_wf_facts(old_root.left);
            lemma_wf_facts(old_root.right);
            lemma_wf_facts(r0.left);
            lemma_wf_facts(r0.right);
            lemma_node_keys(old_root);
            lemma_node_keys(r0);
            let mr = tree_map(old_root.right);
            assert(mr.contains_key(r0.interval_start));
            assert forall|k: usize| #[trigger] tree_map(r0.left).contains_key(k) implies mr.contains_key(k) by {}
            assert forall|k: usize| #[trigger] tree_map(r0.right).contains_key(k) implies mr.contains_key(k) by {}
        }
        root.right = new_root.left.take();
        root.update_fields();
        let ghost r1 = *root;
        proof {
            assert(tree_map(Some(root)) == tree_map(old_root.left).union_prefer_right(tree_map(r0.left)).insert(old_root.interval_start, old_root.interval_len));
            assert forall|k: usize| #[trigger] tree_map(Some(root)).contains_key(k) implies k + tree_map(Some(root))[k] <= r0.interval_start by {
                if k == old_root.interval_start {
                } else if tree_map(r0.left).contains_key(k) {
                } else {
                    assert(tree_map(old_root.left).contains_key(k));
                }
            }
            lemma_rotation_map(tree_map(old_root.left), tree_map(r0.left), tree_map(r0.right), old_root.interval_start, old_root.interval_len, r0.interval_start, r0.interval_len);
        }
        new_root.left = Some(root);
        new_root.update_fields();
        proof {
            assert(wf(new_root.left));
            assert(wf(new_root.right));
            assert(fields_ok(*new_root));
            assert(ordered(*new_root));
        }
        new_root
    }

    /// Right rotation. Returns the new root.
    fn rotate_right(root: Box<Node>) -> (r: Box<Node>)
        requires
            root.left is Some,
            wf(root.left),
            wf(root.right),
            ordered(*root),
            ht(root.left) <= 254,
            ht(root.right) <= 253,
        ensures
            wf(Some(r)),
            tree_map(Some(r)) == tree_map(Some(root)),
            r.height == 1 + max2(
                ht(root.left->0.left),
                1 + max2(ht(root.left->0.right), ht(root.right)),
            ),
            r.left == root.left->0.left,
            r.right is Some,
            r.right->0.left == root.left->0.right,
            r.right->0.right == root.right,
            r.right->0.height == 1 + max2(ht(root.left->0.right), ht(root.right)),
    {
        let ghost old_root = *root;
        let mut root = root;
        let mut new_root = root.left.take().unwrap();
        let ghost l0 = *new_root;
        proof {
            lemma_wf_facts(old_root.left);
            lemma_wf_facts(old_root.right);
            lemma_wf_facts(l0.left);
            lemma_wf_facts(l0.right);
            lemma_node_keys(old_root);
            lemma_node_keys(l0);
            let mleft = tree_map(old_root.left);
            assert(mleft.contains_key(l0.interval_start));
            assert forall|k: usize| #[trigger] tree_map(l0.left).contains_key(k) implies mleft.contains_key(k) by {}
            assert forall|k: usize| #[trigger] tree_map(l0.right).contains_key(k) implies mleft.contains_key(k) by {}
        }
        root.left = new_root.right.take();
        root.update_fields();
        proof {
            assert(tree_map(Some(root)) == tree_map(l0.right).union_prefer_right(tree_map(old_root.right)).insert(old_root.interval_start, old_root.interval_len));
            assert forall|k: usize| #[trigger] tree_map(Some(root)).contains_key(k) implies l0.interval_start + l0.interval_len <= k by {
                if k == old_root.interval_start {
                } else if tree_map(old_root.right).contains_key(k) {
                } else {
                    assert(tree_map(l0.right).contains_key(k));
                }
            }
            lemma_rotation_map(tree_map(l0.left), tree_map(l0.right), tree_map(old_root.right), l0.interval_start, l0.interval_len, old_root.interval_start, old_root.interval_len);
        }
        new_root.right = Some(root);
        new_root.update_fields();
        proof {
            assert(wf(new_root.left));
            assert(wf(new_root.right));
            assert(fields_ok(*new_root));
            assert(ordered(*new_root));
        }
        new_root
    }

    /// Fixes the AVL rotations. Returns the new root.
    fn fixup(root: Box<Node>) -> (r: Box<Node>)
        requires
            wf(root.left),
            wf(root.right),
            ordered(*root),
            ht(root.left) <= 254,
            ht(root.right) <= 254,
        ensures
            wf(Some(r)),
            tree_map(Some(r)) == tree_map(Some(root)),
            r.height <= 1 + max2(ht(root.left), ht(root.right)),
            balanced(root.left) && balanced(root.right) && -2 <= ht(root.left) - ht(root.right) <= 2
                ==> balanced(Some(r)) && max2(ht(root.left), ht(root.right)) <= r.height,
            balanced(root.left) && balanced(root.right) && -1 <= ht(root.left) - ht(root.right) <= 1
                ==> r.height == 1 + max2(ht(root.left), ht(root.right)),
    {
        let mut root = root;
        proof {
            lemma_wf_facts(root.left);
            lemma_wf_facts(root.right);
        }
        // Calculate the balance factor and check if we need rebalancing.
        let balance_factor = root.balance_factor();
        if balance_factor == 2 {
            // Subtree is left heavy.
            // Must exist, otherwise this balance factor is impossible.
            let ghost old_root = *root;
            let left = root.left.take().expect("left heavy");
            proof {
                lemma_wf_facts(left.left);
                lemma_wf_facts(left.right);
            }
            let ghost l0 = *left;
            if left.balance_factor() == -1 {
                proof {
                    assert(wf(left.right));
                    assert(left.right is Some);
                    let lr = left.right->0;
                    assert(wf(lr.left) && wf(lr.right) && fields_ok(*lr));
                }
                root.left = Some(Self::rotate_left(left));
            } else {
                root.left = Some(left);
            }
            assert(tree_map(root.left) == tree_map(old_root.left));
            let r = Self::rotate_right(root);
            proof {
                if balanced(old_root.left) && balanced(old_root.right) {
                    assert(balanced(l0.left) && balanced(l0.right));
                    if ht(l0.left) - ht(l0.right) == -1 {
                        let b = l0.right->0;
                        assert(balanced(b.left) && balanced(b.right));
                        assert(balanced(r.left));
                        assert(balanced(r.right));
                    } else {
                        assert(balanced(r.right));
                    }
                }
            }
            r
        } else if balance_factor == -2 {
            // Subtree is right heavy.
            // Must exist, otherwise this balance factor is impossible.
            let ghost old_root = *root;
            let right = root.right.take().expect("right heavy");
            proof {
                lemma_wf_facts(right.left);
                lemma_wf_facts(right.right);
            }
            let ghost r0 = *right;
            if right.balance_factor() == 1 {
                proof {
                    assert(wf(right.left));
                    assert(right.left is Some);
                    let rl = right.left->0;
                    assert(wf(rl.left) && wf(rl.right) && fields_ok(*rl));
                }
                root.right = Some(Self::rotate_right(right));
            } else {
                root.right = Some(right);
            }
            assert(tree_map(root.right) == tree_map(old_root.right));
            let r = Self::rotate_left(root);
            proof {
                if balanced(old_root.left) && balanced(old_root.right) {
                    assert(balanced(r0.left) && balanced(r0.right));
                    if ht(r0.left) - ht(r0.right) == 1 {
                        let b = r0.left->0;
                        assert(balanced(b.left) && balanced(b.right));
                        assert(balanced(r.left));
                        assert(balanced(r.right));
                    } else {
                        assert(balanced(r.left));
                    }
                }
            }
            r
        } else {
            // Fields are not updated by rotations, update it manually here.
            root.update_fields();
            root
        }
    }
}

/// AVL interval tree of free intervals. Each interval is a start and a length; the intervals
/// are non-empty and pairwise disjoint, ordered by their start.
pub struct AVLIntervalTree {
    root: Option<Box<Node>>,
}

impl View for AVLIntervalTree {
    type V = Map<usize, usize>;

    /// The free intervals, as a map from start to length.
    closed spec fn view(&self) -> Map<usize, usize> {
        tree_map(self.root)
    }
}

impl AVLIntervalTree {
    /// Well-formedness: search order, disjoint intervals and consistent cached fields.
    pub closed spec fn wf(&self) -> bool {
        wf(self.root)
    }

    /// AVL balance: at every node the height field is exact and the heights of the two
    /// subtrees differ by at most one.
    pub closed spec fn is_balanced(&self) -> bool {
        balanced(self.root)
    }

    /// The height field at the root (zero for an empty tree).
    pub closed spec fn spec_height(&self) -> int {
        ht(self.root)
    }

    /// Where a fit of `wanted_len` is cut when it is searched for in this tree: at each node
    /// the smallest long enough of the node's own interval and the largest intervals of its
    /// two subtrees is taken, the node first and then the left subtree on a tie, and the fit is
    /// cut from the end of the interval reached that way.
    pub closed spec fn spec_fit(&self, wanted_len: int) -> int {
        fit_start(self.root, wanted_len)
    }

    /// A well formed tree holds non-empty, pairwise disjoint intervals, and its root is empty
    /// exactly when it holds none.
    pub proof fn lemma_valid(&self)
        requires
            self.wf(),
        ensures
            valid_intervals(self@),
            0 <= self.spec_height() <= 255,
            self.spec_root() is None <==> self@ == Map::<usize, usize>::empty(),
            self.spec_root() is None <==> self.spec_height() == 0,
    {
        lemma_wf_facts(self.root);
        if let Some(n) = self.root {
            assert(self@.contains_key(n.interval_start));
        }
    }

    /// A balanced tree of height `h` holds at least `2^(h/2) - 1` intervals, and there are no
    /// more intervals than addresses: its height is at most 129.
    pub proof fn lemma_balanced_height(&self)
        requires
            self.wf(),
            self.is_balanced(),
        ensures
            self.spec_height() <= 129,
    {
        lemma_balanced_count(self.root);
        let d = tree_map(self.root).dom();
        let f = |k: usize| k as int;
        let y = d.map(f);
        assert(injective_on(f, d));
        lemma_map_size(d, y, f);
        assert(y.subset_of(set_int_range(0, usize::MAX + 1)));
        lemma_int_range(0, usize::MAX + 1);
        lemma_len_subset(y, set_int_range(0, usize::MAX + 1));
        lemma2_to64();
        if self.spec_height() > 129 {
            let e = (self.spec_height() / 2) as nat;
            lemma_pow2_unfold(65);
            if e > 65 {
                lemma_pow2_strictly_increases(65, e);
            }
        }
    }

    /// Constructs an empty AVL interval tree.
    pub fn new() -> (r: Self)
        ensures
            r.wf(),
            r.is_balanced(),
            r@ == Map::<usize, usize>::empty(),
            r.spec_height() == 0,
    {
        Self { root: None }
    }

    /// The height field at the root of the tree (zero when empty).
    pub fn height(&self) -> (r: u8)
        ensures
            r == self.spec_height(),
    {
        Node::height(&self.root)
    }

    /// The root node of the tree.
    pub closed spec fn spec_root(&self) -> Option<Box<Node>> {
        self.root
    }

    /// The root node of the tree, to inspect its shape.
    pub fn root(&self) -> (r: &Option<Box<Node>>)
        ensures
            *r == self.spec_root(),
    {
        &self.root
    }

    /// Insert helper. Returns new root.
    fn insert_helper(root: Option<Box<Node>>, interval_start: usize, interval_len: usize) -> (r:
        Option<Box<Node>>)
        requires
            wf(root),
            ht(root) <= 254,
            interval_len > 0,
            interval_start + interval_len <= usize::MAX,
            disjoint_from_all(tree_map(root), interval_start as int, interval_len as int),
        ensures
            wf(r),
            r is Some,
            tree_map(r) == tree_map(root).insert(interval_start, interval_len),
            ht(r) <= ht(root) + 1,
            balanced(root) ==> balanced(r) && ht(root) <= ht(r),
        decreases root,
    {
        proof {
            lemma_wf_facts(root);
        }
        match root {
            None => {
                let r = Some(
                    Box::new(
                        Node {
                            interval_start,
                            interval_len,
                            max_len: interval_len,
                            left: None,
                            right: None,
                            height: 1,
                        },
                    ),
                );
                proof {
                    assert(tree_map(r) =~= tree_map(root).insert(interval_start, interval_len));
                }
                r
            },
            Some(mut root) => {
                let ghost old_root = *root;
                proof {
                    lemma_wf_facts(old_root.left);
                    lemma_wf_facts(old_root.right);
                    lemma_node_keys(old_root);
                    assert(tree_map(Some(root)).contains_key(old_root.interval_start));
                }
                if interval_start < root.interval_start {
                    proof {
                        assert forall|k: usize| #[trigger] tree_map(old_root.left).contains_key(k) implies disjoint(k as int, tree_map(old_root.left)[k] as int, interval_start as int, interval_len as int) by {
                            assert(tree_map(Some(root)).contains_key(k));
                        }
                    }
                    root.left = Self::insert_helper(root.left.take(), interval_start, interval_len);
                    proof {
                        assert forall|k: usize| #[trigger] tree_map(root.left).contains_key(k) implies k + tree_map(root.left)[k] <= root.interval_start by {
                            if k != interval_start {
                                assert(tree_map(old_root.left).contains_key(k));
                            }
                        }
                        assert(tree_map(Some(root)) =~= tree_map(Some(Box::new(old_root))).insert(interval_start, interval_len));
                    }
                } else {
                    proof {
                        assert forall|k: usize| #[trigger] tree_map(old_root.right).contains_key(k) implies disjoint(k as int, tree_map(old_root.right)[k] as int, interval_start as int, interval_len as int) by {
                            assert(tree_map(Some(root)).contains_key(k));
                        }
                    }
                    root.right = Self::insert_helper(root.right.take(), interval_start, interval_len);
                    proof {
                        assert forall|k: usize| #[trigger] tree_map(root.right).contains_key(k) implies root.interval_start + root.interval_len <= k by {
                            if k != interval_start {
                                assert(tree_map(old_root.right).contains_key(k));
                            }
                        }
                        assert(tree_map(Some(root)) =~= tree_map(Some(Box::new(old_root))).insert(interval_start, interval_len));
                    }
                }
                Some(Node::fixup(root))
            },
        }
    }

    /// Inserts a new interval in the tree. The tree holds free regions, which never overlap:
    /// the new interval must be non-empty and overlap none of the tree (`overlaps` tells).
    pub fn insert(&mut self, interval_start: usize, interval_len: usize)
        requires
            old(self).wf(),
            old(self).spec_height() < 255,
            interval_len > 0,
            interval_start + interval_len <= usize::MAX,
            disjoint_from_all(old(self)@, interval_start as int, interval_len as int),
        ensures
            final(self).wf(),
            final(self)@ == old(self)@.insert(interval_start, interval_len),
            final(self).spec_height() <= old(self).spec_height() + 1,
            old(self).is_balanced() ==> final(self).is_balanced(),
    {
        self.root = Self::insert_helper(self.root.take(), interval_start, interval_len);
    }

    /// Remove the minimum from a node and returns the old minimum node.
    fn remove_min(root: Box<Node>) -> (r: (Option<Box<Node>>, Box<Node>))
        requires
            wf(Some(root)),
        ensures
            wf(r.0),
            tree_map(Some(root)).contains_key(r.1.interval_start),
            tree_map(Some(root))[r.1.interval_start] == r.1.interval_len,
            tree_map(r.0) == tree_map(Some(root)).remove(r.1.interval_start),
            forall|k: usize| #[trigger] tree_map(r.0).contains_key(k) ==> r.1.interval_start
                + r.1.interval_len <= k,
            ht(r.0) <= ht(Some(root)),
            balanced(Some(root)) ==> balanced(r.0) && ht(Some(root)) - 1 <= ht(r.0),
            r.1.interval_len > 0,
            r.1.interval_start + r.1.interval_len <= usize::MAX,
        decreases root,
    {
        let ghost old_root = *root;
        let mut root = root;
        proof {
            lemma_wf_facts(old_root.left);
            lemma_wf_facts(old_root.right);
            lemma_node_keys(old_root);
        }
        match root.left.take() {
            Some(l) => {
                let (left, min) = Self::remove_min(l);
                root.left = left;
                proof {
                    assert forall|k: usize| #[trigger] tree_map(root.left).contains_key(k) implies k + tree_map(root.left)[k] <= root.interval_start by {
                        assert(tree_map(old_root.left).contains_key(k));
                    }
                    assert(tree_map(Some(root)) =~= tree_map(Some(Box::new(old_root))).remove(min.interval_start));
                    assert forall|k: usize| #[trigger] tree_map(Some(root)).contains_key(k) implies min.interval_start + min.interval_len <= k by {
                        if k == root.interval_start {
                        } else if tree_map(root.right).contains_key(k) {
                        } else {
                            assert(tree_map(root.left).contains_key(k));
                        }
                    }
                }
                (Some(Node::fixup(root)), min)
            },
            None => {
                let rest = root.right.take();
                proof {
                    assert(tree_map(rest) =~= tree_map(Some(Box::new(old_root))).remove(old_root.interval_start));
                }
                (rest, root)
            },
        }
    }

    /// Recursive remove procedure, returns new root and removed length.
    fn remove_helper(root: Box<Node>, interval_start: usize) -> (r: (Option<Box<Node>>, Option<usize>))
        requires
            wf(Some(root)),
        ensures
            wf(r.0),
            ht(r.0) <= ht(Some(root)),
            balanced(Some(root)) ==> balanced(r.0) && ht(Some(root)) - 1 <= ht(r.0),
            tree_map(Some(root)).contains_key(interval_start) ==> r.1 == Some(tree_map(Some(root))[interval_start])
                && tree_map(r.0) == tree_map(Some(root)).remove(interval_start),
            !tree_map(Some(root)).contains_key(interval_start) ==> r.1 is None && tree_map(r.0)
                == tree_map(Some(root)),
        decreases root,
    {
        let ghost old_root = *root;
        let mut root = root;
        proof {
            lemma_wf_facts(old_root.left);
            lemma_wf_facts(old_root.right);
            lemma_node_keys(old_root);
        }
        if interval_start < root.interval_start {
            if let Some(left) = root.left.take() {
                let (left, result) = Self::remove_helper(left, interval_start);
                root.left = left;
                proof {
                    assert forall|k: usize| #[trigger] tree_map(root.left).contains_key(k) implies k + tree_map(root.left)[k] <= root.interval_start by {
                        assert(tree_map(old_root.left).contains_key(k));
                    }
                    assert(!tree_map(old_root.right).contains_key(interval_start));
                    assert(tree_map(Some(root)) =~= tree_map(Some(Box::new(old_root))).remove(interval_start));
                }
                return (Some(Node::fixup(root)), result);
            }
            root.left = None;
            proof {
                assert(!tree_map(old_root.right).contains_key(interval_start));
                assert(*root == old_root);
            }
        } else if interval_start > root.interval_start {
            if let Some(right) = root.right.take() {
                let (right, result) = Self::remove_helper(right, interval_start);
                root.right = right;
                proof {
                    assert forall|k: usize| #[trigger] tree_map(root.right).contains_key(k) implies root.interval_start + root.interval_len <= k by {
                        assert(tree_map(old_root.right).contains_key(k));
                    }
                    assert(!tree_map(old_root.left).contains_key(interval_start));
                    assert(tree_map(Some(root)) =~= tree_map(Some(Box::new(old_root))).remove(interval_start));
                }
                return (Some(Node::fixup(root)), result);
            }
            root.right = None;
            proof {
                assert(!tree_map(old_root.left).contains_key(interval_start));
                assert(*root == old_root);
            }
        } else {
            let len = root.interval_len;
            proof {
                assert(!tree_map(old_root.left).contains_key(interval_start));
                assert(!tree_map(old_root.right).contains_key(interval_start));
            }
            let node = if root.left.is_none() && root.right.is_none() {
                proof {
                    assert(tree_map(None) =~= tree_map(Some(Box::new(old_root))).remove(interval_start));
                }
                None
            } else if root.left.is_none() {
                let node = root.right.take();
                proof {
                    assert(tree_map(node) =~= tree_map(Some(Box::new(old_root))).remove(interval_start));
                }
                node
            } else if root.right.is_none() {
                let node = root.left.take();
                proof {
                    assert(tree_map(node) =~= tree_map(Some(Box::new(old_root))).remove(interval_start));
                }
                node
            } else {
                let (remaining, mut replacement) = Self::remove_min(root.right.take().unwrap());
                let ghost min = *replacement;
                replacement.left = root.left.take();
                replacement.right = remaining;
                proof {
                    assert(tree_map(old_root.right).contains_key(min.interval_start));
                    assert forall|k: usize| #[trigger] tree_map(replacement.left).contains_key(k) implies k + tree_map(replacement.left)[k] <= replacement.interval_start by {
                    }
                    assert(tree_map(Some(replacement)) =~= tree_map(Some(Box::new(old_root))).remove(interval_start));
                }
                Some(Node::fixup(replacement))
            };
            return (node, Some(len));
        }
        (Some(root), None)
    }

    /// Remove the interval starting with `interval_start`. Returns length if removed, false otherwise.
    pub fn remove(&mut self, interval_start: usize) -> (r: Option<usize>)
        requires
            old(self).wf(),
        ensures
            final(self).wf(),
            final(self).spec_height() <= old(self).spec_height(),
            old(self).is_balanced() ==> final(self).is_balanced(),
            old(self)@.contains_key(interval_start) ==> r == Some(old(self)@[interval_start])
                && final(self)@ == old(self)@.remove(interval_start),
            !old(self)@.contains_key(interval_start) ==> r is None && final(self)@ == old(self)@,
            final(self).spec_root() is None <==> final(self)@ == Map::<usize, usize>::empty(),
    {
        let r = if let Some(root) = self.root.take() {
            let (root, result) = Self::remove_helper(root, interval_start);
            self.root = root;
            result
        } else {
            None
        };
        proof {
            self.lemma_valid();
        }
        r
    }

    /// Helper to extend interval in tree. Returns true on found and updates it, false otherwise.
    fn extend_if_found_helper(
        root: &mut Option<Box<Node>>,
        interval_end: usize,
        interval_len: usize,
    ) -> (r: bool)
        requires
            wf(*old(root)),
            interval_len > 0,
            interval_end + interval_len <= usize::MAX,
            disjoint_from_all(tree_map(*old(root)), interval_end as int, interval_len as int),
        ensures
            wf(*final(root)),
            ht(*final(root)) == ht(*old(root)),
            balanced(*old(root)) ==> balanced(*final(root)),
            r == has_end(tree_map(*old(root)), interval_end as int),
            r ==> tree_map(*final(root)) == tree_map(*old(root)).insert(
                end_key(tree_map(*old(root)), interval_end as int),
                (tree_map(*old(root))[end_key(tree_map(*old(root)), interval_end as int)]
                    + interval_len) as usize,
            ),
            !r ==> *final(root) == *old(root),
        decreases *old(root),
    {
        let ghost m = tree_map(*root);
        proof {
            lemma_wf_facts(*root);
        }
        match root.take() {
            None => {
                proof {
                    assert(!has_end(m, interval_end as int));
                }
                false
            },
            Some(mut node) => {
                let ghost old_node = *node;
                proof {
                    lemma_wf_facts(old_node.left);
                    lemma_wf_facts(old_node.right);
                    lemma_node_keys(old_node);
                    assert(m.contains_key(old_node.interval_start));
                }
                let node_interval_end = node.interval_start + node.interval_len;
                let found = if interval_end < node_interval_end {
                    proof {
                        assert forall|k: usize| #[trigger] tree_map(old_node.left).contains_key(k) implies disjoint(k as int, tree_map(old_node.left)[k] as int, interval_end as int, interval_len as int) by {
                            assert(m.contains_key(k));
                        }
                        assert forall|k: usize| #[trigger] m.contains_key(k) && k + m[k] == interval_end implies tree_map(old_node.left).contains_key(k) by {
                            if k == old_node.interval_start {
                            } else if tree_map(old_node.right).contains_key(k) {
                            }
                        }
                    }
                    let f = Self::extend_if_found_helper(&mut node.left, interval_end, interval_len);
                    if f {
                        node.update_max_len();
                        proof {
                            let ml_ = tree_map(old_node.left);
                            let k = end_key(ml_, interval_end as int);
                            assert(m.contains_key(k) && k + m[k] == interval_end);
                            assert(end_key(m, interval_end as int) == k);
                            assert forall|j: usize| #[trigger] tree_map(node.left).contains_key(j) implies j + tree_map(node.left)[j] <= node.interval_start by {
                                assert(ml_.contains_key(j));
                            }
                            assert(tree_map(Some(node)) =~= m.insert(k, (m[k] + interval_len) as usize));
                        }
                    } else {
                        proof {
                            assert(tree_map(Some(node)) =~= m);
                        }
                    }
                    f
                } else if interval_end > node_interval_end {
                    proof {
                        assert forall|k: usize| #[trigger] tree_map(old_node.right).contains_key(k) implies disjoint(k as int, tree_map(old_node.right)[k] as int, interval_end as int, interval_len as int) by {
                            assert(m.contains_key(k));
                        }
                        assert forall|k: usize| #[trigger] m.contains_key(k) && k + m[k] == interval_end implies tree_map(old_node.right).contains_key(k) by {
                            if k == old_node.interval_start {
                            } else if tree_map(old_node.left).contains_key(k) {
                            }
                        }
                    }
                    let f = Self::extend_if_found_helper(&mut node.right, interval_end, interval_len);
                    if f {
                        node.update_max_len();
                        proof {
                            let mr = tree_map(old_node.right);
                            let k = end_key(mr, interval_end as int);
                            assert(m.contains_key(k) && k + m[k] == interval_end);
                            assert(end_key(m, interval_end as int) == k);
                            assert forall|j: usize| #[trigger] tree_map(node.right).contains_key(j) implies node.interval_start + node.interval_len <= j by {
                                assert(mr.contains_key(j));
                            }
                            assert(tree_map(Some(node)) =~= m.insert(k, (m[k] + interval_len) as usize));
                        }
                    } else {
                        proof {
                            assert(tree_map(Some(node)) =~= m);
                        }
                    }
                    f
                } else {
                    node.interval_len = node.interval_len + interval_len;
                    node.update_max_len();
                    proof {
                        let k = old_node.interval_start;
                        assert(has_end(m, interval_end as int));
                        assert forall|j: usize| #[trigger] m.contains_key(j) && j + m[j] == interval_end implies j == k by {
                            if j != k {
                                if tree_map(old_node.right).contains_key(j) {
                                } else {
                                    assert(tree_map(old_node.left).contains_key(j));
                                }
                            }
                        }
                        assert(end_key(m, interval_end as int) == k);
                        assert forall|j: usize| #[trigger] tree_map(node.right).contains_key(j) implies node.interval_start + node.interval_len <= j by {
                            assert(m.contains_key(j));
                        }
                        assert(tree_map(Some(node)) =~= m.insert(k, (m[k] + interval_len) as usize));
                    }
                    true
                };
                *root = Some(node);
                found
            },
        }
    }

    /// Extend interval in tree if found. Returns true on found and updates it, false otherwise.
    fn extend_if_found(&mut self, interval_end: usize, interval_len: usize) -> (r: bool)
        requires
            old(self).wf(),
            interval_len > 0,
            interval_end + interval_len <= usize::MAX,
            disjoint_from_all(old(self)@, interval_end as int, interval_len as int),
        ensures
            final(self).wf(),
            final(self).spec_height() == old(self).spec_height(),
            old(self).is_balanced() ==> final(self).is_balanced(),
            r == has_end(old(self)@, interval_end as int),
            r ==> final(self)@ == old(self)@.insert(
                end_key(old(self)@, interval_end as int),
                (old(self)@[end_key(old(self)@, interval_end as int)] + interval_len) as usize,
            ),
            !r ==> final(self)@ == old(self)@,
    {
        Self::extend_if_found_helper(&mut self.root, interval_end, interval_len)
    }

    /// Returns a free interval to the tree. It is merged with the free intervals right before
    /// and right after it. Like `insert`, it takes a non-empty interval that overlaps none of
    /// the tree.
    pub fn return_interval(&mut self, interval_start: usize, interval_len: usize)
        requires
            old(self).wf(),
            old(self).spec_height() < 255,
            interval_len > 0,
            interval_start + interval_len <= usize::MAX,
            disjoint_from_all(old(self)@, interval_start as int, interval_len as int),
        ensures
            final(self).wf(),
            final(self)@ == returned(old(self)@, interval_start as int, interval_len as int),
            final(self).spec_height() <= old(self).spec_height() + 1,
            old(self).is_balanced() ==> final(self).is_balanced(),
    {
        let ghost m = self@;
        proof {
            lemma_wf_facts(self.root);
        }
        // Merge at front of other interval if possible.
        let removed = self.remove(interval_start + interval_len);
        let ghost m1 = self@;
        proof {
            assert(m1 =~= m.remove((interval_start + interval_len) as usize));
        }
        let interval_len = interval_len + match removed {
            Some(l) => l,
            None => 0,
        };
        proof {
            assert forall|k: usize| #[trigger] m1.contains_key(k) implies disjoint(k as int, m1[k] as int, interval_start as int, interval_len as int) by {
                assert(m.contains_key(k));
            }
        }
        // Extend the end of other interval if possible.
        if !self.extend_if_found(interval_start, interval_len) {
            // There was no interval that could be extended. Insert a new one.
            self.insert(interval_start, interval_len);
        }
    }

    /// Whether some interval of the subtree overlaps `[start, start + len)`.
    fn overlaps_helper(root: &Option<Box<Node>>, start: usize, len: usize) -> (r: bool)
        requires
            wf(*root),
            start + len <= usize::MAX,
        ensures
            r == !disjoint_from_all(tree_map(*root), start as int, len as int),
        decreases *root,
    {
        proof {
            lemma_wf_facts(*root);
        }
        match root {
            None => false,
            Some(node) => {
                let ghost m = tree_map(*root);
                let ghost ml = tree_map(node.left);
                let ghost mr = tree_map(node.right);
                proof {
                    lemma_wf_facts(node.left);
                    lemma_wf_facts(node.right);
                    lemma_node_keys(**node);
                }
                if start + len <= node.interval_start {
                    // The node and everything right of it lie after the range.
                    let r = Self::overlaps_helper(&node.left, start, len);
                    proof {
                        if r {
                            let k = choose|k: usize| #[trigger] ml.contains_key(k) && !disjoint(k as int, ml[k] as int, start as int, len as int);
                            assert(m.contains_key(k));
                        } else {
                            assert forall|k: usize| #[trigger] m.contains_key(k) implies disjoint(k as int, m[k] as int, start as int, len as int) by {
                                if k == node.interval_start {
                                } else if mr.contains_key(k) {
                                } else {
                                    assert(ml.contains_key(k));
                                }
                            }
                        }
                    }
                    r
                } else if node.interval_start + node.interval_len <= start {
                    // The node and everything left of it lie before the range.
                    let r = Self::overlaps_helper(&node.right, start, len);
                    proof {
                        if r {
                            let k = choose|k: usize| #[trigger] mr.contains_key(k) && !disjoint(k as int, mr[k] as int, start as int, len as int);
                            assert(m.contains_key(k));
                        } else {
                            assert forall|k: usize| #[trigger] m.contains_key(k) implies disjoint(k as int, m[k] as int, start as int, len as int) by {
                                if k == node.interval_start {
                                } else if mr.contains_key(k) {
                                } else {
                                    assert(ml.contains_key(k));
                                }
                            }
                        }
                    }
                    r
                } else {
                    proof {
                        assert(m.contains_key(node.interval_start));
                    }
                    true
                }
            },
        }
    }

    /// Whether some interval of the tree overlaps `[start, start + len)`.
    pub fn overlaps(&self, start: usize, len: usize) -> (r: bool)
        requires
            self.wf(),
            start + len <= usize::MAX,
        ensures
            r == !disjoint_from_all(self@, start as int, len as int),
    {
        Self::overlaps_helper(&self.root, start, len)
    }

    /// Recursive find length helper, returns new root and the start offset of the fit.
    /// The fit is the smallest of the node's own interval and the largest intervals of its
    /// subtrees that is long enough; the first of these in that order wins a tie.
    fn find_len_helper(root: Box<Node>, wanted_len: usize) -> (r: (Option<Box<Node>>, Option<usize>))
        requires
            wf(Some(root)),
            wanted_len > 0,
            ml(Some(root)) >= wanted_len,
        ensures
            wf(r.0),
            ht(r.0) <= ht(Some(root)),
            exists|k: usize|
                #![trigger tree_map(Some(root)).contains_key(k)]
                tree_map(Some(root)).contains_key(k) && tree_map(Some(root))[k] >= wanted_len
                    && r.1 == Some((k + tree_map(Some(root))[k] - wanted_len) as usize)
                    && tree_map(r.0) == carve(tree_map(Some(root)), k, wanted_len as int),
            r.1 == Some(fit_start(Some(root), wanted_len as int) as usize),
            fit_shape(*root, wanted_len as int, r.0),
        decreases root,
    {
        let ghost old_root = *root;
        let ghost m = tree_map(Some(root));
        let mut root = root;
        proof {
            lemma_wf_facts(old_root.left);
            lemma_wf_facts(old_root.right);
            lemma_node_keys(old_root);
            assert(m.contains_key(old_root.interval_start));
        }
        let left = Node::max_len(&root.left);
        let right = Node::max_len(&root.right);
        let me = root.interval_len;
        let me_ok = me >= wanted_len;
        let left_ok = left >= wanted_len;
        let right_ok = right >= wanted_len;

        // The first of the smallest candidates that are long enough.
        let choice = if me_ok && (!left_ok || me <= left) && (!right_ok || me <= right) {
            Choice::Me
        } else if left_ok && (!right_ok || left <= right) {
            Choice::Left
        } else {
            Choice::Right
        };

        match choice {
            Choice::Left => {
                let (left, result) = Self::find_len_helper(
                    root.left.take().expect("left is filtered"),
                    wanted_len,
                );
                root.left = left;
                root.update_max_len();
                proof {
                    let ml_ = tree_map(old_root.left);
                    let k = choose|k: usize|
                        #![trigger ml_.contains_key(k)]
                        ml_.contains_key(k) && ml_[k] >= wanted_len && result == Some(
                            (k + ml_[k] - wanted_len) as usize,
                        ) && tree_map(root.left) == carve(ml_, k, wanted_len as int);
                    assert(m.contains_key(k) && m[k] == ml_[k]);
                    assert forall|j: usize| #[trigger] tree_map(root.left).contains_key(j) implies j + tree_map(root.left)[j] <= root.interval_start by {
                        assert(ml_.contains_key(j));
                    }
                    assert(tree_map(Some(root)) =~= carve(m, k, wanted_len as int));
                }
                (Some(root), result)
            },
            Choice::Right => {
                let (right, result) = Self::find_len_helper(
                    root.right.take().expect("right is filtered"),
                    wanted_len,
                );
                root.right = right;
                root.update_max_len();
                proof {
                    let mr = tree_map(old_root.right);
                    let k = choose|k: usize|
                        #![trigger mr.contains_key(k)]
                        mr.contains_key(k) && mr[k] >= wanted_len && result == Some(
                            (k + mr[k] - wanted_len) as usize,
                        ) && tree_map(root.right) == carve(mr, k, wanted_len as int);
                    assert(m.contains_key(k) && m[k] == mr[k]);
                    assert forall|j: usize| #[trigger] tree_map(root.right).contains_key(j) implies root.interval_start + root.interval_len <= j by {
                        assert(mr.contains_key(j));
                    }
                    assert(tree_map(Some(root)) =~= carve(m, k, wanted_len as int));
                }
                (Some(root), result)
            },
            // The current node has the fit.
            Choice::Me => {
                let start = root.interval_start;
                let result = Some(start + root.interval_len - wanted_len);

                // If we are lucky, we can just shrink the interval and fix the parents.
                let root = if root.interval_len > wanted_len {
                    // We're lucky.
                    root.interval_len = root.interval_len - wanted_len;
                    root.update_max_len();
                    proof {
                        assert(tree_map(Some(root)) =~= carve(m, start, wanted_len as int));
                    }
                    Some(root)
                } else {
                    // Unlucky, need to remove interval.
                    let r = Self::remove_helper(root, start).0;
                    proof {
                        assert(tree_map(r) =~= carve(m, start, wanted_len as int));
                    }
                    r
                };

                (root, result)
            },
        }
    }

    /// Tries to find a good fit and returns the start offset of the fit if found.
    /// The fit is taken from the end of a free interval that is long enough.
    pub fn find_len(&mut self, wanted_len: usize) -> (r: Option<usize>)
        requires
            old(self).wf(),
            wanted_len > 0,
        ensures
            final(self).wf(),
            final(self).spec_height() <= old(self).spec_height(),
            r is None <==> forall|k: usize| #[trigger]
                old(self)@.contains_key(k) ==> old(self)@[k] < wanted_len,
            r is None ==> final(self)@ == old(self)@,
            r is Some ==> r == Some(old(self).spec_fit(wanted_len as int) as usize),
            r is Some ==> (old(self).spec_root() matches Some(n) && fit_shape(*n, wanted_len as int, final(self).spec_root())),
            r is Some ==> exists|k: usize|
                #![trigger old(self)@.contains_key(k)]
                old(self)@.contains_key(k) && old(self)@[k] >= wanted_len && r == Some(
                    (k + old(self)@[k] - wanted_len) as usize,
                ) && final(self)@ == carve(old(self)@, k, wanted_len as int),
    {
        proof {
            lemma_wf_facts(self.root);
        }
        // We will find a gap if the max available gap is big enough.
        if Node::max_len(&self.root) < wanted_len {
            return None;
        }
        let ghost m = self@;
        let root = self.root.take().unwrap();
        assert(tree_map(Some(root)) == m);
        let (root, result) = Self::find_len_helper(root, wanted_len);
        self.root = root;
        result
    }
}

/// Taking `wanted_len` from the end of a free interval removes exactly those addresses from the
/// free space: the part taken was free, and everything else stays as it was.
pub proof fn lemma_carve_covered(m: Map<usize, usize>, k: usize, wanted_len: int)
    requires
        valid_intervals(m),
        m.contains_key(k),
        0 < wanted_len <= m[k],
    ensures
        range_set(k + m[k] - wanted_len, wanted_len).subset_of(covered(m)),
        covered(carve(m, k, wanted_len)) =~= covered(m).difference(
            range_set(k + m[k] - wanted_len, wanted_len),
        ),
{
    let off = k + m[k] - wanted_len;
    let c = carve(m, k, wanted_len);
    let r = range_set(off, wanted_len);
    assert forall|a: int| r.contains(a) implies #[trigger] covered(m).contains(a) by {
        assert(m.contains_key(k) && k <= a < k + m[k]);
    }
    assert forall|a: int| #[trigger] covered(c).contains(a) implies covered(m).contains(a)
        && !r.contains(a) by {
        let j = choose|j: usize| #[trigger] c.contains_key(j) && j <= a < j + c[j];
        if j == k {
            assert(m.contains_key(k) && k <= a < k + m[k]);
        } else {
            assert(m.contains_key(j) && j <= a < j + m[j]);
        }
    }
    assert forall|a: int| covered(m).contains(a) && !r.contains(a) implies #[trigger] covered(
        c,
    ).contains(a) by {
        let j = choose|j: usize| #[trigger] m.contains_key(j) && j <= a < j + m[j];
        if j == k {
            assert(c.contains_key(k) && k <= a < k + c[k]);
        } else {
            assert(c.contains_key(j) && j <= a < j + c[j]);
        }
    }
}

/// Giving back a free interval adds exactly its addresses to the free space, and the intervals
/// stay non-empty and pairwise disjoint.
pub proof fn lemma_returned_covered(m: Map<usize, usize>, s: int, len: int)
    requires
        valid_intervals(m),
        len > 0,
        0 <= s,
        s + len <= usize::MAX,
        disjoint_from_all(m, s, len),
    ensures
        valid_intervals(returned(m, s, len)),
        covered(returned(m, s, len)) =~= covered(m).union(range_set(s, len)),
{
    let e = (s + len) as usize;
    let l1 = if m.contains_key(e) {
        len + m[e]
    } else {
        len
    };
    let m1 = m.remove(e);
    // First step: the interval starting at the end is merged.
    assert(s + l1 <= usize::MAX);
    assert(disjoint_from_all(m1, s, l1)) by {
        assert forall|k: usize| #[trigger] m1.contains_key(k) implies disjoint(
            k as int,
            m1[k] as int,
            s,
            l1,
        ) by {
            assert(m.contains_key(k));
            if m.contains_key(e) {
                assert(k != e);
            }
        }
    }
    assert(covered(m1).union(range_set(s, l1)) =~= covered(m).union(range_set(s, len))) by {
        assert forall|a: int| #[trigger] covered(m).contains(a) implies covered(m1).union(
            range_set(s, l1),
        ).contains(a) by {
            let j = choose|j: usize| #[trigger] m.contains_key(j) && j <= a < j + m[j];
            if j == e {
                assert(range_set(s, l1).contains(a));
            } else {
                assert(m1.contains_key(j) && j <= a < j + m1[j]);
            }
        }
        assert forall|a: int| #[trigger] covered(m1).contains(a) implies covered(m).contains(a) by {
            let j = choose|j: usize| #[trigger] m1.contains_key(j) && j <= a < j + m1[j];
            assert(m.contains_key(j) && j <= a < j + m[j]);
        }
        assert forall|a: int| #[trigger] range_set(s, l1).contains(a) implies covered(m).union(
            range_set(s, len),
        ).contains(a) by {
            if a >= s + len {
                assert(m.contains_key(e) && e <= a < e + m[e]);
            }
        }
    }
    let res = returned(m, s, len);
    if has_end(m1, s) {
        let k = end_key(m1, s);
        assert(m1.contains_key(k) && k + m1[k] == s);
        assert(res == m1.insert(k, (m1[k] + l1) as usize));
        assert forall|j: usize| #[trigger] res.contains_key(j) implies res[j] > 0 && j + res[j]
            <= usize::MAX by {
            if j != k {
                assert(m1.contains_key(j));
            }
        }
        assert forall|j1: usize, j2: usize|
            res.contains_key(j1) && res.contains_key(j2) && j1 != j2 implies #[trigger] disjoint(
            j1 as int,
            res[j1] as int,
            j2 as int,
            res[j2] as int,
        ) by {
            assert(m1.contains_key(j1) || j1 == k);
            assert(m1.contains_key(j2) || j2 == k);
            if j1 != k && j2 != k {
                assert(m.contains_key(j1) && m.contains_key(j2));
            } else if j1 == k {
                assert(m.contains_key(j2) && m.contains_key(k));
                assert(disjoint(j2 as int, m1[j2] as int, s, l1));
            } else {
                assert(m.contains_key(j1) && m.contains_key(k));
                assert(disjoint(j1 as int, m1[j1] as int, s, l1));
            }
        }
        assert(res.dom() =~= m1.dom().insert(k));
        assert forall|a: int| #[trigger] covered(res).contains(a) == covered(m1).union(
            range_set(s, l1),
        ).contains(a) by {
            if covered(res).contains(a) {
                let j = choose|j: usize| #[trigger] res.contains_key(j) && j <= a < j + res[j];
                if j == k {
                    if a >= s {
                        assert(range_set(s, l1).contains(a));
                    } else {
                        assert(m1.contains_key(k) && k <= a < k + m1[k]);
                    }
                } else {
                    assert(m1.contains_key(j) && j <= a < j + m1[j]);
                }
            }
            if covered(m1).contains(a) {
                let j = choose|j: usize| #[trigger] m1.contains_key(j) && j <= a < j + m1[j];
                if j == k {
                    assert(res.contains_key(k) && k <= a < k + res[k]);
                } else {
                    assert(res.contains_key(j) && j <= a < j + res[j]);
                }
            }
            if range_set(s, l1).contains(a) {
                assert(res.contains_key(k) && k <= a < k + res[k]);
            }
        }
    } else {
        let s_ = s as usize;
        assert(res == m1.insert(s_, l1 as usize));
        assert forall|j: usize| #[trigger] res.contains_key(j) implies res[j] > 0 && j + res[j]
            <= usize::MAX by {
            if j != s_ {
                assert(m1.contains_key(j));
            }
        }
        assert forall|j1: usize, j2: usize|
            res.contains_key(j1) && res.contains_key(j2) && j1 != j2 implies #[trigger] disjoint(
            j1 as int,
            res[j1] as int,
            j2 as int,
            res[j2] as int,
        ) by {
            if j1 != s_ && j2 != s_ {
                assert(m.contains_key(j1) && m.contains_key(j2));
            } else if j1 == s_ {
                assert(m1.contains_key(j2));
            } else {
                assert(m1.contains_key(j1));
            }
        }
        assert(res.dom() =~= m1.dom().insert(s_));
        assert forall|a: int| #[trigger] covered(res).contains(a) == covered(m1).union(
            range_set(s, l1),
        ).contains(a) by {
            if covered(res).contains(a) {
                let j = choose|j: usize| #[trigger] res.contains_key(j) && j <= a < j + res[j];
                if j != s_ {
                    assert(m1.contains_key(j) && j <= a < j + m1[j]);
                }
            }
            if covered(m1).contains(a) {
                let j = choose|j: usize| #[trigger] m1.contains_key(j) && j <= a < j + m1[j];
                if j == s_ {
                    assert(disjoint(j as int, m1[j] as int, s, l1));
                } else {
                    assert(res.contains_key(j) && j <= a < j + res[j]);
                }
            }
            if range_set(s, l1).contains(a) {
                assert(res.contains_key(s_) && s_ <= a < s_ + res[s_]);
            }
        }
    }
}

/// Handing out a fit and giving it back leaves the same free addresses as before.
pub proof fn lemma_find_then_return(m: Map<usize, usize>, k: usize, wanted_len: int)
    requires
        valid_intervals(m),
        m.contains_key(k),
        0 < wanted_len <= m[k],
    ensures
        disjoint_from_all(carve(m, k, wanted_len), k + m[k] - wanted_len, wanted_len),
        valid_intervals(carve(m, k, wanted_len)),
        covered(returned(carve(m, k, wanted_len), k + m[k] - wanted_len, wanted_len)) =~= covered(
            m,
        ),
{
    let off = k + m[k] - wanted_len;
    let c = carve(m, k, wanted_len);
    lemma_carve_covered(m, k, wanted_len);
    assert forall|j: usize| #[trigger] c.contains_key(j) implies c[j] > 0 && j + c[j]
        <= usize::MAX by {
        assert(m.contains_key(j));
    }
    assert forall|j1: usize, j2: usize|
        c.contains_key(j1) && c.contains_key(j2) && j1 != j2 implies #[trigger] disjoint(
        j1 as int,
        c[j1] as int,
        j2 as int,
        c[j2] as int,
    ) by {
        assert(m.contains_key(j1) && m.contains_key(j2));
    }
    assert(c.dom().subset_of(m.dom()));
    assert(c.dom().finite()) by {
        vstd::set_lib::lemma_len_subset(c.dom(), m.dom());
    }
    assert forall|j: usize| #[trigger] c.contains_key(j) implies disjoint(
        j as int,
        c[j] as int,
        off,
        wanted_len,
    ) by {
        assert(m.contains_key(j));
        if j != k {
            assert(disjoint(j as int, m[j] as int, k as int, m[k] as int));
        }
    }
    lemma_returned_covered(c, off, wanted_len);
    assert(covered(c).union(range_set(off, wanted_len)) =~= covered(m));
}
} // verus!
