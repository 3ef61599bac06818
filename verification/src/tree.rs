//! The ratchet tree: layered node storage, two-phase ratchet and commit,
//! deletion via tombstones and orphan-slot reuse.
//!
//! `layers[0]` is the leaf layer and `layers[h + 1]` holds the parents of
//! `layers[h]`. Indices are 1-based within a layer: index 0 of every layer
//! is a reserved default slot. The parent of node `i` is `ceil(i / 2)` and
//! its sibling is `i - 1` for even `i`, `i + 1` for odd `i`.
//!
//! A ratchet walks the path from a leaf toward the root, combining each
//! computed node with its sibling by a Diffie-Hellman reduction, and
//! collects the results in an uncommitted branch. A commit writes a branch
//! into the layers atomically; removal is a ratchet whose leaf input is
//! the tombstone key, whose absence then propagates upward.

use vstd::prelude::*;

use crate::ecdh::dh_result_repr;
use crate::ecdh::key_from_secret_view;
use crate::ecdh::repr_valid;
use crate::ecdh::tombstone_key_view;
use crate::ecdh::Key;
use crate::ecdh::KeyView;
use crate::mem::AllocatorCell;
use crate::mem::AllocatorPool;
use crate::mem::PoolView;

verus! {

/// Pool slot backing the outer layer list.
pub const MEMORY_ROOT_NODE_INDEX: usize = 0;

/// Pool slot backing the orphan list.
pub const MEMORY_ORPHAN_NODE_INDEX: usize = 1;

/// Pool slot used as branch scratch space.
pub const MEMORY_BRANCH_INDEX: usize = 2;

/// First pool slot backing a tree layer; layer `h` uses slot `3 + h`.
pub const MEMORY_TREE_START_INDEX: usize = 3;

// ---------------------------------------------------------------------------
// Index helpers
// ---------------------------------------------------------------------------

/// The index of the parent of node `i`: `ceil(i / 2)`.
pub open spec fn parent_idx(i: int) -> int {
    (i + 1) / 2
}

/// The index of the sibling of node `i`: the other member of its pair.
pub open spec fn sib_idx(i: int) -> int {
    if i % 2 == 0 {
        i - 1
    } else {
        i + 1
    }
}

/// The lowest set bit of `i`, as a power of two; 0 when `i` is 0.
pub open spec fn lowest_set_bit(i: int) -> int
    decreases i,
{
    if i <= 0 {
        0
    } else if i % 2 == 1 {
        1
    } else {
        2 * lowest_set_bit(i / 2)
    }
}

/// Whether an index is even.
pub fn is_even(i: usize) -> (r: bool)
    ensures
        r == (i % 2 == 0),
{
    proof {
        assert((i & 0x1) == (i % 2)) by (bit_vector);
    }
    i & 0x1 == 0
}

/// The lowest set bit of `i`, as a power of two.
pub fn lsb(i: usize) -> (r: usize)
    ensures
        r == lowest_set_bit(i as int),
{
    let mut v = i;
    let mut b: usize = 1;
    while v % 2 == 0 && v > 0
        invariant
            lowest_set_bit(i as int) == if v > 0 {
                b * lowest_set_bit(v as int)
            } else {
                0
            },
            v > 0 ==> b * v <= i,
            b >= 1,
        decreases v,
    {
        proof {
            assert(v >= 2);
            assert(lowest_set_bit(v as int) == 2 * lowest_set_bit(v as int / 2));
            assert(b * (2 * lowest_set_bit(v as int / 2)) == (b * 2) * lowest_set_bit(
                v as int / 2,
            )) by (nonlinear_arith);
            assert((b * 2) * ((v as int) / 2) == b * v) by (nonlinear_arith)
                requires
                    v % 2 == 0,
                    v >= 2,
            ;
            assert(b * 2 <= b * v) by (nonlinear_arith)
                requires
                    v >= 2,
                    b >= 1,
            ;
        }
        b = b * 2;
        v = v / 2;
    }
    if v == 0 {
        0
    } else {
        proof {
            assert(lowest_set_bit(v as int) == 1);
        }
        b
    }
}

/// Rounds an odd number up to the next even number; an even number is
/// unchanged.
pub fn round_up(i: usize) -> (r: usize)
    requires
        i < usize::MAX,
    ensures
        r == i + (i % 2),
{
    proof {
        assert((i & 0x1) == (i % 2)) by (bit_vector);
    }
    i + (i & 0x1)
}

/// The index of the parent pair of index `i` in the next layer up.
pub fn get_next_index(i: usize) -> (r: usize)
    requires
        i < usize::MAX,
    ensures
        r == parent_idx(i as int),
{
    round_up(i) / 2
}

/// The sibling pair index for the key at index `i`.
pub fn get_sibling_index(i: usize) -> (r: usize)
    requires
        1 <= i,
        i < usize::MAX,
    ensures
        r == sib_idx(i as int),
{
    if is_even(i) {
        i - 1
    } else {
        i + 1
    }
}

// ---------------------------------------------------------------------------
// Errors
// ---------------------------------------------------------------------------

/// The kinds of failure a ratchet-tree operation can report.
#[derive(Clone, Copy, Debug, PartialEq, Eq, Structural)]
pub enum RatchetErrorCause {
    /// The pool holds fewer slots than the branch needs.
    OutOfMemory,
    /// The branch is shorter than the tree's height.
    BranchTooShort,
    /// An index lies outside the layer that should hold it.
    IndexOutOfRange,
    /// The requested layer does not exist.
    NoLayer,
    /// The Diffie-Hellman reduction produced an invalid scalar.
    DiffieHellmanFailed,
}

/// Failure of a ratchet-tree operation, carrying the offending position.
#[derive(Clone, Copy, Debug)]
pub struct RatchetError {
    pub description: &'static str,
    pub cause: RatchetErrorCause,
    pub index: usize,
    pub height: usize,
}

// ---------------------------------------------------------------------------
// Path iterator
// ---------------------------------------------------------------------------

/// The state of a root-ward path walk.
pub ghost struct RatchetIterView {
    pub index: int,
    pub height: int,
    pub curr_index: int,
    pub curr_height: int,
}

/// Enumerates `(height, node index, sibling index)` along the path from a
/// leaf toward the root. The walk ends once the index has reached the top
/// pair and the height has reached the tree height.
pub struct RatchetIter {
    index: usize,
    height: usize,
    curr_index: usize,
    curr_height: usize,
}

impl View for RatchetIter {
    type V = RatchetIterView;

    closed spec fn view(&self) -> RatchetIterView {
        RatchetIterView {
            index: self.index as int,
            height: self.height as int,
            curr_index: self.curr_index as int,
            curr_height: self.curr_height as int,
        }
    }
}

/// Whether the walk at `(curr_index, curr_height)` is finished for a tree
/// of height `height`.
pub open spec fn iter_done(curr_index: int, curr_height: int, height: int) -> bool {
    curr_index < 2 && curr_height >= height
}

impl RatchetIter {
    /// A walk starting at `index`, for a tree of the given height.
    pub fn new(index: usize, height: usize, curr_height: usize) -> (r: RatchetIter)
        ensures
            r@ == (RatchetIterView {
                index: index as int,
                height: height as int,
                curr_index: index as int,
                curr_height: curr_height as int,
            }),
    {
        RatchetIter { index, height, curr_index: index, curr_height }
    }

    /// Rewinds the walk to its starting index.
    pub fn reset(&mut self)
        ensures
            final(self)@ == (RatchetIterView { curr_index: old(self)@.index, ..old(self)@ }),
    {
        self.curr_index = self.index;
    }

    /// The next step of the walk: the current height, the current index
    /// and its sibling; or nothing once the walk is finished.
    pub fn next(&mut self) -> (r: Option<(usize, usize, usize)>)
        requires
            1 <= old(self)@.curr_index,
            old(self)@.curr_index < usize::MAX,
            old(self)@.curr_height < usize::MAX,
        ensures
            iter_done(old(self)@.curr_index, old(self)@.curr_height, old(self)@.height) ==> (
            r is None && *final(self) == *old(self)),
            !iter_done(old(self)@.curr_index, old(self)@.curr_height, old(self)@.height) ==> (
            r matches Some(t) && t.0 == old(self)@.curr_height && t.1 == old(self)@.curr_index
                && t.2 == sib_idx(old(self)@.curr_index) && final(self)@ == (RatchetIterView {
                curr_index: parent_idx(old(self)@.curr_index),
                curr_height: old(self)@.curr_height + 1,
                ..old(self)@
            })),
    {
        if self.curr_index < 2 && self.curr_height >= self.height {
            return None;
        }
        let next = (self.curr_height, self.curr_index, get_sibling_index(self.curr_index));
        self.curr_index = get_next_index(self.curr_index);
        self.curr_height = self.curr_height + 1;
        Some(next)
    }
}

// ---------------------------------------------------------------------------
// Ratchet branch
// ---------------------------------------------------------------------------

/// The mathematical content of a branch: its root leaf index and the
/// keys recomputed along the path, leaf first.
pub ghost struct BranchView {
    pub root: int,
    pub nodes: Seq<KeyView>,
}

/// An uncommitted sequence of keys along a tree path. `nodes[0]` is the
/// new leaf; successive entries are the recomputed nodes toward the root.
/// Dropping a branch without committing it leaves the tree untouched.
pub struct RatchetBranch {
    root: usize,
    nodes: Vec<Key>,
}

impl View for RatchetBranch {
    type V = BranchView;

    closed spec fn view(&self) -> BranchView {
        BranchView {
            root: self.root as int,
            nodes: Seq::new(self.nodes@.len(), |i: int| self.nodes@[i]@),
        }
    }
}

impl RatchetBranch {
    /// An empty branch rooted at leaf index `root`. The scratch cell is
    /// the pool slot whose recycling the caller defers while the branch
    /// is alive.
    pub fn new(_scratch: &AllocatorCell, root: usize) -> (r: RatchetBranch)
        ensures
            r@.root == root,
            r@.nodes == Seq::<KeyView>::empty(),
    {
        let r = RatchetBranch { root, nodes: Vec::new() };
        proof {
            assert(r@.nodes =~= Seq::<KeyView>::empty());
        }
        r
    }

    /// The leaf index this branch was ratcheted from.
    pub fn root(&self) -> (r: usize)
        ensures
            r == self@.root,
    {
        self.root
    }

    /// Appends the next computed node.
    pub fn add_node(&mut self, key: Key)
        ensures
            final(self)@.root == old(self)@.root,
            final(self)@.nodes == old(self)@.nodes.push(key@),
    {
        self.nodes.push(key);
        proof {
            assert(self@.nodes =~= old(self)@.nodes.push(key@));
        }
    }

    /// The node at position `index`, leaf first.
    pub fn get_node(&self, index: usize) -> (r: Option<&Key>)
        ensures
            index < self@.nodes.len() ==> (r matches Some(k) && k@ == self@.nodes[index as int]),
            index >= self@.nodes.len() ==> r is None,
    {
        if index < self.nodes.len() {
            Some(&self.nodes[index])
        } else {
            None
        }
    }

    /// The most recently appended node.
    pub fn get_last(&self) -> (r: Option<&Key>)
        ensures
            self@.nodes.len() == 0 ==> r is None,
            self@.nodes.len() > 0 ==> (r matches Some(k) && k@ == self@.nodes.last()),
    {
        if self.nodes.len() == 0 {
            return None;
        }
        Some(&self.nodes[self.nodes.len() - 1])
    }

    /// The number of nodes collected so far.
    pub fn len(&self) -> (r: usize)
        ensures
            r == self@.nodes.len(),
    {
        self.nodes.len()
    }

    /// Discards every collected node, keeping the root index.
    pub fn clear(&mut self)
        ensures
            final(self)@.root == old(self)@.root,
            final(self)@.nodes == Seq::<KeyView>::empty(),
    {
        self.nodes.clear();
        proof {
            assert(self@.nodes =~= Seq::<KeyView>::empty());
        }
    }
}

// ---------------------------------------------------------------------------
// Tree model
// ---------------------------------------------------------------------------

/// The mathematical content of a ratchet tree: its layers of keys, the
/// orphaned leaf indices in reuse order, the tombstone sentinel and the
/// slot ledger of the pool behind it.
pub ghost struct TreeView {
    pub layers: Seq<Seq<KeyView>>,
    pub orphans: Seq<int>,
    pub tombstone: KeyView,
    pub pool: PoolView,
}

/// Well-formedness of a tree: the leaf layer exists, every layer keeps
/// its reserved slot 0, orphan indices point at real leaf slots, the
/// tombstone is the default key, and the pool holds the four fixed slots.
pub open spec fn tree_wf(v: TreeView) -> bool {
    &&& v.layers.len() >= 1
    &&& forall|h: int| 0 <= h < v.layers.len() ==> (#[trigger] v.layers[h]).len() >= 1
    &&& forall|i: int| 0 <= i < v.orphans.len() ==> 1 <= #[trigger] v.orphans[i]
    &&& v.tombstone == tombstone_key_view()
    &&& v.pool.len >= 4
    &&& v.pool.cap >= 4
}

/// Ceiling of the base-2 logarithm: the smallest `h` with `2^h >= n`;
/// 0 when `n <= 1`.
pub open spec fn clog2(n: int) -> int
    decreases n,
{
    if n <= 1 {
        0
    } else {
        1 + clog2((n + 1) / 2)
    }
}

/// The height of a tree holding `n` real leaves (slot 0 excluded).
pub open spec fn spec_height(v: TreeView) -> int {
    clog2(v.layers[0].len() - 1)
}

/// The next leaf index an insert will use: the first orphan if one
/// exists, else the first fresh slot of the leaf layer.
pub open spec fn spec_next_index(v: TreeView) -> int {
    if v.orphans.len() > 0 {
        v.orphans[0]
    } else {
        v.layers[0].len() as int
    }
}

/// `clog2` is non-negative and bounded by its argument.
pub proof fn lemma_clog2_le(n: int)
    requires
        n >= 0,
    ensures
        0 <= clog2(n) <= n,
    decreases n,
{
    if n >= 2 {
        lemma_clog2_le((n + 1) / 2);
    }
}

// ---------------------------------------------------------------------------
// The ratchet walk, mathematically
// ---------------------------------------------------------------------------

/// Whether a slot holds "absence": no key at all, or the tombstone.
pub open spec fn kv_absent(k: Option<KeyView>, tomb: KeyView) -> bool {
    k is None || k.unwrap().pk == tomb.pk
}

/// One root-ward ratchet walk, starting from position `(curr, ch)` with
/// the nodes in `acc` already computed (`acc.last()` is the node carried
/// upward). At each step the carried node is combined with the sibling
/// slot: absence propagates (tombstone against tombstone stays tombstone,
/// a lone real key is carried up unchanged), and two real keys are
/// reduced by Diffie-Hellman. A failing reduction aborts the walk with
/// its position.
pub open spec fn ratchet_rec(
    layers: Seq<Seq<KeyView>>,
    tomb: KeyView,
    height: int,
    curr: int,
    ch: int,
    acc: Seq<KeyView>,
) -> Result<Seq<KeyView>, (int, int)>
    decreases (if curr >= 2 {
        curr
    } else {
        0
    }), (if ch <= height {
        height - ch
    } else {
        0
    }),
{
    if curr < 2 && ch >= height {
        Ok(acc)
    } else if ch < 0 || ch >= layers.len() {
        Ok(acc)
    } else {
        let k1 = acc.last();
        let sib = sib_idx(curr);
        let k2 = if 0 <= sib < layers[ch].len() {
            Some(layers[ch][sib])
        } else {
            None
        };
        let no1 = k1.pk == tomb.pk;
        let no2 = kv_absent(k2, tomb);
        if no1 && no2 {
            ratchet_rec(layers, tomb, height, parent_idx(curr), ch + 1, acc.push(tomb))
        } else if !no1 && no2 {
            ratchet_rec(layers, tomb, height, parent_idx(curr), ch + 1, acc.push(k1))
        } else if no1 && !no2 {
            ratchet_rec(layers, tomb, height, parent_idx(curr), ch + 1, acc.push(k2.unwrap()))
        } else {
            match dh_result_repr(k1, k2.unwrap()) {
                Some(x) => if repr_valid(x) {
                    ratchet_rec(
                        layers,
                        tomb,
                        height,
                        parent_idx(curr),
                        ch + 1,
                        acc.push(key_from_secret_view(x)),
                    )
                } else {
                    Err((curr, ch))
                },
                None => Err((curr, ch)),
            }
        }
    }
}

/// Walking one step up at most halves the distance of the index from 1:
/// the weight `2^ch * (curr - 1)` never grows along the walk.
proof fn lemma_pot_step(c: int, ch: nat, bound: int)
    requires
        1 <= c,
        vstd::arithmetic::power2::pow2(ch) * (c - 1) <= bound,
    ensures
        vstd::arithmetic::power2::pow2(ch + 1) * (parent_idx(c) - 1) <= bound,
{
    let c2 = parent_idx(c);
    let p = vstd::arithmetic::power2::pow2(ch) as int;
    assert(2 * (c2 - 1) <= c - 1);
    assert(vstd::arithmetic::power2::pow2(ch + 1) == 2 * vstd::arithmetic::power2::pow2(ch)) by {
        vstd::arithmetic::power2::lemma_pow2_adds(1, ch);
        vstd::arithmetic::power2::lemma2_to64();
    }
    assert((2 * p) * (c2 - 1) == p * (2 * (c2 - 1))) by (nonlinear_arith);
    assert(p * (2 * (c2 - 1)) <= p * (c - 1)) by (nonlinear_arith)
        requires
            2 * (c2 - 1) <= c - 1,
            p >= 0,
    ;
}

/// While the walk's index is at least 2, its height is below 64: the
/// weight bound caps how often an index below `usize::MAX` can halve.
proof fn lemma_pot_height_bound(c: int, ch: nat, bound: int)
    requires
        2 <= c,
        bound < 0x10000000000000000,
        vstd::arithmetic::power2::pow2(ch) * (c - 1) <= bound,
    ensures
        ch <= 63,
{
    if ch > 63 {
        assert(vstd::arithmetic::power2::pow2(64) == 0x10000000000000000) by {
            vstd::arithmetic::power2::lemma2_to64_rest();
        }
        if ch > 64 {
            vstd::arithmetic::power2::lemma_pow2_strictly_increases(64, ch);
        }
        let p = vstd::arithmetic::power2::pow2(ch) as int;
        assert(p >= 0x10000000000000000);
        assert(p * (c - 1) >= p) by (nonlinear_arith)
            requires
                c - 1 >= 1,
                p >= 0,
        ;
    }
}

// ---------------------------------------------------------------------------
// The commit walk, mathematically
// ---------------------------------------------------------------------------

/// Writing a node into a layer: position `len` extends the layer by one,
/// an interior position overwrites.
pub open spec fn write_at(layer: Seq<KeyView>, index: int, k: KeyView) -> Seq<KeyView> {
    if index == layer.len() {
        layer.push(k)
    } else {
        layer.update(index, k)
    }
}

/// The layers after a branch is written in, node by node: starting at
/// `(index, h)`, each node is written at its position (creating the
/// layer with its reserved slot when it is the first missing one), and
/// the walk moves to the parent index one layer up.
pub open spec fn apply_branch(
    layers: Seq<Seq<KeyView>>,
    nodes: Seq<KeyView>,
    index: int,
    h: int,
) -> Seq<Seq<KeyView>>
    decreases nodes.len(),
{
    if nodes.len() == 0 {
        layers
    } else {
        let layers1 = if h == layers.len() {
            layers.push(seq![tombstone_key_view()])
        } else {
            layers
        };
        apply_branch(
            layers1.update(h, write_at(layers1[h], index, nodes[0])),
            nodes.drop_first(),
            parent_idx(index),
            h + 1,
        )
    }
}

/// Whether a branch can be written without leaving the layers' bounds:
/// at every step the layer either exists or is the next one to create,
/// and the position lies inside it or immediately past its end.
pub open spec fn branch_fits(
    layers: Seq<Seq<KeyView>>,
    nodes: Seq<KeyView>,
    index: int,
    h: int,
) -> bool
    decreases nodes.len(),
{
    nodes.len() == 0 || {
        let layers1 = if h == layers.len() {
            layers.push(seq![tombstone_key_view()])
        } else {
            layers
        };
        &&& 0 <= h <= layers.len()
        &&& 1 <= index
        &&& index < usize::MAX
        &&& index <= layers1[h].len()
        &&& branch_fits(
            layers1.update(h, write_at(layers1[h], index, nodes[0])),
            nodes.drop_first(),
            parent_idx(index),
            h + 1,
        )
    }
}

/// The orphan list after a commit: the branch's root is consumed from
/// the front when it sits there, and is enqueued for reuse when the
/// branch buries a tombstone.
pub open spec fn orphans_after(orphans: Seq<int>, b: BranchView, tomb: KeyView) -> Seq<int> {
    let o1 = if orphans.len() > 0 && orphans[0] == b.root {
        orphans.drop_first()
    } else {
        orphans
    };
    if b.nodes.len() > 0 && b.nodes[0].pk == tomb.pk {
        o1.push(b.root)
    } else {
        o1
    }
}

// ---------------------------------------------------------------------------
// Layer sizes
// ---------------------------------------------------------------------------

/// `ceil(n / 2^h)`, computed as `h` iterated parent steps.
pub open spec fn ceil_div_pow2(n: int, h: int) -> int
    decreases h,
{
    if h <= 0 {
        n
    } else {
        parent_idx(ceil_div_pow2(n, h - 1))
    }
}

/// Layer sizes: for a tree with `n` real leaves, layer `h` holds
/// `ceil(n / 2^h)` nodes beside its reserved slot, for every `h` up to
/// the height.
pub open spec fn layer_sizes_ok(v: TreeView) -> bool {
    forall|h: int|
        0 <= h <= spec_height(v) ==> h < v.layers.len() && (#[trigger] v.layers[h]).len()
            == ceil_div_pow2(v.layers[0].len() - 1, h) + 1
}

/// Peeling a parent step off the bottom of the iteration instead of the
/// top: `ceil(n / 2^h)` is `ceil(ceil(n / 2) / 2^(h-1))`.
proof fn lemma_ceil_shift(n: int, h: int)
    requires
        h >= 1,
    ensures
        ceil_div_pow2(n, h) == ceil_div_pow2(parent_idx(n), h - 1),
    decreases h,
{
    if h == 1 {
        assert(ceil_div_pow2(n, 1) == parent_idx(ceil_div_pow2(n, 0)));
    } else {
        lemma_ceil_shift(n, h - 1);
        assert(ceil_div_pow2(n, h) == parent_idx(ceil_div_pow2(n, h - 1)));
        assert(ceil_div_pow2(parent_idx(n), h - 1) == parent_idx(
            ceil_div_pow2(parent_idx(n), h - 2),
        ));
    }
}

/// `ceil_div_pow2` is monotone in the dividend.
proof fn lemma_ceil_mono(a: int, b: int, h: int)
    requires
        a <= b,
    ensures
        ceil_div_pow2(a, h) <= ceil_div_pow2(b, h),
    decreases h,
{
    if h > 0 {
        lemma_ceil_mono(a, b, h - 1);
    }
}

/// One more leaf moves each quotient by at most one.
proof fn lemma_ceil_succ(n: int, h: int)
    ensures
        ceil_div_pow2(n, h) <= ceil_div_pow2(n + 1, h) <= ceil_div_pow2(n, h) + 1,
    decreases h,
{
    if h > 0 {
        lemma_ceil_succ(n, h - 1);
    }
}

/// A positive dividend keeps every quotient positive.
proof fn lemma_ceil_pos(n: int, h: int)
    requires
        n >= 1,
    ensures
        ceil_div_pow2(n, h) >= 1,
    decreases h,
{
    if h > 0 {
        lemma_ceil_pos(n, h - 1);
    }
}

/// No quotient exceeds the dividend.
proof fn lemma_ceil_le(n: int, h: int)
    requires
        n >= 1,
    ensures
        ceil_div_pow2(n, h) <= n,
    decreases h,
{
    if h > 0 {
        lemma_ceil_le(n, h - 1);
        lemma_ceil_pos(n, h - 1);
    }
}

/// Above the ceiling logarithm the quotient has reached 1.
proof fn lemma_ceil_settled(n: int, h: int)
    requires
        n >= 1,
        h >= clog2(n),
    ensures
        ceil_div_pow2(n, h) == 1,
    decreases n, h,
{
    if n == 1 {
        if h > 0 {
            lemma_ceil_shift(n, h);
            lemma_ceil_settled(1, h - 1);
        }
    } else {
        lemma_clog2_le(parent_idx(n));
        assert(clog2(n) == 1 + clog2(parent_idx(n)));
        assert(h >= 1);
        lemma_ceil_shift(n, h);
        lemma_ceil_settled(parent_idx(n), h - 1);
    }
}

/// Below the ceiling logarithm the quotient is still at least 2.
proof fn lemma_ceil_unsettled(n: int, h: int)
    requires
        n >= 2,
        0 <= h < clog2(n),
    ensures
        ceil_div_pow2(n, h) >= 2,
    decreases h,
{
    if h > 0 {
        assert(clog2(n) == 1 + clog2(parent_idx(n)));
        if parent_idx(n) <= 1 {
            assert(clog2(parent_idx(n)) == 0);
            assert(false);
        }
        lemma_ceil_shift(n, h);
        lemma_ceil_unsettled(parent_idx(n), h - 1);
    }
}

/// `clog2` is monotone.
proof fn lemma_clog2_mono(a: int, b: int)
    requires
        a <= b,
    ensures
        clog2(a) <= clog2(b),
    decreases b,
{
    if a >= 2 {
        lemma_clog2_mono(parent_idx(a), parent_idx(b));
    } else {
        if b >= 0 {
            lemma_clog2_le(b);
        }
    }
}

/// One more leaf raises the height by at most one.
proof fn lemma_clog2_succ(n: int)
    requires
        n >= 0,
    ensures
        clog2(n) <= clog2(n + 1) <= clog2(n) + 1,
    decreases n,
{
    lemma_clog2_mono(n, n + 1);
    if n >= 2 {
        lemma_clog2_succ(parent_idx(n));
        lemma_clog2_mono(parent_idx(n + 1), parent_idx(n) + 1);
    }
}

/// The number of nodes a successful walk collects: one per level, from
/// the starting height up to the larger of the tree height and the
/// starting index's own depth.
proof fn lemma_ratchet_len(
    layers: Seq<Seq<KeyView>>,
    tomb: KeyView,
    height: int,
    i: int,
    ch: int,
    acc: Seq<KeyView>,
)
    requires
        i >= 1,
        0 <= ch,
        height >= 0,
        layers.len() == height + 1,
        clog2(i) <= height + 1,
    ensures
        match ratchet_rec(layers, tomb, height, ceil_div_pow2(i, ch), ch, acc) {
            Ok(nodes) => nodes.len() == acc.len() + (if vstd::math::max(height, clog2(i)) >= ch {
                vstd::math::max(height, clog2(i)) - ch
            } else {
                0
            }),
            Err(_) => true,
        },
    decreases (if ceil_div_pow2(i, ch) >= 2 {
        ceil_div_pow2(i, ch)
    } else {
        0
    }), (if ch <= height {
        height - ch
    } else {
        0
    }),
{
    let curr = ceil_div_pow2(i, ch);
    let t = vstd::math::max(height, clog2(i));
    lemma_ceil_pos(i, ch);
    if curr < 2 && ch >= height {
        // The walk is finished; it is finished depth-wise too.
        if ch < clog2(i) {
            lemma_ceil_unsettled(i, ch);
        }
    } else if ch >= layers.len() {
        // Unreachable under the stated bounds: while the index is at
        // least 2 the level is below the index's depth.
        if curr >= 2 {
            lemma_ceil_settled(i, ch);
        }
    } else {
        // One node is collected, whatever the case, unless the walk
        // aborts; the next state peels one more parent step.
        if curr >= 2 {
            if ch >= clog2(i) {
                lemma_ceil_settled(i, ch);
            }
        }
        assert(ch + 1 <= t);
        assert(parent_idx(curr) == ceil_div_pow2(i, ch + 1));
        if curr >= 2 {
            assert(parent_idx(curr) < curr);
        }
        let k1 = acc.last();
        let sib = sib_idx(curr);
        let k2 = if 0 <= sib < layers[ch].len() {
            Some(layers[ch][sib])
        } else {
            None
        };
        let no1 = k1.pk == tomb.pk;
        let no2 = kv_absent(k2, tomb);
        if no1 && no2 {
            lemma_ratchet_len(layers, tomb, height, i, ch + 1, acc.push(tomb));
        } else if !no1 && no2 {
            lemma_ratchet_len(layers, tomb, height, i, ch + 1, acc.push(k1));
        } else if no1 && !no2 {
            lemma_ratchet_len(layers, tomb, height, i, ch + 1, acc.push(k2.unwrap()));
        } else {
            match dh_result_repr(k1, k2.unwrap()) {
                Some(x) => {
                    if repr_valid(x) {
                        lemma_ratchet_len(
                            layers,
                            tomb,
                            height,
                            i,
                            ch + 1,
                            acc.push(key_from_secret_view(x)),
                        );
                    }
                },
                None => {},
            }
        }
    }
}

/// Writing a fresh-insert branch preserves the layer-size discipline:
/// starting from level `h` with the lower levels already rewritten for
/// `n + 1` leaves and the higher ones still sized for `n`, the remaining
/// writes leave every level `l` holding `ceil((n + 1) / 2^l)` nodes
/// beside its reserved slot.
proof fn lemma_apply_sizes_fresh(layers: Seq<Seq<KeyView>>, nodes: Seq<KeyView>, n: int, h: int)
    requires
        n >= 0,
        n + 2 <= usize::MAX,
        0 <= h,
        nodes.len() == clog2(n + 1) + 1 - h,
        layers.len() == if h <= clog2(n) + 1 {
            clog2(n) + 1
        } else {
            h
        },
        forall|l: int|
            0 <= l < h && l < layers.len() ==> (#[trigger] layers[l]).len() == ceil_div_pow2(
                n + 1,
                l,
            ) + 1,
        forall|l: int|
            h <= l <= clog2(n) ==> (#[trigger] layers[l]).len() == ceil_div_pow2(n, l) + 1,
    ensures
        ({
            let res = apply_branch(layers, nodes, ceil_div_pow2(n + 1, h), h);
            &&& res.len() == clog2(n + 1) + 1
            &&& forall|l: int|
                0 <= l <= clog2(n + 1) ==> (#[trigger] res[l]).len() == ceil_div_pow2(n + 1, l)
                    + 1
        }),
        branch_fits(layers, nodes, ceil_div_pow2(n + 1, h), h),
    decreases nodes.len(),
{
    lemma_clog2_le(n);
    lemma_clog2_le(n + 1);
    lemma_clog2_succ(n);
    if nodes.len() == 0 {
        assert(h == clog2(n + 1) + 1);
    } else {
        let index = ceil_div_pow2(n + 1, h);
        lemma_ceil_pos(n + 1, h);
        lemma_ceil_succ(n, h);
        let layers1 = if h == layers.len() {
            layers.push(seq![tombstone_key_view()])
        } else {
            layers
        };
        if h == layers.len() {
            // A brand-new top layer: the write lands right after its
            // reserved slot.
            assert(h == clog2(n) + 1);
            lemma_ceil_settled(n + 1, h);
            assert(index == 1);
            assert(layers1[h].len() == 1);
        } else {
            assert(h <= clog2(n));
            assert(layers1[h].len() == ceil_div_pow2(n, h) + 1);
            if index > ceil_div_pow2(n, h) + 1 {
                assert(false);
            }
        }
        let written = layers1.update(h, write_at(layers1[h], index, nodes[0]));
        assert(written[h].len() == ceil_div_pow2(n + 1, h) + 1);
        assert(parent_idx(index) == ceil_div_pow2(n + 1, h + 1));
        lemma_ceil_le(n + 1, h);
        lemma_apply_sizes_fresh(written, nodes.drop_first(), n, h + 1);
    }
}

/// Writing a branch whose positions all lie inside the existing layers
/// changes no layer's length: committing a removal, or an insert into an
/// orphaned slot, keeps every layer size as it was.
proof fn lemma_apply_sizes_inplace(
    layers: Seq<Seq<KeyView>>,
    nodes: Seq<KeyView>,
    i: int,
    n: int,
    h: int,
)
    requires
        1 <= i <= n,
        n < usize::MAX,
        0 <= h,
        nodes.len() + h <= clog2(n) + 1,
        layers.len() == clog2(n) + 1,
        forall|l: int|
            h <= l <= clog2(n) ==> (#[trigger] layers[l]).len() >= ceil_div_pow2(n, l) + 1,
    ensures
        ({
            let res = apply_branch(layers, nodes, ceil_div_pow2(i, h), h);
            &&& res.len() == layers.len()
            &&& forall|l: int|
                0 <= l < res.len() ==> (#[trigger] res[l]).len() == layers[l].len()
        }),
        branch_fits(layers, nodes, ceil_div_pow2(i, h), h),
    decreases nodes.len(),
{
    if nodes.len() > 0 {
        let index = ceil_div_pow2(i, h);
        lemma_ceil_pos(i, h);
        lemma_ceil_mono(i, n, h);
        lemma_ceil_le(i, h);
        assert(h < layers.len());
        assert(layers[h].len() >= ceil_div_pow2(n, h) + 1);
        assert(index < layers[h].len());
        let written = layers.update(h, write_at(layers[h], index, nodes[0]));
        assert(written[h].len() == layers[h].len());
        assert(parent_idx(index) == ceil_div_pow2(i, h + 1));
        lemma_apply_sizes_inplace(written, nodes.drop_first(), i, n, h + 1);
    }
}

/// Layer sizes are preserved by insert-then-commit: a tree whose layers
/// follow the leaf count keeps following it, whether the insert takes a
/// fresh slot or reuses an orphan, and its layer list always reaches
/// exactly one past its height.
pub proof fn lemma_insert_commit_layer_sizes(v: TreeView, leaf: KeyView)
    requires
        tree_wf(v),
        layer_sizes_ok(v),
        v.layers.len() == spec_height(v) + 1,
        v.orphans.len() > 0 ==> v.orphans[0] < v.layers[0].len(),
        v.layers[0].len() + 1 <= usize::MAX,
    ensures
        layer_sizes_ok(spec_insert_commit(v, leaf)),
        spec_insert_commit(v, leaf).layers.len() == spec_height(spec_insert_commit(v, leaf)) + 1,
{
    let n = v.layers[0].len() - 1;
    let i = spec_next_index(v);
    let height = spec_height(v);
    lemma_clog2_le(n);
    lemma_clog2_succ(n);
    match ratchet_rec(v.layers, v.tombstone, height, i, 0, seq![leaf]) {
        Ok(nodes) => {
            let after = spec_insert_commit(v, leaf);
            if v.orphans.len() == 0 {
                // A fresh slot: the leaf count grows by one.
                assert(i == n + 1);
                lemma_clog2_mono(n, n + 1);
                assert(ceil_div_pow2(n + 1, 0) == i);
                lemma_ratchet_len(v.layers, v.tombstone, height, n + 1, 0, seq![leaf]);
                assert(nodes.len() == clog2(n + 1) + 1);
                lemma_apply_sizes_fresh(v.layers, nodes, n, 0);
                assert(after.layers == apply_branch(v.layers, nodes, i, 0));
                assert(after.layers[0].len() == n + 2);
            } else {
                // An orphaned slot: every write lands inside its layer.
                assert(1 <= i <= n);
                lemma_clog2_mono(i, n);
                assert(ceil_div_pow2(i, 0) == i);
                lemma_ratchet_len(v.layers, v.tombstone, height, i, 0, seq![leaf]);
                assert(nodes.len() == clog2(n) + 1);
                lemma_apply_sizes_inplace(v.layers, nodes, i, n, 0);
                assert(after.layers[0].len() == v.layers[0].len());
            }
        },
        Err(_) => {},
    }
}

/// A branch ratcheted out of a size-disciplined tree always fits: every
/// write it asks for lands inside its layer or immediately past its end.
/// This discharges `commit`'s write-bound condition for branches that
/// `insert` produced.
pub proof fn lemma_insert_branch_fits(v: TreeView, leaf: KeyView)
    requires
        tree_wf(v),
        layer_sizes_ok(v),
        v.layers.len() == spec_height(v) + 1,
        v.orphans.len() > 0 ==> v.orphans[0] < v.layers[0].len(),
        v.layers[0].len() + 1 <= usize::MAX,
    ensures
        match ratchet_rec(
            v.layers,
            v.tombstone,
            spec_height(v),
            spec_next_index(v),
            0,
            seq![leaf],
        ) {
            Ok(nodes) => branch_fits(v.layers, nodes, spec_next_index(v), 0),
            Err(_) => true,
        },
{
    let n = v.layers[0].len() - 1;
    let i = spec_next_index(v);
    let height = spec_height(v);
    lemma_clog2_le(n);
    lemma_clog2_succ(n);
    match ratchet_rec(v.layers, v.tombstone, height, i, 0, seq![leaf]) {
        Ok(nodes) => {
            if v.orphans.len() == 0 {
                assert(ceil_div_pow2(n + 1, 0) == i);
                lemma_clog2_mono(n, n + 1);
                lemma_ratchet_len(v.layers, v.tombstone, height, n + 1, 0, seq![leaf]);
                lemma_apply_sizes_fresh(v.layers, nodes, n, 0);
            } else {
                assert(ceil_div_pow2(i, 0) == i);
                lemma_clog2_mono(i, n);
                lemma_ratchet_len(v.layers, v.tombstone, height, i, 0, seq![leaf]);
                lemma_apply_sizes_inplace(v.layers, nodes, i, n, 0);
            }
        },
        Err(_) => {},
    }
}

/// A fresh tree follows the layer-size discipline: no leaves, one layer,
/// height zero.
pub proof fn lemma_initial_layer_sizes(pool: PoolView)
    ensures
        layer_sizes_ok(initial_tree_view(pool)),
        initial_tree_view(pool).layers.len() == spec_height(initial_tree_view(pool)) + 1,
{
}

/// A removal commit also preserves every layer's size: the tombstone
/// branch writes only inside existing layers.
pub proof fn lemma_remove_commit_layer_sizes(v: TreeView, i: int)
    requires
        tree_wf(v),
        layer_sizes_ok(v),
        v.layers.len() == spec_height(v) + 1,
        1 <= i < v.layers[0].len(),
        v.layers[0].len() <= usize::MAX,
    ensures
        match ratchet_rec(
            v.layers,
            v.tombstone,
            spec_height(v),
            i,
            0,
            seq![tombstone_key_view()],
        ) {
            Ok(nodes) => ({
                let res = apply_branch(v.layers, nodes, i, 0);
                &&& res.len() == v.layers.len()
                &&& forall|l: int|
                    0 <= l < res.len() ==> (#[trigger] res[l]).len() == v.layers[l].len()
                &&& branch_fits(v.layers, nodes, i, 0)
            }),
            Err(_) => true,
        },
{
    let n = v.layers[0].len() - 1;
    lemma_clog2_le(n);
    lemma_clog2_mono(i, n);
    match ratchet_rec(v.layers, v.tombstone, spec_height(v), i, 0, seq![tombstone_key_view()]) {
        Ok(nodes) => {
            assert(ceil_div_pow2(i, 0) == i);
            lemma_ratchet_len(v.layers, v.tombstone, spec_height(v), i, 0, seq![tombstone_key_view()]);
            assert(nodes.len() == clog2(n) + 1);
            lemma_apply_sizes_inplace(v.layers, nodes, i, n, 0);
        },
        Err(_) => {},
    }
}

// ---------------------------------------------------------------------------
// Laws
// ---------------------------------------------------------------------------

/// The view of a fresh tree over a pool: one leaf layer holding only the
/// reserved default slot.
pub open spec fn initial_tree_view(pool: PoolView) -> TreeView {
    TreeView {
        layers: seq![seq![tombstone_key_view()]],
        orphans: Seq::<int>::empty(),
        tombstone: tombstone_key_view(),
        pool,
    }
}

/// One insert-then-commit step, mathematically: ratchet a leaf in at the
/// next free index and, when every reduction succeeds, write the branch
/// into the layers. A failing ratchet leaves the tree as it was.
pub open spec fn spec_insert_commit(v: TreeView, leaf: KeyView) -> TreeView {
    let i = spec_next_index(v);
    match ratchet_rec(v.layers, v.tombstone, spec_height(v), i, 0, seq![leaf]) {
        Ok(nodes) => TreeView {
            layers: apply_branch(v.layers, nodes, i, 0),
            orphans: orphans_after(v.orphans, BranchView { root: i, nodes }, v.tombstone),
            ..v
        },
        Err(_) => v,
    }
}

/// The tree built from an ordered list of leaves by repeated
/// insert-then-commit over a fresh tree.
pub open spec fn spec_build(pool: PoolView, leaves: Seq<KeyView>) -> TreeView
    decreases leaves.len(),
{
    if leaves.len() == 0 {
        initial_tree_view(pool)
    } else {
        spec_insert_commit(spec_build(pool, leaves.drop_last()), leaves.last())
    }
}

/// Writing a branch at layers `h` and above leaves every layer below `h`
/// untouched, and never shrinks the layer list.
proof fn lemma_apply_branch_preserves_low(
    layers: Seq<Seq<KeyView>>,
    nodes: Seq<KeyView>,
    index: int,
    h: int,
    l: int,
)
    requires
        0 <= l < h,
        l < layers.len(),
        h <= layers.len(),
    ensures
        apply_branch(layers, nodes, index, h).len() >= layers.len(),
        apply_branch(layers, nodes, index, h)[l] == layers[l],
    decreases nodes.len(),
{
    if nodes.len() > 0 {
        let layers1 = if h == layers.len() {
            layers.push(seq![tombstone_key_view()])
        } else {
            layers
        };
        let next = layers1.update(h, write_at(layers1[h], index, nodes[0]));
        lemma_apply_branch_preserves_low(next, nodes.drop_first(), parent_idx(index), h + 1, l);
        assert(next[l] == layers[l]);
    }
}

/// Insert-then-commit places the new leaf at the index `get_next_index`
/// reported before the insert, and with no orphans outstanding the next
/// index then advances by exactly one.
pub proof fn lemma_insert_then_commit(v: TreeView, leaf: KeyView, nodes: Seq<KeyView>)
    requires
        tree_wf(v),
        v.orphans.len() == 0,
        leaf.pk != v.tombstone.pk,
        nodes.len() >= 1,
        nodes[0] == leaf,
    ensures
        ({
            let i = spec_next_index(v);
            let after = TreeView {
                layers: apply_branch(v.layers, nodes, i, 0),
                orphans: orphans_after(v.orphans, BranchView { root: i, nodes }, v.tombstone),
                ..v
            };
            &&& after.layers[0][i] == leaf
            &&& spec_next_index(after) == i + 1
        }),
{
    let i = spec_next_index(v);
    let layers1 = v.layers;
    let written = layers1.update(0, write_at(layers1[0], i, nodes[0]));
    assert(write_at(layers1[0], i, nodes[0]) == layers1[0].push(leaf));
    lemma_apply_branch_preserves_low(written, nodes.drop_first(), parent_idx(i), 1, 0);
    assert(apply_branch(v.layers, nodes, i, 0) == apply_branch(
        written,
        nodes.drop_first(),
        parent_idx(i),
        1,
    ));
    let after_orphans = orphans_after(v.orphans, BranchView { root: i, nodes }, v.tombstone);
    assert(after_orphans.len() == 0);
}

/// Removal: committing a branch whose leaf entry is the tombstone leaves
/// the tombstone at the removed leaf slot, and with no orphans previously
/// outstanding the removed index becomes the next index to be reused.
pub proof fn lemma_remove_then_commit(v: TreeView, i: int, nodes: Seq<KeyView>)
    requires
        tree_wf(v),
        v.orphans.len() == 0,
        1 <= i < v.layers[0].len(),
        nodes.len() >= 1,
        nodes[0] == v.tombstone,
    ensures
        ({
            let after = TreeView {
                layers: apply_branch(v.layers, nodes, i, 0),
                orphans: orphans_after(v.orphans, BranchView { root: i, nodes }, v.tombstone),
                ..v
            };
            &&& after.layers[0][i] == v.tombstone
            &&& spec_next_index(after) == i
        }),
{
    let layers1 = v.layers;
    let written = layers1.update(0, write_at(layers1[0], i, nodes[0]));
    assert(write_at(layers1[0], i, nodes[0]) == layers1[0].update(i, v.tombstone));
    lemma_apply_branch_preserves_low(written, nodes.drop_first(), parent_idx(i), 1, 0);
    let after_orphans = orphans_after(v.orphans, BranchView { root: i, nodes }, v.tombstone);
    assert(after_orphans == Seq::<int>::empty().push(i));
    assert(after_orphans[0] == i);
}

/// Idempotent branch: ratcheting is read-only and deterministic, so two
/// walks from the same tree state with the same leaf input produce the
/// same branch, node for node.
pub proof fn lemma_ratchet_idempotent(v1: TreeView, v2: TreeView, index: int, leaf: KeyView)
    requires
        v1.layers == v2.layers,
        v1.tombstone == v2.tombstone,
    ensures
        ratchet_rec(v1.layers, v1.tombstone, spec_height(v1), index, 0, seq![leaf]) == ratchet_rec(
            v2.layers,
            v2.tombstone,
            spec_height(v2),
            index,
            0,
            seq![leaf],
        ),
{
}

/// Absence propagation: when the carried node is real and the sibling
/// slot holds the tombstone (or nothing), the walk appends the carried
/// node unchanged — no Diffie-Hellman reduction takes place.
pub proof fn lemma_absence_propagation(
    layers: Seq<Seq<KeyView>>,
    tomb: KeyView,
    height: int,
    curr: int,
    ch: int,
    acc: Seq<KeyView>,
)
    requires
        !(curr < 2 && ch >= height),
        0 <= ch < layers.len(),
        acc.len() >= 1,
        acc.last().pk != tomb.pk,
        kv_absent(
            if 0 <= sib_idx(curr) < layers[ch].len() {
                Some(layers[ch][sib_idx(curr)])
            } else {
                None
            },
            tomb,
        ),
    ensures
        ratchet_rec(layers, tomb, height, curr, ch, acc) == ratchet_rec(
            layers,
            tomb,
            height,
            parent_idx(curr),
            ch + 1,
            acc.push(acc.last()),
        ),
{
}

/// Tree-root agreement: the layers a build produces — in particular the
/// root node — are a function of the ordered leaf list alone; the pool
/// behind the tree plays no part in them.
pub proof fn lemma_tree_root_agreement(pool1: PoolView, pool2: PoolView, leaves: Seq<KeyView>)
    ensures
        spec_build(pool1, leaves).layers == spec_build(pool2, leaves).layers,
        spec_build(pool1, leaves).orphans == spec_build(pool2, leaves).orphans,
    decreases leaves.len(),
{
    if leaves.len() > 0 {
        lemma_tree_root_agreement(pool1, pool2, leaves.drop_last());
        let b1 = spec_build(pool1, leaves.drop_last());
        let b2 = spec_build(pool2, leaves.drop_last());
        assert(spec_height(b1) == spec_height(b2));
        assert(spec_next_index(b1) == spec_next_index(b2));
        assert(b1.tombstone == tombstone_key_view() && b2.tombstone == tombstone_key_view())
            by {
            lemma_build_tombstone(pool1, leaves.drop_last());
            lemma_build_tombstone(pool2, leaves.drop_last());
        }
    }
}

/// Every build keeps the default key as its tombstone.
proof fn lemma_build_tombstone(pool: PoolView, leaves: Seq<KeyView>)
    ensures
        spec_build(pool, leaves).tombstone == tombstone_key_view(),
    decreases leaves.len(),
{
    if leaves.len() > 0 {
        lemma_build_tombstone(pool, leaves.drop_last());
    }
}

// ---------------------------------------------------------------------------
// Ratchet tree
// ---------------------------------------------------------------------------

/// A left-balanced binary tree of keypairs, stored layer by layer, whose
/// internal nodes are Diffie-Hellman reductions of their children.
pub struct RatchetTree {
    memory: AllocatorPool,
    nodes: Vec<Vec<Key>>,
    orphans: Vec<usize>,
    tombstone: Key,
}

impl View for RatchetTree {
    type V = TreeView;

    closed spec fn view(&self) -> TreeView {
        TreeView {
            layers: Seq::new(
                self.nodes@.len(),
                |h: int| Seq::new(self.nodes@[h]@.len(), |i: int| self.nodes@[h]@[i]@),
            ),
            orphans: Seq::new(self.orphans@.len(), |i: int| self.orphans@[i] as int),
            tombstone: self.tombstone@,
            pool: self.memory@,
        }
    }
}

impl RatchetTree {
    /// A fresh tree over the given pool: one leaf layer holding only the
    /// reserved default slot, no orphans, the default key as tombstone.
    /// The pool must offer the four fixed slots.
    pub fn new(memory: AllocatorPool) -> (r: RatchetTree)
        requires
            memory@.cap >= 4,
            memory@.len >= 4,
        ensures
            r@.layers == seq![seq![tombstone_key_view()]],
            r@.orphans == Seq::<int>::empty(),
            r@.tombstone == tombstone_key_view(),
            r@.pool == memory@,
            tree_wf(r@),
    {
        let mut first_layer: Vec<Key> = Vec::new();
        first_layer.push(Key::default());
        let mut nodes: Vec<Vec<Key>> = Vec::new();
        nodes.push(first_layer);
        let r = RatchetTree { memory, nodes, orphans: Vec::new(), tombstone: Key::default() };
        proof {
            assert(r@.layers[0] =~= seq![tombstone_key_view()]);
            assert(r@.layers =~= seq![seq![tombstone_key_view()]]);
            assert(r@.orphans =~= Seq::<int>::empty());
        }
        r
    }

    /// The leaf index the next insert will use: the first orphan if one
    /// exists, else the first fresh slot.
    pub fn get_next_index(&self) -> (r: usize)
        requires
            tree_wf(self@),
        ensures
            r == spec_next_index(self@),
    {
        proof {
            assert(self@.layers[0].len() >= 1);
        }
        if self.orphans.len() > 0 {
            self.orphans[0]
        } else {
            self.nodes[0].len()
        }
    }

    /// The height of the tree: 0 while it holds at most one real leaf,
    /// else the ceiling of the base-2 logarithm of the leaf count.
    pub fn height(&self) -> (r: usize)
        requires
            tree_wf(self@),
        ensures
            r == spec_height(self@),
    {
        proof {
            assert(self@.layers[0].len() >= 1);
        }
        let node_len = self.nodes[0].len() - 1;
        if node_len == 0 {
            return 0;
        }
        let ghost n0 = node_len as int;
        let mut h: usize = 0;
        let mut m = node_len;
        proof {
            lemma_clog2_le(n0);
        }
        while m > 1
            invariant
                1 <= m <= n0,
                n0 <= usize::MAX - 1,
                clog2(n0) == h + clog2(m as int),
                h <= clog2(n0),
                clog2(n0) <= n0,
            decreases m,
        {
            proof {
                lemma_clog2_le((m as int + 1) / 2);
                assert(clog2(m as int) == 1 + clog2((m as int + 1) / 2));
            }
            m = (m + 1) / 2;
            h = h + 1;
        }
        h
    }

    /// A path walk starting at `index`, against the current height.
    pub fn iter(&self, index: usize) -> (r: RatchetIter)
        requires
            tree_wf(self@),
        ensures
            r@ == (RatchetIterView {
                index: index as int,
                height: spec_height(self@),
                curr_index: index as int,
                curr_height: 0,
            }),
    {
        RatchetIter::new(index, self.height(), 0)
    }

    /// The key at layer `height`, position `index`, if both exist.
    pub fn get(&self, height: usize, index: usize) -> (r: Option<&Key>)
        ensures
            (height < self@.layers.len() && index < self@.layers[height as int].len()) ==> (
            r matches Some(k) && k@ == self@.layers[height as int][index as int]),
            !(height < self@.layers.len() && index < self@.layers[height as int].len())
                ==> r is None,
    {
        if height < self.nodes.len() && index < self.nodes[height].len() {
            Some(&self.nodes[height][index])
        } else {
            None
        }
    }

    /// Overwrites the key at layer `height`, position `index`. Fails with
    /// `NoLayer` when the layer does not exist and with `IndexOutOfRange`
    /// when the position lies outside it; the tree is then unchanged.
    pub fn set(&mut self, height: usize, index: usize, value: Key) -> (r: Result<
        (),
        RatchetError,
    >)
        ensures
            height >= old(self)@.layers.len() ==> ((r matches Err(e) && e.cause
                == RatchetErrorCause::NoLayer && e.index == index && e.height == height) && *final(self) == *old(self)),
            (height < old(self)@.layers.len() && index >= old(self)@.layers[height as int].len())
                ==> ((r matches Err(e) && e.cause == RatchetErrorCause::IndexOutOfRange && e.index
                == index && e.height == height) && *final(self) == *old(self)),
            (height < old(self)@.layers.len() && index < old(self)@.layers[height as int].len())
                ==> (r is Ok && final(self)@ == (TreeView {
                layers: old(self)@.layers.update(
                    height as int,
                    old(self)@.layers[height as int].update(index as int, value@),
                ),
                ..old(self)@
            })),
    {
        if height >= self.nodes.len() {
            return Err(
                RatchetError {
                    description: "No index found at specified height",
                    cause: RatchetErrorCause::NoLayer,
                    index,
                    height,
                },
            );
        }
        if index >= self.nodes[height].len() {
            return Err(
                RatchetError {
                    description: "index provided larger than leaf-node array len",
                    cause: RatchetErrorCause::IndexOutOfRange,
                    index,
                    height,
                },
            );
        }
        self.nodes[height][index] = value;
        proof {
            assert(self@.layers =~~= old(self)@.layers.update(
                height as int,
                old(self)@.layers[height as int].update(index as int, value@),
            ));
            assert(self@.orphans =~= old(self)@.orphans);
        }
        Ok(())
    }

    /// The layer at `height`, if it exists.
    pub fn get_layer(&self, height: usize) -> (r: Option<&Vec<Key>>)
        ensures
            height < self@.layers.len() ==> (r matches Some(l) && Seq::new(
                l@.len(),
                |i: int| l@[i]@,
            ) == self@.layers[height as int]),
            height >= self@.layers.len() ==> r is None,
    {
        if height < self.nodes.len() {
            let l = &self.nodes[height];
            proof {
                assert(Seq::new(l@.len(), |i: int| l@[i]@) =~= self@.layers[height as int]);
            }
            Some(l)
        } else {
            None
        }
    }

    /// The length of the layer at `height`, or 0 when it does not exist.
    pub fn get_layer_len(&self, height: usize) -> (r: usize)
        ensures
            r == if height < self@.layers.len() {
                self@.layers[height as int].len() as int
            } else {
                0
            },
    {
        if height < self.nodes.len() {
            self.nodes[height].len()
        } else {
            0
        }
    }

    /// The pool backing this tree.
    pub fn memory(&self) -> (r: &AllocatorPool)
        ensures
            r@ == self@.pool,
    {
        &self.memory
    }

    /// The tombstone sentinel marking removed leaves.
    pub fn tombstone(&self) -> (r: &Key)
        ensures
            r@ == self@.tombstone,
    {
        &self.tombstone
    }

    /// Walks the path from `index` toward the root, combining each
    /// computed node with its sibling, and collects the results into an
    /// uncommitted branch whose entry 0 is `key`. The tree itself is not
    /// touched. Fails with `DiffieHellmanFailed` at the position whose
    /// reduction produced an invalid scalar.
    pub fn ratchet(&self, index: usize, key: &Key, scratch: &AllocatorCell) -> (r: Result<
        RatchetBranch,
        RatchetError,
    >)
        requires
            tree_wf(self@),
            1 <= index,
            index < usize::MAX,
        ensures
            match ratchet_rec(
                self@.layers,
                self@.tombstone,
                spec_height(self@),
                index as int,
                0,
                seq![key@],
            ) {
                Ok(nodes) => r matches Ok(b) && b@.root == index as int && b@.nodes == nodes,
                Err(pos) => r matches Err(e) && e.cause == RatchetErrorCause::DiffieHellmanFailed
                    && e.index == pos.0 && e.height == pos.1,
            },
    {
        let ghost layers = self@.layers;
        let ghost tomb = self@.tombstone;
        let ghost h0 = spec_height(self@);
        let mut iterator = self.iter(index);
        let mut branch = RatchetBranch::new(scratch, index);
        branch.add_node(*key);
        proof {
            assert(branch@.nodes =~= seq![key@]);
            vstd::arithmetic::power2::lemma2_to64();
            assert(vstd::arithmetic::power2::pow2(0) == 1);
            assert(vstd::arithmetic::power2::pow2(0) * (index - 1) == index - 1);
        }
        while !(iterator.curr_index < 2 && iterator.curr_height >= iterator.height)
            invariant
                tree_wf(self@),
                layers == self@.layers,
                tomb == self@.tombstone,
                h0 == spec_height(self@),
                iterator@.height == h0,
                1 <= iterator@.curr_index <= index,
                0 <= iterator@.curr_height,
                index < usize::MAX,
                vstd::arithmetic::power2::pow2(iterator@.curr_height as nat) * (
                iterator@.curr_index - 1) <= index - 1,
                branch@.root == index as int,
                branch@.nodes.len() >= 1,
                ratchet_rec(
                    layers,
                    tomb,
                    h0,
                    iterator@.curr_index,
                    iterator@.curr_height,
                    branch@.nodes,
                ) == ratchet_rec(layers, tomb, h0, index as int, 0, seq![key@]),
            decreases (if iterator@.curr_index >= 2 {
                iterator@.curr_index
            } else {
                0
            }), (if iterator@.curr_height <= h0 {
                h0 - iterator@.curr_height
            } else {
                0
            }),
        {
            let ghost c = iterator@.curr_index;
            let ghost ch = iterator@.curr_height;
            let ghost acc = branch@.nodes;
            proof {
                if c >= 2 {
                    lemma_pot_height_bound(c, ch as nat, index - 1);
                }
            }
            let step = iterator.next();
            let (h, i, s) = step.unwrap();
            if h < self.nodes.len() {
                let k1: Key = *branch.get_last().unwrap();
                let layer_len = self.nodes[h].len();
                let no_key1 = k1 == self.tombstone;
                let no_key2 = if s < layer_len {
                    self.nodes[h][s] == self.tombstone
                } else {
                    true
                };
                if no_key1 && no_key2 {
                    branch.add_node(self.tombstone);
                } else if !no_key1 && no_key2 {
                    branch.add_node(k1);
                } else if no_key1 {
                    branch.add_node(self.nodes[h][s]);
                } else {
                    let k2 = self.nodes[h][s];
                    match k1.diffie_hellman(&k2) {
                        Ok(kk) => branch.add_node(kk),
                        Err(_) => {
                            proof {
                                assert(ratchet_rec(layers, tomb, h0, c, ch, acc) == Err::<
                                    Seq<KeyView>,
                                    (int, int),
                                >((c, ch)));
                            }
                            return Err(
                                RatchetError {
                                    description: "Diffie hellman failed",
                                    cause: RatchetErrorCause::DiffieHellmanFailed,
                                    index: i,
                                    height: h,
                                },
                            );
                        },
                    }
                }
            }
            proof {
                lemma_pot_step(c, ch as nat, index - 1);
                assert(ratchet_rec(layers, tomb, h0, c, ch, acc) == ratchet_rec(
                    layers,
                    tomb,
                    h0,
                    parent_idx(c),
                    ch + 1,
                    branch@.nodes,
                ));
            }
        }
        proof {
            assert(ratchet_rec(
                layers,
                tomb,
                h0,
                iterator@.curr_index,
                iterator@.curr_height,
                branch@.nodes,
            ) == Ok::<Seq<KeyView>, (int, int)>(branch@.nodes));
        }
        Ok(branch)
    }

    /// Writes a branch into the tree atomically. The branch must reach
    /// the tree's height, else `BranchTooShort`, and the pool must hold
    /// a slot for every layer the branch touches, else `OutOfMemory`;
    /// both checks come before any write, so a failing commit leaves the
    /// tree unchanged. A committed tombstone leaf enqueues its index for
    /// reuse. Returns the topmost node written: the new root secret.
    pub fn commit(&mut self, branch: &RatchetBranch) -> (r: Result<Key, RatchetError>)
        requires
            tree_wf(old(self)@),
            1 <= branch@.root,
            branch@.nodes.len() >= 1,
            (branch@.nodes.len() >= spec_height(old(self)@) && MEMORY_TREE_START_INDEX
                + branch@.nodes.len() <= old(self)@.pool.len) ==> branch_fits(
                old(self)@.layers,
                branch@.nodes,
                branch@.root,
                0,
            ),
        ensures
            branch@.nodes.len() < spec_height(old(self)@) ==> ((r matches Err(e) && e.cause
                == RatchetErrorCause::BranchTooShort && e.index == branch@.root && e.height
                == branch@.nodes.len()) && *final(self) == *old(self)),
            (branch@.nodes.len() >= spec_height(old(self)@) && MEMORY_TREE_START_INDEX
                + branch@.nodes.len() > old(self)@.pool.len) ==> ((r matches Err(e) && e.cause
                == RatchetErrorCause::OutOfMemory && e.index == branch@.root && e.height == 0)
                && *final(self) == *old(self)),
            (branch@.nodes.len() >= spec_height(old(self)@) && MEMORY_TREE_START_INDEX
                + branch@.nodes.len() <= old(self)@.pool.len) ==> ((r matches Ok(k) && k@
                == branch@.nodes.last()) && final(self)@ == (TreeView {
                layers: apply_branch(old(self)@.layers, branch@.nodes, branch@.root, 0),
                orphans: orphans_after(old(self)@.orphans, branch@, old(self)@.tombstone),
                ..old(self)@
            }) && tree_wf(final(self)@)),
    {
        let ghost layers0 = self@.layers;
        let ghost tomb0 = self@.tombstone;
        let ghost pool0 = self@.pool;
        let ghost root = branch@.root;
        let ghost nodes_all = branch@.nodes;
        let height0 = self.height();
        let blen = branch.len();
        if blen < height0 {
            return Err(
                RatchetError {
                    description: "Branch & Tree height mismatch: Committing branch would result in desynced state",
                    cause: RatchetErrorCause::BranchTooShort,
                    index: branch.root(),
                    height: blen,
                },
            );
        }
        let pool_len = self.memory.len();
        if blen > pool_len - MEMORY_TREE_START_INDEX {
            return Err(
                RatchetError {
                    description: "Not enough memory available in memory_pool for tree",
                    cause: RatchetErrorCause::OutOfMemory,
                    index: branch.root(),
                    height: 0,
                },
            );
        }
        let mut index = branch.root();
        if self.orphans.len() > 0 && self.orphans[0] == index {
            self.orphans.remove(0);
        }
        let first = *branch.get_node(0).unwrap();
        if first == self.tombstone {
            self.orphans.push(index);
        }
        proof {
            assert(Seq::new(self.orphans@.len(), |i: int| self.orphans@[i] as int) =~= orphans_after(
                Seq::new(old(self).orphans@.len(), |i: int| old(self).orphans@[i] as int),
                branch@,
                tomb0,
            ));
        }
        proof {
            assert(nodes_all.skip(0) =~= nodes_all);
            assert(self@.layers =~~= layers0);
        }
        let mut height: usize = 0;
        while height < blen
            invariant
                blen == nodes_all.len(),
                height <= blen,
                1 <= index,
                MEMORY_TREE_START_INDEX + blen <= pool0.len,
                pool0.len <= usize::MAX,
                branch_fits(self@.layers, nodes_all.skip(height as int), index as int, height as int),
                apply_branch(layers0, nodes_all, root, 0) == apply_branch(
                    self@.layers,
                    nodes_all.skip(height as int),
                    index as int,
                    height as int,
                ),
                height <= self@.layers.len(),
                self@.layers.len() >= 1,
                forall|l: int| 0 <= l < self@.layers.len() ==> (#[trigger] self@.layers[l]).len()
                    >= 1,
                self@.orphans == orphans_after(old(self)@.orphans, branch@, tomb0),
                self@.tombstone == tomb0,
                self@.pool == pool0,
                branch@.nodes == nodes_all,
                branch@.root == root,
            decreases blen - height,
        {
            let ghost layers_here = self@.layers;
            let ghost rest = nodes_all.skip(height as int);
            let ghost layers1g = if height as int == layers_here.len() {
                layers_here.push(seq![tombstone_key_view()])
            } else {
                layers_here
            };
            proof {
                assert(rest.len() > 0);
                assert(branch_fits(layers_here, rest, index as int, height as int));
                assert(index as int <= layers1g[height as int].len());
                assert(rest[0] == nodes_all[height as int]);
                assert(rest.drop_first() =~= nodes_all.skip(height as int + 1));
            }
            let key = *branch.get_node(height).unwrap();
            let cell = self.memory.get(MEMORY_TREE_START_INDEX + height);
            self.ensure_layer_present(height, &cell);
            proof {
                assert(self@.layers =~~= layers1g);
                assert(self@.orphans =~= orphans_after(old(self)@.orphans, branch@, tomb0));
            }
            let layer_len = self.nodes[height].len();
            if index >= layer_len {
                proof {
                    assert(index == layer_len);
                }
                self.nodes[height].push(key);
            } else {
                self.nodes[height][index] = key;
            }
            proof {
                assert(self@.layers[height as int] =~= write_at(
                    layers1g[height as int],
                    index as int,
                    key@,
                ));
                assert(self@.layers =~~= layers1g.update(
                    height as int,
                    write_at(layers1g[height as int], index as int, key@),
                ));
                assert(self@.orphans =~= orphans_after(old(self)@.orphans, branch@, tomb0));
                assert(branch_fits(
                    self@.layers,
                    nodes_all.skip(height as int + 1),
                    parent_idx(index as int),
                    height as int + 1,
                ));
                assert(apply_branch(layers_here, rest, index as int, height as int)
                    == apply_branch(
                    self@.layers,
                    nodes_all.skip(height as int + 1),
                    parent_idx(index as int),
                    height as int + 1,
                ));
                assert forall|l: int| 0 <= l < self@.layers.len() implies (
                #[trigger] self@.layers[l]).len() >= 1 by {
                    if l < layers_here.len() {
                        assert(layers_here[l].len() >= 1);
                    }
                }
            }
            height = height + 1;
            index = get_next_index(index);
        }
        proof {
            assert(nodes_all.skip(blen as int).len() == 0);
            assert(apply_branch(layers0, nodes_all, root, 0) == self@.layers);
            assert(tree_wf(self@));
            assert(self@ == (TreeView {
                layers: apply_branch(old(self)@.layers, branch@.nodes, branch@.root, 0),
                orphans: orphans_after(old(self)@.orphans, branch@, old(self)@.tombstone),
                ..old(self)@
            }));
        }
        Ok(*branch.get_node(blen - 1).unwrap())
    }

    /// Ratchets a fresh key in at the next free leaf index. The tree is
    /// not touched; the caller commits the returned branch.
    pub fn insert(&self, key: &Key, scratch: &AllocatorCell) -> (r: Result<
        RatchetBranch,
        RatchetError,
    >)
        requires
            tree_wf(self@),
            spec_next_index(self@) < usize::MAX,
        ensures
            match ratchet_rec(
                self@.layers,
                self@.tombstone,
                spec_height(self@),
                spec_next_index(self@),
                0,
                seq![key@],
            ) {
                Ok(nodes) => r matches Ok(b) && b@.root == spec_next_index(self@) && b@.nodes
                    == nodes,
                Err(pos) => r matches Err(e) && e.cause == RatchetErrorCause::DiffieHellmanFailed
                    && e.index == pos.0 && e.height == pos.1,
            },
    {
        proof {
            assert(self@.layers[0].len() >= 1);
            if self@.orphans.len() > 0 {
                assert(self@.orphans[0] >= 1);
            }
        }
        let next = self.get_next_index();
        self.ratchet(next, key, scratch)
    }

    /// Ratchets the tombstone in at leaf `index`, marking the member
    /// removed once the branch is committed. Fails with `IndexOutOfRange`
    /// when the index or its sibling lies outside the leaf layer.
    pub fn remove(&self, index: usize, scratch: &AllocatorCell) -> (r: Result<
        RatchetBranch,
        RatchetError,
    >)
        requires
            tree_wf(self@),
            index < usize::MAX,
        ensures
            (index < 1 || index >= self@.layers[0].len() || sib_idx(index as int)
                >= self@.layers[0].len()) ==> (r matches Err(e) && e.cause
                == RatchetErrorCause::IndexOutOfRange && e.index == index && e.height == 0),
            !(index < 1 || index >= self@.layers[0].len() || sib_idx(index as int)
                >= self@.layers[0].len()) ==> match ratchet_rec(
                self@.layers,
                self@.tombstone,
                spec_height(self@),
                index as int,
                0,
                seq![tombstone_key_view()],
            ) {
                Ok(nodes) => r matches Ok(b) && b@.root == index as int && b@.nodes == nodes,
                Err(pos) => r matches Err(e) && e.cause == RatchetErrorCause::DiffieHellmanFailed
                    && e.index == pos.0 && e.height == pos.1,
            },
    {
        let leaf_node_len = self.get_layer_len(0);
        if index < 1 {
            return Err(
                RatchetError {
                    description: "index provided larger than leaf-node array len",
                    cause: RatchetErrorCause::IndexOutOfRange,
                    index,
                    height: 0,
                },
            );
        }
        let sibling_index = get_sibling_index(index);
        if index >= leaf_node_len || sibling_index >= leaf_node_len {
            return Err(
                RatchetError {
                    description: "index provided larger than leaf-node array len",
                    cause: RatchetErrorCause::IndexOutOfRange,
                    index,
                    height: 0,
                },
            );
        }
        let tomb = self.tombstone;
        self.ratchet(index, &tomb, scratch)
    }

    /// Creates the layer at `height` if it is absent, holding only the
    /// reserved default slot. The cell is the pool slot that backs the
    /// layer's storage.
    pub fn ensure_layer_present(&mut self, height: usize, _memory: &AllocatorCell)
        requires
            height <= old(self)@.layers.len(),
        ensures
            height < old(self)@.layers.len() ==> *final(self) == *old(self),
            height == old(self)@.layers.len() ==> final(self)@ == (TreeView {
                layers: old(self)@.layers.push(seq![tombstone_key_view()]),
                ..old(self)@
            }),
    {
        if height >= self.nodes.len() {
            let mut layer: Vec<Key> = Vec::new();
            layer.push(Key::default());
            self.nodes.push(layer);
            proof {
                assert(self@.layers[old(self)@.layers.len() as int] =~= seq![tombstone_key_view()]);
                assert(self@.layers =~~= old(self)@.layers.push(seq![tombstone_key_view()]));
                assert(self@.orphans =~= old(self)@.orphans);
            }
        }
    }
}

} // verus!
