//! The traversal driver: the layout passes over a flow tree, and what they compute.
//!
//! What a pass computes is stated as a function of the layout inputs of the tree (its
//! shape, classes, styles and flags), so a pass computes the same values however often it
//! runs. Bottom-up passes visit flows in ascending index order, top-down passes in
//! descending order; both respect the tree since children come before their parents.

use vstd::prelude::*;
use app_units::Au;
use crate::absolute::FlowRef;
use crate::flags::{FlowClass, FlowFlags, FLOATS_LEFT, FLOATS_RIGHT, IS_ABSOLUTELY_POSITIONED};
use crate::flow::{BaseFlow, FlowStyle, IntrinsicISizes};
use crate::geometry::{LogicalPoint, LogicalRect, LogicalSize};
use crate::geometry::WritingMode;
use crate::tree::{FlowNode, FlowTree, kids_of, parent_of, same_shape, wf_children, wf_styles};
use crate::units::{au_add, au_in_range, au_max, au_min, au_sub, au_valid, clamp_au, max_int, min_int};
use crate::flags::{FloatKind, REFLOW, REFLOW_OUT_OF_FLOW};

verus! {

/// What layout reads of one flow.
pub struct FlowInput {
    pub class: FlowClass,
    pub style: FlowStyle,
    pub children: Seq<FlowRef>,
    pub parent: Option<FlowRef>,
    pub flags: FlowFlags,
    pub writing_mode: WritingMode,
    pub is_root: bool,
}

/// The layout inputs of every flow of an arena.
pub open spec fn inputs(s: Seq<FlowNode>) -> Seq<FlowInput> {
    s.map_values(
        |n: FlowNode|
            FlowInput {
                class: n.class,
                style: n.style,
                children: n.base.children@,
                parent: n.base.parallel.parent,
                flags: n.base.flags,
                writing_mode: n.base.writing_mode,
                is_root: n.is_root,
            },
    )
}

/// Arenas of the same shape have the same layout inputs.
pub proof fn lemma_same_inputs(s1: Seq<FlowNode>, s2: Seq<FlowNode>)
    requires
        same_shape(s1, s2),
    ensures
        inputs(s1) == inputs(s2),
{
    assert(inputs(s1) =~= inputs(s2));
}

pub open spec fn is_abs(t: Seq<FlowInput>, i: int) -> bool {
    t[i].flags.has(IS_ABSOLUTELY_POSITIONED)
}

pub open spec fn is_floated(t: Seq<FlowInput>, i: int) -> bool {
    t[i].flags.has(FLOATS_LEFT) || t[i].flags.has(FLOATS_RIGHT)
}

/// An intrinsic inline size of flow `i` counting its own content and its first `k`
/// in-flow children: the minimum one, or the preferred one when `pref` holds.
pub open spec fn isize_upto(t: Seq<FlowInput>, i: int, k: int, pref: bool) -> int
    decreases i, k,
{
    if i < 0 || i >= t.len() {
        0
    } else if k <= 0 || k > t[i].children.len() {
        if pref {
            t[i].style.content_preferred_inline_size.0 as int
        } else {
            t[i].style.content_minimum_inline_size.0 as int
        }
    } else {
        let c = t[i].children[k - 1] as int;
        let prev = isize_upto(t, i, k - 1, pref);
        if c < i && !is_abs(t, c) {
            max_int(prev, isize_upto(t, c, t[c].children.len() as int, pref))
        } else {
            prev
        }
    }
}

/// The minimum inline size of flow `i` after the first pass.
pub open spec fn min_isize(t: Seq<FlowInput>, i: int) -> int {
    isize_upto(t, i, t[i].children.len() as int, false)
}

/// The preferred inline size of flow `i` after the first pass.
pub open spec fn pref_isize(t: Seq<FlowInput>, i: int) -> int {
    isize_upto(t, i, t[i].children.len() as int, true)
}

/// Intrinsic sizes stay in range: they are lengths of the styles, or maxima of such.
pub proof fn lemma_isize_valid(t: Seq<FlowInput>, i: int, k: int, pref: bool)
    requires
        forall|x: int| 0 <= x < t.len() ==> (#[trigger] t[x]).style.valid(),
    ensures
        crate::units::au_in_range(isize_upto(t, i, k, pref)),
    decreases i, k,
{
    if 0 <= i < t.len() && 0 < k <= t[i].children.len() {
        let c = t[i].children[k - 1] as int;
        lemma_isize_valid(t, i, k - 1, pref);
        if c < i && !is_abs(t, c) {
            lemma_isize_valid(t, c, t[c].children.len() as int, pref);
        }
    }
}


/// The inline size of flow `i` after the second pass, in a viewport `vw` wide: a flow
/// without parent spans the viewport; an in-flow child spans its parent; a float or an
/// absolutely-positioned flow shrinks to fit its parent.
pub open spec fn inline_of(t: Seq<FlowInput>, vw: int, i: int) -> int
    decreases t.len() - i,
{
    if i < 0 || i >= t.len() {
        0
    } else {
        match t[i].parent {
            None => vw,
            Some(p) => if p <= i || p >= t.len() {
                vw
            } else {
                let avail = inline_of(t, vw, p as int);
                if is_abs(t, i) || is_floated(t, i) {
                    min_int(max_int(min_isize(t, i), avail), pref_isize(t, i))
                } else {
                    avail
                }
            },
        }
    }
}

/// The inline size of the block container of flow `i`.
pub open spec fn container_inline_of(t: Seq<FlowInput>, vw: int, i: int) -> int {
    match t[i].parent {
        None => vw,
        Some(p) => inline_of(t, vw, p as int),
    }
}

/// The writing mode of the block container of flow `i`.
pub open spec fn container_mode_of(t: Seq<FlowInput>, i: int) -> WritingMode {
    match t[i].parent {
        None => t[i].writing_mode,
        Some(p) => t[p as int].writing_mode,
    }
}

/// The inline start of flow `i` after the second pass: an absolutely-positioned flow
/// sits at its `inline-start` offset unless that is `auto`; a right float at the end
/// of its parent; anything else at the start.
pub open spec fn inline_start_of(t: Seq<FlowInput>, vw: int, i: int) -> int {
    match t[i].parent {
        None => 0,
        Some(p) => if is_abs(t, i) {
            if t[i].style.inline_start_is_auto {
                0
            } else {
                t[i].style.inline_start_offset.0 as int
            }
        } else if t[i].flags.float_kind_spec() == Some(FloatKind::Right) {
            clamp_au(inline_of(t, vw, p as int) - inline_of(t, vw, i))
        } else {
            0
        },
    }
}

/// The layout inputs of a well-formed arena with valid styles.
pub open spec fn inputs_wf(t: Seq<FlowInput>) -> bool {
    &&& forall|x: int| 0 <= x < t.len() ==> (#[trigger] t[x]).style.valid()
    &&& forall|x: int|
        0 <= x < t.len() && (#[trigger] t[x]).parent is Some ==> x < t[x].parent->0 < t.len()
}

/// Inline sizes stay in range when the viewport does.
pub proof fn lemma_inline_valid(t: Seq<FlowInput>, vw: int, i: int)
    requires
        inputs_wf(t),
        au_in_range(vw),
    ensures
        au_in_range(inline_of(t, vw, i)),
    decreases t.len() - i,
{
    if 0 <= i < t.len() {
        if let Some(p) = t[i].parent {
            lemma_inline_valid(t, vw, p as int);
            lemma_isize_valid(t, i, t[i].children.len() as int, false);
            lemma_isize_valid(t, i, t[i].children.len() as int, true);
        }
    }
}

/// The block size of flow `i` counting its own content and its first `k` in-flow
/// children, stacked one after the other.
pub open spec fn bsize_upto(t: Seq<FlowInput>, i: int, k: int) -> int
    decreases i, k,
{
    if i < 0 || i >= t.len() {
        0
    } else if k <= 0 || k > t[i].children.len() {
        t[i].style.content_block_size.0 as int
    } else {
        let c = t[i].children[k - 1] as int;
        let prev = bsize_upto(t, i, k - 1);
        if c < i && !is_abs(t, c) {
            clamp_au(prev + bsize_upto(t, c, t[c].children.len() as int))
        } else {
            prev
        }
    }
}

/// The block size of flow `i` after the third pass.
pub open spec fn block_size_of(t: Seq<FlowInput>, i: int) -> int {
    bsize_upto(t, i, t[i].children.len() as int)
}

/// Where the `k`-th child of flow `p` starts on the block axis: after the in-flow
/// children before it, or at its `block-start` offset if it is absolutely positioned
/// and that offset is not `auto`.
pub open spec fn child_block_start(t: Seq<FlowInput>, p: int, k: int) -> int {
    let c = t[p].children[k] as int;
    if is_abs(t, c) && !t[c].style.block_start_is_auto {
        t[c].style.block_start_offset.0 as int
    } else {
        bsize_upto(t, p, k)
    }
}

/// The place of flow `i` among its parent's children.
pub open spec fn index_in_parent(t: Seq<FlowInput>, i: int) -> int {
    let p = t[i].parent->0 as int;
    choose|k: int| 0 <= k < t[p].children.len() && t[p].children[k] == i
}

/// The block start of flow `i` after the third pass.
pub open spec fn block_start_of(t: Seq<FlowInput>, i: int) -> int {
    match t[i].parent {
        None => 0,
        Some(p) => child_block_start(t, p as int, index_in_parent(t, i)),
    }
}

/// Block sizes stay in range.
pub proof fn lemma_bsize_valid(t: Seq<FlowInput>, i: int, k: int)
    requires
        forall|x: int| 0 <= x < t.len() ==> (#[trigger] t[x]).style.valid(),
    ensures
        au_in_range(bsize_upto(t, i, k)),
    decreases i, k,
{
    if 0 <= i < t.len() && 0 < k <= t[i].children.len() {
        let c = t[i].children[k - 1] as int;
        lemma_bsize_valid(t, i, k - 1);
        if c < i && !is_abs(t, c) {
            lemma_bsize_valid(t, c, t[c].children.len() as int);
        }
    }
}

/// The inputs of a well-formed arena are well formed.
pub proof fn lemma_inputs_wf(s: Seq<FlowNode>)
    requires
        wf_children(s),
        wf_styles(s),
    ensures
        inputs_wf(inputs(s)),
        forall|i: int| 0 <= i < s.len() ==> #[trigger] inputs(s)[i].children == kids_of(s, i),
        forall|i: int| 0 <= i < s.len() ==> #[trigger] inputs(s)[i].parent == parent_of(s, i),
{
    let t = inputs(s);
    assert forall|x: int| 0 <= x < t.len() implies (#[trigger] t[x]).style.valid() by {
        assert(t[x].style == s[x].style);
    }
    assert forall|x: int| 0 <= x < t.len() && (#[trigger] t[x]).parent is Some implies x < t[x].parent->0 < t.len() by {
        assert(t[x].parent == parent_of(s, x));
    }
}

/// Block starts stay in range.
pub proof fn lemma_bsize_valid_start(s: Seq<FlowNode>, x: int)
    requires
        wf_children(s),
        wf_styles(s),
        0 <= x < s.len(),
    ensures
        au_in_range(block_start_of(inputs(s), x)),
{
    let t = inputs(s);
    lemma_inputs_wf(s);
    if let Some(p) = t[x].parent {
        let k = index_in_parent(t, x);
        lemma_bsize_valid(t, p as int, k);
        if 0 <= k < t[p as int].children.len() {
            let c = t[p as int].children[k] as int;
            if 0 <= c < t.len() {
                assert(t[c].style.valid());
            }
        }
    }
}

/// Inline starts stay in range when the viewport does.
pub proof fn lemma_inline_start_valid(t: Seq<FlowInput>, vw: int, x: int)
    requires
        inputs_wf(t),
        au_in_range(vw),
        0 <= x < t.len(),
    ensures
        au_in_range(inline_start_of(t, vw, x)),
{
    assert(t[x].style.valid());
}

/// A child's place among its parent's children is the one it is listed at.
pub proof fn lemma_index_in_parent(s: Seq<FlowNode>, p: int, k: int)
    requires
        wf_children(s),
        s.len() <= usize::MAX,
        0 <= p < s.len(),
        0 <= k < kids_of(s, p).len(),
    ensures
        index_in_parent(inputs(s), kids_of(s, p)[k] as int) == k,
{
    let t = inputs(s);
    let c = kids_of(s, p)[k] as int;
    assert(t[c].parent == parent_of(s, c));
    assert(t[p].children == kids_of(s, p));
    assert(t[p].children[k] == c);
    assert(parent_of(s, c) == Some(p as FlowRef));
    assert(t[c].parent->0 as int == p);
    assert(exists|m: int| 0 <= m < t[p].children.len() && t[p].children[m] == c);
    let j = index_in_parent(t, c);
    assert(j == choose|m: int| 0 <= m < t[p].children.len() && t[p].children[m] == c);
    assert(0 <= j < t[p].children.len() && t[p].children[j] == c);
    if j != k {
        if j < k {
            assert(kids_of(s, p)[j] != kids_of(s, p)[k]);
        } else {
            assert(kids_of(s, p)[k] != kids_of(s, p)[j]);
        }
    }
}

/// `n` with the intrinsic inline sizes of the first pass.
pub open spec fn with_isize(n: FlowNode, t: Seq<FlowInput>, i: int) -> FlowNode {
    FlowNode {
        base: BaseFlow {
            intrinsic_inline_sizes: IntrinsicISizes {
                minimum_inline_size: Au(min_isize(t, i) as i32),
                preferred_inline_size: Au(pref_isize(t, i) as i32),
            },
            ..n.base
        },
        ..n
    }
}

/// `n` with the inline-axis results of the second pass.
pub open spec fn with_inline(n: FlowNode, t: Seq<FlowInput>, vw: int, i: int) -> FlowNode {
    FlowNode {
        base: BaseFlow {
            position: LogicalRect {
                start: LogicalPoint { i: Au(inline_start_of(t, vw, i) as i32), ..n.base.position.start },
                size: LogicalSize { inline: Au(inline_of(t, vw, i) as i32), ..n.base.position.size },
            },
            block_container_inline_size: Au(container_inline_of(t, vw, i) as i32),
            block_container_writing_mode: container_mode_of(t, i),
            ..n.base
        },
        ..n
    }
}

/// `n` with its block size from the third pass, and with its block start too when
/// `start` holds.
pub open spec fn with_block(n: FlowNode, t: Seq<FlowInput>, i: int, size: bool, start: bool) -> FlowNode {
    FlowNode {
        base: BaseFlow {
            position: LogicalRect {
                start: LogicalPoint {
                    b: if start { Au(block_start_of(t, i) as i32) } else { n.base.position.start.b },
                    ..n.base.position.start
                },
                size: LogicalSize {
                    block: if size { Au(block_size_of(t, i) as i32) } else { n.base.position.size.block },
                    ..n.base.position.size
                },
            },
            ..n.base
        },
        ..n
    }
}

/// Whether the third pass has placed flow `x` on the block axis once every flow below
/// `i` has been visited: its parent has been, or it is parentless and has been itself.
pub open spec fn block_placed(t: Seq<FlowInput>, x: int, i: int) -> bool {
    match t[x].parent {
        Some(p) => p < i,
        None => x < i,
    }
}

/// Flow `x` after the sizing passes, from its state `n` before them.
pub open spec fn sized(n: FlowNode, t: Seq<FlowInput>, vw: int, x: int) -> FlowNode {
    with_block(with_inline(with_isize(n, t, x), t, vw, x), t, x, true, true)
}

/// Layout is deterministic: two trees with the same inputs, laid out in viewports of the
/// same width, get the same intrinsic sizes, positions and block-container sizes.
pub proof fn lemma_layout_deterministic(a: FlowNode, b: FlowNode, t: Seq<FlowInput>, vw: int, x: int)
    ensures
        sized(a, t, vw, x).base.intrinsic_inline_sizes == sized(b, t, vw, x).base.intrinsic_inline_sizes,
        sized(a, t, vw, x).base.position == sized(b, t, vw, x).base.position,
        sized(a, t, vw, x).base.block_container_inline_size == sized(b, t, vw, x).base.block_container_inline_size,
        sized(a, t, vw, x).base.block_container_writing_mode == sized(b, t, vw, x).base.block_container_writing_mode,
{
}

/// Laying out a laid-out tree again, with the same inputs and viewport, writes nothing
/// new: every flow stays exactly as it was.
pub proof fn lemma_layout_idempotent(n: FlowNode, t: Seq<FlowInput>, vw: int, x: int)
    ensures
        sized(sized(n, t, vw, x), t, vw, x) == sized(n, t, vw, x),
{
}

/// Sizing keeps every layout input of a flow.
pub proof fn lemma_sized_keeps_inputs(s: Seq<FlowNode>, s2: Seq<FlowNode>, vw: int)
    requires
        s2.len() == s.len(),
        forall|x: int| 0 <= x < s.len() ==> #[trigger] s2[x] == sized(s[x], inputs(s), vw, x),
    ensures
        same_shape(s, s2),
        inputs(s2) == inputs(s),
{
    assert(same_shape(s, s2));
    lemma_same_inputs(s, s2);
}

/// Intrinsic sizes are non-negative, and the minimum one is at most the preferred one.
pub proof fn lemma_isize_bounds(t: Seq<FlowInput>, i: int, k: int)
    requires
        forall|x: int| 0 <= x < t.len() ==> (#[trigger] t[x]).style.valid(),
    ensures
        0 <= isize_upto(t, i, k, false) <= isize_upto(t, i, k, true),
    decreases i, k,
{
    if 0 <= i < t.len() {
        assert(t[i].style.valid());
        if 0 < k <= t[i].children.len() {
            let c = t[i].children[k - 1] as int;
            lemma_isize_bounds(t, i, k - 1);
            if c < i && !is_abs(t, c) {
                lemma_isize_bounds(t, c, t[c].children.len() as int);
            }
        }
    }
}

/// Inline sizes are non-negative in a viewport of non-negative width.
pub proof fn lemma_inline_nonneg(t: Seq<FlowInput>, vw: int, i: int)
    requires
        inputs_wf(t),
        0 <= vw,
    ensures
        0 <= inline_of(t, vw, i),
    decreases t.len() - i,
{
    if 0 <= i < t.len() {
        if let Some(p) = t[i].parent {
            lemma_inline_nonneg(t, vw, p as int);
            lemma_isize_bounds(t, i, t[i].children.len() as int);
        }
    }
}

/// Block sizes are non-negative.
pub proof fn lemma_bsize_nonneg(t: Seq<FlowInput>, i: int, k: int)
    requires
        forall|x: int| 0 <= x < t.len() ==> (#[trigger] t[x]).style.valid(),
    ensures
        0 <= bsize_upto(t, i, k),
    decreases i, k,
{
    if 0 <= i < t.len() {
        assert(t[i].style.valid());
        if 0 < k <= t[i].children.len() {
            let c = t[i].children[k - 1] as int;
            lemma_bsize_nonneg(t, i, k - 1);
            if c < i && !is_abs(t, c) {
                lemma_bsize_nonneg(t, c, t[c].children.len() as int);
            }
        }
    }
}

/// After the sizing passes every flow has valid sizes: intrinsic sizes with
/// `0 <= minimum <= preferred`, and non-negative inline and block sizes.
pub proof fn lemma_sizes_valid(s: Seq<FlowNode>, vw: int, x: int)
    requires
        wf_children(s),
        wf_styles(s),
        0 <= vw,
        au_in_range(vw),
        0 <= x < s.len(),
    ensures
        ({
            let n = sized(s[x], inputs(s), vw, x);
            &&& 0 <= n.base.intrinsic_inline_sizes.minimum_inline_size.0
                <= n.base.intrinsic_inline_sizes.preferred_inline_size.0
            &&& 0 <= n.base.position.size.inline.0
            &&& 0 <= n.base.position.size.block.0
            &&& n.base.position.valid()
        }),
{
    let t = inputs(s);
    lemma_inputs_wf(s);
    lemma_isize_bounds(t, x, t[x].children.len() as int);
    lemma_isize_valid(t, x, t[x].children.len() as int, false);
    lemma_isize_valid(t, x, t[x].children.len() as int, true);
    lemma_inline_nonneg(t, vw, x);
    lemma_inline_valid(t, vw, x);
    lemma_bsize_nonneg(t, x, t[x].children.len() as int);
    lemma_bsize_valid(t, x, t[x].children.len() as int);
    lemma_bsize_valid_start(s, x);
    lemma_inline_start_valid(t, vw, x);
}

/// Whether the second pass is done for flow `x` once every flow from `i` up has been
/// visited: its parent, if any, has been, or it is parentless and has been itself.
pub open spec fn inline_visited(t: Seq<FlowInput>, x: int, i: int) -> bool {
    match t[x].parent {
        Some(p) => p >= i,
        None => x >= i,
    }
}

impl FlowTree {
    /// The flows of the tree whose intrinsic inline sizes are those of the first pass.
    pub open spec fn bubbled(&self, upto: int) -> bool {
        forall|j: int|
            0 <= j < upto ==> {
                &&& (#[trigger] self@[j]).base.intrinsic_inline_sizes.minimum_inline_size.0 == min_isize(
                    inputs(self@),
                    j,
                )
                &&& self@[j].base.intrinsic_inline_sizes.preferred_inline_size.0 == pref_isize(
                    inputs(self@),
                    j,
                )
            }
    }

    /// Pass 1 at one flow: its minimum and preferred inline sizes from its own content and
    /// its in-flow children, whose sizes must already be known.
    pub fn bubble_inline_sizes(&mut self, flow: FlowRef)
        requires
            wf_children(old(self)@),
            wf_styles(old(self)@),
            flow < old(self)@.len(),
            forall|k: int|
                0 <= k < old(self)@[flow as int].base.children@.len() ==> old(self).bubbled(
                    #[trigger] old(self)@[flow as int].base.children@[k] + 1,
                ),
        ensures
            final(self)@.len() == old(self)@.len(),
            forall|x: int| 0 <= x < old(self)@.len() && x != flow ==> final(self)@[x] == old(self)@[x],
            final(self)@[flow as int] == with_isize(old(self)@[flow as int], inputs(old(self)@), flow as int),
    {
        let ghost t = inputs(self@);
        let i = flow;
        let mut mn = self.nodes[i].style.content_minimum_inline_size;
        let mut pf = self.nodes[i].style.content_preferred_inline_size;
        let nk = self.nodes[i].base.children.len();
        let mut k: usize = 0;
        while k < nk
            invariant
                t == inputs(self@),
                wf_children(self@),
                wf_styles(self@),
                i < self@.len(),
                nk == self@[i as int].base.children@.len(),
                k <= nk,
                mn.0 == isize_upto(t, i as int, k as int, false),
                pf.0 == isize_upto(t, i as int, k as int, true),
                au_valid(mn) && au_valid(pf),
                forall|m: int| 0 <= m < nk ==> self.bubbled(#[trigger] self@[i as int].base.children@[m] + 1),
            decreases nk - k,
        {
            let c = self.nodes[i].base.children[k];
            proof {
                assert(t[i as int].children == self@[i as int].base.children@);
                assert(crate::tree::kids_of(self@, i as int)[k as int] < i);
                assert(c < i);
                assert(self.bubbled(c + 1));
                assert(self@[c as int].base.intrinsic_inline_sizes.minimum_inline_size.0 == min_isize(t, c as int));
                lemma_isize_valid(t, c as int, t[c as int].children.len() as int, false);
                lemma_isize_valid(t, c as int, t[c as int].children.len() as int, true);
                assert(forall|x: int| 0 <= x < t.len() ==> (#[trigger] t[x]).style == self@[x].style);
            }
            if !self.nodes[c].base.flags.contains(IS_ABSOLUTELY_POSITIONED) {
                mn = au_max(mn, self.nodes[c].base.intrinsic_inline_sizes.minimum_inline_size);
                pf = au_max(pf, self.nodes[c].base.intrinsic_inline_sizes.preferred_inline_size);
            }
            k = k + 1;
        }
        self.nodes[i].base.intrinsic_inline_sizes = IntrinsicISizes {
            minimum_inline_size: mn,
            preferred_inline_size: pf,
        };
    }

    /// Pass 1 over the whole tree, bottom-up.
    pub fn bubble_all_inline_sizes(&mut self)
        requires
            wf_children(old(self)@),
            wf_styles(old(self)@),
        ensures
            final(self)@.len() == old(self)@.len(),
            forall|x: int|
                0 <= x < old(self)@.len() ==> #[trigger] final(self)@[x] == with_isize(
                    old(self)@[x],
                    inputs(old(self)@),
                    x,
                ),
            final(self).bubbled(final(self)@.len() as int),
    {
        let n = self.nodes.len();
        let mut i: usize = 0;
        while i < n
            invariant
                n == self@.len(),
                i <= n,
                same_shape(old(self)@, self@),
                wf_children(self@),
                wf_styles(self@),
                self.bubbled(i as int),
                inputs(self@) == inputs(old(self)@),
                forall|x: int| 0 <= x < i ==> #[trigger] self@[x] == with_isize(old(self)@[x], inputs(old(self)@), x),
                forall|x: int| i <= x < n ==> #[trigger] self@[x] == old(self)@[x],
            decreases n - i,
        {
            proof {
                assert forall|k: int| 0 <= k < self@[i as int].base.children@.len() implies self.bubbled(
                    #[trigger] self@[i as int].base.children@[k] + 1) by {
                    assert(crate::tree::kids_of(self@, i as int)[k] < i);
                }
            }
            let ghost prev = self@;
            self.bubble_inline_sizes(i);
            proof {
                assert(same_shape(prev, self@));
                lemma_same_inputs(prev, self@);
                crate::tree::lemma_shape_keeps_children(prev, self@);
                lemma_inputs_wf(prev);
                lemma_isize_valid(inputs(prev), i as int, inputs(prev)[i as int].children.len() as int, false);
                lemma_isize_valid(inputs(prev), i as int, inputs(prev)[i as int].children.len() as int, true);
                assert forall|x: int| 0 <= x < i + 1 implies #[trigger] self@[x] == with_isize(old(self)@[x], inputs(old(self)@), x) by {
                    if x < i {
                        assert(self@[x] == prev[x]);
                    }
                }
                assert forall|j: int| 0 <= j < i + 1 implies {
                    &&& (#[trigger] self@[j]).base.intrinsic_inline_sizes.minimum_inline_size.0 == min_isize(
                        inputs(self@),
                        j,
                    )
                    &&& self@[j].base.intrinsic_inline_sizes.preferred_inline_size.0 == pref_isize(
                        inputs(self@),
                        j,
                    )
                } by {
                    if j < i {
                        assert(self@[j] == prev[j]);
                    }
                }
            }
            i = i + 1;
        }
    }

    /// A parentless flow spans the viewport and is its own block container.
    fn span_viewport(&mut self, flow: FlowRef, viewport_inline_size: Au, Ghost(t): Ghost<Seq<FlowInput>>)
        requires
            flow < old(self)@.len(),
            t.len() == old(self)@.len(),
            t[flow as int].parent is None,
            t[flow as int].writing_mode == old(self)@[flow as int].base.writing_mode,
        ensures
            final(self)@.len() == old(self)@.len(),
            final(self)@[flow as int] == with_inline(old(self)@[flow as int], t, viewport_inline_size.0 as int, flow as int),
            forall|x: int| 0 <= x < old(self)@.len() && x != flow ==> final(self)@[x] == old(self)@[x],
    {
        let wm = self.nodes[flow].base.writing_mode;
        self.nodes[flow].base.position.start.i = Au(0);
        self.nodes[flow].base.position.size.inline = viewport_inline_size;
        self.nodes[flow].base.block_container_inline_size = viewport_inline_size;
        self.nodes[flow].base.block_container_writing_mode = wm;
    }

    /// Pass 2 at one flow: a parentless flow spans the viewport; then each child gets its
    /// inline size and start and learns its block container's inline size and mode.
    #[verifier::rlimit(100)]
    pub fn assign_inline_sizes(&mut self, flow: FlowRef, viewport_inline_size: Au)
        requires
            wf_children(old(self)@),
            wf_styles(old(self)@),
            flow < old(self)@.len(),
            au_valid(viewport_inline_size),
            viewport_inline_size.0 >= 0,
            old(self).bubbled(old(self)@.len() as int),
            parent_of(old(self)@, flow as int) is Some ==> old(self)@[flow as int].base.position.size.inline.0
                == inline_of(inputs(old(self)@), viewport_inline_size.0 as int, flow as int),
        ensures
            final(self)@.len() == old(self)@.len(),
            parent_of(old(self)@, flow as int) is None ==> final(self)@[flow as int] == with_inline(
                old(self)@[flow as int],
                inputs(old(self)@),
                viewport_inline_size.0 as int,
                flow as int,
            ),
            parent_of(old(self)@, flow as int) is Some ==> final(self)@[flow as int] == old(self)@[flow as int],
            forall|x: int|
                0 <= x < old(self)@.len() && parent_of(old(self)@, x) == Some(flow) ==> #[trigger] final(self)@[x]
                    == with_inline(old(self)@[x], inputs(old(self)@), viewport_inline_size.0 as int, x),
            forall|x: int|
                0 <= x < old(self)@.len() && x != flow && parent_of(old(self)@, x) != Some(flow)
                    ==> #[trigger] final(self)@[x] == old(self)@[x],
    {
        let ghost t = inputs(self@);
        let ghost vw = viewport_inline_size.0 as int;
        let ghost s0 = self@;
        let n_nodes = self.nodes.len();
        proof {
            assert(s0.len() == n_nodes);
            lemma_inputs_wf(s0);
            lemma_inline_valid(t, vw, flow as int);
        }
        if self.nodes[flow].base.parallel.parent.is_none() {
            self.span_viewport(flow, viewport_inline_size, Ghost(t));
        }
        let avail = self.nodes[flow].base.position.size.inline;
        let wm = self.nodes[flow].base.writing_mode;
        let nk = self.nodes[flow].base.children.len();
        proof {
            assert(avail.0 == inline_of(t, vw, flow as int));
            assert(wm == t[flow as int].writing_mode);
        }
        let mut k: usize = 0;
        while k < nk
            invariant
                self@.len() == s0.len(),
                t == inputs(s0),
                inputs_wf(t),
                wf_children(s0),
                s0.len() <= usize::MAX,
                flow < s0.len(),
                nk == kids_of(s0, flow as int).len(),
                k <= nk,
                au_valid(viewport_inline_size),
            viewport_inline_size.0 >= 0,
                vw == viewport_inline_size.0 as int,
                s0 == old(self)@,
                old(self).bubbled(old(self)@.len() as int),
                avail.0 == inline_of(t, vw, flow as int),
                au_valid(avail),
                wm == t[flow as int].writing_mode,
                parent_of(s0, flow as int) is None ==> self@[flow as int] == with_inline(s0[flow as int], t, vw, flow as int),
                parent_of(s0, flow as int) is Some ==> self@[flow as int] == s0[flow as int],
                kids_of(self@, flow as int) == kids_of(s0, flow as int),
                forall|m: int| 0 <= m < k ==> #[trigger] self@[kids_of(s0, flow as int)[m] as int] == with_inline(
                    s0[kids_of(s0, flow as int)[m] as int], t, vw, kids_of(s0, flow as int)[m] as int),
                forall|x: int| 0 <= x < s0.len() && x != flow && !kids_of(s0, flow as int).take(k as int).contains(x as FlowRef)
                    ==> #[trigger] self@[x] == s0[x],
            decreases nk - k,
        {
            let c = self.nodes[flow].base.children[k];
            proof {
                assert(kids_of(s0, flow as int)[k as int] == c);
                assert(c < flow);
                assert(parent_of(s0, c as int) == Some(flow));
                assert(!kids_of(s0, flow as int).take(k as int).contains(c)) by {
                    if kids_of(s0, flow as int).take(k as int).contains(c) {
                        let m = choose|m: int| 0 <= m < k && kids_of(s0, flow as int).take(k as int)[m] == c;
                        assert(kids_of(s0, flow as int)[m] != kids_of(s0, flow as int)[k as int]);
                    }
                }
                assert(self@[c as int] == s0[c as int]);
                assert(t[c as int] == inputs(s0)[c as int]);
                assert(t[c as int].parent == Some(flow));
                assert(s0[c as int].base.intrinsic_inline_sizes.minimum_inline_size.0 == min_isize(t, c as int));
                assert(s0[c as int].base.intrinsic_inline_sizes.preferred_inline_size.0 == pref_isize(t, c as int));
                lemma_inline_valid(t, vw, c as int);
                assert(t[c as int].style.valid());
            }
            let flags = self.nodes[c].base.flags;
            let out_of_flow = flags.contains(IS_ABSOLUTELY_POSITIONED);
            let size = if out_of_flow || flags.is_float() {
                au_min(
                    au_max(self.nodes[c].base.intrinsic_inline_sizes.minimum_inline_size, avail),
                    self.nodes[c].base.intrinsic_inline_sizes.preferred_inline_size,
                )
            } else {
                avail
            };
            let start = if out_of_flow {
                if self.nodes[c].style.inline_start_is_auto {
                    Au(0)
                } else {
                    self.nodes[c].style.inline_start_offset
                }
            } else if flags.float_kind() == Some(FloatKind::Right) {
                au_sub(avail, size)
            } else {
                Au(0)
            };
            proof {
                assert(size.0 == inline_of(t, vw, c as int));
                assert(start.0 == inline_start_of(t, vw, c as int));
            }
            let ghost prev = self@;
            self.nodes[c].base.position.start.i = start;
            self.nodes[c].base.position.size.inline = size;
            self.nodes[c].base.block_container_inline_size = avail;
            self.nodes[c].base.block_container_writing_mode = wm;
            proof {
                assert(self@[c as int] == with_inline(s0[c as int], t, vw, c as int));
                assert(forall|x: int| 0 <= x < self@.len() && x != c ==> self@[x] == prev[x]);
                assert(kids_of(s0, flow as int).take(k + 1) == kids_of(s0, flow as int).take(k as int).push(c));
                assert forall|x: int| 0 <= x < s0.len() && x != flow && !kids_of(s0, flow as int).take(k + 1).contains(x as FlowRef)
                    implies #[trigger] self@[x] == s0[x] by {
                    assert((x as FlowRef) as int == x);
                    if x == c as int {
                        assert(kids_of(s0, flow as int).take(k + 1)[k as int] == c);
                    } else if kids_of(s0, flow as int).take(k as int).contains(x as FlowRef) {
                        let m = choose|m: int| 0 <= m < k && kids_of(s0, flow as int).take(k as int)[m] == x as FlowRef;
                        assert(kids_of(s0, flow as int).take(k + 1)[m] == x as FlowRef);
                    }
                }
                assert forall|m: int| 0 <= m < k + 1 implies #[trigger] self@[kids_of(s0, flow as int)[m] as int] == with_inline(
                    s0[kids_of(s0, flow as int)[m] as int], t, vw, kids_of(s0, flow as int)[m] as int) by {
                    if m < k {
                        assert(kids_of(s0, flow as int)[m] != c);
                    }
                }
            }
            k = k + 1;
        }
        proof {
            assert(kids_of(s0, flow as int).take(nk as int) == kids_of(s0, flow as int));
            lemma_children_updated(s0, self@, flow as int, t, vw);
        }
    }

    /// Pass 2 over the whole tree, top-down, in a viewport `viewport_inline_size` wide.
    #[verifier::rlimit(100)]
    pub fn assign_all_inline_sizes(&mut self, viewport_inline_size: Au)
        requires
            wf_children(old(self)@),
            wf_styles(old(self)@),
            au_valid(viewport_inline_size),
            viewport_inline_size.0 >= 0,
            old(self).bubbled(old(self)@.len() as int),
        ensures
            final(self)@.len() == old(self)@.len(),
            forall|x: int|
                0 <= x < old(self)@.len() ==> #[trigger] final(self)@[x] == with_inline(
                    old(self)@[x],
                    inputs(old(self)@),
                    viewport_inline_size.0 as int,
                    x,
                ),
    {
        let ghost t = inputs(self@);
        let ghost vw = viewport_inline_size.0 as int;
        let ghost s0 = self@;
        let n = self.nodes.len();
        proof {
            lemma_inputs_wf(s0);
        }
        let mut i: usize = n;
        while i > 0
            invariant
                n == s0.len(),
                s0 == old(self)@,
                self@.len() == n,
                i <= n,
                t == inputs(s0),
                inputs_wf(t),
                wf_children(s0),
                wf_styles(s0),
                au_valid(viewport_inline_size),
            viewport_inline_size.0 >= 0,
                vw == viewport_inline_size.0 as int,
                old(self).bubbled(n as int),
                forall|x: int| 0 <= x < n && inline_visited(t, x, i as int) ==> #[trigger] self@[x] == with_inline(s0[x], t, vw, x),
                forall|x: int| 0 <= x < n && !inline_visited(t, x, i as int) ==> #[trigger] self@[x] == s0[x],
            decreases i,
        {
            let flow = i - 1;
            let ghost prev = self@;
            proof {
                assert(forall|x: int| 0 <= x < n ==> (#[trigger] t[x]).parent == parent_of(s0, x));
                assert(same_shape(s0, prev));
                lemma_same_inputs(s0, prev);
                crate::tree::lemma_shape_keeps_children(s0, prev);
                assert forall|j: int| 0 <= j < n implies (#[trigger] prev[j]).base.intrinsic_inline_sizes == s0[j].base.intrinsic_inline_sizes by {
                    if inline_visited(t, j, i as int) {
                        assert(prev[j] == with_inline(s0[j], t, vw, j));
                    }
                }
                assert(self.bubbled(n as int));
                assert(!inline_visited(t, flow as int, i as int) ==> prev[flow as int] == s0[flow as int]);
                if parent_of(s0, flow as int) is Some {
                    assert(inline_visited(t, flow as int, i as int));
                    lemma_inline_valid(t, vw, flow as int);
                } else {
                    assert(!inline_visited(t, flow as int, i as int));
                }
            }
            self.assign_inline_sizes(flow, viewport_inline_size);
            proof {
                assert forall|x: int| 0 <= x < n && inline_visited(t, x, flow as int) implies #[trigger] self@[x]
                    == with_inline(s0[x], t, vw, x) by {
                    if parent_of(prev, x) == Some(flow) {
                        assert(!inline_visited(t, x, i as int));
                    }
                }
                assert forall|x: int| 0 <= x < n && !inline_visited(t, x, flow as int) implies #[trigger] self@[x] == s0[x] by {
                    assert(!inline_visited(t, x, i as int));
                }
            }
            i = i - 1;
        }
    }

    /// Pass 3 at one flow: its in-flow children are stacked after its own content, each
    /// absolutely-positioned child goes to its `block-start` offset (or where it would
    /// have stood), and the flow's block size is what the stack reaches. The children's
    /// block sizes must already be known.
    #[verifier::rlimit(100)]
    pub fn assign_block_size(&mut self, flow: FlowRef)
        requires
            wf_children(old(self)@),
            wf_styles(old(self)@),
            flow < old(self)@.len(),
            forall|k: int|
                0 <= k < kids_of(old(self)@, flow as int).len() ==> old(self)@[#[trigger] kids_of(old(self)@, flow as int)[k] as int].base.position.size.block.0
                    == block_size_of(inputs(old(self)@), kids_of(old(self)@, flow as int)[k] as int),
        ensures
            final(self)@.len() == old(self)@.len(),
            final(self)@[flow as int] == with_block(
                old(self)@[flow as int],
                inputs(old(self)@),
                flow as int,
                true,
                parent_of(old(self)@, flow as int) is None,
            ),
            forall|x: int|
                0 <= x < old(self)@.len() && parent_of(old(self)@, x) == Some(flow) ==> #[trigger] final(self)@[x]
                    == with_block(old(self)@[x], inputs(old(self)@), x, false, true),
            forall|x: int|
                0 <= x < old(self)@.len() && x != flow && parent_of(old(self)@, x) != Some(flow)
                    ==> #[trigger] final(self)@[x] == old(self)@[x],
    {
        let ghost t = inputs(self@);
        let ghost s0 = self@;
        let n_nodes = self.nodes.len();
        proof {
            assert(s0.len() == n_nodes);
            lemma_inputs_wf(s0);
            assert(t[flow as int].style.valid());
        }
        let mut acc = self.nodes[flow].style.content_block_size;
        let nk = self.nodes[flow].base.children.len();
        let mut k: usize = 0;
        while k < nk
            invariant
                self@.len() == s0.len(),
                s0 == old(self)@,
                t == inputs(s0),
                inputs_wf(t),
                wf_children(s0),
                s0.len() <= usize::MAX,
                flow < s0.len(),
                nk == kids_of(s0, flow as int).len(),
                k <= nk,
                acc.0 == bsize_upto(t, flow as int, k as int),
                au_valid(acc),
                forall|m: int|
                    0 <= m < nk ==> s0[#[trigger] kids_of(s0, flow as int)[m] as int].base.position.size.block.0
                        == block_size_of(t, kids_of(s0, flow as int)[m] as int),
                self@[flow as int] == s0[flow as int],
                forall|m: int| 0 <= m < k ==> #[trigger] self@[kids_of(s0, flow as int)[m] as int] == with_block(
                    s0[kids_of(s0, flow as int)[m] as int], t, kids_of(s0, flow as int)[m] as int, false, true),
                forall|x: int| 0 <= x < s0.len() && x != flow && !kids_of(s0, flow as int).take(k as int).contains(x as FlowRef)
                    ==> #[trigger] self@[x] == s0[x],
            decreases nk - k,
        {
            let c = self.nodes[flow].base.children[k];
            proof {
                assert(kids_of(s0, flow as int)[k as int] == c);
                assert(c < flow);
                assert(parent_of(s0, c as int) == Some(flow));
                assert(!kids_of(s0, flow as int).take(k as int).contains(c)) by {
                    if kids_of(s0, flow as int).take(k as int).contains(c) {
                        let m = choose|m: int| 0 <= m < k && kids_of(s0, flow as int).take(k as int)[m] == c;
                        assert(kids_of(s0, flow as int)[m] != kids_of(s0, flow as int)[k as int]);
                    }
                }
                assert(self@[c as int] == s0[c as int]);
                assert(t[c as int] == inputs(s0)[c as int]);
                assert(t[flow as int].children == kids_of(s0, flow as int));
                assert(t[c as int].style.valid());
                lemma_bsize_valid(t, c as int, t[c as int].children.len() as int);
                lemma_bsize_valid(t, flow as int, k + 1);
                lemma_index_in_parent(s0, flow as int, k as int);
            }
            let out_of_flow = self.nodes[c].base.flags.contains(IS_ABSOLUTELY_POSITIONED);
            let start = if out_of_flow && !self.nodes[c].style.block_start_is_auto {
                self.nodes[c].style.block_start_offset
            } else {
                acc
            };
            proof {
                assert(start.0 == child_block_start(t, flow as int, k as int));
                assert(start.0 == block_start_of(t, c as int));
            }
            let ghost prev = self@;
            self.nodes[c].base.position.start.b = start;
            if !out_of_flow {
                acc = au_add(acc, self.nodes[c].base.position.size.block);
            }
            proof {
                assert(acc.0 == bsize_upto(t, flow as int, k + 1));
                assert(self@[c as int] == with_block(s0[c as int], t, c as int, false, true));
                assert(forall|x: int| 0 <= x < self@.len() && x != c ==> self@[x] == prev[x]);
                assert(kids_of(s0, flow as int).take(k + 1) == kids_of(s0, flow as int).take(k as int).push(c));
                assert forall|x: int| 0 <= x < s0.len() && x != flow && !kids_of(s0, flow as int).take(k + 1).contains(x as FlowRef)
                    implies #[trigger] self@[x] == s0[x] by {
                    assert((x as FlowRef) as int == x);
                    if x == c as int {
                        assert(kids_of(s0, flow as int).take(k + 1)[k as int] == c);
                    } else if kids_of(s0, flow as int).take(k as int).contains(x as FlowRef) {
                        let m = choose|m: int| 0 <= m < k && kids_of(s0, flow as int).take(k as int)[m] == x as FlowRef;
                        assert(kids_of(s0, flow as int).take(k + 1)[m] == x as FlowRef);
                    }
                }
                assert forall|m: int| 0 <= m < k + 1 implies #[trigger] self@[kids_of(s0, flow as int)[m] as int] == with_block(
                    s0[kids_of(s0, flow as int)[m] as int], t, kids_of(s0, flow as int)[m] as int, false, true) by {
                    if m < k {
                        assert(kids_of(s0, flow as int)[m] != c);
                    }
                }
            }
            k = k + 1;
        }
        proof {
            assert(kids_of(s0, flow as int).take(nk as int) == kids_of(s0, flow as int));
            assert(acc.0 == block_size_of(t, flow as int));
            lemma_children_placed(s0, self@, flow as int, t);
        }
        let ghost before_own = self@;
        self.nodes[flow].base.position.size.block = acc;
        if self.nodes[flow].base.parallel.parent.is_none() {
            self.nodes[flow].base.position.start.b = Au(0);
        }
        proof {
            assert(forall|x: int| 0 <= x < self@.len() && x != flow ==> self@[x] == before_own[x]);
        }
    }

    /// Pass 3 over the whole tree, bottom-up.
    #[verifier::rlimit(100)]
    pub fn assign_all_block_sizes(&mut self)
        requires
            wf_children(old(self)@),
            wf_styles(old(self)@),
        ensures
            final(self)@.len() == old(self)@.len(),
            forall|x: int|
                0 <= x < old(self)@.len() ==> #[trigger] final(self)@[x] == with_block(
                    old(self)@[x],
                    inputs(old(self)@),
                    x,
                    true,
                    true,
                ),
    {
        let ghost t = inputs(self@);
        let ghost s0 = self@;
        let n = self.nodes.len();
        proof {
            lemma_inputs_wf(s0);
        }
        let mut i: usize = 0;
        while i < n
            invariant
                n == s0.len(),
                s0 == old(self)@,
                self@.len() == n,
                i <= n,
                t == inputs(s0),
                inputs_wf(t),
                wf_children(s0),
                wf_styles(s0),
                forall|x: int| 0 <= x < n ==> #[trigger] self@[x] == with_block(s0[x], t, x, x < i, block_placed(t, x, i as int)),
            decreases n - i,
        {
            let flow = i;
            let ghost prev = self@;
            proof {
                assert(forall|x: int| 0 <= x < n ==> (#[trigger] t[x]).parent == parent_of(s0, x));
                assert(forall|x: int| 0 <= x < n ==> (#[trigger] t[x]).children == kids_of(s0, x));
                assert(same_shape(s0, prev));
                lemma_same_inputs(s0, prev);
                crate::tree::lemma_shape_keeps_children(s0, prev);
                assert forall|k: int| 0 <= k < kids_of(prev, flow as int).len() implies prev[#[trigger] kids_of(prev, flow as int)[k] as int].base.position.size.block.0
                    == block_size_of(inputs(prev), kids_of(prev, flow as int)[k] as int) by {
                    let c = kids_of(prev, flow as int)[k] as int;
                    assert(kids_of(s0, flow as int)[k] < flow);
                    lemma_bsize_valid(t, c, t[c].children.len() as int);
                }
            }
            self.assign_block_size(flow);
            proof {
                assert forall|x: int| 0 <= x < n implies #[trigger] self@[x] == with_block(s0[x], t, x, x < i + 1, block_placed(t, x, i + 1)) by {
                    if x == flow {
                        assert(!block_placed(t, x, i as int));
                    } else if parent_of(prev, x) == Some(flow) {
                        assert(x < flow);
                        assert(!block_placed(t, x, i as int));
                    } else {
                        assert(block_placed(t, x, i as int) == block_placed(t, x, i + 1));
                    }
                }
            }
            i = i + 1;
        }
        proof {
            assert forall|x: int| 0 <= x < n implies #[trigger] block_placed(t, x, n as int) by {
                assert(t[x].parent == parent_of(s0, x));
            }
        }
    }

    /// Runs the sizing passes over the whole tree in a viewport `viewport_inline_size`
    /// wide: intrinsic inline sizes bottom-up, inline sizes top-down, then block sizes
    /// bottom-up. Every flow ends up with the sizes and position that its inputs give.
    #[verifier::rlimit(100)]
    pub fn assign_sizes(&mut self, viewport_inline_size: Au)
        requires
            old(self).wf(),
            au_valid(viewport_inline_size),
            viewport_inline_size.0 >= 0,
        ensures
            final(self)@.len() == old(self)@.len(),
            forall|x: int|
                0 <= x < old(self)@.len() ==> #[trigger] final(self)@[x] == sized(
                    old(self)@[x],
                    inputs(old(self)@),
                    viewport_inline_size.0 as int,
                    x,
                ),
            final(self).wf(),
    {
        let ghost s0 = self@;
        let ghost t = inputs(s0);
        self.bubble_all_inline_sizes();
        let ghost s1 = self@;
        proof {
            assert(same_shape(s0, s1));
            lemma_same_inputs(s0, s1);
            crate::tree::lemma_shape_keeps_children(s0, s1);
        }
        self.assign_all_inline_sizes(viewport_inline_size);
        let ghost s2 = self@;
        proof {
            assert(same_shape(s1, s2));
            lemma_same_inputs(s1, s2);
            crate::tree::lemma_shape_keeps_children(s1, s2);
        }
        self.assign_all_block_sizes();
        proof {
            let s3 = self@;
            assert(same_shape(s2, s3));
            lemma_same_inputs(s2, s3);
            assert(same_shape(s0, s3));
            assert(forall|x: int| 0 <= x < s0.len() ==> #[trigger] crate::tree::abs_of(s3, x) == crate::tree::abs_of(s0, x));
            assert(forall|x: int| 0 <= x < s0.len() ==> #[trigger] crate::tree::cb_of(s3, x) == crate::tree::cb_of(s0, x));
            crate::tree::lemma_frame_wf(s0, s3);
        }
    }
}

/// Turns "every listed child was updated, nothing else but the flow itself changed" into
/// the same statement over parent links.
proof fn lemma_children_updated(s0: Seq<FlowNode>, s1: Seq<FlowNode>, flow: int, t: Seq<FlowInput>, vw: int)
    requires
        wf_children(s0),
        s0.len() <= usize::MAX,
        0 <= flow < s0.len(),
        s1.len() == s0.len(),
        forall|m: int| 0 <= m < kids_of(s0, flow).len() ==> #[trigger] s1[kids_of(s0, flow)[m] as int] == with_inline(
            s0[kids_of(s0, flow)[m] as int], t, vw, kids_of(s0, flow)[m] as int),
        forall|x: int| 0 <= x < s0.len() && x != flow && !kids_of(s0, flow).contains(x as FlowRef)
            ==> #[trigger] s1[x] == s0[x],
    ensures
        forall|x: int|
            0 <= x < s0.len() && parent_of(s0, x) == Some(flow as FlowRef) ==> #[trigger] s1[x]
                == with_inline(s0[x], t, vw, x),
        forall|x: int|
            0 <= x < s0.len() && x != flow && parent_of(s0, x) != Some(flow as FlowRef)
                ==> #[trigger] s1[x] == s0[x],
{
    assert forall|x: int| 0 <= x < s0.len() && parent_of(s0, x) == Some(flow as FlowRef) implies #[trigger] s1[x]
        == with_inline(s0[x], t, vw, x) by {
        let m = lemma_child_listed(s0, x, flow);
        assert(kids_of(s0, flow)[m] as int == x);
    }
    assert forall|x: int| 0 <= x < s0.len() && x != flow && parent_of(s0, x) != Some(flow as FlowRef)
        implies #[trigger] s1[x] == s0[x] by {
        assert((x as FlowRef) as int == x);
        if kids_of(s0, flow).contains(x as FlowRef) {
            let m = choose|m: int| 0 <= m < kids_of(s0, flow).len() && kids_of(s0, flow)[m] == x as FlowRef;
            assert(parent_of(s0, kids_of(s0, flow)[m] as int) == Some(flow as FlowRef));
        }
    }
}

/// Turns "every listed child was placed, nothing else but the flow itself changed" into
/// the same statement over parent links.
pub proof fn lemma_children_placed(s0: Seq<FlowNode>, s1: Seq<FlowNode>, flow: int, t: Seq<FlowInput>)
    requires
        wf_children(s0),
        s0.len() <= usize::MAX,
        0 <= flow < s0.len(),
        s1.len() == s0.len(),
        forall|m: int| 0 <= m < kids_of(s0, flow).len() ==> #[trigger] s1[kids_of(s0, flow)[m] as int] == with_block(
            s0[kids_of(s0, flow)[m] as int], t, kids_of(s0, flow)[m] as int, false, true),
        forall|x: int| 0 <= x < s0.len() && x != flow && !kids_of(s0, flow).contains(x as FlowRef)
            ==> #[trigger] s1[x] == s0[x],
    ensures
        forall|x: int|
            0 <= x < s0.len() && parent_of(s0, x) == Some(flow as FlowRef) ==> #[trigger] s1[x]
                == with_block(s0[x], t, x, false, true),
        forall|x: int|
            0 <= x < s0.len() && x != flow && parent_of(s0, x) != Some(flow as FlowRef)
                ==> #[trigger] s1[x] == s0[x],
{
    assert forall|x: int| 0 <= x < s0.len() && parent_of(s0, x) == Some(flow as FlowRef) implies #[trigger] s1[x]
        == with_block(s0[x], t, x, false, true) by {
        let m = lemma_child_listed(s0, x, flow);
        assert(kids_of(s0, flow)[m] as int == x);
    }
    assert forall|x: int| 0 <= x < s0.len() && x != flow && parent_of(s0, x) != Some(flow as FlowRef)
        implies #[trigger] s1[x] == s0[x] by {
        assert((x as FlowRef) as int == x);
        if kids_of(s0, flow).contains(x as FlowRef) {
            let m = choose|m: int| 0 <= m < kids_of(s0, flow).len() && kids_of(s0, flow)[m] == x as FlowRef;
            assert(parent_of(s0, kids_of(s0, flow)[m] as int) == Some(flow as FlowRef));
        }
    }
}

/// A flow whose parent is `p` is listed among the children of `p`.
pub proof fn lemma_child_listed(s: Seq<FlowNode>, x: int, p: int) -> (m: int)
    requires
        wf_children(s),
        s.len() <= usize::MAX,
        0 <= x < s.len(),
        0 <= p < s.len(),
        parent_of(s, x) == Some(p as FlowRef),
    ensures
        0 <= m < kids_of(s, p).len(),
        kids_of(s, p)[m] == x,
{
    let fl = kids_of(s, p);
    assert(fl.contains(x as FlowRef));
    choose|m: int| 0 <= m < fl.len() && fl[m] == x as FlowRef
}

} // verus!
