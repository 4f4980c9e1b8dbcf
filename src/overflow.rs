//! Overflow, in-order block sizing, and stacking-context collection at one flow.

use vstd::prelude::*;
use app_units::Au;
use euclid::default::{Rect, Size2D, Vector2D};
use crate::absolute::FlowRef;
use crate::flags::{FlowClass, REFLOW, REFLOW_OUT_OF_FLOW, lemma_reflow_bits_removed};
use crate::flow::{FlowStyle, Overflow, StackingContextId};
use crate::geometry::{
    make_rect, model_translate, model_union, rect_translate, rect_union, rect_valid, rect_view,
    LogicalModel, LogicalRect, RectModel, WritingMode,
};
use crate::layout::{block_size_of, inputs, with_block};
use crate::tree::{kids_of, parent_of, same_shape, wf_children, wf_styles, FlowNode, FlowTree};
use crate::units::{au_valid, clamp_au};

verus! {

/// Flows whose overflow takes in their children's, and is clipped on non-visible axes:
/// the block-like ones.
pub open spec fn collects_overflow(class: FlowClass) -> bool {
    class.is_block_like_spec()
}

/// The physical border box size of a flow placed at `pos` under `wm`.
pub open spec fn border_size(pos: LogicalModel, wm: WritingMode) -> (int, int) {
    if wm.vertical { (pos.block, pos.inline) } else { (pos.inline, pos.block) }
}

/// Overflow rectangle `ov` of a flow, clipped to its border box on each axis whose
/// overflow is not visible (for flows that collect overflow), then moved by the flow's
/// physical position; that position is taken inside an empty container.
pub open spec fn in_parent_model(
    ov: RectModel,
    class: FlowClass,
    style: FlowStyle,
    pos: LogicalModel,
    wm: WritingMode,
) -> RectModel {
    let phys = LogicalRect::physical_spec(pos, wm, 0, 0);
    let (bw, bh) = border_size(pos, wm);
    let clipped = if collects_overflow(class) {
        RectModel {
            x: if style.overflow_x_is_visible { ov.x } else { 0 },
            w: if style.overflow_x_is_visible { ov.w } else { bw },
            y: if style.overflow_y_is_visible { ov.y } else { 0 },
            h: if style.overflow_y_is_visible { ov.h } else { bh },
        }
    } else {
        ov
    };
    model_translate(clipped, phys.x, phys.y)
}

/// The overflow of a flow's own fragments: its border box, in its own coordinates.
pub open spec fn own_overflow_model(pos: LogicalModel, wm: WritingMode) -> RectModel {
    let (bw, bh) = border_size(pos, wm);
    RectModel { x: 0, y: 0, w: bw, h: bh }
}

/// The lengths a flow's overflow step reads are in range.
pub open spec fn overflow_ready(n: FlowNode) -> bool {
    &&& n.base.position.valid()
    &&& rect_valid(n.base.overflow.paint)
    &&& rect_valid(n.base.overflow.scroll)
}

/// The paint (or, with `paint` false, scroll) overflow of flow `i` from its own box and
/// its first `k` children, as the arena `s` holds them now.
pub open spec fn stored_upto(s: Seq<FlowNode>, i: int, k: int, paint: bool) -> RectModel
    decreases k,
{
    let n = s[i];
    if k <= 0 || !collects_overflow(n.class) {
        own_overflow_model(n.base.position.view(), n.base.writing_mode)
    } else {
        let c = s[kids_of(s, i)[k - 1] as int];
        let cov = if paint { c.base.overflow.paint } else { c.base.overflow.scroll };
        model_union(
            stored_upto(s, i, k - 1, paint),
            in_parent_model(rect_view(cov), c.class, c.style, c.base.position.view(), c.base.writing_mode),
        )
    }
}

/// Whether `outer` covers every point of `inner`.
pub open spec fn model_contains(outer: RectModel, inner: RectModel) -> bool {
    outer.x <= inner.x && outer.y <= inner.y && inner.x + inner.w <= outer.x + outer.w
        && inner.y + inner.h <= outer.y + outer.h
}

/// Every child of flow `i` has equal paint and scroll overflow.
pub open spec fn paint_is_scroll_below(s: Seq<FlowNode>, i: int) -> bool {
    forall|k: int|
        0 <= k < kids_of(s, i).len() ==> rect_view(s[#[trigger] kids_of(s, i)[k] as int].base.overflow.paint)
            == rect_view(s[kids_of(s, i)[k] as int].base.overflow.scroll)
}

/// When every child's paint overflow equals its scroll overflow, so do the two that a
/// flow stores: paint overflow then covers scroll overflow and any part of it.
pub proof fn lemma_stored_paint_is_scroll(s: Seq<FlowNode>, i: int, k: int)
    requires
        0 <= i < s.len(),
        k <= kids_of(s, i).len(),
    ensures
        paint_is_scroll_below(s, i) ==> stored_upto(s, i, k, true) == stored_upto(s, i, k, false),
    decreases k,
{
    if k > 0 && collects_overflow(s[i].class) {
        lemma_stored_paint_is_scroll(s, i, k - 1);
    }
}

impl FlowTree {
    /// The overflow of `flow` in its parent's coordinates: clipped to the border box on
    /// each axis whose `overflow` is not visible (for flows that collect overflow), then
    /// moved by the flow's position. The position is made physical inside an empty
    /// container, which is only right for writing modes that do not depend on the
    /// container's size. A 2-D transform is not applied.
    pub fn get_overflow_in_parent_coordinates(&self, flow: FlowRef) -> (r: Overflow)
        requires
            flow < self@.len(),
            overflow_ready(self@[flow as int]),
        ensures
            ({
                let n = self@[flow as int];
                &&& rect_view(r.paint) == in_parent_model(
                    rect_view(n.base.overflow.paint),
                    n.class,
                    n.style,
                    n.base.position.view(),
                    n.base.writing_mode,
                )
                &&& rect_view(r.scroll) == in_parent_model(
                    rect_view(n.base.overflow.scroll),
                    n.class,
                    n.style,
                    n.base.position.view(),
                    n.base.writing_mode,
                )
                &&& rect_valid(r.paint) && rect_valid(r.scroll)
                // Equal paint and scroll overflow stay equal, so paint keeps covering scroll.
                &&& rect_view(n.base.overflow.paint) == rect_view(n.base.overflow.scroll) ==> rect_view(
                    r.paint,
                ) == rect_view(r.scroll) && model_contains(rect_view(r.paint), rect_view(r.scroll))
                // On an axis whose overflow is hidden, both rectangles are the border box.
                &&& collects_overflow(n.class) && !n.style.overflow_x_is_visible ==> {
                    let phys = LogicalRect::physical_spec(n.base.position.view(), n.base.writing_mode, 0, 0);
                    &&& rect_view(r.paint).x == clamp_au(phys.x) && rect_view(r.scroll).x == clamp_au(phys.x)
                    &&& rect_view(r.paint).w == phys.w && rect_view(r.scroll).w == phys.w
                }
                &&& collects_overflow(n.class) && !n.style.overflow_y_is_visible ==> {
                    let phys = LogicalRect::physical_spec(n.base.position.view(), n.base.writing_mode, 0, 0);
                    &&& rect_view(r.paint).y == clamp_au(phys.y) && rect_view(r.scroll).y == clamp_au(phys.y)
                    &&& rect_view(r.paint).h == phys.h && rect_view(r.scroll).h == phys.h
                }
            }),
    {
        let n = &self.nodes[flow];
        let position = n.base.position.to_physical(n.base.writing_mode, Size2D::new(Au(0), Au(0)));
        let by = Vector2D::new(position.origin.x, position.origin.y);
        let mut paint = n.base.overflow.paint;
        let mut scroll = n.base.overflow.scroll;
        if n.class.is_block_like() {
            let border = n.base.position.size.to_physical(n.base.writing_mode);
            if !n.style.overflow_x_is_visible {
                paint = make_rect(Au(0), paint.origin.y, border.width, paint.size.height);
                scroll = make_rect(Au(0), scroll.origin.y, border.width, scroll.size.height);
            }
            if !n.style.overflow_y_is_visible {
                paint = make_rect(paint.origin.x, Au(0), paint.size.width, border.height);
                scroll = make_rect(scroll.origin.x, Au(0), scroll.size.width, border.height);
            }
        }
        Overflow { paint: rect_translate(&paint, by), scroll: rect_translate(&scroll, by) }
    }

    /// The overflow of the fragments of `flow` itself: its border box.
    pub fn compute_overflow(&self, flow: FlowRef) -> (r: Overflow)
        requires
            flow < self@.len(),
            self@[flow as int].base.position.valid(),
        ensures
            rect_view(r.paint) == own_overflow_model(self@[flow as int].base.position.view(), self@[flow as int].base.writing_mode),
            rect_view(r.scroll) == rect_view(r.paint),
            rect_valid(r.paint) && rect_valid(r.scroll),
    {
        let n = &self.nodes[flow];
        let border = n.base.position.size.to_physical(n.base.writing_mode);
        let b = make_rect(Au(0), Au(0), border.width, border.height);
        Overflow { paint: b, scroll: b }
    }

    /// Stores the overflow of `flow`: that of its own fragments, united, for flows that
    /// collect overflow, with each child's overflow in this flow's coordinates.
    pub fn store_overflow(&mut self, flow: FlowRef)
        requires
            wf_children(old(self)@),
            flow < old(self)@.len(),
            overflow_ready(old(self)@[flow as int]),
            forall|k: int|
                0 <= k < kids_of(old(self)@, flow as int).len() ==> overflow_ready(
                    old(self)@[#[trigger] kids_of(old(self)@, flow as int)[k] as int],
                ),
        ensures
            final(self)@.len() == old(self)@.len(),
            forall|x: int| 0 <= x < old(self)@.len() && x != flow ==> final(self)@[x] == old(self)@[x],
            rect_view(final(self)@[flow as int].base.overflow.paint) == stored_upto(
                old(self)@,
                flow as int,
                kids_of(old(self)@, flow as int).len() as int,
                true,
            ),
            rect_view(final(self)@[flow as int].base.overflow.scroll) == stored_upto(
                old(self)@,
                flow as int,
                kids_of(old(self)@, flow as int).len() as int,
                false,
            ),
            overflow_ready(final(self)@[flow as int]),
            paint_is_scroll_below(old(self)@, flow as int) ==> rect_view(
                final(self)@[flow as int].base.overflow.paint,
            ) == rect_view(final(self)@[flow as int].base.overflow.scroll) && model_contains(
                rect_view(final(self)@[flow as int].base.overflow.paint),
                rect_view(final(self)@[flow as int].base.overflow.scroll),
            ),
            final(self)@[flow as int] == (FlowNode {
                base: crate::flow::BaseFlow {
                    overflow: final(self)@[flow as int].base.overflow,
                    ..old(self)@[flow as int].base
                },
                ..old(self)@[flow as int]
            }),
    {
        let ghost s0 = self@;
        let own = self.compute_overflow(flow);
        let mut paint = own.paint;
        let mut scroll = own.scroll;
        let nk = self.nodes[flow].base.children.len();
        if self.nodes[flow].class.is_block_like() {
            {
                let mut k: usize = 0;
                while k < nk
                    invariant
                        self@ == s0,
                        wf_children(s0),
                        flow < s0.len(),
                        collects_overflow(s0[flow as int].class),
                        nk == kids_of(s0, flow as int).len(),
                        k <= nk,
                        forall|m: int| 0 <= m < nk ==> overflow_ready(s0[#[trigger] kids_of(s0, flow as int)[m] as int]),
                        rect_view(paint) == stored_upto(s0, flow as int, k as int, true),
                        rect_view(scroll) == stored_upto(s0, flow as int, k as int, false),
                        rect_valid(paint) && rect_valid(scroll),
                    decreases nk - k,
                {
                    let c = self.nodes[flow].base.children[k];
                    proof {
                        assert(kids_of(s0, flow as int)[k as int] == c);
                        assert(c < flow);
                    }
                    let kid = self.get_overflow_in_parent_coordinates(c);
                    paint = rect_union(&paint, &kid.paint);
                    scroll = rect_union(&scroll, &kid.scroll);
                    k = k + 1;
                }
            }
        }
        proof {
            lemma_stored_paint_is_scroll(s0, flow as int, kids_of(s0, flow as int).len() as int);
        }
        self.nodes[flow].base.overflow = Overflow { paint, scroll };
    }

    /// Places `flow` ahead of its later siblings when floats may enter or leave it, so
    /// that they see its floats: it is laid out on the block axis by its parent's worker,
    /// and its reflow damage is cleared. Returns whether that happened.
    pub fn assign_block_size_for_inorder_child_if_necessary(
        &mut self,
        flow: FlowRef,
        parent_thread_id: u8,
    ) -> (r: bool)
        requires
            wf_children(old(self)@),
            wf_styles(old(self)@),
            flow < old(self)@.len(),
            forall|k: int|
                0 <= k < kids_of(old(self)@, flow as int).len() ==> old(self)@[#[trigger] kids_of(old(self)@, flow as int)[k] as int].base.position.size.block.0
                    == block_size_of(inputs(old(self)@), kids_of(old(self)@, flow as int)[k] as int),
        ensures
            r == (old(self)@[flow as int].base.might_have_floats_in_spec()
                || old(self)@[flow as int].base.might_have_floats_out_spec()),
            !r ==> final(self)@ == old(self)@,
            r ==> {
                &&& final(self)@.len() == old(self)@.len()
                &&& !final(self)@[flow as int].base.restyle_damage.has(REFLOW)
                &&& !final(self)@[flow as int].base.restyle_damage.has(REFLOW_OUT_OF_FLOW)
                &&& final(self)@[flow as int].base.restyle_damage.bits == old(self)@[flow as int].base.restyle_damage.bits
                    & !(REFLOW_OUT_OF_FLOW | REFLOW)
                &&& final(self)@[flow as int].base.thread_id == parent_thread_id
                &&& final(self)@[flow as int].base.position.size.block.0 == block_size_of(inputs(old(self)@), flow as int)
                &&& same_shape(old(self)@, final(self)@)
            },
    {
        let might_have_floats_in_or_out = self.nodes[flow].base.might_have_floats_in()
            || self.nodes[flow].base.might_have_floats_out();
        if might_have_floats_in_or_out {
            let ghost s0 = self@;
            let n_nodes = self.nodes.len();
            self.nodes[flow].base.thread_id = parent_thread_id;
            let ghost s1 = self@;
            proof {
                assert(s1.len() == n_nodes);
                assert(forall|x: int| 0 <= x < s1.len() && x != flow ==> s1[x] == s0[x]);
                assert(same_shape(s0, s1));
                crate::layout::lemma_same_inputs(s0, s1);
                crate::tree::lemma_shape_keeps_children(s0, s1);
                assert forall|k: int| 0 <= k < kids_of(s1, flow as int).len() implies s1[#[trigger] kids_of(s1, flow as int)[k] as int].base.position.size.block.0
                    == block_size_of(inputs(s1), kids_of(s1, flow as int)[k] as int) by {
                    assert(kids_of(s0, flow as int)[k] < flow);
                }
                crate::layout::lemma_inputs_wf(s0);
                crate::layout::lemma_bsize_valid(inputs(s0), flow as int, kids_of(s0, flow as int).len() as int);
            }
            self.assign_block_size(flow);
            self.nodes[flow].base.restyle_damage.remove(REFLOW_OUT_OF_FLOW | REFLOW);
            proof {
                lemma_reflow_bits_removed(s0[flow as int].base.restyle_damage.bits);
                assert(same_shape(s1, self@));
            }
        }
        might_have_floats_in_or_out
    }

    pub open spec fn non_invertible_spec(n: FlowNode) -> bool {
        n.class.is_block_like_spec() && n.style.has_transform && n.style.transform_is_non_invertible
    }

    /// Whether `flow` is a block-like flow whose transform cannot be inverted or scales
    /// by zero; such a flow's subtree is left out of stacking-context collection.
    pub fn has_non_invertible_transform_or_zero_scale(&self, flow: FlowRef) -> (r: bool)
        requires
            flow < self@.len(),
        ensures
            r == Self::non_invertible_spec(self@[flow as int]),
    {
        let n = &self.nodes[flow];
        if !n.class.is_block_like() || !n.style.has_transform {
            return false;
        }
        n.style.transform_is_non_invertible
    }

    /// Stacking-context collection at one flow, whose own context is known: each child
    /// with an invertible transform joins this flow's context, or starts its own if it
    /// establishes one; a child with a non-invertible transform is skipped and keeps no
    /// context, so its subtree is never visited. Sizes and positions are untouched.
    pub fn collect_stacking_contexts_for_children(&mut self, flow: FlowRef)
        requires
            wf_children(old(self)@),
            flow < old(self)@.len(),
            old(self)@[flow as int].base.stacking_context_id is Some,
        ensures
            final(self)@.len() == old(self)@.len(),
            forall|x: int|
                0 <= x < old(self)@.len() && parent_of(old(self)@, x) != Some(flow) ==> #[trigger] final(self)@[x]
                    == old(self)@[x],
            forall|x: int|
                0 <= x < old(self)@.len() && parent_of(old(self)@, x) == Some(flow) ==> {
                    &&& (#[trigger] final(self)@[x]).base.stacking_context_id == if Self::non_invertible_spec(
                        old(self)@[x],
                    ) {
                        old(self)@[x].base.stacking_context_id
                    } else if old(self)@[x].style.establishes_stacking_context {
                        Some(StackingContextId((x + 1) as usize))
                    } else {
                        old(self)@[flow as int].base.stacking_context_id
                    }
                    &&& final(self)@[x] == (FlowNode {
                        base: crate::flow::BaseFlow {
                            stacking_context_id: final(self)@[x].base.stacking_context_id,
                            ..old(self)@[x].base
                        },
                        ..old(self)@[x]
                    })
                },
    {
        let ghost s0 = self@;
        let n_nodes = self.nodes.len();
        let own = self.nodes[flow].base.stacking_context_id;
        let nk = self.nodes[flow].base.children.len();
        let mut k: usize = 0;
        while k < nk
            invariant
                self@.len() == s0.len(),
                s0 == old(self)@,
                s0.len() == n_nodes,
                wf_children(s0),
                flow < s0.len(),
                own == s0[flow as int].base.stacking_context_id,
                nk == kids_of(s0, flow as int).len(),
                k <= nk,
                forall|x: int| 0 <= x < s0.len() && !kids_of(s0, flow as int).take(k as int).contains(x as FlowRef)
                    ==> #[trigger] self@[x] == s0[x],
                forall|m: int| 0 <= m < k ==> {
                    let x = #[trigger] kids_of(s0, flow as int)[m] as int;
                    &&& self@[x].base.stacking_context_id == if Self::non_invertible_spec(s0[x]) {
                        s0[x].base.stacking_context_id
                    } else if s0[x].style.establishes_stacking_context {
                        Some(StackingContextId((x + 1) as usize))
                    } else {
                        own
                    }
                    &&& self@[x] == (FlowNode {
                        base: crate::flow::BaseFlow { stacking_context_id: self@[x].base.stacking_context_id, ..s0[x].base },
                        ..s0[x]
                    })
                },
            decreases nk - k,
        {
            let c = self.nodes[flow].base.children[k];
            proof {
                assert(kids_of(s0, flow as int)[k as int] == c);
                assert(c < flow);
                assert(!kids_of(s0, flow as int).take(k as int).contains(c)) by {
                    if kids_of(s0, flow as int).take(k as int).contains(c) {
                        let m = choose|m: int| 0 <= m < k && kids_of(s0, flow as int).take(k as int)[m] == c;
                        assert(kids_of(s0, flow as int)[m] != kids_of(s0, flow as int)[k as int]);
                    }
                }
            }
            let ghost prev = self@;
            if !self.has_non_invertible_transform_or_zero_scale(c) {
                let id = if self.nodes[c].style.establishes_stacking_context {
                    Some(StackingContextId(c + 1))
                } else {
                    own
                };
                self.nodes[c].base.stacking_context_id = id;
            }
            proof {
                assert(forall|x: int| 0 <= x < self@.len() && x != c ==> self@[x] == prev[x]);
                assert(kids_of(s0, flow as int).take(k + 1) == kids_of(s0, flow as int).take(k as int).push(c));
                assert forall|x: int| 0 <= x < s0.len() && !kids_of(s0, flow as int).take(k + 1).contains(x as FlowRef)
                    implies #[trigger] self@[x] == s0[x] by {
                    assert((x as FlowRef) as int == x);
                    if x == c as int {
                        assert(kids_of(s0, flow as int).take(k + 1)[k as int] == c);
                    } else if kids_of(s0, flow as int).take(k as int).contains(x as FlowRef) {
                        let m = choose|m: int| 0 <= m < k && kids_of(s0, flow as int).take(k as int)[m] == x as FlowRef;
                        assert(kids_of(s0, flow as int).take(k + 1)[m] == x as FlowRef);
                    }
                }
                assert forall|m: int| 0 <= m < k + 1 implies {
                    let x = #[trigger] kids_of(s0, flow as int)[m] as int;
                    &&& self@[x].base.stacking_context_id == if Self::non_invertible_spec(s0[x]) {
                        s0[x].base.stacking_context_id
                    } else if s0[x].style.establishes_stacking_context {
                        Some(StackingContextId((x + 1) as usize))
                    } else {
                        own
                    }
                    &&& self@[x] == (FlowNode {
                        base: crate::flow::BaseFlow { stacking_context_id: self@[x].base.stacking_context_id, ..s0[x].base },
                        ..s0[x]
                    })
                } by {
                    if m < k {
                        assert(kids_of(s0, flow as int)[m] != c);
                    }
                }
            }
            k = k + 1;
        }
        proof {
            assert(kids_of(s0, flow as int).take(nk as int) == kids_of(s0, flow as int));
            assert forall|x: int| 0 <= x < s0.len() && parent_of(s0, x) != Some(flow) implies #[trigger] self@[x] == s0[x] by {
                assert((x as FlowRef) as int == x);
                if kids_of(s0, flow as int).contains(x as FlowRef) {
                    let m = choose|m: int| 0 <= m < nk && kids_of(s0, flow as int)[m] == x as FlowRef;
                    assert(parent_of(s0, kids_of(s0, flow as int)[m] as int) == Some(flow));
                }
            }
            assert forall|x: int| 0 <= x < s0.len() && parent_of(s0, x) == Some(flow) implies {
                &&& (#[trigger] self@[x]).base.stacking_context_id == if Self::non_invertible_spec(s0[x]) {
                    s0[x].base.stacking_context_id
                } else if s0[x].style.establishes_stacking_context {
                    Some(StackingContextId((x + 1) as usize))
                } else {
                    s0[flow as int].base.stacking_context_id
                }
                &&& self@[x] == (FlowNode {
                    base: crate::flow::BaseFlow { stacking_context_id: self@[x].base.stacking_context_id, ..s0[x].base },
                    ..s0[x]
                })
            } by {
                let m = crate::layout::lemma_child_listed(s0, x, flow as int);
                assert(kids_of(s0, flow as int)[m] as int == x);
            }
        }
    }

    /// The stacking-relative position that flow `x`, a child of `p`, gets: its physical
    /// origin (in an empty container) moved by its parent's stacking-relative position,
    /// or by nothing when the parent establishes a stacking context.
    pub open spec fn srp_expected(s: Seq<FlowNode>, p: int, x: int) -> (int, int) {
        let phys = LogicalRect::physical_spec(s[x].base.position.view(), s[x].base.writing_mode, 0, 0);
        let (bx, by) = if s[p].style.establishes_stacking_context {
            (0int, 0int)
        } else {
            (s[p].base.stacking_relative_position.x.0 as int, s[p].base.stacking_relative_position.y.0 as int)
        };
        (clamp_au(bx + phys.x), clamp_au(by + phys.y))
    }

    /// Pass 4 at one flow: each child's position relative to the nearest ancestor
    /// stacking context, from this flow's.
    pub fn compute_stacking_relative_position(&mut self, flow: FlowRef)
        requires
            wf_children(old(self)@),
            flow < old(self)@.len(),
            au_valid(old(self)@[flow as int].base.stacking_relative_position.x),
            au_valid(old(self)@[flow as int].base.stacking_relative_position.y),
            forall|k: int|
                0 <= k < kids_of(old(self)@, flow as int).len() ==> old(self)@[#[trigger] kids_of(old(self)@, flow as int)[k] as int].base.position.valid(),
        ensures
            final(self)@.len() == old(self)@.len(),
            forall|x: int|
                0 <= x < old(self)@.len() && parent_of(old(self)@, x) != Some(flow) ==> #[trigger] final(self)@[x]
                    == old(self)@[x],
            forall|x: int|
                0 <= x < old(self)@.len() && parent_of(old(self)@, x) == Some(flow) ==> {
                    &&& ((#[trigger] final(self)@[x]).base.stacking_relative_position.x.0 as int,
                        final(self)@[x].base.stacking_relative_position.y.0 as int) == Self::srp_expected(
                        old(self)@,
                        flow as int,
                        x,
                    )
                    &&& final(self)@[x] == (FlowNode {
                        base: crate::flow::BaseFlow {
                            stacking_relative_position: final(self)@[x].base.stacking_relative_position,
                            ..old(self)@[x].base
                        },
                        ..old(self)@[x]
                    })
                },
    {
        let ghost s0 = self@;
        let n_nodes = self.nodes.len();
        let base = if self.nodes[flow].style.establishes_stacking_context {
            Vector2D::new(Au(0), Au(0))
        } else {
            self.nodes[flow].base.stacking_relative_position
        };
        let nk = self.nodes[flow].base.children.len();
        let mut k: usize = 0;
        while k < nk
            invariant
                self@.len() == s0.len(),
                s0 == old(self)@,
                s0.len() == n_nodes,
                wf_children(s0),
                flow < s0.len(),
                au_valid(base.x) && au_valid(base.y),
                s0[flow as int].style.establishes_stacking_context ==> base.x.0 == 0 && base.y.0 == 0,
                !s0[flow as int].style.establishes_stacking_context ==> base == s0[flow as int].base.stacking_relative_position,
                nk == kids_of(s0, flow as int).len(),
                k <= nk,
                forall|m: int| 0 <= m < nk ==> s0[#[trigger] kids_of(s0, flow as int)[m] as int].base.position.valid(),
                forall|x: int| 0 <= x < s0.len() && !kids_of(s0, flow as int).take(k as int).contains(x as FlowRef)
                    ==> #[trigger] self@[x] == s0[x],
                forall|m: int| 0 <= m < k ==> {
                    let x = #[trigger] kids_of(s0, flow as int)[m] as int;
                    &&& (self@[x].base.stacking_relative_position.x.0 as int, self@[x].base.stacking_relative_position.y.0 as int)
                        == Self::srp_expected(s0, flow as int, x)
                    &&& self@[x] == (FlowNode {
                        base: crate::flow::BaseFlow { stacking_relative_position: self@[x].base.stacking_relative_position, ..s0[x].base },
                        ..s0[x]
                    })
                },
            decreases nk - k,
        {
            let c = self.nodes[flow].base.children[k];
            proof {
                assert(kids_of(s0, flow as int)[k as int] == c);
                assert(c < flow);
                assert(!kids_of(s0, flow as int).take(k as int).contains(c)) by {
                    if kids_of(s0, flow as int).take(k as int).contains(c) {
                        let m = choose|m: int| 0 <= m < k && kids_of(s0, flow as int).take(k as int)[m] == c;
                        assert(kids_of(s0, flow as int)[m] != kids_of(s0, flow as int)[k as int]);
                    }
                }
                assert(self@[c as int] == s0[c as int]);
            }
            let ghost prev = self@;
            let origin = self.nodes[c].base.position.to_physical(self.nodes[c].base.writing_mode, Size2D::new(Au(0), Au(0)));
            let srp = Vector2D::new(
                crate::units::au_add(base.x, origin.origin.x),
                crate::units::au_add(base.y, origin.origin.y),
            );
            self.nodes[c].base.stacking_relative_position = srp;
            proof {
                assert(forall|x: int| 0 <= x < self@.len() && x != c ==> self@[x] == prev[x]);
                assert(kids_of(s0, flow as int).take(k + 1) == kids_of(s0, flow as int).take(k as int).push(c));
                assert forall|x: int| 0 <= x < s0.len() && !kids_of(s0, flow as int).take(k + 1).contains(x as FlowRef)
                    implies #[trigger] self@[x] == s0[x] by {
                    assert((x as FlowRef) as int == x);
                    if x == c as int {
                        assert(kids_of(s0, flow as int).take(k + 1)[k as int] == c);
                    } else if kids_of(s0, flow as int).take(k as int).contains(x as FlowRef) {
                        let m = choose|m: int| 0 <= m < k && kids_of(s0, flow as int).take(k as int)[m] == x as FlowRef;
                        assert(kids_of(s0, flow as int).take(k + 1)[m] == x as FlowRef);
                    }
                }
                assert forall|m: int| 0 <= m < k + 1 implies {
                    let x = #[trigger] kids_of(s0, flow as int)[m] as int;
                    &&& (self@[x].base.stacking_relative_position.x.0 as int, self@[x].base.stacking_relative_position.y.0 as int)
                        == Self::srp_expected(s0, flow as int, x)
                    &&& self@[x] == (FlowNode {
                        base: crate::flow::BaseFlow { stacking_relative_position: self@[x].base.stacking_relative_position, ..s0[x].base },
                        ..s0[x]
                    })
                } by {
                    if m < k {
                        assert(kids_of(s0, flow as int)[m] != c);
                    }
                }
            }
            k = k + 1;
        }
        proof {
            assert(kids_of(s0, flow as int).take(nk as int) == kids_of(s0, flow as int));
            assert forall|x: int| 0 <= x < s0.len() && parent_of(s0, x) != Some(flow) implies #[trigger] self@[x] == s0[x] by {
                assert((x as FlowRef) as int == x);
                if kids_of(s0, flow as int).contains(x as FlowRef) {
                    let m = choose|m: int| 0 <= m < nk && kids_of(s0, flow as int)[m] == x as FlowRef;
                    assert(parent_of(s0, kids_of(s0, flow as int)[m] as int) == Some(flow));
                }
            }
            assert forall|x: int| 0 <= x < s0.len() && parent_of(s0, x) == Some(flow) implies {
                &&& ((#[trigger] self@[x]).base.stacking_relative_position.x.0 as int,
                    self@[x].base.stacking_relative_position.y.0 as int) == Self::srp_expected(s0, flow as int, x)
                &&& self@[x] == (FlowNode {
                    base: crate::flow::BaseFlow { stacking_relative_position: self@[x].base.stacking_relative_position, ..s0[x].base },
                    ..s0[x]
                })
            } by {
                let m = crate::layout::lemma_child_listed(s0, x, flow as int);
                assert(kids_of(s0, flow as int)[m] as int == x);
            }
        }
    }
}

} // verus!
