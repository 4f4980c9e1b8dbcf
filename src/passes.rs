//! The whole-tree passes after sizing: overflow bottom-up, stacking-relative positions
//! and stacking-context collection top-down.

use vstd::prelude::*;
use crate::flow::StackingContextId;
use crate::geometry::rect_view;
use crate::overflow::{overflow_ready, stored_upto, collects_overflow};
use crate::tree::{kids_of, parent_of, wf_children, FlowNode, FlowTree};
use crate::units::au_valid;
use app_units::Au;
use crate::layout::{inputs, lemma_sizes_valid, sized};
use crate::geometry::rect_valid;

verus! {

/// `n` with the overflow of `m`.
pub open spec fn with_overflow_of(n: FlowNode, m: FlowNode) -> FlowNode {
    FlowNode { base: crate::flow::BaseFlow { overflow: m.base.overflow, ..n.base }, ..n }
}

/// `n` with the stacking-relative position of `m`.
pub open spec fn with_srp_of(n: FlowNode, m: FlowNode) -> FlowNode {
    FlowNode {
        base: crate::flow::BaseFlow { stacking_relative_position: m.base.stacking_relative_position, ..n.base },
        ..n
    }
}

/// `n` with the stacking context of `m`.
pub open spec fn with_context_of(n: FlowNode, m: FlowNode) -> FlowNode {
    FlowNode { base: crate::flow::BaseFlow { stacking_context_id: m.base.stacking_context_id, ..n.base }, ..n }
}

/// Every flow's overflow is what its own box and its children's overflow give.
pub open spec fn overflow_stored(s: Seq<FlowNode>) -> bool {
    forall|x: int|
        0 <= x < s.len() ==> {
            &&& rect_view((#[trigger] s[x]).base.overflow.paint) == stored_upto(s, x, kids_of(s, x).len() as int, true)
            &&& rect_view(s[x].base.overflow.scroll) == stored_upto(s, x, kids_of(s, x).len() as int, false)
        }
}

/// Every flow with a parent has the stacking-relative position its parent gives it.
pub open spec fn positions_stacked(s: Seq<FlowNode>) -> bool {
    forall|x: int|
        0 <= x < s.len() && (#[trigger] parent_of(s, x)) is Some ==> (
        s[x].base.stacking_relative_position.x.0 as int,
        s[x].base.stacking_relative_position.y.0 as int,
    ) == FlowTree::srp_expected(s, parent_of(s, x)->0 as int, x)
}

/// The stacking context that collection gives flow `x`: the root context for a flow
/// without parent; none when the parent has none or the flow's transform cannot be
/// inverted; its own when it establishes one; its parent's otherwise.
pub open spec fn context_expected(s: Seq<FlowNode>, x: int) -> Option<StackingContextId> {
    match parent_of(s, x) {
        None => Some(StackingContextId(0)),
        Some(p) => if s[p as int].base.stacking_context_id is None || FlowTree::non_invertible_spec(s[x]) {
            None
        } else if s[x].style.establishes_stacking_context {
            Some(StackingContextId((x + 1) as usize))
        } else {
            s[p as int].base.stacking_context_id
        },
    }
}

/// Every flow holds the stacking context that collection gives it.
pub open spec fn contexts_collected(s: Seq<FlowNode>) -> bool {
    forall|x: int| 0 <= x < s.len() ==> (#[trigger] s[x]).base.stacking_context_id == context_expected(s, x)
}

/// The children part of the arena invariant only reads children and parent links.
pub proof fn lemma_children_frame(s1: Seq<FlowNode>, s2: Seq<FlowNode>)
    requires
        wf_children(s1),
        s1.len() == s2.len(),
        forall|x: int| 0 <= x < s1.len() ==> #[trigger] kids_of(s2, x) == kids_of(s1, x),
        forall|x: int| 0 <= x < s1.len() ==> #[trigger] parent_of(s2, x) == parent_of(s1, x),
    ensures
        wf_children(s2),
{
}

/// The stored overflow of flow `i` reads only the flow's box and its children's
/// overflow and boxes.
pub proof fn lemma_stored_frame(s1: Seq<FlowNode>, s2: Seq<FlowNode>, i: int, k: int)
    requires
        0 <= i < s1.len(),
        s1.len() == s2.len(),
        k <= kids_of(s1, i).len(),
        s2[i].class == s1[i].class,
        s2[i].base.position == s1[i].base.position,
        s2[i].base.writing_mode == s1[i].base.writing_mode,
        kids_of(s2, i) == kids_of(s1, i),
        forall|m: int|
            0 <= m < kids_of(s1, i).len() ==> {
                let c = #[trigger] kids_of(s1, i)[m] as int;
                &&& s2[c].base.overflow == s1[c].base.overflow
                &&& s2[c].class == s1[c].class
                &&& s2[c].style == s1[c].style
                &&& s2[c].base.position == s1[c].base.position
                &&& s2[c].base.writing_mode == s1[c].base.writing_mode
            },
    ensures
        stored_upto(s2, i, k, true) == stored_upto(s1, i, k, true),
        stored_upto(s2, i, k, false) == stored_upto(s1, i, k, false),
    decreases k,
{
    if k > 0 && collects_overflow(s1[i].class) {
        lemma_stored_frame(s1, s2, i, k - 1);
        let c = kids_of(s1, i)[k - 1] as int;
        assert(s2[c].base.overflow == s1[c].base.overflow);
    }
}

/// One step of stacking-context collection keeps the collection invariant.
proof fn lemma_context_step(s0: Seq<FlowNode>, prev: Seq<FlowNode>, s1: Seq<FlowNode>, flow: int, n: int)
    requires
        n == s0.len(),
        n <= usize::MAX,
        prev.len() == n,
        s1.len() == n,
        0 <= flow < n,
        wf_children(s0),
        forall|x: int| 0 <= x < n ==> #[trigger] prev[x] == with_context_of(s0[x], prev[x]),
        forall|x: int| 0 <= x < n ==> #[trigger] parent_of(prev, x) == parent_of(s0, x),
        forall|x: int| 0 <= x < n ==> (#[trigger] prev[x]).base.stacking_context_id == match parent_of(s0, x) {
            None => Some(StackingContextId(0)),
            Some(p) => if p >= flow + 1 { context_expected(prev, x) } else { None },
        },
        prev[flow].base.stacking_context_id is None ==> s1 == prev,
        prev[flow].base.stacking_context_id is Some ==> {
            &&& forall|x: int|
                0 <= x < n && parent_of(prev, x) != Some(flow as usize) ==> #[trigger] s1[x] == prev[x]
            &&& forall|x: int|
                0 <= x < n && parent_of(prev, x) == Some(flow as usize) ==> {
                    &&& (#[trigger] s1[x]).base.stacking_context_id == if FlowTree::non_invertible_spec(prev[x]) {
                        prev[x].base.stacking_context_id
                    } else if prev[x].style.establishes_stacking_context {
                        Some(StackingContextId((x + 1) as usize))
                    } else {
                        prev[flow].base.stacking_context_id
                    }
                    &&& s1[x] == with_context_of(prev[x], s1[x])
                }
        },
    ensures
        forall|x: int| 0 <= x < n ==> #[trigger] s1[x] == with_context_of(s0[x], s1[x]),
        forall|x: int| 0 <= x < n ==> (#[trigger] s1[x]).base.stacking_context_id == match parent_of(s0, x) {
            None => Some(StackingContextId(0)),
            Some(p) => if p >= flow { context_expected(s1, x) } else { None },
        },
{
    assert(flow as usize as int == flow);
    assert forall|x: int| 0 <= x < n implies #[trigger] s1[x] == with_context_of(s0[x], s1[x]) by {
        assert(prev[x] == with_context_of(s0[x], prev[x]));
    }
    assert forall|x: int| 0 <= x < n implies (#[trigger] s1[x]).base.stacking_context_id == match parent_of(s0, x) {
        None => Some(StackingContextId(0)),
        Some(p) => if p >= flow { context_expected(s1, x) } else { None },
    } by {
        assert(prev[x] == with_context_of(s0[x], prev[x]));
        assert(parent_of(s1, x) == parent_of(prev, x));
        if let Some(p) = parent_of(s0, x) {
            assert(x < p);
            if p >= flow {
                if let Some(q) = parent_of(s0, p as int) {
                    assert(p < q);
                }
                assert(parent_of(prev, p as int) == parent_of(s0, p as int));
                assert(s1[p as int] == prev[p as int]);
            }
            if p as int == flow {
                assert(prev[x].base.stacking_context_id is None);
            } else {
                assert(s1[x] == prev[x]);
            }
        } else {
            assert(s1[x] == prev[x]);
        }
    }
}

/// What layout needs of a flow besides the arena invariant: its overflow rectangles and
/// stacking-relative position lie in the representable range.
pub open spec fn layout_ready(n: FlowNode) -> bool {
    &&& rect_valid(n.base.overflow.paint)
    &&& rect_valid(n.base.overflow.scroll)
    &&& au_valid(n.base.stacking_relative_position.x)
    &&& au_valid(n.base.stacking_relative_position.y)
}

/// The overflow relation reads only overflow, classes, styles, boxes and children.
pub proof fn lemma_overflow_stored_frame(s1: Seq<FlowNode>, s2: Seq<FlowNode>)
    requires
        overflow_stored(s1),
        s1.len() == s2.len(),
        forall|x: int|
            0 <= x < s1.len() ==> {
                &&& (#[trigger] s2[x]).base.overflow == s1[x].base.overflow
                &&& s2[x].class == s1[x].class
                &&& s2[x].style == s1[x].style
                &&& s2[x].base.position == s1[x].base.position
                &&& s2[x].base.writing_mode == s1[x].base.writing_mode
                &&& s2[x].base.children == s1[x].base.children
            },
        forall|x: int, k: int| 0 <= x < s1.len() && 0 <= k < kids_of(s1, x).len() ==> 0 <= #[trigger] kids_of(s1, x)[k] < s1.len(),
    ensures
        overflow_stored(s2),
{
    assert forall|x: int| 0 <= x < s2.len() implies {
        &&& rect_view((#[trigger] s2[x]).base.overflow.paint) == stored_upto(s2, x, kids_of(s2, x).len() as int, true)
        &&& rect_view(s2[x].base.overflow.scroll) == stored_upto(s2, x, kids_of(s2, x).len() as int, false)
    } by {
        assert(s1[x] == s1[x]);
        assert(s2[x].base.overflow == s1[x].base.overflow);
        assert forall|m: int| 0 <= m < kids_of(s1, x).len() implies {
            let c = #[trigger] kids_of(s1, x)[m] as int;
            &&& s2[c].base.overflow == s1[c].base.overflow
            &&& s2[c].class == s1[c].class
            &&& s2[c].style == s1[c].style
            &&& s2[c].base.position == s1[c].base.position
            &&& s2[c].base.writing_mode == s1[c].base.writing_mode
        } by {
            let c = kids_of(s1, x)[m] as int;
            assert(0 <= c < s1.len());
            assert(s2[c].base.overflow == s1[c].base.overflow);
        }
        lemma_stored_frame(s1, s2, x, kids_of(s1, x).len() as int);
    }
}

/// The stacking-relative relation reads only parents, styles, boxes and positions.
pub proof fn lemma_positions_frame(s1: Seq<FlowNode>, s2: Seq<FlowNode>)
    requires
        positions_stacked(s1),
        wf_children(s1),
        s1.len() == s2.len(),
        forall|x: int|
            0 <= x < s1.len() ==> {
                &&& (#[trigger] s2[x]).base.stacking_relative_position == s1[x].base.stacking_relative_position
                &&& s2[x].style == s1[x].style
                &&& s2[x].base.position == s1[x].base.position
                &&& s2[x].base.writing_mode == s1[x].base.writing_mode
                &&& s2[x].base.parallel == s1[x].base.parallel
            },
    ensures
        positions_stacked(s2),
{
    assert forall|x: int| 0 <= x < s2.len() && (#[trigger] parent_of(s2, x)) is Some implies (
        s2[x].base.stacking_relative_position.x.0 as int,
        s2[x].base.stacking_relative_position.y.0 as int,
    ) == FlowTree::srp_expected(s2, parent_of(s2, x)->0 as int, x) by {
        assert(s2[x].base.parallel == s1[x].base.parallel);
        assert(parent_of(s1, x) is Some);
        let p = parent_of(s1, x)->0 as int;
        assert(p < s1.len());
        assert(s2[p].base.parallel == s1[p].base.parallel);
    }
}

impl FlowTree {
    /// Overflow over the whole tree, bottom-up.
    pub fn store_all_overflow(&mut self)
        requires
            wf_children(old(self)@),
            forall|x: int| 0 <= x < old(self)@.len() ==> overflow_ready(#[trigger] old(self)@[x]),
        ensures
            final(self)@.len() == old(self)@.len(),
            forall|x: int|
                0 <= x < old(self)@.len() ==> #[trigger] final(self)@[x] == with_overflow_of(old(self)@[x], final(self)@[x]),
            forall|x: int| 0 <= x < old(self)@.len() ==> overflow_ready(#[trigger] final(self)@[x]),
            overflow_stored(final(self)@),
    {
        let ghost s0 = self@;
        let n = self.nodes.len();
        let mut i: usize = 0;
        while i < n
            invariant
                n == s0.len(),
                s0 == old(self)@,
                self@.len() == n,
                i <= n,
                wf_children(s0),
                forall|x: int| 0 <= x < n ==> #[trigger] self@[x] == with_overflow_of(s0[x], self@[x]),
                forall|x: int| 0 <= x < n ==> overflow_ready(#[trigger] self@[x]),
                forall|x: int| 0 <= x < i ==> {
                    &&& rect_view((#[trigger] self@[x]).base.overflow.paint) == stored_upto(self@, x, kids_of(s0, x).len() as int, true)
                    &&& rect_view(self@[x].base.overflow.scroll) == stored_upto(self@, x, kids_of(s0, x).len() as int, false)
                },
            decreases n - i,
        {
            let ghost prev = self@;
            proof {
                assert forall|x: int| 0 <= x < n implies #[trigger] kids_of(prev, x) == kids_of(s0, x) by {
                    assert(prev[x] == with_overflow_of(s0[x], prev[x]));
                }
                assert forall|x: int| 0 <= x < n implies #[trigger] parent_of(prev, x) == parent_of(s0, x) by {
                    assert(prev[x] == with_overflow_of(s0[x], prev[x]));
                }
                lemma_children_frame(s0, prev);
                assert forall|k: int| 0 <= k < kids_of(prev, i as int).len() implies overflow_ready(
                    prev[#[trigger] kids_of(prev, i as int)[k] as int]) by {
                    assert(kids_of(s0, i as int)[k] < i);
                }
            }
            self.store_overflow(i);
            proof {
                let s1 = self@;
                assert(forall|x: int| 0 <= x < n && x != i ==> s1[x] == prev[x]);
                assert(s1[i as int] == with_overflow_of(s0[i as int], s1[i as int]));
                assert forall|x: int| 0 <= x < i + 1 implies {
                    &&& rect_view((#[trigger] s1[x]).base.overflow.paint) == stored_upto(s1, x, kids_of(s0, x).len() as int, true)
                    &&& rect_view(s1[x].base.overflow.scroll) == stored_upto(s1, x, kids_of(s0, x).len() as int, false)
                } by {
                    assert forall|m: int| 0 <= m < kids_of(prev, x).len() implies {
                        let c = #[trigger] kids_of(prev, x)[m] as int;
                        &&& s1[c].base.overflow == prev[c].base.overflow
                        &&& s1[c].class == prev[c].class
                        &&& s1[c].style == prev[c].style
                        &&& s1[c].base.position == prev[c].base.position
                        &&& s1[c].base.writing_mode == prev[c].base.writing_mode
                    } by {
                        assert(kids_of(prev, x)[m] < x);
                    }
                    lemma_stored_frame(prev, s1, x, kids_of(s0, x).len() as int);
                }
            }
            i = i + 1;
        }
        proof {
            assert forall|x: int| 0 <= x < n implies #[trigger] kids_of(self@, x) == kids_of(s0, x) by {
                assert(self@[x] == with_overflow_of(s0[x], self@[x]));
            }
        }
    }

    /// Stacking-relative positions over the whole tree, top-down. Flows without parent
    /// keep theirs.
    #[verifier::rlimit(100)]
    pub fn compute_all_stacking_relative_positions(&mut self)
        requires
            wf_children(old(self)@),
            forall|x: int|
                0 <= x < old(self)@.len() ==> (#[trigger] old(self)@[x]).base.position.valid() && au_valid(
                    old(self)@[x].base.stacking_relative_position.x,
                ) && au_valid(old(self)@[x].base.stacking_relative_position.y),
        ensures
            final(self)@.len() == old(self)@.len(),
            forall|x: int|
                0 <= x < old(self)@.len() ==> #[trigger] final(self)@[x] == with_srp_of(old(self)@[x], final(self)@[x]),
            forall|x: int|
                0 <= x < old(self)@.len() && parent_of(old(self)@, x) is None ==> #[trigger] final(self)@[x]
                    == old(self)@[x],
            positions_stacked(final(self)@),
    {
        let ghost s0 = self@;
        let n = self.nodes.len();
        let mut i: usize = n;
        while i > 0
            invariant
                n == s0.len(),
                s0 == old(self)@,
                self@.len() == n,
                i <= n,
                wf_children(s0),
                forall|x: int| 0 <= x < n ==> #[trigger] self@[x] == with_srp_of(s0[x], self@[x]),
                forall|x: int|
                    0 <= x < n ==> (#[trigger] self@[x]).base.position.valid() && au_valid(
                        self@[x].base.stacking_relative_position.x,
                    ) && au_valid(self@[x].base.stacking_relative_position.y),
                forall|x: int|
                    0 <= x < n && (#[trigger] parent_of(s0, x)) is Some && parent_of(s0, x)->0 >= i ==> (
                    self@[x].base.stacking_relative_position.x.0 as int,
                    self@[x].base.stacking_relative_position.y.0 as int,
                ) == FlowTree::srp_expected(self@, parent_of(s0, x)->0 as int, x),
                forall|x: int|
                    0 <= x < n && !((#[trigger] parent_of(s0, x)) is Some && parent_of(s0, x)->0 >= i) ==> self@[x] == s0[x],
            decreases i,
        {
            let flow = i - 1;
            let ghost prev = self@;
            proof {
                assert forall|x: int| 0 <= x < n implies #[trigger] kids_of(prev, x) == kids_of(s0, x) by {
                    assert(prev[x] == with_srp_of(s0[x], prev[x]));
                }
                assert forall|x: int| 0 <= x < n implies #[trigger] parent_of(prev, x) == parent_of(s0, x) by {
                    assert(prev[x] == with_srp_of(s0[x], prev[x]));
                }
                lemma_children_frame(s0, prev);
                assert(prev[flow as int].base.position.valid());
                assert forall|k: int| 0 <= k < kids_of(prev, flow as int).len() implies prev[#[trigger] kids_of(prev, flow as int)[k] as int].base.position.valid() by {
                    assert(prev[kids_of(prev, flow as int)[k] as int].base.position.valid());
                }
            }
            self.compute_stacking_relative_position(flow);
            proof {
                let s1 = self@;
                assert forall|x: int| 0 <= x < n implies #[trigger] s1[x] == with_srp_of(s0[x], s1[x]) by {
                    if parent_of(prev, x) == Some(flow) {
                        assert(prev[x] == with_srp_of(s0[x], prev[x]));
                    } else {
                        assert(s1[x] == prev[x]);
                    }
                }
                assert forall|x: int|
                    0 <= x < n implies (#[trigger] s1[x]).base.position.valid() && au_valid(
                        s1[x].base.stacking_relative_position.x,
                    ) && au_valid(s1[x].base.stacking_relative_position.y) by {
                    if parent_of(prev, x) != Some(flow) {
                        assert(s1[x] == prev[x]);
                    } else {
                        assert(s1[x].base.position == prev[x].base.position);
                    }
                }
                assert(s1[flow as int] == prev[flow as int]);
                assert forall|x: int|
                    0 <= x < n && (#[trigger] parent_of(s0, x)) is Some && parent_of(s0, x)->0 >= flow implies (
                    s1[x].base.stacking_relative_position.x.0 as int,
                    s1[x].base.stacking_relative_position.y.0 as int,
                ) == FlowTree::srp_expected(s1, parent_of(s0, x)->0 as int, x) by {
                    let p = parent_of(s0, x)->0 as int;
                    assert(x < p);
                    if p == flow {
                        assert(s1[x].base.position == prev[x].base.position);
                        assert(s1[x].base.writing_mode == prev[x].base.writing_mode);
                    } else {
                        assert(s1[x] == prev[x]);
                        assert(s1[p] == prev[p]);
                    }
                }
                assert forall|x: int|
                    0 <= x < n && !((#[trigger] parent_of(s0, x)) is Some && parent_of(s0, x)->0 >= flow) implies s1[x] == s0[x] by {
                    assert(s1[x] == prev[x]);
                }
            }
            i = i - 1;
        }
        proof {
            assert forall|x: int| 0 <= x < n implies #[trigger] parent_of(self@, x) == parent_of(s0, x) by {
                assert(self@[x] == with_srp_of(s0[x], self@[x]));
            }
        }
    }

    /// Stacking-context collection over the whole tree, top-down: flows without parent
    /// hold the root context, and every other flow what its parent gives it.
    #[verifier::rlimit(100)]
    pub fn collect_all_stacking_contexts(&mut self)
        requires
            wf_children(old(self)@),
        ensures
            final(self)@.len() == old(self)@.len(),
            forall|x: int|
                0 <= x < old(self)@.len() ==> #[trigger] final(self)@[x] == with_context_of(old(self)@[x], final(self)@[x]),
            contexts_collected(final(self)@),
    {
        let ghost s0 = self@;
        let n = self.nodes.len();
        let mut i: usize = 0;
        while i < n
            invariant
                n == s0.len(),
                s0 == old(self)@,
                self@.len() == n,
                i <= n,
                forall|x: int| 0 <= x < n ==> #[trigger] self@[x] == with_context_of(s0[x], self@[x]),
                forall|x: int| 0 <= x < i ==> (#[trigger] self@[x]).base.stacking_context_id == if parent_of(s0, x) is None {
                    Some(StackingContextId(0))
                } else {
                    None
                },
            decreases n - i,
        {
            let ghost prev = self@;
            let id = if self.nodes[i].base.parallel.parent.is_none() {
                Some(StackingContextId(0))
            } else {
                None
            };
            self.nodes[i].base.stacking_context_id = id;
            proof {
                assert(forall|x: int| 0 <= x < n && x != i ==> self@[x] == prev[x]);
            }
            i = i + 1;
        }
        let mut i: usize = n;
        while i > 0
            invariant
                n == s0.len(),
                s0 == old(self)@,
                self@.len() == n,
                i <= n,
                wf_children(s0),
                forall|x: int| 0 <= x < n ==> #[trigger] self@[x] == with_context_of(s0[x], self@[x]),
                forall|x: int| 0 <= x < n ==> (#[trigger] self@[x]).base.stacking_context_id == match parent_of(s0, x) {
                    None => Some(StackingContextId(0)),
                    Some(p) => if p >= i { context_expected(self@, x) } else { None },
                },
            decreases i,
        {
            let flow = i - 1;
            let ghost prev = self@;
            proof {
                assert forall|x: int| 0 <= x < n implies #[trigger] kids_of(prev, x) == kids_of(s0, x) by {
                    assert(prev[x] == with_context_of(s0[x], prev[x]));
                }
                assert forall|x: int| 0 <= x < n implies #[trigger] parent_of(prev, x) == parent_of(s0, x) by {
                    assert(prev[x] == with_context_of(s0[x], prev[x]));
                }
                lemma_children_frame(s0, prev);
            }
            if self.nodes[flow].base.stacking_context_id.is_some() {
                self.collect_stacking_contexts_for_children(flow);
            }
            proof {
                assert(n as int <= usize::MAX);
                lemma_context_step(s0, prev, self@, flow as int, n as int);
            }
            i = i - 1;
        }
        proof {
            assert forall|x: int| 0 <= x < n implies #[trigger] parent_of(self@, x) == parent_of(s0, x) by {
                assert(self@[x] == with_context_of(s0[x], self@[x]));
            }
        }
    }

    /// Runs layout over the whole tree in a viewport `viewport_inline_size` wide: the
    /// sizing passes, then overflow bottom-up, stacking-relative positions top-down and
    /// stacking-context collection top-down.
    #[verifier::rlimit(100)]
    pub fn layout(&mut self, viewport_inline_size: Au)
        requires
            old(self).wf(),
            au_valid(viewport_inline_size),
            viewport_inline_size.0 >= 0,
            forall|x: int| 0 <= x < old(self)@.len() ==> layout_ready(#[trigger] old(self)@[x]),
        ensures
            final(self).wf(),
            final(self)@.len() == old(self)@.len(),
            forall|x: int|
                0 <= x < old(self)@.len() ==> {
                    let m = sized(old(self)@[x], inputs(old(self)@), viewport_inline_size.0 as int, x);
                    &&& (#[trigger] final(self)@[x]).base.intrinsic_inline_sizes == m.base.intrinsic_inline_sizes
                    &&& final(self)@[x].base.position == m.base.position
                    &&& final(self)@[x].base.block_container_inline_size == m.base.block_container_inline_size
                    &&& final(self)@[x].base.block_container_writing_mode == m.base.block_container_writing_mode
                    &&& final(self)@[x].base.restyle_damage == old(self)@[x].base.restyle_damage
                },
            overflow_stored(final(self)@),
            positions_stacked(final(self)@),
            contexts_collected(final(self)@),
    {
        let ghost s0 = self@;
        let ghost vw = viewport_inline_size.0 as int;
        self.assign_sizes(viewport_inline_size);
        let ghost s1 = self@;
        proof {
            crate::layout::lemma_sized_keeps_inputs(s0, s1, vw);
            crate::tree::lemma_shape_keeps_children(s0, s1);
            assert forall|x: int| 0 <= x < s0.len() implies overflow_ready(#[trigger] s1[x]) by {
                lemma_sizes_valid(s0, vw, x);
                assert(layout_ready(s0[x]));
            }
        }
        self.store_all_overflow();
        let ghost s2 = self@;
        proof {
            assert forall|x: int| 0 <= x < s0.len() implies #[trigger] kids_of(s2, x) == kids_of(s1, x) by {
                assert(s2[x] == with_overflow_of(s1[x], s2[x]));
            }
            assert forall|x: int| 0 <= x < s0.len() implies #[trigger] parent_of(s2, x) == parent_of(s1, x) by {
                assert(s2[x] == with_overflow_of(s1[x], s2[x]));
            }
            lemma_children_frame(s1, s2);
            assert forall|x: int|
                0 <= x < s0.len() implies (#[trigger] s2[x]).base.position.valid() && au_valid(
                    s2[x].base.stacking_relative_position.x,
                ) && au_valid(s2[x].base.stacking_relative_position.y) by {
                assert(s2[x] == with_overflow_of(s1[x], s2[x]));
                assert(overflow_ready(s2[x]));
                assert(layout_ready(s0[x]));
            }
        }
        self.compute_all_stacking_relative_positions();
        let ghost s3 = self@;
        proof {
            assert forall|x: int| 0 <= x < s0.len() implies #[trigger] kids_of(s3, x) == kids_of(s2, x) by {
                assert(s3[x] == with_srp_of(s2[x], s3[x]));
            }
            assert forall|x: int| 0 <= x < s0.len() implies #[trigger] parent_of(s3, x) == parent_of(s2, x) by {
                assert(s3[x] == with_srp_of(s2[x], s3[x]));
            }
            lemma_children_frame(s2, s3);
            assert forall|x: int, k: int| 0 <= x < s2.len() && 0 <= k < kids_of(s2, x).len() implies 0 <= #[trigger] kids_of(s2, x)[k] < s2.len() by {
                assert(kids_of(s2, x)[k] < x);
            }
            assert forall|x: int| 0 <= x < s0.len() implies {
                &&& (#[trigger] s3[x]).base.overflow == s2[x].base.overflow
                &&& s3[x].class == s2[x].class
                &&& s3[x].style == s2[x].style
                &&& s3[x].base.position == s2[x].base.position
                &&& s3[x].base.writing_mode == s2[x].base.writing_mode
                &&& s3[x].base.children == s2[x].base.children
            } by {
                assert(s3[x] == with_srp_of(s2[x], s3[x]));
            }
            lemma_overflow_stored_frame(s2, s3);
        }
        self.collect_all_stacking_contexts();
        proof {
            let s4 = self@;
            assert forall|x: int| 0 <= x < s0.len() implies #[trigger] kids_of(s4, x) == kids_of(s3, x) by {
                assert(s4[x] == with_context_of(s3[x], s4[x]));
            }
            assert forall|x: int, k: int| 0 <= x < s3.len() && 0 <= k < kids_of(s3, x).len() implies 0 <= #[trigger] kids_of(s3, x)[k] < s3.len() by {
                assert(kids_of(s3, x)[k] < x);
            }
            assert forall|x: int| 0 <= x < s0.len() implies {
                &&& (#[trigger] s4[x]).base.overflow == s3[x].base.overflow
                &&& s4[x].class == s3[x].class
                &&& s4[x].style == s3[x].style
                &&& s4[x].base.position == s3[x].base.position
                &&& s4[x].base.writing_mode == s3[x].base.writing_mode
                &&& s4[x].base.children == s3[x].base.children
            } by {
                assert(s4[x] == with_context_of(s3[x], s4[x]));
            }
            lemma_overflow_stored_frame(s3, s4);
            assert forall|x: int| 0 <= x < s0.len() implies {
                &&& (#[trigger] s4[x]).base.stacking_relative_position == s3[x].base.stacking_relative_position
                &&& s4[x].style == s3[x].style
                &&& s4[x].base.position == s3[x].base.position
                &&& s4[x].base.writing_mode == s3[x].base.writing_mode
                &&& s4[x].base.parallel == s3[x].base.parallel
            } by {
                assert(s4[x] == with_context_of(s3[x], s4[x]));
            }
            lemma_positions_frame(s3, s4);
            assert forall|x: int| 0 <= x < s0.len() implies {
                &&& (#[trigger] s4[x]).base.intrinsic_inline_sizes == s1[x].base.intrinsic_inline_sizes
                &&& s4[x].base.position == s1[x].base.position
                &&& s4[x].base.block_container_inline_size == s1[x].base.block_container_inline_size
                &&& s4[x].base.block_container_writing_mode == s1[x].base.block_container_writing_mode
                &&& s4[x].base.restyle_damage == s1[x].base.restyle_damage
                &&& crate::tree::abs_of(s4, x) == crate::tree::abs_of(s0, x)
                &&& crate::tree::cb_of(s4, x) == crate::tree::cb_of(s0, x)
                &&& s4[x].class == s0[x].class
                &&& s4[x].style == s0[x].style
                &&& s4[x].is_root == s0[x].is_root
                &&& s4[x].base.children == s0[x].base.children
                &&& s4[x].base.parallel.parent == s0[x].base.parallel.parent
                &&& s4[x].base.flags == s0[x].base.flags
                &&& s4[x].base.writing_mode == s0[x].base.writing_mode
            } by {
                assert(s4[x] == with_context_of(s3[x], s4[x]));
                assert(s3[x] == with_srp_of(s2[x], s3[x]));
                assert(s2[x] == with_overflow_of(s1[x], s2[x]));
            }
            assert(crate::tree::same_shape(s0, s4));
            crate::tree::lemma_frame_wf(s0, s4);
        }
    }
}

} // verus!
