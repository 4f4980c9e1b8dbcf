//! Fragmentation of a flow across fragmentainers.

use vstd::prelude::*;
use crate::absolute::FlowRef;
use crate::flow::FragmentationContext;
use crate::layout::{
    block_size_of, block_start_of, inputs, lemma_bsize_valid, lemma_inputs_wf, lemma_same_inputs,
    with_block, FlowInput,
};
use crate::tree::{
    abs_of, cb_of, is_descendant, kids_of, lemma_descendant_is_earlier, lemma_frame_wf,
    lemma_shape_keeps_children, parent_of, same_shape, wf_children, wf_styles, FlowNode, FlowTree,
};

verus! {

/// Whether `x` is `flow` or lies below it.
#[verifier::opaque]
pub open spec fn in_subtree(s: Seq<FlowNode>, x: int, flow: int) -> bool {
    x == flow || is_descendant(s, x, flow)
}

/// Whether the block start of `x` is placed once every flow of the subtree of `flow`
/// below index `i` has been laid out: its parent is such a flow, or it is a parentless
/// such flow itself.
pub open spec fn start_placed(s: Seq<FlowNode>, x: int, flow: int, i: int) -> bool {
    match parent_of(s, x) {
        Some(p) => p < i && in_subtree(s, p as int, flow),
        None => x < i && in_subtree(s, x, flow),
    }
}

/// A flow lies below `flow` exactly when its parent is `flow` or lies below it.
pub proof fn lemma_subtree_step(s: Seq<FlowNode>, x: int, flow: int)
    requires
        wf_children(s),
        0 <= x < s.len(),
        parent_of(s, x) is Some,
    ensures
        is_descendant(s, x, flow) == in_subtree(s, parent_of(s, x)->0 as int, flow),
{
    reveal(in_subtree);
    assert(x < parent_of(s, x)->0 < s.len());
}

impl FlowTree {
    /// Whether `x` is `flow` or one of its descendants, found by walking up the parents.
    pub fn is_in_subtree(&self, x: FlowRef, flow: FlowRef) -> (r: bool)
        requires
            wf_children(self@),
            x < self@.len(),
            flow < self@.len(),
        ensures
            r == in_subtree(self@, x as int, flow as int),
    {
        proof {
            reveal(in_subtree);
        }
        let n = self.nodes.len();
        let mut cur = x;
        loop
            invariant
                wf_children(self@),
                n == self@.len(),
                cur < n,
                flow < n,
                in_subtree(self@, x as int, flow as int) == in_subtree(self@, cur as int, flow as int),
            decreases n - cur,
        {
            proof {
                reveal(in_subtree);
            }
            if cur == flow {
                return true;
            }
            if cur > flow {
                proof {
                    if is_descendant(self@, cur as int, flow as int) {
                        lemma_descendant_is_earlier(self@, cur as int, flow as int);
                    }
                }
                return false;
            }
            match self.nodes[cur].base.parallel.parent {
                None => {
                    return false;
                },
                Some(p) => {
                    proof {
                        lemma_subtree_step(self@, cur as int, flow as int);
                    }
                    cur = p;
                },
            }
        }
    }

    /// The default, indivisible fragmentation: block sizes are assigned over the subtree
    /// of `flow`, children before parents, and no continuation is returned.
    #[verifier::rlimit(100)]
    #[verifier::spinoff_prover]
    pub fn fragment(&mut self, flow: FlowRef, fragmentation_context: Option<FragmentationContext>) -> (r:
        Option<FlowRef>)
        requires
            old(self).wf(),
            flow < old(self)@.len(),
        ensures
            r is None,
            final(self).wf(),
            same_shape(old(self)@, final(self)@),
            forall|x: int|
                0 <= x < old(self)@.len() && (x == flow || is_descendant(old(self)@, x, flow as int))
                    ==> #[trigger] final(self)@[x].base.position.size.block.0 == block_size_of(
                    inputs(old(self)@),
                    x,
                ),
            forall|x: int|
                0 <= x < old(self)@.len() && is_descendant(old(self)@, x, flow as int)
                    ==> #[trigger] final(self)@[x].base.position.start.b.0 == block_start_of(
                    inputs(old(self)@),
                    x,
                ),
            forall|x: int|
                0 <= x < old(self)@.len() && x != flow && !is_descendant(old(self)@, x, flow as int)
                    ==> #[trigger] final(self)@[x] == old(self)@[x],
    {
        let ghost t = inputs(self@);
        let ghost s0 = self@;
        let n = self.nodes.len();
        proof {
            lemma_inputs_wf(s0);
        }
        let mut i: usize = 0;
        while i <= flow
            invariant
                n == s0.len(),
                s0 == old(self)@,
                self@.len() == n,
                flow < n,
                i <= flow + 1,
                t == inputs(s0),
                old(self).wf(),
                forall|x: int|
                    0 <= x < n ==> #[trigger] self@[x] == with_block(
                        s0[x],
                        t,
                        x,
                        x < i && in_subtree(s0, x, flow as int),
                        start_placed(s0, x, flow as int, i as int),
                    ),
            decreases flow + 1 - i,
        {
            let ghost prev = self@;
            proof {
                assert(same_shape(s0, prev));
                lemma_same_inputs(s0, prev);
                lemma_shape_keeps_children(s0, prev);
            }
            let inside = self.is_in_subtree(i, flow);
            proof {
                assert(forall|x: int| 0 <= x < n ==> #[trigger] parent_of(prev, x) == parent_of(s0, x));
                if is_descendant(prev, i as int, flow as int) {
                    crate::tree::lemma_descendant_stable(prev, s0, i as int, flow as int);
                }
                if is_descendant(s0, i as int, flow as int) {
                    crate::tree::lemma_descendant_stable(s0, prev, i as int, flow as int);
                }
                reveal(in_subtree);
                assert(inside == in_subtree(s0, i as int, flow as int));
            }
            if inside {
                proof {
                    assert forall|k: int| 0 <= k < kids_of(prev, i as int).len() implies prev[#[trigger] kids_of(prev, i as int)[k] as int].base.position.size.block.0
                        == block_size_of(inputs(prev), kids_of(prev, i as int)[k] as int) by {
                        let c = kids_of(prev, i as int)[k] as int;
                        assert(kids_of(s0, i as int)[k] < i);
                        assert(parent_of(s0, c) == Some(i));
                        lemma_subtree_step(s0, c, flow as int);
                        lemma_bsize_valid(t, c, t[c].children.len() as int);
                    }
                }
                self.assign_block_size(i);
                proof {
                    assert forall|x: int| 0 <= x < n implies #[trigger] self@[x] == with_block(
                        s0[x], t, x, x < i + 1 && in_subtree(s0, x, flow as int),
                        start_placed(s0, x, flow as int, i + 1)) by {
                        if x == i {
                            assert(!start_placed(s0, x, flow as int, i as int));
                        } else if parent_of(prev, x) == Some(i) {
                            assert(x < i);
                            assert(!start_placed(s0, x, flow as int, i as int));
                        } else {
                            assert(start_placed(s0, x, flow as int, i as int) == start_placed(s0, x, flow as int, i + 1));
                        }
                    }
                }
            } else {
                proof {
                    assert forall|x: int| 0 <= x < n implies #[trigger] self@[x] == with_block(
                        s0[x], t, x, x < i + 1 && in_subtree(s0, x, flow as int),
                        start_placed(s0, x, flow as int, i + 1)) by {
                        assert(start_placed(s0, x, flow as int, i as int) == start_placed(s0, x, flow as int, i + 1));
                    }
                }
            }
            i = i + 1;
        }
        proof {
            let s1 = self@;
            assert forall|x: int| 0 <= x < n implies {
                &&& (#[trigger] s1[x]).class == s0[x].class
                &&& s1[x].style == s0[x].style
                &&& s1[x].is_root == s0[x].is_root
                &&& s1[x].base.children == s0[x].base.children
                &&& s1[x].base.parallel.parent == s0[x].base.parallel.parent
                &&& s1[x].base.flags == s0[x].base.flags
                &&& s1[x].base.writing_mode == s0[x].base.writing_mode
                &&& abs_of(s1, x) == abs_of(s0, x)
                &&& cb_of(s1, x) == cb_of(s0, x)
            } by {
                assert(s1[x] == with_block(s0[x], t, x, x < i && in_subtree(s0, x, flow as int),
                    start_placed(s0, x, flow as int, i as int)));
            }
            assert(same_shape(s0, s1));
            lemma_frame_wf(s0, s1);
            reveal(in_subtree);
            assert forall|x: int| 0 <= x < n && in_subtree(s0, x, flow as int) implies
                (#[trigger] s1[x]).base.position.size.block.0 == block_size_of(t, x) by {
                if x != flow {
                    lemma_descendant_is_earlier(s0, x, flow as int);
                }
                lemma_bsize_valid(t, x, t[x].children.len() as int);
            }
            assert forall|x: int| 0 <= x < n && is_descendant(s0, x, flow as int) implies
                (#[trigger] s1[x]).base.position.start.b.0 == block_start_of(t, x) by {
                lemma_descendant_is_earlier(s0, x, flow as int);
                lemma_subtree_step(s0, x, flow as int);
                let p = parent_of(s0, x)->0 as int;
                if p != flow as int {
                    lemma_descendant_is_earlier(s0, p, flow as int);
                }
                crate::layout::lemma_bsize_valid_start(s0, x);
            }
            assert forall|x: int| 0 <= x < n && x != flow && !is_descendant(s0, x, flow as int) implies
                #[trigger] s1[x] == s0[x] by {
                if parent_of(s0, x) is Some {
                    lemma_subtree_step(s0, x, flow as int);
                }
                assert(!start_placed(s0, x, flow as int, i as int));
            }
        }
        None
    }
}

} // verus!
