//! The baseline of the last line box in a flow.

use vstd::prelude::*;
use app_units::Au;
use crate::absolute::FlowRef;
use crate::flags::{FlowClass, IS_ABSOLUTELY_POSITIONED};
use crate::tree::{kids_of, wf_children, wf_styles, FlowNode, FlowTree};
use crate::units::{au_add, au_valid, clamp_au};

verus! {

/// The baseline of the last line box among the first `k` children of flow `i`, searched
/// from the last of them back: an inline child with lines gives its own; a block-like
/// child that is not absolutely positioned gives the one found inside it. Either is
/// moved by the child's block start.
pub open spec fn baseline_upto(s: Seq<FlowNode>, i: int, k: int) -> Option<int>
    decreases i, k,
{
    if i < 0 || i >= s.len() || k <= 0 || k > kids_of(s, i).len() {
        None
    } else {
        let c = kids_of(s, i)[k - 1] as int;
        let n = s[c];
        let start = n.base.position.start.b.0 as int;
        if !(0 <= c < i) {
            baseline_upto(s, i, k - 1)
        } else if n.class == FlowClass::Inline && n.style.last_line_baseline is Some {
            Some(clamp_au(start + (n.style.last_line_baseline->0).0))
        } else if n.class.is_block_like_spec() && !n.base.flags.has(IS_ABSOLUTELY_POSITIONED)
            && baseline_upto(s, c, kids_of(s, c).len() as int) is Some {
            Some(clamp_au(start + baseline_upto(s, c, kids_of(s, c).len() as int)->0))
        } else {
            baseline_upto(s, i, k - 1)
        }
    }
}

/// Baselines found this way stay in range.
pub proof fn lemma_baseline_valid(s: Seq<FlowNode>, i: int, k: int)
    ensures
        baseline_upto(s, i, k) matches Some(b) ==> crate::units::au_in_range(b),
    decreases i, k,
{
    if 0 <= i < s.len() && 0 < k <= kids_of(s, i).len() {
        let c = kids_of(s, i)[k - 1] as int;
        lemma_baseline_valid(s, i, k - 1);
        if 0 <= c < i {
            lemma_baseline_valid(s, c, kids_of(s, c).len() as int);
        }
    }
}

impl FlowTree {
    /// The baseline offset of the last line box in `flow`, if any flow inside it has one.
    pub fn baseline_offset_of_last_line_box_in_flow(&self, flow: FlowRef) -> (r: Option<Au>)
        requires
            wf_children(self@),
            wf_styles(self@),
            flow < self@.len(),
            forall|x: int| 0 <= x < self@.len() ==> (#[trigger] self@[x]).base.position.valid(),
        ensures
            r matches Some(b) ==> baseline_upto(self@, flow as int, kids_of(self@, flow as int).len() as int)
                == Some(b.0 as int),
            r is None ==> baseline_upto(self@, flow as int, kids_of(self@, flow as int).len() as int) is None,
    {
        self.baseline_from(flow, self.nodes[flow].base.children.len())
    }

    /// The search of `baseline_offset_of_last_line_box_in_flow` over the first `k`
    /// children of `flow`.
    fn baseline_from(&self, flow: FlowRef, k: usize) -> (r: Option<Au>)
        requires
            wf_children(self@),
            wf_styles(self@),
            flow < self@.len(),
            k <= kids_of(self@, flow as int).len(),
            forall|x: int| 0 <= x < self@.len() ==> (#[trigger] self@[x]).base.position.valid(),
        ensures
            r matches Some(b) ==> baseline_upto(self@, flow as int, k as int) == Some(b.0 as int),
            r is None ==> baseline_upto(self@, flow as int, k as int) is None,
        decreases flow, k,
    {
        if k == 0 {
            return None;
        }
        let c = self.nodes[flow].base.children[k - 1];
        proof {
            assert(kids_of(self@, flow as int)[k - 1] < flow);
            assert(self@[c as int].style.valid());
            assert(self@[c as int].base.position.valid());
        }
        let start = self.nodes[c].base.position.start.b;
        if self.nodes[c].class == FlowClass::Inline {
            if let Some(b) = self.nodes[c].style.last_line_baseline {
                return Some(au_add(start, b));
            }
        }
        if self.nodes[c].class.is_block_like()
            && !self.nodes[c].base.flags.contains(IS_ABSOLUTELY_POSITIONED) {
            let inner = self.baseline_from(c, self.nodes[c].base.children.len());
            if let Some(b) = inner {
                proof {
                    lemma_baseline_valid(self@, c as int, kids_of(self@, c as int).len() as int);
                }
                return Some(au_add(start, b));
            }
        }
        self.baseline_from(flow, k - 1)
    }
}

} // verus!
