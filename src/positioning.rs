//! The CSS rules that decide which flows are containing blocks of absolutely-positioned
//! descendants, and the stacking context a flow was given.

use vstd::prelude::*;
use crate::absolute::FlowRef;
use crate::flags::{Position, IS_ABSOLUTELY_POSITIONED};
use crate::flow::StackingContextId;
use crate::tree::FlowTree;

verus! {

impl FlowTree {
    /// The `position` property of `flow`.
    pub fn positioning(&self, flow: FlowRef) -> (r: Position)
        requires
            flow < self@.len(),
        ensures
            r == self@[flow as int].style.position,
    {
        self.nodes[flow].style.position
    }

    /// Whether `flow` has `position: fixed`.
    pub fn is_fixed(&self, flow: FlowRef) -> (r: bool)
        requires
            flow < self@.len(),
        ensures
            r == (self@[flow as int].style.position == Position::Fixed),
    {
        self.positioning(flow) == Position::Fixed
    }

    /// Whether `flow` has `position: relative`.
    pub fn contains_relatively_positioned_fragments(&self, flow: FlowRef) -> (r: bool)
        requires
            flow < self@.len(),
        ensures
            r == (self@[flow as int].style.position == Position::Relative),
    {
        self.positioning(flow) == Position::Relative
    }

    /// Whether `flow` is relatively or absolutely positioned.
    pub fn contains_positioned_fragments(&self, flow: FlowRef) -> (r: bool)
        requires
            flow < self@.len(),
        ensures
            r == (self@[flow as int].style.position == Position::Relative
                || self@[flow as int].base.flags.has(IS_ABSOLUTELY_POSITIONED)),
    {
        self.contains_relatively_positioned_fragments(flow)
            || self.nodes[flow].base.flags.contains(IS_ABSOLUTELY_POSITIONED)
    }

    /// Whether `flow` is the containing block of the absolutely-positioned flows below
    /// it: the positioned ones are.
    pub fn is_absolute_containing_block(&self, flow: FlowRef) -> (r: bool)
        requires
            flow < self@.len(),
        ensures
            r == (self@[flow as int].style.position == Position::Relative
                || self@[flow as int].base.flags.has(IS_ABSOLUTELY_POSITIONED)),
    {
        self.contains_positioned_fragments(flow)
    }

    /// Whether `flow` holds roots of an absolute flow tree: it is relatively positioned,
    /// or it is the root flow.
    pub fn contains_roots_of_absolute_flow_tree(&self, flow: FlowRef) -> (r: bool)
        requires
            flow < self@.len(),
        ensures
            r == (self@[flow as int].style.position == Position::Relative || self@[flow as int].is_root),
    {
        self.contains_relatively_positioned_fragments(flow) || self.nodes[flow].is_root
    }

    /// The stacking context (and with it the clip and scroll node) that collection gave
    /// `flow`; asking before one is assigned is excluded.
    pub fn clipping_and_scrolling(&self, flow: FlowRef) -> (r: StackingContextId)
        requires
            flow < self@.len(),
            self@[flow as int].base.stacking_context_id is Some,
        ensures
            self@[flow as int].base.stacking_context_id == Some(r),
    {
        match self.nodes[flow].base.stacking_context_id {
            Some(id) => id,
            None => StackingContextId(0),
        }
    }
}

} // verus!
