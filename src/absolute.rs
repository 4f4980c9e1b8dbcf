//! The registry of absolutely-positioned descendants and the links that point back from
//! such a descendant to its containing block.
//!
//! Flows live in the arena of a `FlowTree`; a `FlowRef` is the index of one there.

use vstd::prelude::*;

verus! {

/// A handle to a flow: its index in the arena of its `FlowTree`.
pub type FlowRef = usize;

/// An absolutely-positioned descendant, and whether it has reached its containing block.
///
/// The flag tells apart, in an inline flow's pending list, descendants whose containing
/// block is a positioned inline box inside it (set) from those that must keep bubbling up.
#[derive(Clone, Copy, Debug, PartialEq, Eq, Structural)]
pub struct AbsoluteDescendantInfo {
    pub flow: FlowRef,
    pub has_reached_containing_block: bool,
}

/// Absolutely-positioned descendants of a flow, in tree order.
#[derive(Debug)]
pub struct AbsoluteDescendants {
    pub descendant_links: Vec<AbsoluteDescendantInfo>,
}

impl View for AbsoluteDescendants {
    type V = Seq<AbsoluteDescendantInfo>;

    open spec fn view(&self) -> Seq<AbsoluteDescendantInfo> {
        self.descendant_links@
    }
}

/// The flows of a sequence of entries.
pub open spec fn flows_of(s: Seq<AbsoluteDescendantInfo>) -> Seq<FlowRef> {
    s.map_values(|e: AbsoluteDescendantInfo| e.flow)
}

impl AbsoluteDescendants {
    pub fn new() -> (r: AbsoluteDescendants)
        ensures
            r@ == Seq::<AbsoluteDescendantInfo>::empty(),
    {
        AbsoluteDescendants { descendant_links: Vec::new() }
    }

    pub fn len(&self) -> (r: usize)
        ensures
            r == self@.len(),
    {
        self.descendant_links.len()
    }

    pub fn is_empty(&self) -> (r: bool)
        ensures
            r == (self@.len() == 0),
    {
        self.descendant_links.len() == 0
    }

    /// Appends a descendant that has not yet reached its containing block.
    pub fn push(&mut self, given_descendant: FlowRef)
        ensures
            final(self)@ == old(self)@.push(
                AbsoluteDescendantInfo {
                    flow: given_descendant,
                    has_reached_containing_block: false,
                },
            ),
    {
        self.descendant_links.push(
            AbsoluteDescendantInfo { flow: given_descendant, has_reached_containing_block: false },
        );
    }

    /// Appends the given descendants, in their order, after the existing ones.
    pub fn push_descendants(&mut self, given_descendants: AbsoluteDescendants)
        ensures
            final(self)@ == old(self)@ + given_descendants@,
    {
        let mut given = given_descendants;
        self.descendant_links.append(&mut given.descendant_links);
    }

    /// An iterator over the descendant flows, in order.
    pub fn iter(&mut self) -> (r: AbsoluteDescendantIter)
        ensures
            final(self)@ == old(self)@,
            r.flows@ == flows_of(old(self)@),
            r.next_index == 0,
    {
        let mut flows: Vec<FlowRef> = Vec::new();
        let mut k: usize = 0;
        while k < self.descendant_links.len()
            invariant
                k <= self.descendant_links@.len(),
                flows@ == flows_of(self.descendant_links@.take(k as int)),
            decreases self.descendant_links@.len() - k,
        {
            flows.push(self.descendant_links[k].flow);
            k = k + 1;
            proof {
                assert(self.descendant_links@.take(k as int) == self.descendant_links@.take(
                    (k - 1) as int,
                ).push(self.descendant_links@[k - 1]));
            }
        }
        proof {
            assert(self.descendant_links@.take(k as int) == self.descendant_links@);
        }
        AbsoluteDescendantIter { flows, next_index: 0 }
    }

    /// Whether some entry has already reached its containing block: pushing such a list
    /// onto a containing block is suspect, and callers may warn about it first.
    pub fn has_entries_that_reached_containing_block(&self) -> (r: bool)
        ensures
            r == exists|k: int| 0 <= k < self@.len() && (#[trigger] self@[k]).has_reached_containing_block,
    {
        let mut k: usize = 0;
        while k < self.descendant_links.len()
            invariant
                k <= self@.len(),
                forall|j: int| 0 <= j < k ==> !(#[trigger] self@[j]).has_reached_containing_block,
            decreases self@.len() - k,
        {
            if self.descendant_links[k].has_reached_containing_block {
                return true;
            }
            k = k + 1;
        }
        false
    }

    /// Marks every descendant as having reached its containing block.
    pub fn mark_as_having_reached_containing_block(&mut self)
        ensures
            final(self)@.len() == old(self)@.len(),
            forall|k: int|
                0 <= k < old(self)@.len() ==> #[trigger] final(self)@[k] == (AbsoluteDescendantInfo {
                    flow: old(self)@[k].flow,
                    has_reached_containing_block: true,
                }),
    {
        let n = self.descendant_links.len();
        let mut k: usize = 0;
        while k < n
            invariant
                n == old(self)@.len(),
                k <= n,
                self.descendant_links@.len() == n,
                forall|j: int|
                    0 <= j < k ==> #[trigger] self.descendant_links@[j] == (AbsoluteDescendantInfo {
                        flow: old(self)@[j].flow,
                        has_reached_containing_block: true,
                    }),
                forall|j: int| k <= j < n ==> #[trigger] self.descendant_links@[j] == old(self)@[j],
            decreases n - k,
        {
            let flow = self.descendant_links[k].flow;
            self.descendant_links.set(
                k,
                AbsoluteDescendantInfo { flow, has_reached_containing_block: true },
            );
            k = k + 1;
        }
    }
}

impl Default for AbsoluteDescendants {
    fn default() -> (r: Self)
        ensures
            r@ == Seq::<AbsoluteDescendantInfo>::empty(),
    {
        Self::new()
    }
}

/// Walks over the flows of an `AbsoluteDescendants`, in order.
pub struct AbsoluteDescendantIter {
    pub flows: Vec<FlowRef>,
    pub next_index: usize,
}

impl AbsoluteDescendantIter {
    /// The next flow, or `None` once all have been handed out.
    pub fn next(&mut self) -> (r: Option<FlowRef>)
        ensures
            final(self).flows == old(self).flows,
            old(self).next_index < old(self).flows@.len() ==> r == Some(
                old(self).flows@[old(self).next_index as int],
            ) && final(self).next_index == old(self).next_index + 1,
            old(self).next_index >= old(self).flows@.len() ==> r is None && final(self).next_index
                == old(self).next_index,
    {
        if self.next_index < self.flows.len() {
            let f = self.flows[self.next_index];
            self.next_index = self.next_index + 1;
            Some(f)
        } else {
            None
        }
    }

    /// How many flows remain, exactly.
    pub fn size_hint(&self) -> (r: (usize, Option<usize>))
        ensures
            self.next_index <= self.flows@.len() ==> r.0 == self.flows@.len() - self.next_index
                && r.1 == Some(r.0),
            self.next_index > self.flows@.len() ==> r.0 == 0 && r.1 == Some(0usize),
    {
        let left = if self.next_index <= self.flows.len() {
            self.flows.len() - self.next_index
        } else {
            0
        };
        (left, Some(left))
    }
}

/// A link from an absolutely-positioned flow up to its containing block.
///
/// It is weak: it names the containing block without owning it, and is only followed
/// while that ancestor is not itself being laid out.
#[derive(Clone, Copy, Debug, PartialEq, Eq, Structural)]
pub struct ContainingBlockLink {
    pub link: Option<FlowRef>,
}

impl ContainingBlockLink {
    pub fn new() -> (r: ContainingBlockLink)
        ensures
            r.link is None,
    {
        ContainingBlockLink { link: None }
    }

    pub fn set(&mut self, link: FlowRef)
        ensures
            final(self).link == Some(link),
    {
        self.link = Some(link);
    }
}

/// The identity of a flow, for comparison only.
#[derive(Clone, Copy, Debug, PartialEq, Eq, Structural)]
pub struct OpaqueFlow(pub usize);

impl OpaqueFlow {
    pub fn from_flow(flow: FlowRef) -> (r: OpaqueFlow)
        ensures
            r.0 == flow,
    {
        OpaqueFlow(flow)
    }
}

} // verus!
