//! The arena that holds a flow tree, and flow construction on it.

use vstd::prelude::*;
use crate::absolute::{
    flows_of, AbsoluteDescendantInfo, AbsoluteDescendants, ContainingBlockLink, FlowRef, OpaqueFlow,
};
use crate::geometry::LogicalSize;
use crate::flags::{FlowClass, ForceNonfloatedFlag};
use crate::flow::{BaseFlow, FlowStyle};

verus! {

/// One flow: its class, the style it was built from, and its base record.
#[derive(Debug)]
pub struct FlowNode {
    pub class: FlowClass,
    pub style: FlowStyle,
    pub base: BaseFlow,
    /// Whether this is the root flow, which stretches to the viewport.
    pub is_root: bool,
}

/// A type that carries a base flow record.
pub trait HasBaseFlow {}

/// Access to the base flow record of a flow.
pub trait GetBaseFlow {
    fn base(&self) -> &BaseFlow;
}

impl HasBaseFlow for FlowNode {}

impl GetBaseFlow for FlowNode {
    fn base(&self) -> &BaseFlow {
        &self.base
    }
}

impl ContainingBlockLink {
    /// The size of the containing block that the linked flow generates for `for_flow`:
    /// the box of that flow. The link must have been set.
    pub fn generated_containing_block_size(&self, tree: &FlowTree, for_flow: OpaqueFlow) -> (r:
        LogicalSize)
        requires
            self.link is Some,
            self.link->0 < tree@.len(),
        ensures
            r == tree@[self.link->0 as int].base.position.size,
    {
        match self.link {
            Some(cb) => tree.nodes[cb].base.position.size,
            None => LogicalSize::zero(),
        }
    }
}

/// The flows of a document. A flow's children and absolute descendants are flows added
/// before it.
#[derive(Debug)]
pub struct FlowTree {
    pub nodes: Vec<FlowNode>,
}

/// The parent of flow `i`.
pub open spec fn parent_of(nodes: Seq<FlowNode>, i: int) -> Option<FlowRef> {
    nodes[i].base.parallel.parent
}

/// The children of flow `i`.
pub open spec fn kids_of(nodes: Seq<FlowNode>, i: int) -> Seq<FlowRef> {
    nodes[i].base.children@
}

/// The absolute descendants that flow `i` places.
pub open spec fn abs_of(nodes: Seq<FlowNode>, i: int) -> Seq<AbsoluteDescendantInfo> {
    nodes[i].base.abs_descendants@
}

/// The containing block that flow `i` links to.
pub open spec fn cb_of(nodes: Seq<FlowNode>, i: int) -> Option<FlowRef> {
    nodes[i].base.absolute_cb.link
}

/// Whether `a` lies on the parent path of `d` (strictly above it).
pub open spec fn is_descendant(nodes: Seq<FlowNode>, d: int, a: int) -> bool
    decreases nodes.len() - d,
{
    if 0 <= d < nodes.len() {
        match parent_of(nodes, d) {
            Some(p) => if p <= d || p >= nodes.len() {
                false
            } else if p == a {
                true
            } else {
                is_descendant(nodes, p as int, a)
            },
            None => false,
        }
    } else {
        false
    }
}

/// Ownership of children: each child comes before its parent, is listed once, and
/// links back to that parent; every parent link points to a later flow.
pub open spec fn wf_children(nodes: Seq<FlowNode>) -> bool {
    &&& forall|i: int, k: int|
        0 <= i < nodes.len() && 0 <= k < kids_of(nodes, i).len() ==> {
            &&& #[trigger] kids_of(nodes, i)[k] < i
            &&& parent_of(nodes, kids_of(nodes, i)[k] as int) == Some(i as FlowRef)
        }
    &&& forall|i: int, k1: int, k2: int|
        0 <= i < nodes.len() && 0 <= k1 < k2 < kids_of(nodes, i).len() ==> #[trigger] kids_of(
            nodes,
            i,
        )[k1] != #[trigger] kids_of(nodes, i)[k2]
    &&& forall|c: int|
        0 <= c < nodes.len() && (#[trigger] parent_of(nodes, c)) is Some ==> {
            &&& c < parent_of(nodes, c)->0 < nodes.len()
            &&& kids_of(nodes, parent_of(nodes, c)->0 as int).contains(c as FlowRef)
        }
}

/// The absolute-descendant registry: a flow listed by a containing block links back to
/// it, a linked flow is listed by its containing block, which is one of its ancestors,
/// and no list names a flow twice.
pub open spec fn wf_absolute(nodes: Seq<FlowNode>) -> bool {
    &&& forall|i: int, k: int|
        0 <= i < nodes.len() && 0 <= k < abs_of(nodes, i).len() ==> {
            &&& #[trigger] abs_of(nodes, i)[k].flow < i
            &&& cb_of(nodes, abs_of(nodes, i)[k].flow as int) == Some(i as FlowRef)
        }
    &&& forall|i: int, k1: int, k2: int|
        0 <= i < nodes.len() && 0 <= k1 < k2 < abs_of(nodes, i).len() ==> #[trigger] abs_of(
            nodes,
            i,
        )[k1].flow != #[trigger] abs_of(nodes, i)[k2].flow
    &&& forall|j: int|
        0 <= j < nodes.len() && (#[trigger] cb_of(nodes, j)) is Some ==> {
            &&& cb_of(nodes, j)->0 < nodes.len()
            &&& is_descendant(nodes, j, cb_of(nodes, j)->0 as int)
            &&& flows_of(abs_of(nodes, cb_of(nodes, j)->0 as int)).contains(j as FlowRef)
        }
}

/// Lengths in every flow's style lie in the representable range.
pub open spec fn wf_styles(nodes: Seq<FlowNode>) -> bool {
    forall|i: int| 0 <= i < nodes.len() ==> (#[trigger] nodes[i]).style.valid()
}

/// A descendant comes before its ancestors.
pub proof fn lemma_descendant_is_earlier(nodes: Seq<FlowNode>, d: int, a: int)
    requires
        is_descendant(nodes, d, a),
    ensures
        0 <= d < a < nodes.len(),
    decreases nodes.len() - d,
{
    let p = parent_of(nodes, d)->0;
    if p != a {
        lemma_descendant_is_earlier(nodes, p as int, a);
    }
}

/// Setting the parent of parentless flows, and adding flows, keeps every existing
/// ancestor relation.
pub proof fn lemma_descendant_stable(s1: Seq<FlowNode>, s2: Seq<FlowNode>, d: int, a: int)
    requires
        is_descendant(s1, d, a),
        s1.len() <= s2.len(),
        forall|x: int|
            0 <= x < s1.len() && (#[trigger] parent_of(s1, x)) is Some ==> parent_of(s2, x)
                == parent_of(s1, x),
    ensures
        is_descendant(s2, d, a),
    decreases s1.len() - d,
{
    let p = parent_of(s1, d)->0;
    if p != a {
        lemma_descendant_stable(s1, s2, p as int, a);
    }
}

/// The absolute registry depends only on parent links, lists and back links.
pub proof fn lemma_absolute_frame(s1: Seq<FlowNode>, s2: Seq<FlowNode>)
    requires
        wf_absolute(s1),
        s1.len() <= s2.len(),
        forall|x: int|
            0 <= x < s1.len() && (#[trigger] parent_of(s1, x)) is Some ==> parent_of(s2, x)
                == parent_of(s1, x),
        forall|x: int| 0 <= x < s1.len() ==> #[trigger] abs_of(s2, x) == abs_of(s1, x),
        forall|x: int| 0 <= x < s1.len() ==> #[trigger] cb_of(s2, x) == cb_of(s1, x),
        forall|x: int| s1.len() <= x < s2.len() ==> #[trigger] abs_of(s2, x).len() == 0,
        forall|x: int| s1.len() <= x < s2.len() ==> (#[trigger] cb_of(s2, x)) is None,
    ensures
        wf_absolute(s2),
{
    assert forall|j: int| 0 <= j < s2.len() && (#[trigger] cb_of(s2, j)) is Some implies {
        &&& cb_of(s2, j)->0 < s2.len()
        &&& is_descendant(s2, j, cb_of(s2, j)->0 as int)
        &&& flows_of(abs_of(s2, cb_of(s2, j)->0 as int)).contains(j as FlowRef)
    } by {
        lemma_descendant_stable(s1, s2, j, cb_of(s1, j)->0 as int);
    }
}

impl FlowTree {
    pub open spec fn view(&self) -> Seq<FlowNode> {
        self.nodes@
    }

    /// The arena invariant.
    pub open spec fn wf(&self) -> bool {
        &&& wf_children(self@)
        &&& wf_absolute(self@)
        &&& wf_styles(self@)
    }

    pub fn new() -> (r: FlowTree)
        ensures
            r@.len() == 0,
            r.wf(),
    {
        FlowTree { nodes: Vec::new() }
    }

    pub fn len(&self) -> (r: usize)
        ensures
            r == self@.len(),
    {
        self.nodes.len()
    }

    /// Whether `children` can be adopted by a new flow: each exists, has no parent yet,
    /// and is named once.
    pub open spec fn can_adopt(&self, children: Seq<FlowRef>) -> bool {
        &&& forall|k: int| 0 <= k < children.len() ==> #[trigger] children[k] < self@.len()
        &&& forall|k: int|
            0 <= k < children.len() ==> (#[trigger] parent_of(self@, children[k] as int)) is None
        &&& forall|k1: int, k2: int|
            0 <= k1 < k2 < children.len() ==> #[trigger] children[k1] != #[trigger] children[k2]
    }

    /// Adds a flow over the given children and returns its handle, or `None` when the
    /// children cannot be adopted (unknown, already owned, or repeated).
    pub fn add_flow(
        &mut self,
        class: FlowClass,
        style: FlowStyle,
        force_nonfloated: ForceNonfloatedFlag,
        children: Vec<FlowRef>,
    ) -> (r: Option<FlowRef>)
        requires
            old(self).wf(),
            style.valid(),
            old(self)@.len() < usize::MAX,
        ensures
            final(self).wf(),
            r is None <==> !old(self).can_adopt(children@),
            r is None ==> final(self)@ == old(self)@,
            r is Some ==> {
                &&& r->0 == old(self)@.len()
                &&& final(self)@.len() == old(self)@.len() + 1
                &&& final(self)@[r->0 as int].class == class
                &&& final(self)@[r->0 as int].style == style
                &&& !final(self)@[r->0 as int].is_root
                &&& kids_of(final(self)@, r->0 as int) == children@
                &&& parent_of(final(self)@, r->0 as int) is None
                &&& abs_of(final(self)@, r->0 as int).len() == 0
                &&& cb_of(final(self)@, r->0 as int) is None
                &&& final(self)@[r->0 as int].base.flags.bits == crate::flow::initial_flags(
                    Some(style),
                    force_nonfloated,
                )
                &&& forall|k: int|
                    0 <= k < children@.len() ==> parent_of(final(self)@, #[trigger] children@[k] as int)
                        == Some(r->0)
            },
    {
        let n = self.nodes.len();
        // Check the children before touching anything.
        let mut k: usize = 0;
        while k < children.len()
            invariant
                self@ == old(self)@,
                self.wf(),
                n == self@.len(),
                k <= children@.len(),
                forall|j: int| 0 <= j < k ==> #[trigger] children@[j] < n,
                forall|j: int| 0 <= j < k ==> (#[trigger] parent_of(self@, children@[j] as int)) is None,
                forall|j1: int, j2: int|
                    0 <= j1 < j2 < k ==> #[trigger] children@[j1] != #[trigger] children@[j2],
            decreases children@.len() - k,
        {
            let c = children[k];
            if c >= n {
                return None;
            }
            if self.nodes[c].base.parallel.parent.is_some() {
                proof {
                    assert(parent_of(self@, children@[k as int] as int) is Some);
                }
                return None;
            }
            let mut m: usize = 0;
            while m < k
                invariant
                    self@ == old(self)@,
                    self.wf(),
                    k < children@.len(),
                    c == children@[k as int],
                    m <= k,
                    forall|j: int| 0 <= j < m ==> #[trigger] children@[j] != c,
                decreases k - m,
            {
                if children[m] == c {
                    proof {
                        assert(!self.can_adopt(children@)) by {
                            assert(children@[m as int] == children@[k as int]);
                        }
                    }
                    return None;
                }
                m = m + 1;
            }
            k = k + 1;
        }
        let ghost before = self@;
        let mut base = BaseFlow::new(Some(&style), style.writing_mode, force_nonfloated);
        base.parallel.children_count = children.len();
        base.children = children;
        self.nodes.push(FlowNode { class, style, base, is_root: false });
        let mut k: usize = 0;
        while k < self.nodes[n].base.children.len()
            invariant
                n == before.len(),
                self@.len() == n + 1,
                kids_of(self@, n as int) == children@,
                k <= children@.len(),
                old(self).can_adopt(children@),
                before == old(self)@,
                self@[n as int].class == class,
                self@[n as int].style == style,
                !self@[n as int].is_root,
                parent_of(self@, n as int) is None,
                abs_of(self@, n as int).len() == 0,
                cb_of(self@, n as int) is None,
                self@[n as int].base.flags.bits == crate::flow::initial_flags(Some(style), force_nonfloated),
                forall|x: int| 0 <= x < n ==> #[trigger] kids_of(self@, x) == kids_of(before, x),
                forall|x: int| 0 <= x < n ==> #[trigger] abs_of(self@, x) == abs_of(before, x),
                forall|x: int| 0 <= x < n ==> #[trigger] cb_of(self@, x) == cb_of(before, x),
                forall|x: int| 0 <= x < n ==> #[trigger] self@[x].style == before[x].style,
                forall|x: int|
                    0 <= x < n && !children@.take(k as int).contains(x as FlowRef)
                        ==> #[trigger] parent_of(self@, x) == parent_of(before, x),
                forall|j: int| 0 <= j < k ==> parent_of(self@, #[trigger] children@[j] as int) == Some(n),
            decreases children@.len() - k,
        {
            let c = self.nodes[n].base.children[k];
            proof {
                assert(c == children@[k as int]);
                assert(c < n);
            }
            let ghost prev = self@;
            self.nodes[c].base.parallel.parent = Some(n);
            proof {
                assert(forall|x: int| 0 <= x < self@.len() && x != c ==> self@[x] == prev[x]);
                assert(self@[c as int].base.children == prev[c as int].base.children);
                assert(self@[c as int].base.abs_descendants == prev[c as int].base.abs_descendants);
                assert(self@[c as int].base.absolute_cb == prev[c as int].base.absolute_cb);
                assert(self@[c as int].style == prev[c as int].style);
                assert forall|x: int| 0 <= x < n implies #[trigger] kids_of(self@, x) == kids_of(before, x) by {
                    assert(kids_of(prev, x) == kids_of(before, x));
                }
                assert forall|x: int| 0 <= x < n implies #[trigger] abs_of(self@, x) == abs_of(before, x) by {
                    assert(abs_of(prev, x) == abs_of(before, x));
                }
                assert forall|x: int| 0 <= x < n implies #[trigger] cb_of(self@, x) == cb_of(before, x) by {
                    assert(cb_of(prev, x) == cb_of(before, x));
                }
                assert forall|x: int|
                    0 <= x < n && !children@.take(k + 1).contains(x as FlowRef)
                        implies #[trigger] parent_of(self@, x) == parent_of(before, x) by {
                    if x != c as int {
                        if children@.take(k as int).contains(x as FlowRef) {
                            let j = choose|j: int| 0 <= j < k && children@.take(k as int)[j] == x as FlowRef;
                            assert(children@.take(k + 1)[j] == x as FlowRef);
                        }
                        assert(parent_of(prev, x) == parent_of(before, x));
                    } else {
                        assert(children@.take(k + 1)[k as int] == c);
                    }
                }
                assert forall|j: int| 0 <= j < k + 1 implies parent_of(self@, #[trigger] children@[j] as int) == Some(n) by {
                    if j < k {
                        assert(children@[j] != c);
                    }
                }
            }
            k = k + 1;
        }
        proof {
            let s = self@;
            assert(children@.take(k as int) == children@);
            // Children: old flows keep their lists; the new one lists parentless flows.
            assert forall|i: int, j: int|
                0 <= i < s.len() && 0 <= j < kids_of(s, i).len() implies {
                    &&& #[trigger] kids_of(s, i)[j] < i
                    &&& parent_of(s, kids_of(s, i)[j] as int) == Some(i as FlowRef)
                } by {
                if i < n {
                    let c = kids_of(before, i)[j];
                    if children@.contains(c) {
                        let m = choose|m: int| 0 <= m < children@.len() && children@[m] == c;
                        assert(parent_of(before, children@[m] as int) is None);
                    }
                }
            }
            assert forall|c: int|
                0 <= c < s.len() && (#[trigger] parent_of(s, c)) is Some implies {
                    &&& c < parent_of(s, c)->0 < s.len()
                    &&& kids_of(s, parent_of(s, c)->0 as int).contains(c as FlowRef)
                } by {
                if c < n && children@.contains(c as FlowRef) {
                    let m = choose|m: int| 0 <= m < children@.len() && children@[m] == c as FlowRef;
                    assert(parent_of(s, children@[m] as int) == Some(n));
                } else if c < n {
                    assert(parent_of(s, c) == parent_of(before, c));
                    let p = parent_of(before, c)->0 as int;
                    assert(kids_of(s, p) == kids_of(before, p));
                }
            }
            assert(wf_children(s));
            assert forall|x: int|
                0 <= x < before.len() && (#[trigger] parent_of(before, x)) is Some implies parent_of(s, x)
                    == parent_of(before, x) by {
                if children@.contains(x as FlowRef) {
                    let m = choose|m: int| 0 <= m < children@.len() && children@[m] == x as FlowRef;
                    assert(parent_of(before, children@[m] as int) is None);
                }
            }
            lemma_absolute_frame(before, s);
            assert forall|i: int| 0 <= i < s.len() implies (#[trigger] s[i]).style.valid() by {
                if i < n {
                    assert(s[i].style == before[i].style);
                }
            }
        }
        Some(n)
    }

    /// Whether `links` may be placed by `flow`: each is a descendant of it that has no
    /// containing block yet, and none is named twice.
    pub open spec fn can_place(&self, flow: FlowRef, links: Seq<AbsoluteDescendantInfo>) -> bool {
        &&& forall|k: int|
            0 <= k < links.len() ==> is_descendant(self@, (#[trigger] links[k]).flow as int, flow as int)
        &&& forall|k: int| 0 <= k < links.len() ==> (#[trigger] cb_of(self@, links[k].flow as int)) is None
        &&& forall|k1: int, k2: int|
            0 <= k1 < k2 < links.len() ==> #[trigger] links[k1].flow != #[trigger] links[k2].flow
    }

    /// Makes `flow` the containing block of `links`, appended to its list.
    fn adopt_links(&mut self, flow: FlowRef, links: Vec<AbsoluteDescendantInfo>)
        requires
            old(self).wf(),
            flow < old(self)@.len(),
            old(self).can_place(flow, links@),
        ensures
            final(self).wf(),
            adopted(old(self)@, final(self)@, flow, links@),
    {
        let ghost before = self@;
        let mut k: usize = 0;
        while k < links.len()
            invariant
                wf_children(self@),
                wf_styles(self@),
                same_shape(before, self@),
                before == old(self)@,
                old(self).can_place(flow, links@),
                flow < before.len(),
                k <= links@.len(),
                forall|x: int| 0 <= x < before.len() ==> #[trigger] abs_of(self@, x) == abs_of(before, x),
                forall|x: FlowRef|
                    x < before.len() ==> #[trigger] cb_of(self@, x as int) == if flows_of(
                        links@.take(k as int),
                    ).contains(x) {
                        Some(flow)
                    } else {
                        cb_of(before, x as int)
                    },
            decreases links@.len() - k,
        {
            let d = links[k].flow;
            proof {
                lemma_descendant_is_earlier(before, d as int, flow as int);
            }
            let ghost prev = self@;
            self.nodes[d].base.absolute_cb.set(flow);
            proof {
                assert(forall|x: int| 0 <= x < self@.len() && x != d ==> self@[x] == prev[x]);
                let f0 = flows_of(links@.take(k as int));
                let f1 = flows_of(links@.take(k + 1));
                assert(f1 == f0.push(d));
                assert forall|x: FlowRef| x < before.len() implies #[trigger] cb_of(self@, x as int) == if f1.contains(x) {
                        Some(flow)
                    } else {
                        cb_of(before, x as int)
                    } by {
                    assert(cb_of(prev, x as int) == if f0.contains(x) { Some(flow) } else { cb_of(before, x as int) });
                    if x == d {
                        assert(f1[k as int] == d);
                    } else {
                        if f1.contains(x) {
                            let m = choose|m: int| 0 <= m < f1.len() && f1[m] == x;
                            assert(f0[m] == x);
                        }
                        if f0.contains(x) {
                            let m = choose|m: int| 0 <= m < f0.len() && f0[m] == x;
                            assert(f1[m] == x);
                        }
                    }
                }
                assert forall|x: int| 0 <= x < before.len() implies #[trigger] abs_of(self@, x) == abs_of(before, x) by {
                    assert(abs_of(prev, x) == abs_of(before, x));
                }
                assert(same_shape(prev, self@));
                lemma_shape_keeps_children(prev, self@);
            }
            k = k + 1;
        }
        let mut links = links;
        let ghost added = links@;
        let ghost prev = self@;
        proof {
            assert(links@.take(k as int) == added);
            assert(abs_of(prev, flow as int) == abs_of(before, flow as int));
        }
        self.nodes[flow].base.abs_descendants.descendant_links.append(&mut links);
        let n_nodes = self.nodes.len();
        proof {
            let s = self@;
            assert(s.len() == n_nodes);
            assert(forall|x: int| 0 <= x < s.len() && x != flow ==> s[x] == prev[x]);
            assert(same_shape(prev, s));
            lemma_shape_keeps_children(prev, s);
            assert forall|x: FlowRef| x < s.len() implies #[trigger] cb_of(s, x as int) == if flows_of(added).contains(x) {
                Some(flow)
            } else {
                cb_of(before, x as int)
            } by {
                assert(cb_of(prev, x as int) == cb_of(s, x as int));
            }
            assert forall|x: int| 0 <= x < s.len() && x != flow implies #[trigger] abs_of(s, x) == abs_of(before, x) by {
                assert(abs_of(prev, x) == abs_of(before, x));
            }
            assert(abs_of(s, flow as int) == abs_of(before, flow as int) + added);
            lemma_adopted_wf(before, s, flow, added);
        }
    }

    /// Makes `flow` the containing block of all the given descendants.
    pub fn set_absolute_descendants(&mut self, flow: FlowRef, abs_descendants: AbsoluteDescendants)
        requires
            old(self).wf(),
            flow < old(self)@.len(),
            abs_of(old(self)@, flow as int).len() == 0,
            old(self).can_place(flow, abs_descendants@),
        ensures
            final(self).wf(),
            adopted(old(self)@, final(self)@, flow, abs_descendants@),
            abs_of(final(self)@, flow as int) == abs_descendants@,
    {
        self.adopt_links(flow, abs_descendants.descendant_links);
        proof {
            assert(abs_of(old(self)@, flow as int) + abs_descendants@ == abs_descendants@);
        }
    }

    /// Makes `flow` the containing block of the given descendants too, after those it has.
    pub fn push_absolute_descendants(&mut self, flow: FlowRef, abs_descendants: AbsoluteDescendants)
        requires
            old(self).wf(),
            flow < old(self)@.len(),
            old(self).can_place(flow, abs_descendants@),
        ensures
            final(self).wf(),
            adopted(old(self)@, final(self)@, flow, abs_descendants@),
    {
        self.adopt_links(flow, abs_descendants.descendant_links);
    }

    /// Makes `flow` the containing block of the given descendants that have reached
    /// their containing block (listed afresh, not yet reached), and leaves the others,
    /// in order, in `absolute_descendants` to keep bubbling up.
    pub fn take_applicable_absolute_descendants(
        &mut self,
        flow: FlowRef,
        absolute_descendants: &mut AbsoluteDescendants,
    )
        requires
            old(self).wf(),
            flow < old(self)@.len(),
            abs_of(old(self)@, flow as int).len() == 0,
            old(self).can_place(flow, reached_part(old(absolute_descendants)@)),
        ensures
            final(self).wf(),
            adopted(old(self)@, final(self)@, flow, reached_part(old(absolute_descendants)@)),
            abs_of(final(self)@, flow as int) == reached_part(old(absolute_descendants)@),
            final(absolute_descendants)@ == pending_part(old(absolute_descendants)@),
    {
        let ghost given = absolute_descendants@;
        let mut applicable = AbsoluteDescendants::new();
        let mut remaining: Vec<AbsoluteDescendantInfo> = Vec::new();
        let mut k: usize = 0;
        while k < absolute_descendants.descendant_links.len()
            invariant
                absolute_descendants@ == given,
                k <= given.len(),
                applicable@ == reached_part(given.take(k as int)),
                remaining@ == pending_part(given.take(k as int)),
            decreases given.len() - k,
        {
            let e = absolute_descendants.descendant_links[k];
            proof {
                assert(given.take(k + 1).drop_last() == given.take(k as int));
                assert(given.take(k + 1).last() == e);
            }
            if e.has_reached_containing_block {
                applicable.push(e.flow);
            } else {
                remaining.push(e);
            }
            k = k + 1;
        }
        proof {
            assert(given.take(k as int) == given);
        }
        absolute_descendants.descendant_links = remaining;
        self.adopt_links(flow, applicable.descendant_links);
        proof {
            assert(abs_of(old(self)@, flow as int) + reached_part(given) == reached_part(given));
        }
    }

    /// Ends flow construction: `root`, the last flow, becomes the root flow and the
    /// containing block of the descendants that found no other (the initial containing
    /// block is the root's).
    pub fn finish_construction(&mut self, pending: AbsoluteDescendants)
        requires
            old(self).wf(),
            is_complete(old(self)@),
            old(self)@[old(self)@.len() - 1].class.is_block_like_spec(),
            forall|k: int| 0 <= k < pending@.len() ==> (#[trigger] pending@[k]).flow < old(self)@.len() - 1,
            forall|k: int|
                0 <= k < pending@.len() ==> (#[trigger] cb_of(old(self)@, pending@[k].flow as int)) is None,
            forall|k1: int, k2: int|
                0 <= k1 < k2 < pending@.len() ==> #[trigger] pending@[k1].flow != #[trigger] pending@[k2].flow,
        ensures
            final(self).wf(),
            is_complete(final(self)@),
            final(self)@[final(self)@.len() - 1].is_root,
            forall|k: int|
                0 <= k < pending@.len() ==> cb_of(final(self)@, (#[trigger] pending@[k]).flow as int) == Some(
                    (old(self)@.len() - 1) as FlowRef,
                ),
            abs_of(final(self)@, old(self)@.len() - 1) == abs_of(old(self)@, old(self)@.len() - 1)
                + pending@,
    {
        let root = self.nodes.len() - 1;
        let ghost before = self@;
        proof {
            lemma_complete_reaches_root(self@);
        }
        self.push_absolute_descendants(root, pending);
        let ghost prev = self@;
        self.nodes[root].is_root = true;
        proof {
            let s = self@;
            assert(forall|x: int| 0 <= x < s.len() && x != root ==> s[x] == prev[x]);
            assert forall|x: int| 0 <= x < s.len() implies #[trigger] parent_of(s, x) == parent_of(prev, x) by {}
            assert forall|x: int| 0 <= x < s.len() implies #[trigger] kids_of(s, x) == kids_of(prev, x) by {}
            assert forall|x: int| 0 <= x < s.len() implies #[trigger] abs_of(s, x) == abs_of(prev, x) by {}
            assert forall|x: int| 0 <= x < s.len() implies #[trigger] cb_of(s, x) == cb_of(prev, x) by {}
            assert forall|x: int| 0 <= x < s.len() implies (#[trigger] s[x]).style == prev[x].style by {}
            lemma_absolute_frame(prev, s);
            assert(same_shape(before, prev));
            assert forall|i: int| 0 <= i < s.len() implies #[trigger] parent_of(s, i) == parent_of(before, i) by {
                assert(prev[i].base.parallel.parent == before[i].base.parallel.parent);
            }
            assert forall|k: int| 0 <= k < pending@.len() implies cb_of(s, (#[trigger] pending@[k]).flow as int)
                == Some((old(self)@.len() - 1) as FlowRef) by {
                assert(flows_of(pending@)[k] == pending@[k].flow);
                assert(flows_of(pending@).contains(pending@[k].flow));
                assert(cb_of(prev, pending@[k].flow as int) == Some(root));
            }
        }
    }

    /// Marks `flow` as the root flow, which stretches to the viewport.
    pub fn mark_as_root(&mut self, flow: FlowRef)
        requires
            old(self).wf(),
            flow < old(self)@.len(),
            old(self)@[flow as int].class.is_block_like_spec(),
        ensures
            final(self).wf(),
            final(self)@.len() == old(self)@.len(),
            final(self)@[flow as int].is_root,
            forall|x: int| 0 <= x < old(self)@.len() && x != flow ==> final(self)@[x] == old(self)@[x],
            final(self)@[flow as int].base == old(self)@[flow as int].base,
            final(self)@[flow as int].class == old(self)@[flow as int].class,
            final(self)@[flow as int].style == old(self)@[flow as int].style,
    {
        let ghost prev = self@;
        self.nodes[flow].is_root = true;
        proof {
            let s = self@;
            assert forall|x: int| 0 <= x < s.len() implies #[trigger] parent_of(s, x) == parent_of(prev, x) by {}
            assert forall|x: int| 0 <= x < s.len() implies #[trigger] kids_of(s, x) == kids_of(prev, x) by {}
            assert forall|x: int| 0 <= x < s.len() implies #[trigger] abs_of(s, x) == abs_of(prev, x) by {}
            assert forall|x: int| 0 <= x < s.len() implies #[trigger] cb_of(s, x) == cb_of(prev, x) by {}
            assert forall|x: int| 0 <= x < s.len() implies (#[trigger] s[x]).style == prev[x].style by {}
            lemma_absolute_frame(prev, s);
        }
    }
}

/// The entries of `s` that have reached their containing block, in order, listed afresh
/// as not having reached one.
pub open spec fn reached_part(s: Seq<AbsoluteDescendantInfo>) -> Seq<AbsoluteDescendantInfo>
    decreases s.len(),
{
    if s.len() == 0 {
        Seq::empty()
    } else {
        let r = reached_part(s.drop_last());
        if s.last().has_reached_containing_block {
            r.push(AbsoluteDescendantInfo { flow: s.last().flow, has_reached_containing_block: false })
        } else {
            r
        }
    }
}

/// The entries of `s` that have not reached their containing block, in order.
pub open spec fn pending_part(s: Seq<AbsoluteDescendantInfo>) -> Seq<AbsoluteDescendantInfo>
    decreases s.len(),
{
    if s.len() == 0 {
        Seq::empty()
    } else {
        let r = pending_part(s.drop_last());
        if s.last().has_reached_containing_block {
            r
        } else {
            r.push(s.last())
        }
    }
}

/// A finished tree: the last flow is the only one without a parent.
pub open spec fn is_complete(s: Seq<FlowNode>) -> bool {
    &&& s.len() > 0
    &&& parent_of(s, s.len() - 1) is None
    &&& forall|i: int| 0 <= i < s.len() - 1 ==> (#[trigger] parent_of(s, i)) is Some
}

/// In a finished tree, the parent path of every flow but the root ends at the root,
/// which has no parent; so does that of every child of every flow.
pub proof fn lemma_complete_reaches_root(s: Seq<FlowNode>)
    requires
        wf_children(s),
        is_complete(s),
    ensures
        forall|i: int| 0 <= i < s.len() - 1 ==> #[trigger] is_descendant(s, i, s.len() - 1),
        forall|i: int, k: int|
            0 <= i < s.len() && 0 <= k < kids_of(s, i).len() ==> is_descendant(
                s,
                #[trigger] kids_of(s, i)[k] as int,
                s.len() - 1,
            ),
        parent_of(s, s.len() - 1) is None,
{
    assert forall|i: int| 0 <= i < s.len() - 1 implies #[trigger] is_descendant(s, i, s.len() - 1) by {
        lemma_reaches_root_from(s, i);
    }
    assert forall|i: int, k: int|
        0 <= i < s.len() && 0 <= k < kids_of(s, i).len() implies is_descendant(
            s,
            #[trigger] kids_of(s, i)[k] as int,
            s.len() - 1,
        ) by {
        lemma_reaches_root_from(s, kids_of(s, i)[k] as int);
    }
}

proof fn lemma_reaches_root_from(s: Seq<FlowNode>, i: int)
    requires
        wf_children(s),
        is_complete(s),
        0 <= i < s.len() - 1,
    ensures
        is_descendant(s, i, s.len() - 1),
    decreases s.len() - i,
{
    let p = parent_of(s, i)->0;
    if p != s.len() - 1 {
        lemma_reaches_root_from(s, p as int);
    }
}

/// An edge of ownership: `b` is a child of `a`, or an absolute descendant it places.
pub open spec fn strong_edge(s: Seq<FlowNode>, a: int, b: int) -> bool {
    kids_of(s, a).contains(b as FlowRef) || flows_of(abs_of(s, a)).contains(b as FlowRef)
}

/// Following ownership edges always leads to earlier flows, so the ownership graph has
/// no cycle; and a containing-block link always leads to a strict ancestor, so the weak
/// links point upward only.
pub proof fn lemma_no_ownership_cycles(s: Seq<FlowNode>, path: Seq<int>)
    requires
        wf_children(s),
        wf_absolute(s),
        s.len() <= usize::MAX,
        path.len() >= 2,
        forall|k: int| 0 <= k < path.len() ==> 0 <= #[trigger] path[k] < s.len(),
        forall|k: int| 0 <= k < path.len() - 1 ==> strong_edge(s, #[trigger] path[k], path[k + 1]),
    ensures
        path[0] > path[path.len() - 1],
        path[0] != path[path.len() - 1],
        forall|j: int|
            0 <= j < s.len() && (#[trigger] cb_of(s, j)) is Some ==> is_descendant(s, j, cb_of(s, j)->0 as int)
                && j < cb_of(s, j)->0,
    decreases path.len(),
{
    assert forall|k: int| 0 <= k < path.len() - 1 implies #[trigger] path[k] > path[k + 1] by {
        let a = path[k];
        let b = path[k + 1];
        assert(strong_edge(s, a, b));
        if kids_of(s, a).contains(b as FlowRef) {
            let m = choose|m: int| 0 <= m < kids_of(s, a).len() && kids_of(s, a)[m] == b as FlowRef;
            assert(kids_of(s, a)[m] < a);
        } else {
            let fl = flows_of(abs_of(s, a));
            let m = choose|m: int| 0 <= m < fl.len() && fl[m] == b as FlowRef;
            assert(abs_of(s, a)[m].flow < a);
        }
    }
    if path.len() > 2 {
        lemma_no_ownership_cycles(s, path.drop_first());
        assert(path.drop_first()[0] == path[1]);
    }
    assert forall|j: int|
        0 <= j < s.len() && (#[trigger] cb_of(s, j)) is Some implies is_descendant(s, j, cb_of(s, j)->0 as int)
            && j < cb_of(s, j)->0 by {
        lemma_descendant_is_earlier(s, j, cb_of(s, j)->0 as int);
    }
}

/// Once construction has given every absolutely-positioned flow its containing block,
/// each such flow is listed by exactly one flow, an ancestor of it, and there once.
pub proof fn lemma_containing_block_unique(s: Seq<FlowNode>, j: int)
    requires
        wf_absolute(s),
        0 <= j < s.len(),
        s.len() <= usize::MAX,
        s[j].base.flags.has(crate::flags::IS_ABSOLUTELY_POSITIONED),
        forall|x: int|
            0 <= x < s.len() && (#[trigger] s[x]).base.flags.has(crate::flags::IS_ABSOLUTELY_POSITIONED)
                ==> cb_of(s, x) is Some,
    ensures
        ({
            let p = cb_of(s, j)->0 as int;
            &&& is_descendant(s, j, p)
            &&& forall|i: int|
                0 <= i < s.len() ==> (flows_of(#[trigger] abs_of(s, i)).contains(j as FlowRef) <==> i == p)
            &&& forall|m1: int, m2: int|
                0 <= m1 < abs_of(s, p).len() && 0 <= m2 < abs_of(s, p).len() && abs_of(s, p)[m1].flow
                    == j && abs_of(s, p)[m2].flow == j ==> m1 == m2
        }),
{
    let p = cb_of(s, j)->0 as int;
    assert(cb_of(s, j) is Some);
    assert forall|i: int|
        0 <= i < s.len() implies (flows_of(#[trigger] abs_of(s, i)).contains(j as FlowRef) <==> i == p) by {
        if flows_of(abs_of(s, i)).contains(j as FlowRef) {
            let fl = flows_of(abs_of(s, i));
            let m = choose|m: int| 0 <= m < fl.len() && fl[m] == j as FlowRef;
            assert(abs_of(s, i)[m].flow == j as FlowRef);
            assert(cb_of(s, abs_of(s, i)[m].flow as int) == Some(i as FlowRef));
        }
    }
    assert forall|m1: int, m2: int|
        0 <= m1 < abs_of(s, p).len() && 0 <= m2 < abs_of(s, p).len() && abs_of(s, p)[m1].flow == j
            && abs_of(s, p)[m2].flow == j implies m1 == m2 by {
        if m1 < m2 {
            assert(abs_of(s, p)[m1].flow != abs_of(s, p)[m2].flow);
        } else if m2 < m1 {
            assert(abs_of(s, p)[m2].flow != abs_of(s, p)[m1].flow);
        }
    }
}

/// `s2` is `s1` after `flow` became the containing block of `links`: the shape is kept,
/// `links` is appended to the list of `flow`, and exactly the flows of `links` now link
/// to `flow`.
pub open spec fn adopted(
    s1: Seq<FlowNode>,
    s2: Seq<FlowNode>,
    flow: FlowRef,
    links: Seq<AbsoluteDescendantInfo>,
) -> bool {
    &&& same_shape(s1, s2)
    &&& abs_of(s2, flow as int) == abs_of(s1, flow as int) + links
    &&& forall|x: int| 0 <= x < s1.len() && x != flow ==> #[trigger] abs_of(s2, x) == abs_of(s1, x)
    &&& forall|x: FlowRef|
        x < s1.len() ==> #[trigger] cb_of(s2, x as int) == if flows_of(links).contains(x) {
            Some(flow)
        } else {
            cb_of(s1, x as int)
        }
}

/// Adopting placeable links keeps the registry well formed.
proof fn lemma_adopted_wf(s1: Seq<FlowNode>, s2: Seq<FlowNode>, flow: FlowRef, added: Seq<AbsoluteDescendantInfo>)
    requires
        wf_children(s1),
        wf_absolute(s1),
        flow < s1.len(),
        s2.len() <= usize::MAX,
        adopted(s1, s2, flow, added),
        forall|k: int| 0 <= k < added.len() ==> is_descendant(s1, (#[trigger] added[k]).flow as int, flow as int),
        forall|k: int| 0 <= k < added.len() ==> (#[trigger] cb_of(s1, added[k].flow as int)) is None,
        forall|k1: int, k2: int| 0 <= k1 < k2 < added.len() ==> #[trigger] added[k1].flow != #[trigger] added[k2].flow,
    ensures
        wf_absolute(s2),
{
    assert(forall|x: int| 0 <= x < s1.len() ==> #[trigger] parent_of(s2, x) == parent_of(s1, x));
    let ol = abs_of(s1, flow as int).len();
    assert forall|m: int| 0 <= m < added.len() implies #[trigger] flows_of(added)[m] == added[m].flow
        && added[m].flow < flow && cb_of(s2, added[m].flow as int) == Some(flow) by {
        lemma_descendant_is_earlier(s1, added[m].flow as int, flow as int);
        assert(flows_of(added)[m] == added[m].flow);
        assert(flows_of(added).contains(added[m].flow));
    }
    assert forall|i: int, m: int|
        0 <= i < s2.len() && 0 <= m < abs_of(s2, i).len() implies {
            &&& #[trigger] abs_of(s2, i)[m].flow < i
            &&& cb_of(s2, abs_of(s2, i)[m].flow as int) == Some(i as FlowRef)
        } by {
        if i == flow && m >= ol {
            assert(abs_of(s2, i)[m] == added[m - ol]);
            assert(flows_of(added)[m - ol] == added[m - ol].flow);
        } else {
            let e = abs_of(s1, i)[m];
            if i != flow {
                assert(abs_of(s2, i) == abs_of(s1, i));
            }
            assert(abs_of(s2, i)[m] == e);
            assert(cb_of(s2, e.flow as int) == if flows_of(added).contains(e.flow) {
                Some(flow)
            } else {
                cb_of(s1, e.flow as int)
            });
            assert(cb_of(s1, e.flow as int) == Some(i as FlowRef));
            if flows_of(added).contains(e.flow) {
                let q = choose|q: int| 0 <= q < added.len() && flows_of(added)[q] == e.flow;
                assert(cb_of(s1, added[q].flow as int) is None);
            }
        }
    }
    assert forall|i: int, m1: int, m2: int|
        0 <= i < s2.len() && 0 <= m1 < m2 < abs_of(s2, i).len() implies #[trigger] abs_of(s2, i)[m1].flow
            != #[trigger] abs_of(s2, i)[m2].flow by {
        if i == flow {
            if m1 < ol && m2 >= ol {
                let e1 = abs_of(s1, i)[m1];
                assert(cb_of(s1, e1.flow as int) == Some(i as FlowRef));
                assert(cb_of(s1, added[m2 - ol].flow as int) is None);
            } else if m1 >= ol {
                assert(added[m1 - ol].flow != added[m2 - ol].flow);
            }
        }
    }
    assert forall|j: int| 0 <= j < s2.len() && (#[trigger] cb_of(s2, j)) is Some implies {
        &&& cb_of(s2, j)->0 < s2.len()
        &&& is_descendant(s2, j, cb_of(s2, j)->0 as int)
        &&& flows_of(abs_of(s2, cb_of(s2, j)->0 as int)).contains(j as FlowRef)
    } by {
        let x = j as FlowRef;
        assert(x as int == j);
        if flows_of(added).contains(x) {
            let q = choose|q: int| 0 <= q < added.len() && flows_of(added)[q] == x;
            lemma_descendant_stable(s1, s2, added[q].flow as int, flow as int);
            assert(abs_of(s2, flow as int)[ol + q] == added[q]);
            assert(flows_of(abs_of(s2, flow as int))[ol + q] == x);
        } else {
            let p = cb_of(s1, j)->0 as int;
            lemma_descendant_stable(s1, s2, j, p);
            let fl = flows_of(abs_of(s1, p));
            let q = choose|q: int| 0 <= q < fl.len() && fl[q] == x;
            assert(abs_of(s2, p)[q] == abs_of(s1, p)[q]);
            assert(flows_of(abs_of(s2, p))[q] == x);
        }
    }
}

/// Two arenas of the same shape agree on the children part of the invariant and on styles.
pub proof fn lemma_shape_keeps_children(s1: Seq<FlowNode>, s2: Seq<FlowNode>)
    requires
        same_shape(s1, s2),
        wf_children(s1),
        wf_styles(s1),
    ensures
        wf_children(s2),
        wf_styles(s2),
{
    assert(forall|i: int| 0 <= i < s1.len() ==> #[trigger] kids_of(s2, i) == kids_of(s1, i));
    assert(forall|i: int| 0 <= i < s1.len() ==> #[trigger] parent_of(s2, i) == parent_of(s1, i));
    assert forall|i: int| 0 <= i < s2.len() implies (#[trigger] s2[i]).style.valid() by {
        assert(s2[i].style == s1[i].style);
    }
}

/// Changing only what layout computes keeps the arena invariant.
pub proof fn lemma_frame_wf(s1: Seq<FlowNode>, s2: Seq<FlowNode>)
    requires
        wf_children(s1),
        wf_absolute(s1),
        wf_styles(s1),
        same_shape(s1, s2),
        forall|x: int| 0 <= x < s1.len() ==> #[trigger] abs_of(s2, x) == abs_of(s1, x),
        forall|x: int| 0 <= x < s1.len() ==> #[trigger] cb_of(s2, x) == cb_of(s1, x),
    ensures
        wf_children(s2),
        wf_absolute(s2),
        wf_styles(s2),
{
    lemma_shape_keeps_children(s1, s2);
    assert(forall|x: int| 0 <= x < s1.len() ==> #[trigger] parent_of(s2, x) == parent_of(s1, x));
    lemma_absolute_frame(s1, s2);
}

/// The shape of the tree and every input of layout are the same in both.
pub open spec fn same_shape(s1: Seq<FlowNode>, s2: Seq<FlowNode>) -> bool {
    &&& s1.len() == s2.len()
    &&& forall|x: int|
        0 <= x < s1.len() ==> {
            &&& (#[trigger] s2[x]).class == s1[x].class
            &&& s2[x].style == s1[x].style
            &&& s2[x].is_root == s1[x].is_root
            &&& s2[x].base.children == s1[x].base.children
            &&& s2[x].base.parallel.parent == s1[x].base.parallel.parent
            &&& s2[x].base.flags == s1[x].base.flags
            &&& s2[x].base.writing_mode == s1[x].base.writing_mode
        }
}

} // verus!
