//! Hot per-flow predicates packed into bit sets, the flow classes, and the few computed
//! style values that flow construction reads.

use vstd::prelude::*;

verus! {

/// The kind of a flow: which formatting context it establishes.
#[derive(Clone, Copy, Debug, PartialEq, Eq, Structural)]
pub enum FlowClass {
    Block,
    Inline,
    ListItem,
    TableWrapper,
    Table,
    TableColGroup,
    TableRowGroup,
    TableRow,
    TableCaption,
    TableCell,
    Multicol,
    MulticolColumn,
    Flex,
}

impl FlowClass {
    pub open spec fn is_block_like_spec(self) -> bool {
        match self {
            FlowClass::Block | FlowClass::ListItem | FlowClass::Table | FlowClass::TableRowGroup
            | FlowClass::TableRow | FlowClass::TableCaption | FlowClass::TableCell
            | FlowClass::TableWrapper | FlowClass::Flex => true,
            _ => false,
        }
    }

    /// Whether flows of this class are block flows or built on one.
    pub fn is_block_like(self) -> (r: bool)
        ensures
            r == self.is_block_like_spec(),
    {
        match self {
            FlowClass::Block | FlowClass::ListItem | FlowClass::Table | FlowClass::TableRowGroup
            | FlowClass::TableRow | FlowClass::TableCaption | FlowClass::TableCell
            | FlowClass::TableWrapper | FlowClass::Flex => true,
            _ => false,
        }
    }
}

/// The side a float is placed on.
#[derive(Clone, Copy, Debug, PartialEq, Eq, Structural)]
pub enum FloatKind {
    Left,
    Right,
}

/// The sides whose floats a flow clears.
#[derive(Clone, Copy, Debug, PartialEq, Eq, Structural)]
pub enum ClearType {
    Left,
    Right,
    Both,
}

/// The computed `position` property.
#[derive(Clone, Copy, Debug, PartialEq, Eq, Structural)]
pub enum Position {
    Static,
    Relative,
    Absolute,
    Fixed,
}

/// Whether a base flow should be forced to be nonfloated. This can affect e.g. a table
/// flow, which is never floated because its table wrapper flow is the floated one.
#[derive(Clone, Copy, Debug, PartialEq, Eq, Structural)]
pub enum ForceNonfloatedFlag {
    /// The flow should be floated if the node has a `float` property.
    FloatIfNecessary,
    /// The flow should be forced to be nonfloated.
    ForceNonfloated,
}

/// This flow is absolutely positioned.
pub const IS_ABSOLUTELY_POSITIONED: u32 = 0x40;
/// This flow clears to the left.
pub const CLEARS_LEFT: u32 = 0x80;
/// This flow clears to the right.
pub const CLEARS_RIGHT: u32 = 0x100;
/// This flow is left-floated.
pub const FLOATS_LEFT: u32 = 0x200;
/// This flow is right-floated.
pub const FLOATS_RIGHT: u32 = 0x400;
/// This flow has a fragment with `counter-reset` or `counter-increment`.
pub const AFFECTS_COUNTERS: u32 = 0x800;
/// This flow's descendants have fragments that affect counters.
pub const HAS_COUNTER_AFFECTING_CHILDREN: u32 = 0x1000;
/// This flow is positioned in the inline direction as if it were `position: static`.
pub const INLINE_POSITION_IS_STATIC: u32 = 0x2000;
/// This flow is positioned in the block direction as if it were `position: static`.
pub const BLOCK_POSITION_IS_STATIC: u32 = 0x4000;
/// Some ancestor is a fragmentation container.
pub const CAN_BE_FRAGMENTED: u32 = 0x8000;
/// This flow contains text and/or replaced fragments.
pub const CONTAINS_TEXT_OR_REPLACED_FRAGMENTS: u32 = 0x10000;
/// Margins may not collapse with this flow.
pub const MARGINS_CANNOT_COLLAPSE: u32 = 0x20000;

/// Flags of a flow, packed into one word.
#[derive(Clone, Copy, Debug, PartialEq, Eq, Structural)]
pub struct FlowFlags {
    pub bits: u32,
}

impl FlowFlags {
    /// Whether every bit of `mask` is set.
    pub open spec fn has(self, mask: u32) -> bool {
        self.bits & mask == mask
    }

    pub fn empty() -> (r: FlowFlags)
        ensures
            r.bits == 0,
    {
        FlowFlags { bits: 0 }
    }

    pub fn from_bits(bits: u32) -> (r: FlowFlags)
        ensures
            r.bits == bits,
    {
        FlowFlags { bits }
    }

    pub fn is_empty(&self) -> (r: bool)
        ensures
            r == (self.bits == 0),
    {
        self.bits == 0
    }

    pub fn contains(&self, mask: u32) -> (r: bool)
        ensures
            r == self.has(mask),
    {
        self.bits & mask == mask
    }

    pub fn insert(&mut self, mask: u32)
        ensures
            final(self).bits == old(self).bits | mask,
    {
        self.bits = self.bits | mask;
    }

    pub fn remove(&mut self, mask: u32)
        ensures
            final(self).bits == old(self).bits & !mask,
    {
        self.bits = self.bits & !mask;
    }

    /// `bits` with the bits of `mask` set when `value` holds, and cleared otherwise.
    pub open spec fn set_spec(bits: u32, mask: u32, value: bool) -> u32 {
        if value { bits | mask } else { bits & !mask }
    }

    /// Sets the bits of `mask` when `value` holds, and clears them otherwise.
    pub fn set(&mut self, mask: u32, value: bool)
        ensures
            final(self).bits == Self::set_spec(old(self).bits, mask, value),
    {
        if value {
            self.insert(mask);
        } else {
            self.remove(mask);
        }
    }

    pub open spec fn float_kind_spec(self) -> Option<FloatKind> {
        if self.has(FLOATS_LEFT) {
            Some(FloatKind::Left)
        } else if self.has(FLOATS_RIGHT) {
            Some(FloatKind::Right)
        } else {
            None
        }
    }

    /// The side this flow floats to; left wins when both bits are set.
    pub fn float_kind(&self) -> (r: Option<FloatKind>)
        ensures
            r == self.float_kind_spec(),
    {
        if self.contains(FLOATS_LEFT) {
            Some(FloatKind::Left)
        } else if self.contains(FLOATS_RIGHT) {
            Some(FloatKind::Right)
        } else {
            None
        }
    }

    pub fn is_float(&self) -> (r: bool)
        ensures
            r == (self.has(FLOATS_LEFT) || self.has(FLOATS_RIGHT)),
    {
        self.contains(FLOATS_LEFT) || self.contains(FLOATS_RIGHT)
    }

    pub fn clears_floats(&self) -> (r: bool)
        ensures
            r == (self.has(CLEARS_LEFT) || self.has(CLEARS_RIGHT)),
    {
        self.contains(CLEARS_LEFT) || self.contains(CLEARS_RIGHT)
    }
}

/// Repaint is needed.
pub const REPAINT: u8 = 0x01;
/// Out-of-flow descendants must be laid out again.
pub const REFLOW_OUT_OF_FLOW: u8 = 0x02;
/// The flow must be laid out again.
pub const REFLOW: u8 = 0x04;
/// The flow must be rebuilt by flow construction.
pub const RECONSTRUCT_FLOW: u8 = 0x08;
/// The element's own style must be recomputed.
pub const RESTYLE_SELF: u8 = 0x10;

/// What must be redone for a flow after a style change.
#[derive(Clone, Copy, Debug, PartialEq, Eq, Structural)]
pub struct RestyleDamage {
    pub bits: u8,
}

impl RestyleDamage {
    pub open spec fn has(self, mask: u8) -> bool {
        self.bits & mask == mask
    }

    pub fn empty() -> (r: RestyleDamage)
        ensures
            r.bits == 0,
    {
        RestyleDamage { bits: 0 }
    }

    /// Everything a flow that was never laid out needs: rebuild, reflow and repaint.
    pub fn rebuild_and_reflow() -> (r: RestyleDamage)
        ensures
            r.bits == REPAINT | REFLOW_OUT_OF_FLOW | REFLOW | RECONSTRUCT_FLOW,
    {
        RestyleDamage { bits: REPAINT | REFLOW_OUT_OF_FLOW | REFLOW | RECONSTRUCT_FLOW }
    }

    pub fn contains(&self, mask: u8) -> (r: bool)
        ensures
            r == self.has(mask),
    {
        self.bits & mask == mask
    }

    pub fn insert(&mut self, mask: u8)
        ensures
            final(self).bits == old(self).bits | mask,
    {
        self.bits = self.bits | mask;
    }

    pub fn remove(&mut self, mask: u8)
        ensures
            final(self).bits == old(self).bits & !mask,
    {
        self.bits = self.bits & !mask;
    }
}

/// Removing the reflow bits leaves neither of them set.
pub proof fn lemma_reflow_bits_removed(bits: u8)
    ensures
        (bits & !(REFLOW_OUT_OF_FLOW | REFLOW)) & REFLOW != REFLOW,
        (bits & !(REFLOW_OUT_OF_FLOW | REFLOW)) & REFLOW_OUT_OF_FLOW != REFLOW_OUT_OF_FLOW,
{
    assert((bits & !(0x02u8 | 0x04u8)) & 0x04u8 != 0x04u8) by (bit_vector);
    assert((bits & !(0x02u8 | 0x04u8)) & 0x02u8 != 0x02u8) by (bit_vector);
}

} // verus!
