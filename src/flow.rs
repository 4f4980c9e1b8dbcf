//! Flows and the arena that holds the flow tree.
//!
//! Every flow lives in a `FlowTree` and is named by its index there. A flow is added
//! after its children, so a child's index is always below its parent's: ascending index
//! order is a valid bottom-up order, descending a valid top-down one. A parent owns its
//! children; a containing block owns its absolute descendants; an absolutely-positioned
//! flow names its containing block through a weak link that points to an ancestor.

use vstd::prelude::*;
use app_units::Au;
use euclid::default::{Point2D, Rect, Vector2D};
use crate::absolute::{
    flows_of, AbsoluteDescendantInfo, AbsoluteDescendants, ContainingBlockLink, FlowRef,
};
use crate::flags::{
    ClearType, FloatKind, FlowFlags, ForceNonfloatedFlag, Position, RestyleDamage,
    AFFECTS_COUNTERS, BLOCK_POSITION_IS_STATIC, CAN_BE_FRAGMENTED, CLEARS_LEFT, CLEARS_RIGHT,
    FLOATS_LEFT, FLOATS_RIGHT, INLINE_POSITION_IS_STATIC, IS_ABSOLUTELY_POSITIONED,
    RECONSTRUCT_FLOW, REFLOW, REFLOW_OUT_OF_FLOW, REPAINT,
};
use crate::geometry::{make_rect, rect_valid, rect_view, LogicalRect, LogicalSize, RectModel, WritingMode};
use crate::units::{au_valid, MAX_AU_VALUE};

verus! {

/// The computed values and fragment facts of one flow that layout reads.
#[derive(Clone, Copy, Debug)]
pub struct FlowStyle {
    pub position: Position,
    /// The float side, already resolved against the writing mode.
    pub float: Option<FloatKind>,
    pub clear: Option<ClearType>,
    pub writing_mode: WritingMode,
    /// Whether `inline-start`, `inline-end`, `block-start` and `block-end` are `auto`.
    pub inline_start_is_auto: bool,
    pub inline_end_is_auto: bool,
    pub block_start_is_auto: bool,
    pub block_end_is_auto: bool,
    /// The `inline-start` and `block-start` offsets, used when they are not `auto`.
    pub inline_start_offset: Au,
    pub block_start_offset: Au,
    pub can_be_fragmented: bool,
    /// `counter-reset` or `counter-increment` is non-empty.
    pub affects_counters: bool,
    pub overflow_x_is_visible: bool,
    pub overflow_y_is_visible: bool,
    /// The `transform` list is non-empty.
    pub has_transform: bool,
    /// The transform cannot be inverted, or scales by zero.
    pub transform_is_non_invertible: bool,
    pub establishes_stacking_context: bool,
    /// Intrinsic inline sizes of the flow's own fragments.
    pub content_minimum_inline_size: Au,
    pub content_preferred_inline_size: Au,
    /// Block size of the flow's own fragments, before its children.
    pub content_block_size: Au,
    /// For an inline flow, the offset of its last line box's baseline, if it has lines.
    pub last_line_baseline: Option<Au>,
}

impl FlowStyle {
    /// Every length in the style lies in the representable range, and the content sizes
    /// are non-negative with the minimum inline size at most the preferred one.
    pub open spec fn valid(self) -> bool {
        &&& au_valid(self.inline_start_offset) && au_valid(self.block_start_offset)
        &&& au_valid(self.content_minimum_inline_size) && au_valid(
            self.content_preferred_inline_size,
        ) && au_valid(self.content_block_size)
        &&& 0 <= self.content_minimum_inline_size.0 <= self.content_preferred_inline_size.0
        &&& 0 <= self.content_block_size.0
        &&& self.last_line_baseline matches Some(b) ==> au_valid(b)
    }

    /// A static, non-floated, visible flow with no content, written horizontally.
    pub fn initial() -> (r: FlowStyle)
        ensures
            r.valid(),
            r.position == Position::Static,
            r.float is None,
            r.clear is None,
            !r.writing_mode.vertical && !r.writing_mode.vertical_lr && !r.writing_mode.rtl
                && !r.writing_mode.sideways,
            r.inline_start_is_auto && r.inline_end_is_auto && r.block_start_is_auto
                && r.block_end_is_auto,
            r.inline_start_offset.0 == 0 && r.block_start_offset.0 == 0,
            !r.can_be_fragmented && !r.affects_counters,
            r.overflow_x_is_visible && r.overflow_y_is_visible,
            !r.has_transform && !r.transform_is_non_invertible && !r.establishes_stacking_context,
            r.content_minimum_inline_size.0 == 0 && r.content_preferred_inline_size.0 == 0
                && r.content_block_size.0 == 0,
            r.last_line_baseline is None,
    {
        FlowStyle {
            position: Position::Static,
            float: None,
            clear: None,
            writing_mode: WritingMode::horizontal_tb(),
            inline_start_is_auto: true,
            inline_end_is_auto: true,
            block_start_is_auto: true,
            block_end_is_auto: true,
            inline_start_offset: Au(0),
            block_start_offset: Au(0),
            can_be_fragmented: false,
            affects_counters: false,
            overflow_x_is_visible: true,
            overflow_y_is_visible: true,
            has_transform: false,
            transform_is_non_invertible: false,
            establishes_stacking_context: false,
            content_minimum_inline_size: Au(0),
            content_preferred_inline_size: Au(0),
            content_block_size: Au(0),
            last_line_baseline: None,
        }
    }
}

/// Minimum and preferred inline sizes.
#[derive(Clone, Copy, Debug)]
pub struct IntrinsicISizes {
    pub minimum_inline_size: Au,
    pub preferred_inline_size: Au,
}

/// Paint and scroll overflow, in the flow's own coordinates.
#[derive(Clone, Copy, Debug)]
pub struct Overflow {
    pub paint: Rect<Au>,
    pub scroll: Rect<Au>,
}

/// Upper bounds on how far floats intrude from the left and right.
#[derive(Clone, Copy, Debug)]
pub struct SpeculatedFloatPlacement {
    pub left: Au,
    pub right: Au,
}

/// Bookkeeping for parallel traversals: children left to finish, and the parent.
#[derive(Clone, Copy, Debug)]
pub struct FlowParallelInfo {
    pub children_count: usize,
    pub parent: Option<FlowRef>,
}

/// The identifier of a stacking context; the root's is zero.
#[derive(Clone, Copy, Debug, PartialEq, Eq, Structural)]
pub struct StackingContextId(pub usize);

/// Information needed to compute viewport-relative positions, captured while block
/// sizes are assigned.
#[derive(Clone, Copy, Debug)]
pub struct EarlyAbsolutePositionInfo {
    /// The size of the containing block for relatively-positioned descendants.
    pub relative_containing_block_size: LogicalSize,
    /// The writing mode of `relative_containing_block_size`.
    pub relative_containing_block_mode: WritingMode,
}

impl EarlyAbsolutePositionInfo {
    pub fn new(writing_mode: WritingMode) -> (r: EarlyAbsolutePositionInfo)
        ensures
            r.relative_containing_block_size.inline.0 == 0,
            r.relative_containing_block_size.block.0 == 0,
            r.relative_containing_block_mode == writing_mode,
    {
        EarlyAbsolutePositionInfo {
            relative_containing_block_size: LogicalSize::zero(),
            relative_containing_block_mode: writing_mode,
        }
    }
}

/// Information needed to compute viewport-relative positions, captured during final
/// position assignment.
#[derive(Clone, Copy, Debug)]
pub struct LateAbsolutePositionInfo {
    /// The position of the absolute containing block relative to the nearest ancestor
    /// stacking context.
    pub stacking_relative_position_of_absolute_containing_block: Point2D<Au>,
}

impl LateAbsolutePositionInfo {
    pub fn new() -> (r: LateAbsolutePositionInfo)
        ensures
            r.stacking_relative_position_of_absolute_containing_block.x.0 == 0,
            r.stacking_relative_position_of_absolute_containing_block.y.0 == 0,
    {
        LateAbsolutePositionInfo {
            stacking_relative_position_of_absolute_containing_block: Point2D::new(Au(0), Au(0)),
        }
    }
}

impl Default for LateAbsolutePositionInfo {
    fn default() -> (r: Self)
        ensures
            r.stacking_relative_position_of_absolute_containing_block.x.0 == 0,
            r.stacking_relative_position_of_absolute_containing_block.y.0 == 0,
    {
        Self::new()
    }
}

/// The room left in the current fragmentainer.
#[derive(Clone, Copy, Debug)]
pub struct FragmentationContext {
    pub available_block_size: Au,
    pub this_fragment_is_empty: bool,
}

/// `bits` with `mask` added when `cond` holds.
pub open spec fn with_if(bits: u32, cond: bool, mask: u32) -> u32 {
    if cond { bits | mask } else { bits }
}

/// The flags a new flow starts with, given its style (if any) and whether it may float.
pub open spec fn initial_flags(style: Option<FlowStyle>, force: ForceNonfloatedFlag) -> u32 {
    match style {
        None => 0u32 | (BLOCK_POSITION_IS_STATIC | INLINE_POSITION_IS_STATIC),
        Some(s) => {
            let out_of_flow = s.position == Position::Absolute || s.position == Position::Fixed;
            let floats = force == ForceNonfloatedFlag::FloatIfNecessary;
            let f1 = with_if(0u32, s.can_be_fragmented, CAN_BE_FRAGMENTED);
            let f2 = if out_of_flow {
                let a = f1 | IS_ABSOLUTELY_POSITIONED;
                let b = with_if(
                    a,
                    s.inline_start_is_auto && s.inline_end_is_auto,
                    INLINE_POSITION_IS_STATIC,
                );
                with_if(b, s.block_start_is_auto && s.block_end_is_auto, BLOCK_POSITION_IS_STATIC)
            } else {
                f1 | (BLOCK_POSITION_IS_STATIC | INLINE_POSITION_IS_STATIC)
            };
            let f3 = with_if(f2, floats && s.float == Some(FloatKind::Left), FLOATS_LEFT);
            let f4 = with_if(f3, floats && s.float == Some(FloatKind::Right), FLOATS_RIGHT);
            let f5 = with_if(
                f4,
                s.clear == Some(ClearType::Left) || s.clear == Some(ClearType::Both),
                CLEARS_LEFT,
            );
            let f6 = with_if(
                f5,
                s.clear == Some(ClearType::Right) || s.clear == Some(ClearType::Both),
                CLEARS_RIGHT,
            );
            with_if(f6, s.affects_counters, AFFECTS_COUNTERS)
        },
    }
}

/// Data common to all flows.
#[derive(Debug)]
pub struct BaseFlow {
    pub restyle_damage: RestyleDamage,
    /// The children of this flow, in document order.
    pub children: Vec<FlowRef>,
    pub intrinsic_inline_sizes: IntrinsicISizes,
    /// The box of this flow relative to its parent's, or to its containing block's for an
    /// absolutely-positioned flow: the border box on the block axis, the margin box on
    /// the inline axis.
    pub position: LogicalRect,
    pub overflow: Overflow,
    pub parallel: FlowParallelInfo,
    pub speculated_float_placement_in: SpeculatedFloatPlacement,
    pub speculated_float_placement_out: SpeculatedFloatPlacement,
    /// The position of this flow relative to the nearest ancestor stacking context.
    pub stacking_relative_position: Vector2D<Au>,
    /// Descendants with position `absolute` or `fixed` whose containing block this is.
    pub abs_descendants: AbsoluteDescendants,
    pub block_container_inline_size: Au,
    pub block_container_writing_mode: WritingMode,
    pub block_container_explicit_block_size: Option<Au>,
    /// The containing block, if this flow is absolutely positioned.
    pub absolute_cb: ContainingBlockLink,
    pub early_absolute_position_info: EarlyAbsolutePositionInfo,
    pub late_absolute_position_info: LateAbsolutePositionInfo,
    /// The clip of this flow and its descendants, in stacking-context coordinates.
    pub clip: Rect<Au>,
    pub writing_mode: WritingMode,
    /// The worker that last laid this flow out.
    pub thread_id: u8,
    pub flags: FlowFlags,
    /// The stacking context holding this flow; `None` before collection, and for flows
    /// skipped by it.
    pub stacking_context_id: Option<StackingContextId>,
}

/// Where the largest rectangle starts on both axes: half the smallest length.
pub const MAX_RECT_ORIGIN: i32 = -536870911;

/// The rectangle of `max_rect`.
pub open spec fn max_rect_model() -> RectModel {
    RectModel { x: MAX_RECT_ORIGIN as int, y: MAX_RECT_ORIGIN as int, w: MAX_AU_VALUE as int, h: MAX_AU_VALUE as int }
}

/// The clip of a flow that nothing clips: as large as lengths allow.
pub fn max_rect() -> (r: Rect<Au>)
    ensures
        rect_valid(r),
        rect_view(r) == max_rect_model(),
{
    make_rect(Au(MAX_RECT_ORIGIN), Au(MAX_RECT_ORIGIN), Au(MAX_AU_VALUE), Au(MAX_AU_VALUE))
}

impl BaseFlow {
    /// A flow with no children, not yet laid out, fully damaged but for reconstruction.
    pub fn new(
        style: Option<&FlowStyle>,
        writing_mode: WritingMode,
        force_nonfloated: ForceNonfloatedFlag,
    ) -> (r: BaseFlow)
        ensures
            r.flags.bits == initial_flags(
                match style {
                    Some(s) => Some(*s),
                    None => None,
                },
                force_nonfloated,
            ),
            r.restyle_damage.bits == (REPAINT | REFLOW_OUT_OF_FLOW | REFLOW | RECONSTRUCT_FLOW)
                & !RECONSTRUCT_FLOW,
            r.children@.len() == 0,
            r.abs_descendants@.len() == 0,
            r.absolute_cb.link is None,
            r.parallel.parent is None,
            r.parallel.children_count == 0,
            r.writing_mode == writing_mode,
            r.block_container_writing_mode == writing_mode,
            r.position.view() == LogicalRect::zero_spec(),
            r.position.valid(),
            r.intrinsic_inline_sizes.minimum_inline_size.0 == 0,
            r.intrinsic_inline_sizes.preferred_inline_size.0 == 0,
            r.speculated_float_placement_in.left.0 == 0,
            r.speculated_float_placement_in.right.0 == 0,
            r.speculated_float_placement_out.left.0 == 0,
            r.speculated_float_placement_out.right.0 == 0,
            r.block_container_inline_size.0 == 0,
            r.block_container_explicit_block_size is None,
            r.thread_id == 0,
            r.stacking_context_id is None,
            rect_valid(r.overflow.paint) && rect_valid(r.overflow.scroll),
            rect_view(r.overflow.paint) == (RectModel { x: 0, y: 0, w: 0, h: 0 }),
            rect_view(r.overflow.scroll) == (RectModel { x: 0, y: 0, w: 0, h: 0 }),
            r.stacking_relative_position.x.0 == 0 && r.stacking_relative_position.y.0 == 0,
            rect_view(r.clip) == max_rect_model(),
            r.early_absolute_position_info.relative_containing_block_mode == writing_mode,
    {
        let mut flags = FlowFlags::empty();
        match style {
            Some(style) => {
                if style.can_be_fragmented {
                    flags.insert(CAN_BE_FRAGMENTED);
                }
                match style.position {
                    Position::Absolute | Position::Fixed => {
                        flags.insert(IS_ABSOLUTELY_POSITIONED);
                        if style.inline_start_is_auto && style.inline_end_is_auto {
                            flags.insert(INLINE_POSITION_IS_STATIC);
                        }
                        if style.block_start_is_auto && style.block_end_is_auto {
                            flags.insert(BLOCK_POSITION_IS_STATIC);
                        }
                    },
                    _ => flags.insert(BLOCK_POSITION_IS_STATIC | INLINE_POSITION_IS_STATIC),
                }
                if force_nonfloated == ForceNonfloatedFlag::FloatIfNecessary {
                    match style.float {
                        None => {},
                        Some(FloatKind::Left) => flags.insert(FLOATS_LEFT),
                        Some(FloatKind::Right) => flags.insert(FLOATS_RIGHT),
                    }
                }
                match style.clear {
                    None => {},
                    Some(ClearType::Left) => flags.insert(CLEARS_LEFT),
                    Some(ClearType::Right) => flags.insert(CLEARS_RIGHT),
                    Some(ClearType::Both) => {
                        flags.insert(CLEARS_LEFT);
                        flags.insert(CLEARS_RIGHT);
                    },
                }
                if style.affects_counters {
                    flags.insert(AFFECTS_COUNTERS);
                }
            },
            None => flags.insert(BLOCK_POSITION_IS_STATIC | INLINE_POSITION_IS_STATIC),
        }

        // New flows start out fully damaged.
        let mut damage = RestyleDamage::rebuild_and_reflow();
        damage.remove(RECONSTRUCT_FLOW);

        let empty = make_rect(Au(0), Au(0), Au(0), Au(0));
        BaseFlow {
            restyle_damage: damage,
            children: Vec::new(),
            intrinsic_inline_sizes: IntrinsicISizes {
                minimum_inline_size: Au(0),
                preferred_inline_size: Au(0),
            },
            position: LogicalRect::zero(),
            overflow: Overflow { paint: empty, scroll: empty },
            parallel: FlowParallelInfo { children_count: 0, parent: None },
            speculated_float_placement_in: SpeculatedFloatPlacement { left: Au(0), right: Au(0) },
            speculated_float_placement_out: SpeculatedFloatPlacement { left: Au(0), right: Au(0) },
            stacking_relative_position: Vector2D::new(Au(0), Au(0)),
            abs_descendants: AbsoluteDescendants::new(),
            block_container_inline_size: Au(0),
            block_container_writing_mode: writing_mode,
            block_container_explicit_block_size: None,
            absolute_cb: ContainingBlockLink::new(),
            early_absolute_position_info: EarlyAbsolutePositionInfo::new(writing_mode),
            late_absolute_position_info: LateAbsolutePositionInfo::new(),
            clip: max_rect(),
            writing_mode,
            thread_id: 0,
            flags,
            stacking_context_id: None,
        }
    }

    pub open spec fn might_have_floats_in_spec(&self) -> bool {
        self.speculated_float_placement_in.left.0 > 0 || self.speculated_float_placement_in.right.0
            > 0
    }

    pub open spec fn might_have_floats_out_spec(&self) -> bool {
        self.speculated_float_placement_out.left.0 > 0
            || self.speculated_float_placement_out.right.0 > 0
    }

    /// Whether the float speculation saw floats that may enter this flow.
    pub fn might_have_floats_in(&self) -> (r: bool)
        ensures
            r == self.might_have_floats_in_spec(),
    {
        self.speculated_float_placement_in.left.0 > 0 || self.speculated_float_placement_in.right.0
            > 0
    }

    /// Whether the float speculation saw floats that may leave this flow.
    pub fn might_have_floats_out(&self) -> (r: bool)
        ensures
            r == self.might_have_floats_out_spec(),
    {
        self.speculated_float_placement_out.left.0 > 0
            || self.speculated_float_placement_out.right.0 > 0
    }

    /// Refreshes the static-position flags of an absolutely-positioned flow after a style
    /// change that did not rebuild it (one that damaged out-of-flow layout).
    pub fn update_flags_if_needed(&mut self, style: &FlowStyle)
        ensures
            (old(self).restyle_damage.has(REFLOW_OUT_OF_FLOW) && old(self).flags.has(
                IS_ABSOLUTELY_POSITIONED,
            )) ==> final(self).flags.bits == FlowFlags::set_spec(
                FlowFlags::set_spec(
                    old(self).flags.bits,
                    INLINE_POSITION_IS_STATIC,
                    style.inline_start_is_auto && style.inline_end_is_auto,
                ),
                BLOCK_POSITION_IS_STATIC,
                style.block_start_is_auto && style.block_end_is_auto,
            ),
            !(old(self).restyle_damage.has(REFLOW_OUT_OF_FLOW) && old(self).flags.has(
                IS_ABSOLUTELY_POSITIONED,
            )) ==> final(self).flags == old(self).flags,
            *final(self) == (BaseFlow { flags: final(self).flags, ..*old(self) }),
    {
        if self.restyle_damage.contains(REFLOW_OUT_OF_FLOW) {
            if self.flags.contains(IS_ABSOLUTELY_POSITIONED) {
                self.flags.set(
                    INLINE_POSITION_IS_STATIC,
                    style.inline_start_is_auto && style.inline_end_is_auto,
                );
                self.flags.set(
                    BLOCK_POSITION_IS_STATIC,
                    style.block_start_is_auto && style.block_end_is_auto,
                );
            }
        }
    }
}

} // verus!
