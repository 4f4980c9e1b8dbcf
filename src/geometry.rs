//! Physical and logical geometry.
//!
//! Physical rectangles, points, sizes and vectors are euclid's, over `Au`. Logical
//! rectangles are written in block/inline terms and tied to a `WritingMode`; turning
//! one into the other needs the size of the container.

use vstd::prelude::*;
use app_units::Au;
use euclid::default::{Point2D, Rect, Size2D, Vector2D};
use crate::units::{au_add, au_sub, au_valid, au_in_range, clamp_au, max_int, min_int};

verus! {

#[verifier::external_type_specification]
pub struct ExUnknownUnit(euclid::UnknownUnit);

#[verifier::external_type_specification]
#[verifier::reject_recursive_types(T)]
#[verifier::reject_recursive_types(U)]
pub struct ExPoint2D<T, U>(euclid::Point2D<T, U>);

#[verifier::external_type_specification]
#[verifier::reject_recursive_types(T)]
#[verifier::reject_recursive_types(U)]
pub struct ExSize2D<T, U>(euclid::Size2D<T, U>);

#[verifier::external_type_specification]
#[verifier::reject_recursive_types(T)]
#[verifier::reject_recursive_types(U)]
pub struct ExVector2D<T, U>(euclid::Vector2D<T, U>);

#[verifier::external_type_specification]
#[verifier::reject_recursive_types(T)]
#[verifier::reject_recursive_types(U)]
pub struct ExRect<T, U>(euclid::Rect<T, U>);

pub assume_specification<T, U>[ euclid::Point2D::<T, U>::new ](x: T, y: T) -> (r: euclid::Point2D<T, U>)
    ensures
        r.x == x,
        r.y == y,
;

pub assume_specification<T, U>[ euclid::Size2D::<T, U>::new ](width: T, height: T) -> (r: euclid::Size2D<T, U>)
    ensures
        r.width == width,
        r.height == height,
;

pub assume_specification<T, U>[ euclid::Vector2D::<T, U>::new ](x: T, y: T) -> (r: euclid::Vector2D<T, U>)
    ensures
        r.x == x,
        r.y == y,
;

pub assume_specification<T, U>[ euclid::Rect::<T, U>::new ](
    origin: euclid::Point2D<T, U>,
    size: euclid::Size2D<T, U>,
) -> (r: euclid::Rect<T, U>)
    ensures
        r.origin == origin,
        r.size == size,
;

/// A physical rectangle as four integers: what every contract about rectangles speaks of.
pub struct RectModel {
    pub x: int,
    pub y: int,
    pub w: int,
    pub h: int,
}

/// The integers that a euclid rectangle of lengths holds.
pub open spec fn rect_view(r: Rect<Au>) -> RectModel {
    RectModel {
        x: r.origin.x.0 as int,
        y: r.origin.y.0 as int,
        w: r.size.width.0 as int,
        h: r.size.height.0 as int,
    }
}

/// Every length of the rectangle lies in the representable range.
pub open spec fn rect_valid(r: Rect<Au>) -> bool {
    au_valid(r.origin.x) && au_valid(r.origin.y) && au_valid(r.size.width) && au_valid(
        r.size.height,
    )
}

/// Whether a rectangle covers no area: its far edge does not lie past its near edge on
/// some axis (the far edge being computed with clamping, as `Au` computes it).
pub open spec fn model_is_empty(r: RectModel) -> bool {
    !(clamp_au(r.x + r.w) > r.x && clamp_au(r.y + r.h) > r.y)
}

/// A rectangle turned into its two corners and back, as euclid does on the way to a union.
pub open spec fn model_round(r: RectModel) -> RectModel {
    RectModel {
        x: r.x,
        y: r.y,
        w: clamp_au(clamp_au(r.x + r.w) - r.x),
        h: clamp_au(clamp_au(r.y + r.h) - r.y),
    }
}

/// The smallest rectangle holding both; an empty operand contributes nothing.
pub open spec fn model_union(a: RectModel, b: RectModel) -> RectModel {
    if model_is_empty(b) {
        model_round(a)
    } else if model_is_empty(a) {
        model_round(b)
    } else {
        let x0 = min_int(a.x, b.x);
        let y0 = min_int(a.y, b.y);
        let x1 = max_int(clamp_au(a.x + a.w), clamp_au(b.x + b.w));
        let y1 = max_int(clamp_au(a.y + a.h), clamp_au(b.y + b.h));
        RectModel { x: x0, y: y0, w: clamp_au(x1 - x0), h: clamp_au(y1 - y0) }
    }
}

/// The rectangle moved by `(dx, dy)`.
pub open spec fn model_translate(r: RectModel, dx: int, dy: int) -> RectModel {
    RectModel { x: clamp_au(r.x + dx), y: clamp_au(r.y + dy), w: r.w, h: r.h }
}

/// A rectangle from its four lengths.
pub fn make_rect(x: Au, y: Au, w: Au, h: Au) -> (r: Rect<Au>)
    ensures
        r.origin.x == x,
        r.origin.y == y,
        r.size.width == w,
        r.size.height == h,
{
    Rect::new(Point2D::new(x, y), Size2D::new(w, h))
}

/// Relies on euclid's `Rect::union`: through the two corner boxes, an empty operand
/// yields the other, else the box spanning the smallest and largest corners.
#[verifier::external_body]
pub(crate) fn rect_union(a: &Rect<Au>, b: &Rect<Au>) -> (r: Rect<Au>)
    requires
        rect_valid(*a),
        rect_valid(*b),
    ensures
        rect_view(r) == model_union(rect_view(*a), rect_view(*b)),
        rect_valid(r),
{
    a.union(b)
}

/// Relies on euclid's `Rect::translate`: the origin moves by the vector, the size stays.
#[verifier::external_body]
pub(crate) fn rect_translate(r: &Rect<Au>, by: Vector2D<Au>) -> (t: Rect<Au>)
    requires
        rect_valid(*r),
        au_valid(by.x),
        au_valid(by.y),
    ensures
        rect_view(t) == model_translate(rect_view(*r), by.x.0 as int, by.y.0 as int),
        rect_valid(t),
{
    r.translate(by)
}

/// The orientation of a flow's content: which physical axis is the block axis, and in
/// which direction the block and inline axes run.
#[derive(Clone, Copy, Debug, PartialEq, Eq, Structural)]
pub struct WritingMode {
    /// The block axis is horizontal (lines are vertical).
    pub vertical: bool,
    /// In a vertical mode, blocks advance from left to right.
    pub vertical_lr: bool,
    /// The inline direction is reversed (right-to-left, or bottom-to-top when vertical).
    pub rtl: bool,
    /// Glyphs are set sideways; in a vertical mode this flips the inline direction again.
    pub sideways: bool,
}

impl WritingMode {
    /// Horizontal lines, top to bottom, left to right.
    pub fn horizontal_tb() -> (r: WritingMode)
        ensures
            !r.vertical && !r.vertical_lr && !r.rtl && !r.sideways,
    {
        WritingMode { vertical: false, vertical_lr: false, rtl: false, sideways: false }
    }

    /// A writing mode from its four flags.
    pub fn new(vertical: bool, vertical_lr: bool, rtl: bool, sideways: bool) -> (r: WritingMode)
        ensures
            r.vertical == vertical,
            r.vertical_lr == vertical_lr,
            r.rtl == rtl,
            r.sideways == sideways,
    {
        WritingMode { vertical, vertical_lr, rtl, sideways }
    }

    pub open spec fn inline_tb_spec(self) -> bool {
        self.rtl == self.sideways
    }

    pub fn is_vertical(&self) -> (r: bool)
        ensures
            r == self.vertical,
    {
        self.vertical
    }

    pub fn is_vertical_lr(&self) -> (r: bool)
        ensures
            r == self.vertical_lr,
    {
        self.vertical_lr
    }

    /// Whether, in a vertical mode, the inline axis runs from top to bottom.
    pub fn is_inline_tb(&self) -> (r: bool)
        ensures
            r == self.inline_tb_spec(),
    {
        self.rtl == self.sideways
    }

    /// Whether, in a horizontal mode, the inline axis runs from left to right.
    pub fn is_bidi_ltr(&self) -> (r: bool)
        ensures
            r == !self.rtl,
    {
        !self.rtl
    }
}

/// A size in logical terms.
#[derive(Clone, Copy, Debug)]
pub struct LogicalSize {
    pub inline: Au,
    pub block: Au,
}

/// A point in logical terms: `i` along the inline axis, `b` along the block axis.
#[derive(Clone, Copy, Debug)]
pub struct LogicalPoint {
    pub i: Au,
    pub b: Au,
}

/// A rectangle in logical terms.
#[derive(Clone, Copy, Debug)]
pub struct LogicalRect {
    pub start: LogicalPoint,
    pub size: LogicalSize,
}

/// The integers of a logical rectangle: inline start, block start, inline size, block size.
pub struct LogicalModel {
    pub i: int,
    pub b: int,
    pub inline: int,
    pub block: int,
}

impl LogicalSize {
    pub fn new(inline: Au, block: Au) -> (r: LogicalSize)
        ensures
            r.inline == inline,
            r.block == block,
    {
        LogicalSize { inline, block }
    }

    pub fn zero() -> (r: LogicalSize)
        ensures
            r.inline.0 == 0,
            r.block.0 == 0,
    {
        LogicalSize { inline: Au(0), block: Au(0) }
    }

    /// The physical size: the block axis is the width in a vertical mode.
    pub fn to_physical(&self, mode: WritingMode) -> (r: Size2D<Au>)
        ensures
            mode.vertical ==> r.width == self.block && r.height == self.inline,
            !mode.vertical ==> r.width == self.inline && r.height == self.block,
    {
        if mode.is_vertical() {
            Size2D::new(self.block, self.inline)
        } else {
            Size2D::new(self.inline, self.block)
        }
    }
}

impl LogicalRect {
    pub open spec fn view(self) -> LogicalModel {
        LogicalModel {
            i: self.start.i.0 as int,
            b: self.start.b.0 as int,
            inline: self.size.inline.0 as int,
            block: self.size.block.0 as int,
        }
    }

    pub open spec fn valid(self) -> bool {
        au_valid(self.start.i) && au_valid(self.start.b) && au_valid(self.size.inline) && au_valid(
            self.size.block,
        )
    }

    pub fn new(i: Au, b: Au, inline: Au, block: Au) -> (r: LogicalRect)
        ensures
            r.start.i == i,
            r.start.b == b,
            r.size.inline == inline,
            r.size.block == block,
    {
        LogicalRect { start: LogicalPoint { i, b }, size: LogicalSize { inline, block } }
    }

    pub open spec fn zero_spec() -> LogicalModel {
        LogicalModel { i: 0, b: 0, inline: 0, block: 0 }
    }

    pub fn zero() -> (r: LogicalRect)
        ensures
            r.view() == Self::zero_spec(),
            r.valid(),
    {
        LogicalRect::new(Au(0), Au(0), Au(0), Au(0))
    }

    /// The physical rectangle of `l` inside a container of `cw` by `ch`.
    pub open spec fn physical_spec(l: LogicalModel, mode: WritingMode, cw: int, ch: int) -> RectModel {
        if mode.vertical {
            RectModel {
                x: if mode.vertical_lr { l.b } else { clamp_au(clamp_au(cw - l.b) - l.block) },
                y: if mode.inline_tb_spec() { l.i } else { clamp_au(clamp_au(ch - l.i) - l.inline) },
                w: l.block,
                h: l.inline,
            }
        } else {
            RectModel {
                x: if !mode.rtl { l.i } else { clamp_au(clamp_au(cw - l.i) - l.inline) },
                y: l.b,
                w: l.inline,
                h: l.block,
            }
        }
    }

    /// The logical rectangle of the physical `r` inside a container of `cw` by `ch`.
    pub open spec fn logical_spec(r: RectModel, mode: WritingMode, cw: int, ch: int) -> LogicalModel {
        if mode.vertical {
            LogicalModel {
                i: if mode.inline_tb_spec() { r.y } else { clamp_au(ch - clamp_au(r.y + r.h)) },
                b: if mode.vertical_lr { r.x } else { clamp_au(cw - clamp_au(r.x + r.w)) },
                inline: r.h,
                block: r.w,
            }
        } else {
            LogicalModel {
                i: if !mode.rtl { r.x } else { clamp_au(cw - clamp_au(r.x + r.w)) },
                b: r.y,
                inline: r.w,
                block: r.h,
            }
        }
    }

    /// No length computed on the way to the physical rectangle is clamped.
    pub open spec fn converts_exactly(l: LogicalModel, mode: WritingMode, cw: int, ch: int) -> bool {
        &&& au_in_range(l.i) && au_in_range(l.b) && au_in_range(l.inline) && au_in_range(l.block)
        &&& au_in_range(cw) && au_in_range(ch)
        &&& mode.vertical && !mode.vertical_lr ==> au_in_range(cw - l.b) && au_in_range(
            cw - l.b - l.block,
        )
        &&& mode.vertical && !mode.inline_tb_spec() ==> au_in_range(ch - l.i) && au_in_range(
            ch - l.i - l.inline,
        )
        &&& !mode.vertical && mode.rtl ==> au_in_range(cw - l.i) && au_in_range(
            cw - l.i - l.inline,
        )
    }

    /// This rectangle in physical coordinates, inside a container of the given size.
    pub fn to_physical(&self, mode: WritingMode, container_size: Size2D<Au>) -> (r: Rect<Au>)
        requires
            self.valid(),
            au_valid(container_size.width),
            au_valid(container_size.height),
        ensures
            rect_view(r) == Self::physical_spec(
                self.view(),
                mode,
                container_size.width.0 as int,
                container_size.height.0 as int,
            ),
            rect_valid(r),
    {
        if mode.is_vertical() {
            let y = if mode.is_inline_tb() {
                self.start.i
            } else {
                au_sub(au_sub(container_size.height, self.start.i), self.size.inline)
            };
            let x = if mode.is_vertical_lr() {
                self.start.b
            } else {
                au_sub(au_sub(container_size.width, self.start.b), self.size.block)
            };
            make_rect(x, y, self.size.block, self.size.inline)
        } else {
            let x = if mode.is_bidi_ltr() {
                self.start.i
            } else {
                au_sub(au_sub(container_size.width, self.start.i), self.size.inline)
            };
            make_rect(x, self.start.b, self.size.inline, self.size.block)
        }
    }

    /// The logical rectangle of a physical one, inside a container of the given size.
    pub fn from_physical(mode: WritingMode, rect: Rect<Au>, container_size: Size2D<Au>) -> (r:
        LogicalRect)
        requires
            rect_valid(rect),
            au_valid(container_size.width),
            au_valid(container_size.height),
        ensures
            r.view() == Self::logical_spec(
                rect_view(rect),
                mode,
                container_size.width.0 as int,
                container_size.height.0 as int,
            ),
            r.valid(),
    {
        if mode.is_vertical() {
            let block_start = if mode.is_vertical_lr() {
                rect.origin.x
            } else {
                au_sub(container_size.width, au_add(rect.origin.x, rect.size.width))
            };
            let inline_start = if mode.is_inline_tb() {
                rect.origin.y
            } else {
                au_sub(container_size.height, au_add(rect.origin.y, rect.size.height))
            };
            LogicalRect::new(inline_start, block_start, rect.size.height, rect.size.width)
        } else {
            let inline_start = if mode.is_bidi_ltr() {
                rect.origin.x
            } else {
                au_sub(container_size.width, au_add(rect.origin.x, rect.size.width))
            };
            LogicalRect::new(inline_start, rect.origin.y, rect.size.width, rect.size.height)
        }
    }
}

/// Turning a logical rectangle into a physical one and back, under one writing mode and
/// one container size, gives the rectangle back, whenever no length on the way is clamped.
pub proof fn lemma_logical_physical_round_trip(l: LogicalModel, mode: WritingMode, cw: int, ch: int)
    requires
        LogicalRect::converts_exactly(l, mode, cw, ch),
    ensures
        LogicalRect::logical_spec(LogicalRect::physical_spec(l, mode, cw, ch), mode, cw, ch) == l,
{
}

} // verus!
