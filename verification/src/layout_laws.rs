//! What holds of content areas, borders and containers.

use vstd::prelude::*;

use crate::container::child_bounds_fit;
use crate::geometry::{Point, Rect, Size, Vector};
use crate::raster::{
    border_fills_spec, bottom_fill, content_length, half, left_fill, right_fill,
    top_fill, BorderFill, ContentArea, ContentSize,
};
use crate::style::{fits_i64, side_length, side_width, Border, BorderOptions, Surround};

verus! {

/// Moving an area by `u` and then by `v` is moving it by `u + v`.
pub proof fn law_translate_composes(a: ContentArea, u: Vector, v: Vector)
    requires
        fits_i64(a.location.x + u.x),
        fits_i64(a.location.y + u.y),
        fits_i64(u.x + v.x),
        fits_i64(u.y + v.y),
        fits_i64(a.location.x + u.x + v.x),
        fits_i64(a.location.y + u.y + v.y),
    ensures
        a.translated(u).translated(v) == a.translated(Vector { x: (u.x + v.x) as i64, y: (u.y + v.y) as i64 }),
{
}

/// Moving an area moves its whole bounds by the same displacement and keeps
/// their size.
pub proof fn law_translate_moves_bounds(a: ContentArea, by: Vector)
    requires
        fits_i64(a.location.x + by.x),
        fits_i64(a.location.y + by.y),
    ensures
        a.translated(by).spec_bounds_origin().0 == a.spec_bounds_origin().0 + by.x,
        a.translated(by).spec_bounds_origin().1 == a.spec_bounds_origin().1 + by.y,
        a.translated(by).size.spec_total_width() == a.size.spec_total_width(),
        a.translated(by).size.spec_total_height() == a.size.spec_total_height(),
{
}

/// An area made from a size alone has bounds equal to its content bounds: at
/// the origin, of that size.
pub proof fn law_sized_area_bounds(size: Size)
    ensures
        ({
            let a = ContentArea {
                location: crate::geometry::Point { x: 0, y: 0 },
                size: ContentSize {
                    content: size,
                    padding: Surround { left: None, top: None, right: None, bottom: None },
                    border: Border { left: None, top: None, right: None, bottom: None },
                },
            };
            &&& a.spec_bounds_origin() == (0int, 0int)
            &&& a.size.spec_total_width() == size.width
            &&& a.size.spec_total_height() == size.height
        }),
{
}

/// The content of an area laid out within some bounds is never negative; when
/// the bounds can hold the border and padding, content, padding and border
/// fill the bounds exactly, and the content starts half the border and padding
/// in.
pub proof fn law_content_fills_bounds(bounds: Size, padding: Surround, border: Border)
    ensures
        content_length(bounds.width as int, border.spec_minimum_width() + padding.spec_minimum_width())
            >= 0,
        content_length(bounds.height as int, border.spec_minimum_height() + padding.spec_minimum_height())
            >= 0,
        bounds.width >= border.spec_minimum_width() + padding.spec_minimum_width() ==> {
            let w = content_length(
                bounds.width as int,
                border.spec_minimum_width() + padding.spec_minimum_width(),
            );
            &&& w + padding.spec_minimum_width() + border.spec_minimum_width() == bounds.width
            &&& half(bounds.width - w) == half(border.spec_minimum_width() + padding.spec_minimum_width())
        },
        bounds.height >= border.spec_minimum_height() + padding.spec_minimum_height() ==> {
            let h = content_length(
                bounds.height as int,
                border.spec_minimum_height() + padding.spec_minimum_height(),
            );
            &&& h + padding.spec_minimum_height() + border.spec_minimum_height() == bounds.height
            &&& half(bounds.height - h) == half(border.spec_minimum_height() + padding.spec_minimum_height())
        },
{
}

/// A container's child is centered: when the child fits, the space left of it
/// is never more than the space right of it, and at most one unit less.
pub proof fn law_child_is_centered(content_area: ContentArea, child: ContentSize)
    requires
        child_bounds_fit(content_area, child),
    ensures
        ({
            let free = content_area.size.content.width - child.spec_total_width();
            let left = half(free);
            free >= 0 ==> 0 <= left && left <= free - left <= left + 1
        }),
        ({
            let free = content_area.size.content.height - child.spec_total_height();
            let top = half(free);
            free >= 0 ==> 0 <= top && top <= free - top <= top + 1
        }),
{
}

/// No side of `s` is negative.
pub open spec fn surround_nonneg(s: Surround) -> bool {
    side_length(s.left) >= 0 && side_length(s.top) >= 0 && side_length(s.right) >= 0 && side_length(s.bottom) >= 0
}

/// No side of `b` is negatively wide.
pub open spec fn border_nonneg(b: Border) -> bool {
    side_width(b.left) >= 0 && side_width(b.top) >= 0 && side_width(b.right) >= 0 && side_width(b.bottom) >= 0
}

/// With no negative padding or border, the whole bounds of an area hold its
/// content bounds.
pub proof fn law_bounds_hold_content(a: ContentArea)
    ensures
        border_nonneg(a.size.border) && surround_nonneg(a.size.padding) ==> {
            let (ox, oy) = a.spec_bounds_origin();
            &&& ox <= a.location.x
            &&& oy <= a.location.y
            &&& a.location.x + a.size.content.width <= ox + a.size.spec_total_width()
            &&& a.location.y + a.size.content.height <= oy + a.size.spec_total_height()
        },
{
}

/// Whether a border side is drawn: present and wider than zero.
pub open spec fn side_drawn(side: Option<BorderOptions>) -> bool {
    side is Some && side.unwrap().width > 0
}

/// The width of a drawn side, zero for a side that is not drawn.
pub open spec fn drawn_length(side: Option<BorderOptions>) -> int {
    if side_drawn(side) {
        side.unwrap().width as int
    } else {
        0
    }
}

/// How many sides of `border` are drawn.
pub open spec fn drawn_sides(border: Border) -> int {
    (if side_drawn(border.top) { 1int } else { 0int }) + (if side_drawn(border.bottom) { 1int } else { 0int })
        + (if side_drawn(border.left) { 1int } else { 0int }) + (if side_drawn(border.right) { 1int } else { 0int })
}

/// A border is drawn with one fill for each side wider than zero, whatever
/// the other sides are, and with nothing for a side that is absent or not
/// wider than zero. The top side spans the full width at the top of the
/// bounds, the bottom side the full width at their bottom; the left and right
/// sides start below the top side, are the bounds' height less the bottom
/// side high, and sit at the left and right edges (the right one in the left
/// side's color).
pub proof fn law_each_drawn_side_has_its_fill(bounds: Rect, border: Border)
    ensures
        border_fills_spec(bounds, border).len() == drawn_sides(border),
        (side_drawn(border.top) ==> border_fills_spec(bounds, border).contains(
            BorderFill {
                rect: Rect { origin: bounds.origin, size: Size { width: bounds.size.width, height: border.top.unwrap().width } },
                color: border.top.unwrap().color,
            },
        )),
        (side_drawn(border.bottom) ==> border_fills_spec(bounds, border).contains(
            BorderFill {
                rect: Rect {
                    origin: Point { x: 0, y: (bounds.size.height - border.bottom.unwrap().width) as i64 },
                    size: Size { width: bounds.size.width, height: border.bottom.unwrap().width },
                },
                color: border.bottom.unwrap().color,
            },
        )),
        (side_drawn(border.left) ==> border_fills_spec(bounds, border).contains(
            BorderFill {
                rect: Rect {
                    origin: Point { x: 0, y: drawn_length(border.top) as i64 },
                    size: Size { width: border.left.unwrap().width, height: (bounds.size.height - drawn_length(border.bottom)) as i64 },
                },
                color: border.left.unwrap().color,
            },
        )),
        (side_drawn(border.right) ==> border_fills_spec(bounds, border).contains(
            BorderFill {
                rect: Rect {
                    origin: Point { x: (bounds.size.width - border.right.unwrap().width) as i64, y: drawn_length(border.top) as i64 },
                    size: Size { width: border.right.unwrap().width, height: (bounds.size.height - drawn_length(border.bottom)) as i64 },
                },
                color: border.left.unwrap().color,
            },
        )),
{
    let fills = border_fills_spec(bounds, border);
    let t = top_fill(bounds, border);
    let b = bottom_fill(bounds, border);
    let l = left_fill(bounds, border);
    let r = right_fill(bounds, border);
    assert(fills == t + b + l + r);
    if border.top matches Some(x) && x.width > 0 {
        assert(fills[0] == t[0]);
    }
    if border.bottom matches Some(x) && x.width > 0 {
        assert(fills[t.len() as int] == b[0]);
    }
    if border.left matches Some(x) && x.width > 0 {
        assert(fills[(t.len() + b.len()) as int] == l[0]);
    }
    if border.right matches Some(x) && x.width > 0 {
        assert(fills[(t.len() + b.len() + l.len()) as int] == r[0]);
    }
}

/// Halving rounds toward zero: twice the half of a length is the length or
/// one unit short of it (one unit over it for a negative length).
pub proof fn law_half_rounds_toward_zero(v: int)
    ensures
        v >= 0 ==> 0 <= v - 2 * half(v) <= 1,
        v < 0 ==> -1 <= v - 2 * half(v) <= 0,
{
}

/// Padding and borders take up their left and right sides across and their
/// top and bottom sides down (an absent side takes nothing); a content size
/// adds both to its content, and its whole bounds start its left and top
/// border and padding before the content.
pub proof fn law_sizes_add_up(area: ContentArea)
    ensures
        ({
            let p = area.size.padding;
            let b = area.size.border;
            let pl = if p.left is Some { p.left.unwrap() as int } else { 0int };
            let pr = if p.right is Some { p.right.unwrap() as int } else { 0int };
            let pt = if p.top is Some { p.top.unwrap() as int } else { 0int };
            let pb = if p.bottom is Some { p.bottom.unwrap() as int } else { 0int };
            let bl = if b.left is Some { b.left.unwrap().width as int } else { 0int };
            let br = if b.right is Some { b.right.unwrap().width as int } else { 0int };
            let bt = if b.top is Some { b.top.unwrap().width as int } else { 0int };
            let bb = if b.bottom is Some { b.bottom.unwrap().width as int } else { 0int };
            &&& p.spec_minimum_width() == pl + pr
            &&& p.spec_minimum_height() == pt + pb
            &&& b.spec_minimum_width() == bl + br
            &&& b.spec_minimum_height() == bt + bb
            &&& area.size.spec_total_width() == area.size.content.width + pl + pr + bl + br
            &&& area.size.spec_total_height() == area.size.content.height + pt + pb + bt + bb
            &&& area.spec_bounds_origin() == (area.location.x - bl - pl, area.location.y - bt - pt)
        }),
{
}

} // verus!
