use vstd::prelude::*;

use crate::types::{Icon, Rect, fits};
use crate::window::trunc_div;

verus! {

/// A stroke of an icon: a line between two points or a triangle.
#[derive(Debug, Clone, Copy, PartialEq, Eq, Structural)]
pub enum IconStroke {
    Line { x1: i32, y1: i32, x2: i32, y2: i32 },
    Triangle { x1: i32, y1: i32, x2: i32, y2: i32, x3: i32, y3: i32 },
}

/// The center of `bounds`, rounded toward its origin as Rust's division does.
pub open spec fn icon_center(bounds: Rect) -> (int, int) {
    (bounds.x + trunc_div(bounds.w as int, 2), bounds.y + trunc_div(bounds.h as int, 2))
}

/// The icon can be drawn in `bounds` without overflow.
pub open spec fn can_stroke(bounds: Rect) -> bool {
    let (cx, cy) = icon_center(bounds);
    &&& fits(cx)
    &&& fits(cy)
    &&& fits(cx - 4)
    &&& fits(cx + 4)
    &&& fits(cy - 4)
    &&& fits(cy + 4)
}

/// A line between two points.
pub open spec fn line(x1: int, y1: int, x2: int, y2: int) -> IconStroke {
    IconStroke::Line { x1: x1 as i32, y1: y1 as i32, x2: x2 as i32, y2: y2 as i32 }
}

/// A triangle through three points.
pub open spec fn triangle(x1: int, y1: int, x2: int, y2: int, x3: int, y3: int) -> IconStroke {
    IconStroke::Triangle {
        x1: x1 as i32,
        y1: y1 as i32,
        x2: x2 as i32,
        y2: y2 as i32,
        x3: x3 as i32,
        y3: y3 as i32,
    }
}

/// The strokes of an icon of kind `kind` centered in `bounds`: a cross of two 8-pixel
/// diagonals, a check mark, or a triangle pointing right (collapsed) or down (expanded).
pub open spec fn spec_icon_strokes(kind: Icon, bounds: Rect) -> Seq<IconStroke> {
    let (cx, cy) = icon_center(bounds);
    match kind {
        Icon::Close => seq![line(cx - 4, cy - 4, cx + 4, cy + 4), line(cx + 4, cy - 4, cx - 4, cy + 4)],
        Icon::Check => seq![line(cx - 3, cy, cx - 1, cy + 3), line(cx - 1, cy + 3, cx + 4, cy - 3)],
        Icon::Collapsed => seq![triangle(cx - 3, cy - 4, cx - 3, cy + 4, cx + 4, cy)],
        Icon::Expanded => seq![triangle(cx - 4, cy - 3, cx + 4, cy - 3, cx, cy + 4)],
    }
}

/// The strokes that draw an icon of kind `kind` in `bounds`.
pub fn icon_strokes(kind: Icon, bounds: Rect) -> (v: Vec<IconStroke>)
    requires
        can_stroke(bounds),
    ensures
        v@ == spec_icon_strokes(kind, bounds),
{
    let cx = bounds.x + bounds.w / 2;
    let cy = bounds.y + bounds.h / 2;
    assert(cx == icon_center(bounds).0 && cy == icon_center(bounds).1);
    let mut v: Vec<IconStroke> = Vec::new();
    match kind {
        Icon::Close => {
            v.push(IconStroke::Line { x1: cx - 4, y1: cy - 4, x2: cx + 4, y2: cy + 4 });
            v.push(IconStroke::Line { x1: cx + 4, y1: cy - 4, x2: cx - 4, y2: cy + 4 });
        },
        Icon::Check => {
            v.push(IconStroke::Line { x1: cx - 3, y1: cy, x2: cx - 1, y2: cy + 3 });
            v.push(IconStroke::Line { x1: cx - 1, y1: cy + 3, x2: cx + 4, y2: cy - 3 });
        },
        Icon::Collapsed => {
            v.push(
                IconStroke::Triangle { x1: cx - 3, y1: cy - 4, x2: cx - 3, y2: cy + 4, x3: cx + 4, y3: cy },
            );
        },
        Icon::Expanded => {
            v.push(
                IconStroke::Triangle { x1: cx - 4, y1: cy - 3, x2: cx + 4, y2: cy - 3, x3: cx, y3: cy + 4 },
            );
        },
    }
    assert(v@ =~= spec_icon_strokes(kind, bounds));
    v
}

} // verus!
