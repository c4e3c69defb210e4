use vstd::prelude::*;

use crate::types::{COLOR_COUNT, Color, ColorSlot, Font, Radius, Vec2};

verus! {

/// Sizes, spacings and colors of the controls.
#[derive(Debug, Clone)]
pub struct Style {
    pub font: Font,
    pub size: Vec2,
    pub padding: i32,
    pub spacing: i32,
    pub indent: i32,
    pub title_height: i32,
    pub scroll_size: i32,
    pub thumb_size: i32,
    pub corner_radius: Radius,
    pub colors: [Color; 15],
}

/// The default color of each slot.
pub open spec fn default_colors() -> Seq<Color> {
    seq![
        Color { r: 230, g: 230, b: 230, a: 255 },
        Color { r: 25, g: 25, b: 25, a: 255 },
        Color { r: 50, g: 50, b: 50, a: 255 },
        Color { r: 25, g: 25, b: 25, a: 255 },
        Color { r: 240, g: 240, b: 240, a: 255 },
        Color { r: 0, g: 0, b: 0, a: 0 },
        Color { r: 75, g: 75, b: 75, a: 255 },
        Color { r: 95, g: 95, b: 95, a: 255 },
        Color { r: 115, g: 115, b: 115, a: 255 },
        Color { r: 30, g: 30, b: 30, a: 255 },
        Color { r: 35, g: 35, b: 35, a: 255 },
        Color { r: 40, g: 40, b: 40, a: 255 },
        Color { r: 43, g: 43, b: 43, a: 255 },
        Color { r: 30, g: 30, b: 30, a: 255 },
        Color { r: 80, g: 120, b: 200, a: 150 },
    ]
}

impl Style {
    /// The sizes and colors of the default style: a 68 by 10 control, padding 5, spacing 4,
    /// indentation 24, title bars 24 high, scrollbars 12 wide with thumbs of at least 8, square
    /// corners and the default colors.
    pub open spec fn is_default(&self) -> bool {
        &&& self.font == 0
        &&& self.size == (Vec2 { x: 68, y: 10 })
        &&& self.padding == 5
        &&& self.spacing == 4
        &&& self.indent == 24
        &&& self.title_height == 24
        &&& self.scroll_size == 12
        &&& self.thumb_size == 8
        &&& self.corner_radius.bits == 0
        &&& self.colors@ == default_colors()
    }

    /// The color in `slot`.
    pub open spec fn spec_color(&self, slot: ColorSlot) -> Color {
        self.colors@[slot.spec_index()]
    }

    pub fn color(&self, slot: ColorSlot) -> (c: Color)
        ensures
            c == self.spec_color(slot),
    {
        let i = slot.index();
        self.colors[i]
    }
}

impl Default for Style {
    fn default() -> (s: Self)
        ensures
            s.is_default(),
    {
        let colors: [Color; 15] = [
            Color::rgba(230, 230, 230, 255),
            Color::rgba(25, 25, 25, 255),
            Color::rgba(50, 50, 50, 255),
            Color::rgba(25, 25, 25, 255),
            Color::rgba(240, 240, 240, 255),
            Color::rgba(0, 0, 0, 0),
            Color::rgba(75, 75, 75, 255),
            Color::rgba(95, 95, 95, 255),
            Color::rgba(115, 115, 115, 255),
            Color::rgba(30, 30, 30, 255),
            Color::rgba(35, 35, 35, 255),
            Color::rgba(40, 40, 40, 255),
            Color::rgba(43, 43, 43, 255),
            Color::rgba(30, 30, 30, 255),
            Color::rgba(80, 120, 200, 150),
        ];
        assert(colors@ =~= default_colors());
        Style {
            font: 0,
            size: Vec2::new(68, 10),
            padding: 5,
            spacing: 4,
            indent: 24,
            title_height: 24,
            scroll_size: 12,
            thumb_size: 8,
            corner_radius: Radius::zero(),
            colors,
        }
    }
}

} // verus!
