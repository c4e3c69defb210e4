use vstd::prelude::*;

verus! {

/// True when `v` is a value of `i32`.
pub open spec fn fits(v: int) -> bool {
    i32::MIN <= v <= i32::MAX
}

/// The larger of two integers.
pub open spec fn max_int(a: int, b: int) -> int {
    if a >= b { a } else { b }
}

/// The smaller of two integers.
pub open spec fn min_int(a: int, b: int) -> int {
    if a <= b { a } else { b }
}

/// Setting bits in an empty set gives exactly those bits.
pub proof fn lemma_or_zero(x: u32)
    ensures
        0u32 | x == x,
{
    assert(0u32 | x == x) by (bit_vector);
}

/// A point or an extent on the integer grid.
#[derive(Debug, Clone, Copy, PartialEq, Eq, Structural, Hash, Default)]
pub struct Vec2 {
    pub x: i32,
    pub y: i32,
}

impl Vec2 {
    pub fn new(x: i32, y: i32) -> (v: Self)
        ensures
            v.x == x,
            v.y == y,
    {
        Vec2 { x, y }
    }
}

/// An axis-aligned rectangle: origin `(x, y)`, width `w` and height `h`.
#[derive(Debug, Clone, Copy, PartialEq, Eq, Structural, Default)]
pub struct Rect {
    pub x: i32,
    pub y: i32,
    pub w: i32,
    pub h: i32,
}

impl Rect {
    /// The right edge, `x + w`.
    pub open spec fn right(self) -> int {
        self.x + self.w
    }

    /// The bottom edge, `y + h`.
    pub open spec fn bottom(self) -> int {
        self.y + self.h
    }

    /// Both far edges are values of `i32`.
    pub open spec fn edges_fit(self) -> bool {
        fits(self.right()) && fits(self.bottom())
    }

    /// The rectangle with the given fields, as a mathematical value.
    pub open spec fn spec_new(x: int, y: int, w: int, h: int) -> Rect {
        Rect { x: x as i32, y: y as i32, w: w as i32, h: h as i32 }
    }

    /// `expand(amount)` computes without overflow.
    pub open spec fn can_expand(self, amount: int) -> bool {
        &&& fits(self.x - amount)
        &&& fits(self.y - amount)
        &&& fits(amount * 2)
        &&& fits(self.w + amount * 2)
        &&& fits(self.h + amount * 2)
    }

    /// The rectangle grown by `amount` on every side.
    pub open spec fn expanded(self, amount: int) -> Rect {
        Rect::spec_new(self.x - amount, self.y - amount, self.w + amount * 2, self.h + amount * 2)
    }

    /// The left edge of the intersection of `self` and `other`.
    pub open spec fn isect_left(self, other: Rect) -> int {
        max_int(self.x as int, other.x as int)
    }

    /// The top edge of the intersection of `self` and `other`.
    pub open spec fn isect_top(self, other: Rect) -> int {
        max_int(self.y as int, other.y as int)
    }

    /// The right edge of the intersection: never left of its left edge.
    pub open spec fn isect_right(self, other: Rect) -> int {
        max_int(min_int(self.right(), other.right()), self.isect_left(other))
    }

    /// The bottom edge of the intersection: never above its top edge.
    pub open spec fn isect_bottom(self, other: Rect) -> int {
        max_int(min_int(self.bottom(), other.bottom()), self.isect_top(other))
    }

    /// `intersect` computes without overflow.
    pub open spec fn can_intersect(self, other: Rect) -> bool {
        &&& self.edges_fit()
        &&& other.edges_fit()
        &&& fits(self.isect_right(other) - self.isect_left(other))
        &&& fits(self.isect_bottom(other) - self.isect_top(other))
    }

    /// The intersection of two rectangles; empty ones have zero width or height.
    pub open spec fn intersection(self, other: Rect) -> Rect {
        Rect::spec_new(
            self.isect_left(other),
            self.isect_top(other),
            self.isect_right(other) - self.isect_left(other),
            self.isect_bottom(other) - self.isect_top(other),
        )
    }

    /// The point lies inside the rectangle (the far edges excluded).
    pub open spec fn holds(self, p: Vec2) -> bool {
        &&& p.x >= self.x
        &&& p.x < self.right()
        &&& p.y >= self.y
        &&& p.y < self.bottom()
    }

    pub fn new(x: i32, y: i32, w: i32, h: i32) -> (r: Self)
        ensures
            r.x == x,
            r.y == y,
            r.w == w,
            r.h == h,
    {
        Rect { x, y, w, h }
    }

    pub fn expand(self, amount: i32) -> (r: Self)
        requires
            self.can_expand(amount as int),
        ensures
            r == self.expanded(amount as int),
            r.x == self.x - amount,
            r.y == self.y - amount,
            r.w == self.w + amount * 2,
            r.h == self.h + amount * 2,
    {
        Rect::new(self.x - amount, self.y - amount, self.w + amount * 2, self.h + amount * 2)
    }

    pub fn intersect(self, other: Self) -> (r: Self)
        requires
            self.can_intersect(other),
        ensures
            r == self.intersection(other),
            r.x == self.isect_left(other),
            r.y == self.isect_top(other),
            r.right() == self.isect_right(other),
            r.bottom() == self.isect_bottom(other),
    {
        let left = if self.x >= other.x { self.x } else { other.x };
        let top = if self.y >= other.y { self.y } else { other.y };
        let sr = self.x + self.w;
        let or = other.x + other.w;
        let sb = self.y + self.h;
        let ob = other.y + other.h;
        let rmin = if sr <= or { sr } else { or };
        let bmin = if sb <= ob { sb } else { ob };
        let right = if rmin >= left { rmin } else { left };
        let bottom = if bmin >= top { bmin } else { top };
        Rect::new(left, top, right - left, bottom - top)
    }

    pub fn contains(self, point: Vec2) -> (b: bool)
        requires
            self.edges_fit(),
        ensures
            b == self.holds(point),
    {
        point.x >= self.x && point.x < self.x + self.w && point.y >= self.y && point.y < self.y
            + self.h
    }

    /// The clip rectangle used when no clip is set.
    pub open spec fn spec_unbounded() -> Rect {
        Rect { x: 0, y: 0, w: 0x1000000, h: 0x1000000 }
    }

    pub fn unbounded() -> (r: Self)
        ensures
            r == Rect::spec_unbounded(),
    {
        Rect::new(0, 0, 0x1000000, 0x1000000)
    }
}

/// A point lies in the intersection of two rectangles exactly when it lies in both.
pub proof fn law_intersect_holds(a: Rect, b: Rect, p: Vec2)
    requires
        a.can_intersect(b),
    ensures
        a.intersection(b).holds(p) <==> (a.holds(p) && b.holds(p)),
{
}

/// Intersecting is symmetric.
pub proof fn law_intersect_symmetric(a: Rect, b: Rect)
    requires
        a.can_intersect(b),
    ensures
        b.can_intersect(a),
        a.intersection(b) == b.intersection(a),
{
}

/// The intersection lies within both rectangles whenever it is not empty.
pub proof fn law_intersect_within(a: Rect, b: Rect)
    requires
        a.can_intersect(b),
    ensures
        a.intersection(b).x >= a.x,
        a.intersection(b).x >= b.x,
        a.intersection(b).y >= a.y,
        a.intersection(b).y >= b.y,
        a.intersection(b).w >= 0,
        a.intersection(b).h >= 0,
        a.intersection(b).w > 0 ==> a.intersection(b).right() <= a.right()
            && a.intersection(b).right() <= b.right(),
        a.intersection(b).h > 0 ==> a.intersection(b).bottom() <= a.bottom()
            && a.intersection(b).bottom() <= b.bottom(),
{
}

/// An RGBA color with 8 bits per channel.
#[derive(Debug, Clone, Copy, PartialEq, Eq, Structural, Default)]
pub struct Color {
    pub r: u8,
    pub g: u8,
    pub b: u8,
    pub a: u8,
}

impl Color {
    pub fn rgba(r: u8, g: u8, b: u8, a: u8) -> (c: Self)
        ensures
            c.r == r,
            c.g == g,
            c.b == b,
            c.a == a,
    {
        Color { r, g, b, a }
    }

    pub open spec fn spec_transparent() -> Color {
        Color { r: 0, g: 0, b: 0, a: 0 }
    }

    pub fn transparent() -> (v: Color)
        ensures
            v == Color::spec_transparent(),
    {
        Color { r: 0, g: 0, b: 0, a: 0 }
    }

    pub open spec fn spec_white() -> Color {
        Color { r: 255, g: 255, b: 255, a: 255 }
    }

    pub fn white() -> (v: Color)
        ensures
            v == Color::spec_white(),
    {
        Color { r: 255, g: 255, b: 255, a: 255 }
    }
}

/// Identifies a widget or a container.
pub type Id = u32;

/// Identifies a font.
pub type Font = usize;

/// Identifies an image.
pub type Image = usize;

/// Mouse buttons.
#[derive(Debug, Clone, Copy, PartialEq, Eq, Structural)]
pub enum Mouse {
    Left,
    Right,
    Middle,
}

impl Mouse {
    /// The bit that the button sets in a mouse-state mask.
    pub open spec fn spec_bit(self) -> u32 {
        match self {
            Mouse::Left => 1,
            Mouse::Right => 2,
            Mouse::Middle => 4,
        }
    }

    pub fn bit(self) -> (b: u32)
        ensures
            b == self.spec_bit(),
    {
        match self {
            Mouse::Left => 1,
            Mouse::Right => 2,
            Mouse::Middle => 4,
        }
    }
}

/// The mask of the left mouse button.
pub const MOUSE_LEFT: u32 = 1;

/// Keys that the controls react to.
#[derive(Debug, Clone, Copy, PartialEq, Eq, Structural)]
pub enum Key {
    Shift,
    Control,
    Alt,
    Backspace,
    Return,
    Left,
    Right,
    Up,
    Down,
    Delete,
    A,
    C,
    V,
    X,
}

impl Key {
    /// The bit that the key sets in a key-state mask.
    pub open spec fn spec_bit(self) -> u32 {
        match self {
            Key::Shift => 0x1,
            Key::Control => 0x2,
            Key::Alt => 0x4,
            Key::Backspace => 0x8,
            Key::Return => 0x10,
            Key::Left => 0x20,
            Key::Right => 0x40,
            Key::Up => 0x80,
            Key::Down => 0x100,
            Key::Delete => 0x200,
            Key::A => 0x400,
            Key::C => 0x800,
            Key::V => 0x1000,
            Key::X => 0x2000,
        }
    }

    pub fn bit(self) -> (b: u32)
        ensures
            b == self.spec_bit(),
    {
        match self {
            Key::Shift => 0x1,
            Key::Control => 0x2,
            Key::Alt => 0x4,
            Key::Backspace => 0x8,
            Key::Return => 0x10,
            Key::Left => 0x20,
            Key::Right => 0x40,
            Key::Up => 0x80,
            Key::Down => 0x100,
            Key::Delete => 0x200,
            Key::A => 0x400,
            Key::C => 0x800,
            Key::V => 0x1000,
            Key::X => 0x2000,
        }
    }
}

/// Outcomes that a control reports, one bit each.
#[derive(Debug, Clone, Copy, PartialEq, Eq, Structural)]
pub enum Result {
    Active,
    Submit,
    Change,
}

impl Result {
    /// The bit of the outcome in a `Response`.
    pub open spec fn spec_bit(self) -> u32 {
        match self {
            Result::Active => 1,
            Result::Submit => 2,
            Result::Change => 4,
        }
    }

    pub fn bit(self) -> (b: u32)
        ensures
            b == self.spec_bit(),
    {
        match self {
            Result::Active => 1,
            Result::Submit => 2,
            Result::Change => 4,
        }
    }
}

/// A set of option flags for windows and controls.
#[derive(Debug, Clone, Copy, PartialEq, Eq, Structural, Default)]
pub struct Options {
    pub bits: u32,
}

impl Options {
    pub open spec fn spec_align_center() -> Options {
        Options { bits: 0x1 }
    }

    pub fn align_center() -> (v: Options)
        ensures
            v == Options::spec_align_center(),
    {
        Options { bits: 0x1 }
    }
    pub open spec fn spec_align_right() -> Options {
        Options { bits: 0x2 }
    }

    pub fn align_right() -> (v: Options)
        ensures
            v == Options::spec_align_right(),
    {
        Options { bits: 0x2 }
    }
    pub open spec fn spec_passive() -> Options {
        Options { bits: 0x4 }
    }

    pub fn passive() -> (v: Options)
        ensures
            v == Options::spec_passive(),
    {
        Options { bits: 0x4 }
    }
    pub open spec fn spec_no_frame() -> Options {
        Options { bits: 0x8 }
    }

    pub fn no_frame() -> (v: Options)
        ensures
            v == Options::spec_no_frame(),
    {
        Options { bits: 0x8 }
    }
    pub open spec fn spec_no_resize() -> Options {
        Options { bits: 0x10 }
    }

    pub fn no_resize() -> (v: Options)
        ensures
            v == Options::spec_no_resize(),
    {
        Options { bits: 0x10 }
    }
    pub open spec fn spec_no_scroll() -> Options {
        Options { bits: 0x20 }
    }

    pub fn no_scroll() -> (v: Options)
        ensures
            v == Options::spec_no_scroll(),
    {
        Options { bits: 0x20 }
    }
    pub open spec fn spec_no_close() -> Options {
        Options { bits: 0x40 }
    }

    pub fn no_close() -> (v: Options)
        ensures
            v == Options::spec_no_close(),
    {
        Options { bits: 0x40 }
    }
    pub open spec fn spec_no_title() -> Options {
        Options { bits: 0x80 }
    }

    pub fn no_title() -> (v: Options)
        ensures
            v == Options::spec_no_title(),
    {
        Options { bits: 0x80 }
    }
    pub open spec fn spec_hold_focus() -> Options {
        Options { bits: 0x100 }
    }

    pub fn hold_focus() -> (v: Options)
        ensures
            v == Options::spec_hold_focus(),
    {
        Options { bits: 0x100 }
    }
    pub open spec fn spec_auto_size() -> Options {
        Options { bits: 0x200 }
    }

    pub fn auto_size() -> (v: Options)
        ensures
            v == Options::spec_auto_size(),
    {
        Options { bits: 0x200 }
    }
    pub open spec fn spec_is_popup() -> Options {
        Options { bits: 0x400 }
    }

    pub fn is_popup() -> (v: Options)
        ensures
            v == Options::spec_is_popup(),
    {
        Options { bits: 0x400 }
    }
    pub open spec fn spec_is_closed() -> Options {
        Options { bits: 0x800 }
    }

    pub fn is_closed() -> (v: Options)
        ensures
            v == Options::spec_is_closed(),
    {
        Options { bits: 0x800 }
    }
    pub open spec fn spec_is_expanded() -> Options {
        Options { bits: 0x1000 }
    }

    pub fn is_expanded() -> (v: Options)
        ensures
            v == Options::spec_is_expanded(),
    {
        Options { bits: 0x1000 }
    }
    pub open spec fn spec_multiline() -> Options {
        Options { bits: 0x2000 }
    }

    pub fn multiline() -> (v: Options)
        ensures
            v == Options::spec_multiline(),
    {
        Options { bits: 0x2000 }
    }

    /// Every flag of `other` is set in `self`.
    pub open spec fn has(self, other: Options) -> bool {
        self.bits & other.bits == other.bits
    }

    pub fn empty() -> (o: Self)
        ensures
            o.bits == 0,
    {
        Options { bits: 0 }
    }

    pub fn contains(self, other: Self) -> (b: bool)
        ensures
            b == self.has(other),
    {
        self.bits & other.bits == other.bits
    }

    pub fn union(self, other: Self) -> (o: Self)
        ensures
            o.bits == self.bits | other.bits,
    {
        Options { bits: self.bits | other.bits }
    }
}

/// The set of outcomes that a control reports.
#[derive(Debug, Clone, Copy, PartialEq, Eq, Structural, Default)]
pub struct Response {
    pub bits: u32,
}

impl Response {
    pub open spec fn spec_active() -> Response {
        Response { bits: 0x1 }
    }

    pub fn active() -> (v: Response)
        ensures
            v == Response::spec_active(),
    {
        Response { bits: 0x1 }
    }
    pub open spec fn spec_submit() -> Response {
        Response { bits: 0x2 }
    }

    pub fn submit() -> (v: Response)
        ensures
            v == Response::spec_submit(),
    {
        Response { bits: 0x2 }
    }
    pub open spec fn spec_change() -> Response {
        Response { bits: 0x4 }
    }

    pub fn change() -> (v: Response)
        ensures
            v == Response::spec_change(),
    {
        Response { bits: 0x4 }
    }

    /// Every outcome of `other` is in `self`.
    pub open spec fn has(self, other: Response) -> bool {
        self.bits & other.bits == other.bits
    }

    pub fn empty() -> (o: Self)
        ensures
            o.bits == 0,
    {
        Response { bits: 0 }
    }

    pub fn contains(self, other: Self) -> (b: bool)
        ensures
            b == self.has(other),
    {
        self.bits & other.bits == other.bits
    }

    pub fn union(self, other: Self) -> (o: Self)
        ensures
            o.bits == self.bits | other.bits,
    {
        Response { bits: self.bits | other.bits }
    }
}

/// How a rectangle relates to the current clip rectangle.
#[derive(Debug, Clone, Copy, PartialEq, Eq, Structural, PartialOrd, Ord)]
pub enum Clip {
    Unclipped,
    Partial,
    All,
}

/// Icons drawn by the controls.
#[derive(Debug, Clone, Copy, PartialEq, Eq, Structural)]
pub enum Icon {
    Close,
    Check,
    Collapsed,
    Expanded,
}

/// The slots of the style's color table.
#[derive(Debug, Clone, Copy, PartialEq, Eq, Structural)]
pub enum ColorSlot {
    Text,
    Border,
    Window,
    Title,
    Heading,
    Panel,
    Button,
    ButtonHover,
    ButtonFocus,
    Input,
    InputHover,
    InputFocus,
    Scroll,
    Thumb,
    Selection,
}

/// The number of color slots.
pub const COLOR_COUNT: usize = 15;

impl ColorSlot {
    /// The position of the slot in the color table.
    pub open spec fn spec_index(self) -> int {
        match self {
            ColorSlot::Text => 0,
            ColorSlot::Border => 1,
            ColorSlot::Window => 2,
            ColorSlot::Title => 3,
            ColorSlot::Heading => 4,
            ColorSlot::Panel => 5,
            ColorSlot::Button => 6,
            ColorSlot::ButtonHover => 7,
            ColorSlot::ButtonFocus => 8,
            ColorSlot::Input => 9,
            ColorSlot::InputHover => 10,
            ColorSlot::InputFocus => 11,
            ColorSlot::Scroll => 12,
            ColorSlot::Thumb => 13,
            ColorSlot::Selection => 14,
        }
    }

    pub fn index(self) -> (i: usize)
        ensures
            i == self.spec_index(),
            i < COLOR_COUNT,
    {
        match self {
            ColorSlot::Text => 0,
            ColorSlot::Border => 1,
            ColorSlot::Window => 2,
            ColorSlot::Title => 3,
            ColorSlot::Heading => 4,
            ColorSlot::Panel => 5,
            ColorSlot::Button => 6,
            ColorSlot::ButtonHover => 7,
            ColorSlot::ButtonFocus => 8,
            ColorSlot::Input => 9,
            ColorSlot::InputHover => 10,
            ColorSlot::InputFocus => 11,
            ColorSlot::Scroll => 12,
            ColorSlot::Thumb => 13,
            ColorSlot::Selection => 14,
        }
    }
}

/// A corner radius, held as the bit pattern of an IEEE-754 single-precision number.
#[derive(Debug, Clone, Copy, PartialEq, Eq, Structural, Default)]
pub struct Radius {
    pub bits: u32,
}

impl Radius {
    /// The number is greater than zero: its sign bit is clear, it is not zero and not NaN.
    pub open spec fn spec_is_positive(self) -> bool {
        0 < self.bits <= 0x7f80_0000
    }

    pub fn is_positive(self) -> (b: bool)
        ensures
            b == self.spec_is_positive(),
    {
        0 < self.bits && self.bits <= 0x7f80_0000
    }

    /// The radius zero.
    pub fn zero() -> (r: Self)
        ensures
            r.bits == 0,
    {
        Radius { bits: 0 }
    }
}

} // verus!
