use vstd::prelude::*;

use crate::types::{Rect, Vec2, fits, max_int};

verus! {

/// The most columns that a layout row can have.
pub const MAX_WIDTHS: usize = 16;

/// How the rectangle set by `set_next` is to be placed.
#[derive(Debug, Clone, Copy, PartialEq, Eq, Structural)]
pub enum NextType {
    Unset,
    Relative,
    Absolute,
}

/// Places the controls of a container in rows of columns.
#[derive(Debug, Clone)]
pub struct Layout {
    pub body: Rect,
    pub position: Vec2,
    pub size: Vec2,
    pub maximum: Vec2,
    pub widths: [i32; 16],
    pub items: usize,
    pub item_index: usize,
    pub next_row: i32,
    pub next: Rect,
    pub next_type: NextType,
    pub indent: i32,
}

/// The state of a layout, as a mathematical value.
pub struct LayoutView {
    pub body: Rect,
    pub position: Vec2,
    pub size: Vec2,
    pub maximum: Vec2,
    pub widths: Seq<i32>,
    pub items: nat,
    pub item_index: nat,
    pub next_row: int,
    pub next: Rect,
    pub next_type: NextType,
    pub indent: int,
}

impl View for Layout {
    type V = LayoutView;

    open spec fn view(&self) -> LayoutView {
        LayoutView {
            body: self.body,
            position: self.position,
            size: self.size,
            maximum: self.maximum,
            widths: self.widths@,
            items: self.items as nat,
            item_index: self.item_index as nat,
            next_row: self.next_row as int,
            next: self.next,
            next_type: self.next_type,
            indent: self.indent as int,
        }
    }
}

/// The widths of a row: the first `count` come from `given`, as far as it reaches, and the
/// others stay as they were.
pub open spec fn row_widths(old: Seq<i32>, given: Seq<i32>, count: nat) -> Seq<i32> {
    Seq::new(
        old.len(),
        |i: int|
            if i < count && i < given.len() {
                given[i]
            } else {
                old[i]
            },
    )
}

impl LayoutView {
    /// The invariant of a layout.
    pub open spec fn wf(self) -> bool {
        &&& self.widths.len() == MAX_WIDTHS
        &&& self.items <= MAX_WIDTHS
        &&& self.items > 0 ==> self.item_index <= self.items
    }

    /// The public fields agree with the view.
    pub open spec fn same_public(self, l: Layout) -> bool {
        &&& l.body == self.body
        &&& l.size == self.size
        &&& l.maximum == self.maximum
        &&& l.indent == self.indent
    }

    /// The layout after `row(count, given, height)`.
    pub open spec fn after_row(self, count: nat, given: Seq<i32>, height: int) -> LayoutView {
        LayoutView {
            widths: row_widths(self.widths, given, count),
            items: count,
            position: Vec2 { x: self.indent as i32, y: self.next_row as i32 },
            size: Vec2 { x: self.size.x, y: height as i32 },
            item_index: 0,
            ..self
        }
    }

    /// The layout after `set_next(bounds, absolute)`.
    pub open spec fn after_set_next(self, bounds: Rect, absolute: bool) -> LayoutView {
        LayoutView {
            next: bounds,
            next_type: if absolute {
                NextType::Absolute
            } else {
                NextType::Relative
            },
            ..self
        }
    }

    /// `track(result, spacing)` computes without overflow.
    pub open spec fn can_track(self, r: Rect, spacing: int) -> bool {
        &&& fits(r.x - self.body.x)
        &&& fits(r.x - self.body.x + r.w)
        &&& fits(r.x - self.body.x + r.w + spacing)
        &&& fits(r.y - self.body.y)
        &&& fits(r.y - self.body.y + r.h)
        &&& fits(r.y - self.body.y + r.h + spacing)
        &&& fits(r.x + r.w)
        &&& fits(r.y + r.h)
    }

    /// The layout after recording that `r` was placed.
    pub open spec fn after_track(self, r: Rect, spacing: int) -> LayoutView {
        LayoutView {
            position: Vec2 { x: (r.x - self.body.x + r.w + spacing) as i32, y: self.position.y },
            next_row: max_int(self.next_row, r.y - self.body.y + r.h + spacing),
            maximum: Vec2 {
                x: max_int(self.maximum.x as int, r.x + r.w) as i32,
                y: max_int(self.maximum.y as int, r.y + r.h) as i32,
            },
            ..self
        }
    }

    /// The layout just before an automatic placement: on a new row when the row is full.
    pub open spec fn wrapped(self) -> LayoutView {
        if self.item_index == self.items {
            self.after_row(self.items, Seq::empty(), self.size.y as int)
        } else {
            self
        }
    }

    /// The width and height that an automatic placement starts from.
    pub open spec fn cell_width(self) -> int {
        let s = self.wrapped();
        if s.items > 0 {
            s.widths[s.item_index as int] as int
        } else {
            s.size.x as int
        }
    }

    /// A zero extent takes the default size plus spacing on both sides.
    pub open spec fn sized(v: int, default: int, spacing: int) -> int {
        if v == 0 {
            default + spacing * 2
        } else {
            v
        }
    }

    /// A negative extent counts back from the far side of the body.
    pub open spec fn stretched(v: int, body_extent: int, origin: int) -> int {
        if v < 0 {
            v + (body_extent - origin + 1)
        } else {
            v
        }
    }

    /// The width of the next automatic placement.
    pub open spec fn auto_w(self, default_size: Vec2, spacing: int) -> int {
        let s = self.wrapped();
        LayoutView::stretched(
            LayoutView::sized(self.cell_width(), default_size.x as int, spacing),
            s.body.w as int,
            s.position.x as int,
        )
    }

    /// The height of the next automatic placement.
    pub open spec fn auto_h(self, default_size: Vec2, spacing: int) -> int {
        let s = self.wrapped();
        LayoutView::stretched(
            LayoutView::sized(s.size.y as int, default_size.y as int, spacing),
            s.body.h as int,
            s.position.y as int,
        )
    }

    /// The rectangle of the next automatic placement.
    pub open spec fn auto_rect(self, default_size: Vec2, spacing: int) -> Rect {
        let s = self.wrapped();
        Rect::spec_new(
            s.position.x + s.body.x,
            s.position.y + s.body.y,
            self.auto_w(default_size, spacing),
            self.auto_h(default_size, spacing),
        )
    }

    /// The rectangle placed relative to the body by `set_next`.
    pub open spec fn relative_rect(self) -> Rect {
        Rect::spec_new(
            self.next.x + self.body.x,
            self.next.y + self.body.y,
            self.next.w as int,
            self.next.h as int,
        )
    }

    /// The rectangle that `next` returns.
    pub open spec fn next_rect(self, default_size: Vec2, spacing: int) -> Rect {
        match self.next_type {
            NextType::Absolute => self.next,
            NextType::Relative => self.relative_rect(),
            NextType::Unset => self.auto_rect(default_size, spacing),
        }
    }

    /// The layout after `next`.
    pub open spec fn after_next(self, default_size: Vec2, spacing: int) -> LayoutView {
        match self.next_type {
            NextType::Absolute => LayoutView { next_type: NextType::Unset, ..self },
            NextType::Relative => LayoutView { next_type: NextType::Unset, ..self }.after_track(
                self.relative_rect(),
                spacing,
            ),
            NextType::Unset => {
                let s = self.wrapped();
                LayoutView { item_index: s.item_index + 1, ..s }.after_track(
                    self.auto_rect(default_size, spacing),
                    spacing,
                )
            },
        }
    }

    /// An extent that is sized and stretched computes without overflow.
    pub open spec fn can_size(v: int, default: int, spacing: int, body_extent: int, origin: int) -> bool {
        let s = LayoutView::sized(v, default, spacing);
        &&& v == 0 ==> fits(spacing * 2) && fits(default + spacing * 2)
        &&& s < 0 ==> fits(body_extent - origin) && fits(body_extent - origin + 1) && fits(
            s + (body_extent - origin + 1),
        )
    }

    /// `next` computes without overflow.
    pub open spec fn can_next(self, default_size: Vec2, spacing: int) -> bool {
        match self.next_type {
            NextType::Absolute => true,
            NextType::Relative => {
                &&& fits(self.next.x + self.body.x)
                &&& fits(self.next.y + self.body.y)
                &&& self.can_track(self.relative_rect(), spacing)
            },
            NextType::Unset => {
                let s = self.wrapped();
                &&& s.item_index < usize::MAX
                &&& LayoutView::can_size(
                    self.cell_width(),
                    default_size.x as int,
                    spacing,
                    s.body.w as int,
                    s.position.x as int,
                )
                &&& LayoutView::can_size(
                    s.size.y as int,
                    default_size.y as int,
                    spacing,
                    s.body.h as int,
                    s.position.y as int,
                )
                &&& fits(s.position.x + s.body.x)
                &&& fits(s.position.y + s.body.y)
                &&& s.can_track(self.auto_rect(default_size, spacing), spacing)
            },
        }
    }

    /// The extent of what the layout has placed, measured from the body's origin.
    pub open spec fn content(self) -> Vec2 {
        Vec2 {
            x: (self.maximum.x - self.body.x) as i32,
            y: (self.maximum.y - self.body.y) as i32,
        }
    }

    /// The layout that `Layout::new(body, scroll)` builds.
    pub open spec fn initial(body: Rect, scroll: Vec2) -> LayoutView {
        LayoutView {
            body: Rect::spec_new(body.x - scroll.x, body.y - scroll.y, body.w as int, body.h as int),
            position: Vec2 { x: 0, y: 0 },
            size: Vec2 { x: 0, y: 0 },
            maximum: Vec2 { x: -0x1000000i32, y: -0x1000000i32 },
            widths: Seq::new(MAX_WIDTHS as nat, |i: int| 0i32),
            items: 1,
            item_index: 0,
            next_row: 0,
            next: Rect { x: 0, y: 0, w: 0, h: 0 },
            next_type: NextType::Unset,
            indent: 0,
        }
    }
}

/// A rectangle given to `set_next` as absolute is placed exactly there, and the layout then
/// goes back to placing controls itself.
pub proof fn law_absolute_placement(l: LayoutView, bounds: Rect, default_size: Vec2, spacing: int)
    ensures
        l.after_set_next(bounds, true).next_rect(default_size, spacing) == bounds,
        l.after_set_next(bounds, true).after_next(default_size, spacing).next_type == NextType::Unset,
{
}

/// Two controls placed one after the other in a row that is not yet full share their top edge,
/// and the second starts `spacing` after the first ends.
pub proof fn law_row_side_by_side(l: LayoutView, default_size: Vec2, spacing: int)
    requires
        l.wf(),
        l.next_type == NextType::Unset,
        l.item_index + 1 < l.items,
        l.can_next(default_size, spacing),
        l.after_next(default_size, spacing).can_next(default_size, spacing),
    ensures
        ({
            let first = l.next_rect(default_size, spacing);
            let second = l.after_next(default_size, spacing).next_rect(default_size, spacing);
            &&& second.y == first.y
            &&& second.x == first.x + first.w + spacing
        }),
{
}

/// A placement made when the row is full starts a new row: at the indentation, on the line
/// below everything placed so far.
pub proof fn law_full_row_wraps(l: LayoutView, default_size: Vec2, spacing: int)
    requires
        l.next_type == NextType::Unset,
        l.item_index == l.items,
        fits(l.indent),
        fits(l.next_row),
        l.can_next(default_size, spacing),
    ensures
        l.next_rect(default_size, spacing).x == l.indent + l.body.x,
        l.next_rect(default_size, spacing).y == l.next_row + l.body.y,
{
}

/// What the layout records as its extent covers every rectangle it places, and never shrinks.
pub proof fn law_maximum_covers(l: LayoutView, default_size: Vec2, spacing: int)
    requires
        l.can_next(default_size, spacing),
        l.next_type != NextType::Absolute,
    ensures
        ({
            let r = l.next_rect(default_size, spacing);
            let n = l.after_next(default_size, spacing);
            &&& n.maximum.x >= r.x + r.w
            &&& n.maximum.y >= r.y + r.h
            &&& n.maximum.x >= l.maximum.x
            &&& n.maximum.y >= l.maximum.y
        }),
{
}

/// `m1` is the extent `m0` seen from a body moved back by `s`; both may still be the starting
/// value, which no placement has raised.
pub open spec fn extent_scrolled(m0: i32, m1: i32, s: i32) -> bool {
    ||| m1 == m0 - s
    ||| m0 == -0x1000000i32 && m1 == -0x1000000i32
}

/// `l1` is the layout `l0` with its body moved back by `s`: a layout scrolled by `s` beside the
/// same layout unscrolled.
pub open spec fn scrolled_by(l0: LayoutView, l1: LayoutView, s: Vec2) -> bool {
    &&& l1.body.x == l0.body.x - s.x
    &&& l1.body.y == l0.body.y - s.y
    &&& l1.body.w == l0.body.w
    &&& l1.body.h == l0.body.h
    &&& l1.position == l0.position
    &&& l1.size == l0.size
    &&& l1.widths == l0.widths
    &&& l1.items == l0.items
    &&& l1.item_index == l0.item_index
    &&& l1.next_row == l0.next_row
    &&& l1.next == l0.next
    &&& l1.next_type == l0.next_type
    &&& l1.indent == l0.indent
    &&& extent_scrolled(l0.maximum.x, l1.maximum.x, s.x)
    &&& extent_scrolled(l0.maximum.y, l1.maximum.y, s.y)
}

/// A layout made over a body with scroll `s` is the one made over the same body without
/// scroll, moved back by `s`.
pub proof fn law_scroll_initial(body: Rect, s: Vec2)
    requires
        fits(body.x - s.x),
        fits(body.y - s.y),
    ensures
        scrolled_by(LayoutView::initial(body, Vec2 { x: 0, y: 0 }), LayoutView::initial(body, s), s),
{
}

/// Starting a row, or setting a relative next rectangle, keeps a scrolled layout the unscrolled
/// one moved back by the scroll.
pub proof fn law_scroll_row_and_set_next(
    l0: LayoutView,
    l1: LayoutView,
    s: Vec2,
    count: nat,
    given: Seq<i32>,
    height: int,
    bounds: Rect,
)
    requires
        scrolled_by(l0, l1, s),
    ensures
        scrolled_by(l0.after_row(count, given, height), l1.after_row(count, given, height), s),
        scrolled_by(l0.after_set_next(bounds, false), l1.after_set_next(bounds, false), s),
{
}

/// In a scrolled layout, each placement that is not absolute is the one the unscrolled layout
/// makes, moved back by the scroll; after it the two layouts are still so related, and their
/// extents differ by exactly the scroll.
pub proof fn law_scroll_next(l0: LayoutView, l1: LayoutView, s: Vec2, default_size: Vec2, spacing: int)
    requires
        scrolled_by(l0, l1, s),
        l0.next_type != NextType::Absolute,
        l0.can_next(default_size, spacing),
        l1.can_next(default_size, spacing),
        ({
            let r0 = l0.next_rect(default_size, spacing);
            let r1 = l1.next_rect(default_size, spacing);
            &&& r0.x + r0.w > -0x1000000
            &&& r0.y + r0.h > -0x1000000
            &&& r1.x + r1.w > -0x1000000
            &&& r1.y + r1.h > -0x1000000
        }),
    ensures
        ({
            let r0 = l0.next_rect(default_size, spacing);
            let r1 = l1.next_rect(default_size, spacing);
            let n0 = l0.after_next(default_size, spacing);
            let n1 = l1.after_next(default_size, spacing);
            &&& r1 == Rect::spec_new(r0.x - s.x, r0.y - s.y, r0.w as int, r0.h as int)
            &&& scrolled_by(n0, n1, s)
            &&& n1.maximum.x == n0.maximum.x - s.x
            &&& n1.maximum.y == n0.maximum.y - s.y
        }),
{
}

/// Layouts whose extents differ by exactly the scroll that moves their bodies report the same
/// content size.
pub proof fn law_scroll_content(l0: LayoutView, l1: LayoutView, s: Vec2)
    requires
        scrolled_by(l0, l1, s),
        l1.maximum.x == l0.maximum.x - s.x,
        l1.maximum.y == l0.maximum.y - s.y,
    ensures
        l1.content() == l0.content(),
{
}

/// The layout after `k` automatic placements.
pub open spec fn nexts(l: LayoutView, default_size: Vec2, spacing: int, k: nat) -> LayoutView
    decreases k,
{
    if k == 0 {
        l
    } else {
        nexts(l, default_size, spacing, (k - 1) as nat).after_next(default_size, spacing)
    }
}

/// The rectangle of the automatic placement that follows `k` others.
pub open spec fn placed(l: LayoutView, default_size: Vec2, spacing: int, k: nat) -> Rect {
    nexts(l, default_size, spacing, k).next_rect(default_size, spacing)
}

/// What a row started on `l` holds after `i` of its placements.
proof fn lemma_row_state(
    l: LayoutView,
    count: nat,
    given: Seq<i32>,
    height: i32,
    default_size: Vec2,
    spacing: int,
    i: nat,
)
    requires
        l.wf(),
        l.next_type == NextType::Unset,
        fits(l.indent),
        fits(l.next_row),
        0 < count <= MAX_WIDTHS,
        given.len() >= count,
        i <= count,
        forall|k: nat|
            k < count ==> #[trigger] nexts(l.after_row(count, given, height as int), default_size, spacing, k).can_next(
                default_size,
                spacing,
            ),
    ensures
        ({
            let row = l.after_row(count, given, height as int);
            let st = nexts(row, default_size, spacing, i);
            &&& st.item_index == i
            &&& st.items == count
            &&& st.widths == row.widths
            &&& st.size == row.size
            &&& st.body == l.body
            &&& st.next_type == NextType::Unset
            &&& st.position.y == row.position.y
            &&& i == 0 ==> st.position.x == l.indent
            &&& i > 0 ==> {
                let p = placed(row, default_size, spacing, (i - 1) as nat);
                st.position.x == p.x - l.body.x + p.w + spacing
            }
        }),
    decreases i,
{
    if i > 0 {
        let row = l.after_row(count, given, height as int);
        lemma_row_state(l, count, given, height, default_size, spacing, (i - 1) as nat);
        let prev = nexts(row, default_size, spacing, (i - 1) as nat);
        assert(prev.can_next(default_size, spacing));
        assert(prev.wrapped() == prev);
        assert(nexts(row, default_size, spacing, i) == prev.after_next(default_size, spacing));
    }
}

/// The placements of a row whose widths are all given and positive, with a positive height:
/// each has the width given for its column and the row's height, all share the top edge of
/// the first, the first starts at the indentation, and each next one starts `spacing` after
/// the previous one ends.
pub proof fn law_whole_row(
    l: LayoutView,
    count: nat,
    given: Seq<i32>,
    height: i32,
    default_size: Vec2,
    spacing: int,
)
    requires
        l.wf(),
        l.next_type == NextType::Unset,
        fits(l.indent),
        fits(l.next_row),
        0 < count <= MAX_WIDTHS,
        given.len() >= count,
        forall|k: int| 0 <= k < count ==> #[trigger] given[k] > 0,
        height > 0,
        forall|k: nat|
            k < count ==> #[trigger] nexts(l.after_row(count, given, height as int), default_size, spacing, k).can_next(
                default_size,
                spacing,
            ),
    ensures
        ({
            let row = l.after_row(count, given, height as int);
            &&& row.size.y == height
            &&& placed(row, default_size, spacing, 0).x == l.body.x + l.indent
            &&& forall|k: nat|
                k < count ==> {
                    let r = #[trigger] placed(row, default_size, spacing, k);
                    &&& r.y == placed(row, default_size, spacing, 0).y
                    &&& r.w == given[k as int]
                    &&& r.h == height
                }
            &&& forall|k: nat|
                0 < k < count ==> {
                    let r = #[trigger] placed(row, default_size, spacing, k);
                    let q = placed(row, default_size, spacing, (k - 1) as nat);
                    r.x == q.x + q.w + spacing
                }
        }),
{
    let row = l.after_row(count, given, height as int);
    lemma_row_state(l, count, given, height, default_size, spacing, 0);
    assert(nexts(row, default_size, spacing, 0).can_next(default_size, spacing));
    assert forall|k: nat| k < count implies {
        let r = #[trigger] placed(row, default_size, spacing, k);
        &&& r.y == placed(row, default_size, spacing, 0).y
        &&& r.w == given[k as int]
        &&& r.h == height
    } by {
        lemma_row_state(l, count, given, height, default_size, spacing, k);
        assert(nexts(row, default_size, spacing, k).can_next(default_size, spacing));
        assert(given[k as int] > 0);
    }
    assert forall|k: nat| 0 < k < count implies {
        let r = #[trigger] placed(row, default_size, spacing, k);
        let q = placed(row, default_size, spacing, (k - 1) as nat);
        r.x == q.x + q.w + spacing
    } by {
        lemma_row_state(l, count, given, height, default_size, spacing, k);
        assert(nexts(row, default_size, spacing, k).can_next(default_size, spacing));
    }
}

/// The furthest right edge and the lowest bottom edge reached after `k` automatic placements,
/// starting from the extent that `l` records.
pub open spec fn reach(l: LayoutView, default_size: Vec2, spacing: int, k: nat) -> (int, int)
    decreases k,
{
    if k == 0 {
        (l.maximum.x as int, l.maximum.y as int)
    } else {
        let before = reach(l, default_size, spacing, (k - 1) as nat);
        let r = placed(l, default_size, spacing, (k - 1) as nat);
        (max_int(before.0, r.x + r.w), max_int(before.1, r.y + r.h))
    }
}

/// After any number of placements that are not absolute, the extent the layout records is
/// exactly the furthest edges they reached, and its content size is that extent measured from
/// the body, which the placements leave where it was.
pub proof fn law_content_is_reach(l: LayoutView, default_size: Vec2, spacing: int, k: nat)
    requires
        l.next_type != NextType::Absolute,
        forall|i: nat| i < k ==> #[trigger] nexts(l, default_size, spacing, i).can_next(default_size, spacing),
    ensures
        ({
            let n = nexts(l, default_size, spacing, k);
            let m = reach(l, default_size, spacing, k);
            &&& n.maximum.x == m.0
            &&& n.maximum.y == m.1
            &&& n.body == l.body
            &&& n.content() == Vec2 { x: (m.0 - l.body.x) as i32, y: (m.1 - l.body.y) as i32 }
        }),
    decreases k,
{
    if k > 0 {
        law_content_is_reach(l, default_size, spacing, (k - 1) as nat);
        let prev = nexts(l, default_size, spacing, (k - 1) as nat);
        assert(prev.can_next(default_size, spacing));
        assert(k - 1 > 0 ==> prev.next_type == NextType::Unset);
    }
}

/// A negative width or height in a row counts back from the far side of the body: the cell
/// placed for a negative width `v` starts where the row has got to and ends `-v - 1` pixels
/// before the body's right edge, and one for a negative row height `h` ends `-h - 1` pixels
/// above the body's bottom edge; so two negative widths place cells whose widths differ by
/// exactly the difference of the two.
pub proof fn law_negative_extent_counts_from_far_side(l: LayoutView, default_size: Vec2, spacing: int)
    requires
        l.wf(),
        l.next_type == NextType::Unset,
        l.item_index < l.items,
        l.can_next(default_size, spacing),
    ensures
        ({
            let r = l.next_rect(default_size, spacing);
            let v = l.widths[l.item_index as int] as int;
            &&& r.x == l.position.x + l.body.x
            &&& r.y == l.position.y + l.body.y
            &&& v < 0 ==> r.x + r.w == l.body.x + l.body.w + v + 1
            &&& l.size.y < 0 ==> r.y + r.h == l.body.y + l.body.h + l.size.y + 1
        }),
{
}

/// Two layouts that differ only in the negative width of the cell about to be placed place
/// cells at the same spot whose widths differ by exactly the difference of the two widths.
pub proof fn law_negative_widths_differ_by_their_difference(
    l: LayoutView,
    v1: i32,
    v2: i32,
    default_size: Vec2,
    spacing: int,
)
    requires
        l.wf(),
        l.next_type == NextType::Unset,
        l.item_index < l.items,
        v1 < 0,
        v2 < 0,
        (LayoutView { widths: l.widths.update(l.item_index as int, v1), ..l }).can_next(
            default_size,
            spacing,
        ),
        (LayoutView { widths: l.widths.update(l.item_index as int, v2), ..l }).can_next(
            default_size,
            spacing,
        ),
    ensures
        ({
            let r1 = (LayoutView { widths: l.widths.update(l.item_index as int, v1), ..l }).next_rect(
                default_size,
                spacing,
            );
            let r2 = (LayoutView { widths: l.widths.update(l.item_index as int, v2), ..l }).next_rect(
                default_size,
                spacing,
            );
            &&& r1.x == r2.x
            &&& r2.w - r1.w == v2 - v1
        }),
{
    let l1 = LayoutView { widths: l.widths.update(l.item_index as int, v1), ..l };
    let l2 = LayoutView { widths: l.widths.update(l.item_index as int, v2), ..l };
    law_negative_extent_counts_from_far_side(l1, default_size, spacing);
    law_negative_extent_counts_from_far_side(l2, default_size, spacing);
}

/// One call made on a layout: `row`, `set_next`, a change of the indentation, or `next`.
pub enum LayoutCall {
    Row { count: nat, widths: Seq<i32>, height: int },
    SetNext { bounds: Rect, absolute: bool },
    Indent { indent: int },
    Next,
}

/// The layout after `call`.
pub open spec fn after_call(l: LayoutView, call: LayoutCall, default_size: Vec2, spacing: int) -> LayoutView {
    match call {
        LayoutCall::Row { count, widths, height } => l.after_row(count, widths, height),
        LayoutCall::SetNext { bounds, absolute } => l.after_set_next(bounds, absolute),
        LayoutCall::Indent { indent } => LayoutView { indent, ..l },
        LayoutCall::Next => l.after_next(default_size, spacing),
    }
}

/// The layout after the calls `calls`, in order.
pub open spec fn after_calls(l: LayoutView, calls: Seq<LayoutCall>, default_size: Vec2, spacing: int) -> LayoutView
    decreases calls.len(),
{
    if calls.len() == 0 {
        l
    } else {
        after_call(after_calls(l, calls.drop_last(), default_size, spacing), calls.last(), default_size, spacing)
    }
}

/// The rectangles that the `next` calls among `calls` return, in order.
pub open spec fn placements(l: LayoutView, calls: Seq<LayoutCall>, default_size: Vec2, spacing: int) -> Seq<Rect>
    decreases calls.len(),
{
    if calls.len() == 0 {
        Seq::empty()
    } else {
        let before = placements(l, calls.drop_last(), default_size, spacing);
        match calls.last() {
            LayoutCall::Next => before.push(
                after_calls(l, calls.drop_last(), default_size, spacing).next_rect(default_size, spacing),
            ),
            _ => before,
        }
    }
}

/// Each `next` among `calls` computes without overflow.
pub open spec fn calls_fit(l: LayoutView, calls: Seq<LayoutCall>, default_size: Vec2, spacing: int) -> bool {
    forall|i: int|
        0 <= i < calls.len() && calls[i] is Next ==> #[trigger] after_calls(
            l,
            calls.take(i),
            default_size,
            spacing,
        ).can_next(default_size, spacing)
}

/// The furthest right edge and the lowest bottom edge that the placements among `calls` which
/// are not absolute reach, starting from the extent that `l` records.
pub open spec fn calls_reach(l: LayoutView, calls: Seq<LayoutCall>, default_size: Vec2, spacing: int) -> (int, int)
    decreases calls.len(),
{
    if calls.len() == 0 {
        (l.maximum.x as int, l.maximum.y as int)
    } else {
        let before = calls_reach(l, calls.drop_last(), default_size, spacing);
        let at = after_calls(l, calls.drop_last(), default_size, spacing);
        match calls.last() {
            LayoutCall::Next => if at.next_type == NextType::Absolute {
                before
            } else {
                let r = at.next_rect(default_size, spacing);
                (max_int(before.0, r.x + r.w), max_int(before.1, r.y + r.h))
            },
            _ => before,
        }
    }
}

proof fn lemma_calls_fit_prefix(l: LayoutView, calls: Seq<LayoutCall>, default_size: Vec2, spacing: int)
    requires
        calls.len() > 0,
        calls_fit(l, calls, default_size, spacing),
    ensures
        calls_fit(l, calls.drop_last(), default_size, spacing),
        calls.last() is Next ==> after_calls(l, calls.drop_last(), default_size, spacing).can_next(
            default_size,
            spacing,
        ),
{
    let n = calls.len() - 1;
    assert(calls.take(n) =~= calls.drop_last());
    assert forall|i: int|
        0 <= i < calls.drop_last().len() && calls.drop_last()[i] is Next implies #[trigger] after_calls(
        l,
        calls.drop_last().take(i),
        default_size,
        spacing,
    ).can_next(default_size, spacing) by {
        assert(calls.drop_last().take(i) =~= calls.take(i));
        assert(calls[i] is Next);
    }
    if calls.last() is Next {
        assert(calls[n] is Next);
    }
}

/// Whatever calls a layout receives, the extent it records is exactly the furthest edges that
/// its placements which are not absolute reached, and its body stays where it was; so its
/// content size is that extent measured from the body.
pub proof fn law_content_over_calls(l: LayoutView, calls: Seq<LayoutCall>, default_size: Vec2, spacing: int)
    requires
        calls_fit(l, calls, default_size, spacing),
    ensures
        ({
            let n = after_calls(l, calls, default_size, spacing);
            let m = calls_reach(l, calls, default_size, spacing);
            &&& n.maximum.x == m.0
            &&& n.maximum.y == m.1
            &&& n.body == l.body
            &&& n.content() == Vec2 { x: (m.0 - l.body.x) as i32, y: (m.1 - l.body.y) as i32 }
        }),
    decreases calls.len(),
{
    if calls.len() > 0 {
        lemma_calls_fit_prefix(l, calls, default_size, spacing);
        law_content_over_calls(l, calls.drop_last(), default_size, spacing);
    }
}

/// Two layouts made over the same body, one scrolled by `s`, that receive the same calls (no
/// absolute placement among them) stay the one the other moved back by `s`: each placement of
/// the scrolled one is its counterpart moved back by `s`, and once a placement has been made
/// both report the same content size.
pub proof fn law_scroll_over_calls(
    l0: LayoutView,
    l1: LayoutView,
    s: Vec2,
    calls: Seq<LayoutCall>,
    default_size: Vec2,
    spacing: int,
)
    requires
        scrolled_by(l0, l1, s),
        l0.next_type != NextType::Absolute,
        forall|i: int|
            0 <= i < calls.len() ==> !(#[trigger] calls[i] matches LayoutCall::SetNext {
                absolute: true,
                ..
            }),
        calls_fit(l0, calls, default_size, spacing),
        calls_fit(l1, calls, default_size, spacing),
        forall|i: int|
            0 <= i < placements(l0, calls, default_size, spacing).len() ==> {
                let r = #[trigger] placements(l0, calls, default_size, spacing)[i];
                &&& r.x + r.w > -0x1000000
                &&& r.y + r.h > -0x1000000
                &&& r.x + r.w - s.x > -0x1000000
                &&& r.y + r.h - s.y > -0x1000000
            },
    ensures
        ({
            let p0 = placements(l0, calls, default_size, spacing);
            let p1 = placements(l1, calls, default_size, spacing);
            let n0 = after_calls(l0, calls, default_size, spacing);
            let n1 = after_calls(l1, calls, default_size, spacing);
            &&& scrolled_by(n0, n1, s)
            &&& n0.next_type != NextType::Absolute
            &&& p1.len() == p0.len()
            &&& forall|i: int|
                0 <= i < p0.len() ==> #[trigger] p1[i] == Rect::spec_new(
                    p0[i].x - s.x,
                    p0[i].y - s.y,
                    p0[i].w as int,
                    p0[i].h as int,
                )
            &&& p0.len() > 0 ==> n1.maximum.x == n0.maximum.x - s.x
            &&& p0.len() > 0 ==> n1.maximum.y == n0.maximum.y - s.y
            &&& p0.len() > 0 ==> n1.content() == n0.content()
        }),
    decreases calls.len(),
{
    if calls.len() > 0 {
        let rest = calls.drop_last();
        lemma_calls_fit_prefix(l0, calls, default_size, spacing);
        lemma_calls_fit_prefix(l1, calls, default_size, spacing);
        let pr = placements(l0, rest, default_size, spacing);
        assert forall|i: int| 0 <= i < pr.len() implies {
            let r = #[trigger] pr[i];
            &&& r.x + r.w > -0x1000000
            &&& r.y + r.h > -0x1000000
            &&& r.x + r.w - s.x > -0x1000000
            &&& r.y + r.h - s.y > -0x1000000
        } by {
            assert(placements(l0, calls, default_size, spacing)[i] == pr[i]);
        }
        assert forall|i: int| 0 <= i < rest.len() implies !(#[trigger] rest[i] matches LayoutCall::SetNext {
            absolute: true,
            ..
        }) by {
            assert(calls[i] == rest[i]);
        }
        law_scroll_over_calls(l0, l1, s, rest, default_size, spacing);
        let a0 = after_calls(l0, rest, default_size, spacing);
        let a1 = after_calls(l1, rest, default_size, spacing);
        assert(!(calls[calls.len() - 1] matches LayoutCall::SetNext { absolute: true, .. }));
        match calls.last() {
            LayoutCall::Row { count, widths, height } => {
                law_scroll_row_and_set_next(a0, a1, s, count, widths, height, Rect { x: 0, y: 0, w: 0, h: 0 });
            },
            LayoutCall::SetNext { bounds, absolute } => {
                law_scroll_row_and_set_next(a0, a1, s, 0, Seq::empty(), 0, bounds);
            },
            LayoutCall::Indent { indent } => {},
            LayoutCall::Next => {
                let k = pr.len() as int;
                assert(placements(l0, calls, default_size, spacing)[k] == a0.next_rect(default_size, spacing));
                law_scroll_next(a0, a1, s, default_size, spacing);
                law_scroll_content(
                    a0.after_next(default_size, spacing),
                    a1.after_next(default_size, spacing),
                    s,
                );
            },
        }
        let n0 = after_calls(l0, calls, default_size, spacing);
        let n1 = after_calls(l1, calls, default_size, spacing);
        if placements(l0, calls, default_size, spacing).len() > 0 && n1.maximum.x == n0.maximum.x
            - s.x && n1.maximum.y == n0.maximum.y - s.y {
            law_scroll_content(n0, n1, s);
        }
    }
}

impl Layout {
    /// The layout's invariant.
    pub open spec fn wf(&self) -> bool {
        self@.wf() && self@.same_public(*self)
    }

    pub fn new(body: Rect, scroll: Vec2) -> (l: Self)
        requires
            fits(body.x - scroll.x),
            fits(body.y - scroll.y),
        ensures
            l.wf(),
            l@ == LayoutView::initial(body, scroll),
    {
        let shifted = Rect::new(body.x - scroll.x, body.y - scroll.y, body.w, body.h);
        let mut layout = Layout {
            body: shifted,
            position: Vec2::new(0, 0),
            size: Vec2::new(0, 0),
            maximum: Vec2::new(-0x1000000, -0x1000000),
            widths: [0i32; 16],
            items: 0,
            item_index: 0,
            next_row: 0,
            next: Rect::new(0, 0, 0, 0),
            next_type: NextType::Unset,
            indent: 0,
        };
        let first: [i32; 1] = [0i32];
        layout.row(1, &first, 0);
        assert(layout@.widths =~= LayoutView::initial(body, scroll).widths);
        layout
    }

    /// Starts a row of `count` columns; the widths that `widths` gives replace the first ones.
    pub fn row(&mut self, count: usize, widths: &[i32], height: i32)
        requires
            old(self).wf(),
            count <= MAX_WIDTHS,
        ensures
            final(self).wf(),
            final(self)@ == old(self)@.after_row(count as nat, widths@, height as int),
    {
        let mut i: usize = 0;
        while i < count && i < widths.len()
            invariant
                i <= count <= MAX_WIDTHS,
                i <= widths@.len(),
                self.items == old(self).items,
                self.widths@.len() == MAX_WIDTHS,
                forall|j: int|
                    0 <= j < MAX_WIDTHS ==> #[trigger] self.widths@[j] == (if j < i {
                        widths@[j]
                    } else {
                        old(self).widths@[j]
                    }),
                self.body == old(self).body,
                self.position == old(self).position,
                self.size == old(self).size,
                self.maximum == old(self).maximum,
                self.item_index == old(self).item_index,
                self.next_row == old(self).next_row,
                self.next == old(self).next,
                self.next_type == old(self).next_type,
                self.indent == old(self).indent,
            decreases count - i,
        {
            self.widths[i] = widths[i];
            i = i + 1;
        }
        self.items = count;
        self.position = Vec2::new(self.indent, self.next_row);
        self.size.y = height;
        self.item_index = 0;
        assert(self@.widths =~= row_widths(old(self)@.widths, widths@, count as nat));
    }

    /// Sets where the next control goes: at `bounds` itself, or relative to the body.
    pub fn set_next(&mut self, bounds: Rect, absolute: bool)
        requires
            old(self).wf(),
        ensures
            final(self).wf(),
            final(self)@ == old(self)@.after_set_next(bounds, absolute),
    {
        self.next = bounds;
        self.next_type = if absolute {
            NextType::Absolute
        } else {
            NextType::Relative
        };
    }

    /// Places the next control and returns its rectangle.
    pub fn next(&mut self, default_size: Vec2, spacing: i32) -> (r: Rect)
        requires
            old(self).wf(),
            old(self)@.can_next(default_size, spacing as int),
        ensures
            final(self).wf(),
            r == old(self)@.next_rect(default_size, spacing as int),
            final(self)@ == old(self)@.after_next(default_size, spacing as int),
    {
        if self.next_type != NextType::Unset {
            let kind = self.next_type;
            self.next_type = NextType::Unset;
            if kind == NextType::Absolute {
                return self.next;
            }
            let mut result = self.next;
            result.x = result.x + self.body.x;
            result.y = result.y + self.body.y;
            self.track(result, spacing);
            return result;
        }
        if self.item_index == self.items {
            let empty: [i32; 0] = [];
            let items = self.items;
            let h = self.size.y;
            self.row(items, &empty, h);
            assert(self@ == old(self)@.wrapped()) by {
                assert(self@.widths =~= old(self)@.wrapped().widths);
            }
        }
        let w0 = if self.items > 0 {
            self.widths[self.item_index]
        } else {
            self.size.x
        };
        let mut result = Rect::new(self.position.x, self.position.y, w0, self.size.y);
        if result.w == 0 {
            result.w = default_size.x + spacing * 2;
        }
        if result.h == 0 {
            result.h = default_size.y + spacing * 2;
        }
        if result.w < 0 {
            result.w = result.w + (self.body.w - result.x + 1);
        }
        if result.h < 0 {
            result.h = result.h + (self.body.h - result.y + 1);
        }
        self.item_index = self.item_index + 1;
        result.x = result.x + self.body.x;
        result.y = result.y + self.body.y;
        self.track(result, spacing);
        result
    }

    /// Records that `result` was placed: the next control goes `spacing` to its right, the
    /// next row below it, and the extent grows to cover it.
    pub fn track(&mut self, result: Rect, spacing: i32)
        requires
            old(self).wf(),
            old(self)@.can_track(result, spacing as int),
        ensures
            final(self).wf(),
            final(self)@ == old(self)@.after_track(result, spacing as int),
    {
        self.position.x = result.x - self.body.x + result.w + spacing;
        let row_end = result.y - self.body.y + result.h + spacing;
        if row_end > self.next_row {
            self.next_row = row_end;
        }
        let right = result.x + result.w;
        if right > self.maximum.x {
            self.maximum.x = right;
        }
        let bottom = result.y + result.h;
        if bottom > self.maximum.y {
            self.maximum.y = bottom;
        }
    }

    /// The extent of what was placed, measured from the body's origin.
    pub fn content_size(&self) -> (v: Vec2)
        requires
            fits(self.maximum.x - self.body.x),
            fits(self.maximum.y - self.body.y),
        ensures
            v == self@.content(),
            v.x == self.maximum.x - self.body.x,
            v.y == self.maximum.y - self.body.y,
    {
        Vec2::new(self.maximum.x - self.body.x, self.maximum.y - self.body.y)
    }
}

} // verus!
