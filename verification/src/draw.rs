use vstd::prelude::*;
use vstd::std_specs::iter::IteratorSpec;

use crate::types::{Color, Font, Icon, Image, Radius, Rect, Vec2, fits};

verus! {

/// A drawing command for the renderer.
#[derive(Debug, Clone)]
pub enum Command {
    Clip(Rect),
    Rect { bounds: Rect, color: Color, radius: Radius, outline: bool },
    Text { font: Font, text: String, position: Vec2, color: Color },
    Icon { kind: Icon, bounds: Rect, color: Color },
    Image { source: Image, bounds: Rect, tint: Color },
}

/// A drawing command as a mathematical value: its text is a sequence of characters.
pub enum CommandView {
    Clip(Rect),
    Rect { bounds: Rect, color: Color, radius: Radius, outline: bool },
    Text { font: Font, text: Seq<char>, position: Vec2, color: Color },
    Icon { kind: Icon, bounds: Rect, color: Color },
    Image { source: Image, bounds: Rect, tint: Color },
}

impl View for Command {
    type V = CommandView;

    open spec fn view(&self) -> CommandView {
        match self {
            Command::Clip(r) => CommandView::Clip(*r),
            Command::Rect { bounds, color, radius, outline } => CommandView::Rect {
                bounds: *bounds,
                color: *color,
                radius: *radius,
                outline: *outline,
            },
            Command::Text { font, text, position, color } => CommandView::Text {
                font: *font,
                text: text@,
                position: *position,
                color: *color,
            },
            Command::Icon { kind, bounds, color } => CommandView::Icon {
                kind: *kind,
                bounds: *bounds,
                color: *color,
            },
            Command::Image { source, bounds, tint } => CommandView::Image {
                source: *source,
                bounds: *bounds,
                tint: *tint,
            },
        }
    }
}

/// The rectangle command, which is only issued for a rectangle with positive width and height.
pub open spec fn rect_cmds(bounds: Rect, color: Color, radius: Radius, outline: bool) -> Seq<CommandView> {
    if bounds.w > 0 && bounds.h > 0 {
        seq![CommandView::Rect { bounds, color, radius, outline }]
    } else {
        Seq::empty()
    }
}

/// A filled rectangle with square corners.
pub open spec fn plain_rect_cmds(bounds: Rect, color: Color) -> Seq<CommandView> {
    rect_cmds(bounds, color, Radius { bits: 0 }, false)
}

/// The four one-pixel edges drawn around `bounds`.
pub open spec fn border_cmds(bounds: Rect, color: Color) -> Seq<CommandView> {
    let e = bounds.expanded(1);
    plain_rect_cmds(Rect::spec_new(e.x + 1, e.y as int, e.w - 2, 1), color) + plain_rect_cmds(
        Rect::spec_new(e.x + 1, e.y + e.h - 1, e.w - 2, 1),
        color,
    ) + plain_rect_cmds(Rect::spec_new(e.x as int, e.y as int, 1, e.h as int), color)
        + plain_rect_cmds(Rect::spec_new(e.x + e.w - 1, e.y as int, 1, e.h as int), color)
}

/// `border(bounds, _)` computes without overflow.
pub open spec fn can_border(bounds: Rect) -> bool {
    let e = bounds.expanded(1);
    &&& bounds.can_expand(1)
    &&& fits(e.x + 1)
    &&& fits(e.w - 2)
    &&& fits(e.y + e.h)
    &&& fits(e.y + e.h - 1)
    &&& fits(e.x + e.w)
    &&& fits(e.x + e.w - 1)
}

/// The commands of one frame, in drawing order.
#[derive(Debug)]
pub struct DrawList {
    commands: Vec<Command>,
}

impl View for DrawList {
    type V = Seq<CommandView>;

    closed spec fn view(&self) -> Seq<CommandView> {
        self.commands@.map_values(|c: Command| c@)
    }
}

impl Default for DrawList {
    fn default() -> (d: Self)
        ensures
            d@ == Seq::<CommandView>::empty(),
    {
        let d = DrawList { commands: Vec::new() };
        assert(d@ =~= Seq::<CommandView>::empty());
        d
    }
}

impl DrawList {
    pub fn push(&mut self, cmd: Command)
        ensures
            final(self)@ == old(self)@.push(cmd@),
    {
        self.commands.push(cmd);
        assert(self@ =~= old(self)@.push(cmd@));
    }

    pub fn clear(&mut self)
        ensures
            final(self)@ == Seq::<CommandView>::empty(),
    {
        self.commands.clear();
        assert(self@ =~= Seq::<CommandView>::empty());
    }

    /// The commands, in order.
    pub fn iter(&self) -> (it: core::slice::Iter<'_, Command>)
        ensures
            IteratorSpec::remaining(&it).map_values(|c: &Command| c@) == self@,
    {
        let it = self.commands.as_slice().iter();
        proof {
            assert(IteratorSpec::remaining(&it).map_values(|c: &Command| c@) =~= self@);
        }
        it
    }

    pub fn clip(&mut self, bounds: Rect)
        ensures
            final(self)@ == old(self)@.push(CommandView::Clip(bounds)),
    {
        self.commands.push(Command::Clip(bounds));
        assert(self@ =~= old(self)@.push(CommandView::Clip(bounds)));
    }

    pub fn rect(&mut self, bounds: Rect, color: Color)
        ensures
            final(self)@ == old(self)@ + plain_rect_cmds(bounds, color),
    {
        if bounds.w > 0 && bounds.h > 0 {
            self.commands.push(Command::Rect { bounds, color, radius: Radius::zero(), outline: false });
        }
        assert(self@ =~= old(self)@ + plain_rect_cmds(bounds, color));
    }

    pub fn rounded_rect(&mut self, bounds: Rect, color: Color, radius: Radius)
        ensures
            final(self)@ == old(self)@ + rect_cmds(bounds, color, radius, false),
    {
        if bounds.w > 0 && bounds.h > 0 {
            self.commands.push(Command::Rect { bounds, color, radius, outline: false });
        }
        assert(self@ =~= old(self)@ + rect_cmds(bounds, color, radius, false));
    }

    pub fn rounded_outline(&mut self, bounds: Rect, color: Color, radius: Radius)
        ensures
            final(self)@ == old(self)@ + rect_cmds(bounds, color, radius, true),
    {
        if bounds.w > 0 && bounds.h > 0 {
            self.commands.push(Command::Rect { bounds, color, radius, outline: true });
        }
        assert(self@ =~= old(self)@ + rect_cmds(bounds, color, radius, true));
    }

    pub fn border(&mut self, bounds: Rect, color: Color)
        requires
            can_border(bounds),
        ensures
            final(self)@ == old(self)@ + border_cmds(bounds, color),
    {
        let e = bounds.expand(1);
        self.rect(Rect::new(e.x + 1, e.y, e.w - 2, 1), color);
        self.rect(Rect::new(e.x + 1, e.y + e.h - 1, e.w - 2, 1), color);
        self.rect(Rect::new(e.x, e.y, 1, e.h), color);
        self.rect(Rect::new(e.x + e.w - 1, e.y, 1, e.h), color);
        assert(self@ =~= old(self)@ + border_cmds(bounds, color));
    }

    pub fn text(&mut self, font: Font, text: String, position: Vec2, color: Color)
        ensures
            final(self)@ == old(self)@.push((CommandView::Text { font, text: text@, position, color })),
    {
        let ghost t = text@;
        self.commands.push(Command::Text { font, text, position, color });
        assert(self@ =~= old(self)@.push((CommandView::Text { font, text: t, position, color })));
    }

    pub fn icon(&mut self, kind: Icon, bounds: Rect, color: Color)
        ensures
            final(self)@ == old(self)@.push((CommandView::Icon { kind, bounds, color })),
    {
        self.commands.push(Command::Icon { kind, bounds, color });
        assert(self@ =~= old(self)@.push((CommandView::Icon { kind, bounds, color })));
    }

    pub fn image(&mut self, source: Image, bounds: Rect, tint: Color)
        ensures
            final(self)@ == old(self)@.push((CommandView::Image { source, bounds, tint })),
    {
        self.commands.push(Command::Image { source, bounds, tint });
        assert(self@ =~= old(self)@.push((CommandView::Image { source, bounds, tint })));
    }
}

} // verus!
