use vstd::prelude::*;
use vstd::string::StringSliceAdditionalSpecFns;
use vstd::utf8::is_char_boundary;

use crate::context::{Context, hash};
use crate::draw::{CommandView, border_cmds, can_border, plain_rect_cmds, rect_cmds};
use crate::text_edit::{Edit, apply_edit, bytes_of, edit_of};
use crate::types::{lemma_or_zero, Color, ColorSlot, Icon, Id, Key, MOUSE_LEFT, Options, Rect, Response, Vec2, fits};

verus! {

/// `v / 4`, rounded toward zero as Rust's division does.
pub open spec fn quarter(v: int) -> int {
    if v >= 0 {
        v / 4
    } else {
        -((-v) / 4)
    }
}

impl Context {
    /// `mouse_over(bounds)` computes without overflow.
    pub open spec fn can_mouse_over(&self, bounds: Rect) -> bool {
        &&& bounds.edges_fit()
        &&& bounds.holds(self.mouse) ==> self.spec_clip().edges_fit()
    }

    /// The mouse is over `bounds`, inside the clip rectangle, in a container it may hover.
    pub open spec fn spec_mouse_over(&self, bounds: Rect) -> bool {
        bounds.holds(self.mouse) && self.spec_clip().holds(self.mouse) && self.spec_hovering()
    }

    /// The focus and hover state after `update(id, bounds, options)`.
    pub open spec fn after_update(&self, id: Id, bounds: Rect, options: Options) -> Context {
        self.update_with(id, options, self.spec_mouse_over(bounds))
    }

    /// The focus and hover state after updating the control `id` with `options`, when `over`
    /// says whether the mouse is over it.
    pub open spec fn update_with(&self, id: Id, options: Options, over: bool) -> Context {
        let s1 = if self.focus == id {
            Context { focus_updated: true, ..*self }
        } else {
            *self
        };
        if options.has(Options::spec_passive()) {
            s1
        } else {
            let s2 = if over && s1.mouse_down == 0 {
                Context { hover: id, ..s1 }
            } else {
                s1
            };
            let drop_focus = s2.focus == id && ((s2.mouse_pressed != 0 && !over) || (s2.mouse_down
                == 0 && !options.has(Options::spec_hold_focus())));
            let s3 = if drop_focus {
                Context {
                    focus: 0,
                    focus_updated: true,
                    text_focus: 0,
                    text_scroll: 0,
                    ..s2
                }
            } else {
                s2
            };
            if s3.hover == id {
                if s3.mouse_pressed != 0 {
                    Context {
                        focus: id,
                        focus_updated: true,
                        text_focus: if id == 0 {
                            0
                        } else {
                            s3.text_focus
                        },
                        text_scroll: if id == 0 {
                            0
                        } else {
                            s3.text_scroll
                        },
                        ..s3
                    }
                } else if !over {
                    Context { hover: 0, ..s3 }
                } else {
                    s3
                }
            } else {
                s3
            }
        }
    }

    /// The color slot of a frame: the focused or hovered variant of buttons and inputs.
    pub open spec fn spec_frame_color(&self, id: Id, base: ColorSlot) -> ColorSlot {
        if self.focus == id {
            match base {
                ColorSlot::Button => ColorSlot::ButtonFocus,
                ColorSlot::Input => ColorSlot::InputFocus,
                _ => base,
            }
        } else if self.hover == id {
            match base {
                ColorSlot::Button => ColorSlot::ButtonHover,
                ColorSlot::Input => ColorSlot::InputHover,
                _ => base,
            }
        } else {
            base
        }
    }

    /// `draw_frame` computes without overflow.
    pub open spec fn can_draw_frame(&self, bounds: Rect, options: Options) -> bool {
        let border = self.style.spec_color(ColorSlot::Border);
        !options.has(Options::spec_no_frame()) && border.a > 0 ==> if self.style.corner_radius.spec_is_positive() {
            bounds.can_expand(1)
        } else {
            can_border(bounds)
        }
    }

    /// The commands of a frame.
    pub open spec fn frame_cmds(&self, id: Id, bounds: Rect, base: ColorSlot, options: Options) -> Seq<
        CommandView,
    > {
        let color = self.style.spec_color(self.spec_frame_color(id, base));
        let border = self.style.spec_color(ColorSlot::Border);
        let radius = self.style.corner_radius;
        if options.has(Options::spec_no_frame()) {
            Seq::empty()
        } else if radius.spec_is_positive() {
            rect_cmds(bounds, color, radius, false) + if border.a > 0 {
                rect_cmds(bounds.expanded(1), border, radius, true)
            } else {
                Seq::empty()
            }
        } else {
            plain_rect_cmds(bounds, color) + if border.a > 0 {
                border_cmds(bounds, border)
            } else {
                Seq::empty()
            }
        }
    }

    /// `draw_text_aligned` computes without overflow.
    pub open spec fn can_draw_text(&self, bounds: Rect) -> bool {
        &&& bounds.can_intersect(self.spec_clip())
        &&& fits(bounds.x + self.style.padding)
        &&& fits(bounds.y + quarter(bounds.h as int))
    }

    /// The command that draws `text` in `bounds`.
    pub open spec fn text_cmd(&self, text: Seq<char>, bounds: Rect, color: ColorSlot) -> CommandView {
        CommandView::Text {
            font: self.style.font,
            text: text,
            position: Vec2 {
                x: (bounds.x + self.style.padding) as i32,
                y: (bounds.y + quarter(bounds.h as int)) as i32,
            },
            color: self.style.spec_color(color),
        }
    }
}

fn mouse_over(ctx: &Context, bounds: Rect) -> (r: bool)
    requires
        ctx.wf(),
        ctx.can_mouse_over(bounds),
    ensures
        r == ctx.spec_mouse_over(bounds),
{
    bounds.contains(ctx.mouse) && ctx.clip().contains(ctx.mouse) && ctx.hovering()
}

/// A click elsewhere takes the focus away: when the focused control (not passive, and not
/// the hovered one) is updated in a frame where a mouse button is pressed and the mouse is not
/// over it, nothing holds the focus afterwards, and text editing stops. With `HOLD_FOCUS` it
/// is the same, so a focused text box stops taking typed text once the user clicks outside it.
pub proof fn law_click_elsewhere_drops_focus(ctx: Context, id: Id, bounds: Rect, options: Options)
    requires
        ctx.focus == id,
        ctx.hover != id,
        ctx.mouse_pressed != 0,
        !bounds.holds(ctx.mouse),
        !options.has(Options::spec_passive()),
    ensures
        ctx.after_update(id, bounds, options).focus == 0,
        ctx.after_update(id, bounds, options).text_focus == 0,
        ctx.after_update(id, bounds, options).focus_updated,
{
}

/// Updating a control does the same on two states that differ only in their containers and
/// commands.
pub proof fn lemma_update_frame(t: Context, t2: Context, id: Id, options: Options, over: bool)
    requires
        t2 == (Context { containers: t2.containers, draws: t2.draws, ..t }),
    ensures
        t2.update_with(id, options, over) == (Context {
            containers: t2.containers,
            draws: t2.draws,
            ..t.update_with(id, options, over)
        }),
{
}

/// Updates the hover and focus state for the control `id` in `bounds`.
pub fn update(ctx: &mut Context, id: Id, bounds: Rect, options: Options)
    requires
        old(ctx).wf(),
        old(ctx).can_mouse_over(bounds),
    ensures
        final(ctx).wf(),
        *final(ctx) == old(ctx).after_update(id, bounds, options),
{
    let over = mouse_over(ctx, bounds);
    if ctx.focus == id {
        ctx.focus_updated = true;
    }
    if options.contains(Options::passive()) {
        return ;
    }
    if over && ctx.mouse_down == 0 {
        ctx.hover = id;
    }
    if ctx.focus == id {
        if ctx.mouse_pressed != 0 && !over {
            ctx.set_focus(0);
        }
        if ctx.mouse_down == 0 && !options.contains(Options::hold_focus()) {
            ctx.set_focus(0);
        }
    }
    if ctx.hover == id {
        if ctx.mouse_pressed != 0 {
            ctx.set_focus(id);
        } else if !over {
            ctx.hover = 0;
        }
    }
}

/// A control takes the focus only when the mouse button is pressed while it is hovered; it
/// gives the focus up, or keeps it, but never hands it to another control; and a passive
/// control changes neither focus nor hover.
pub proof fn law_focus_by_click(ctx: Context, id: Id, bounds: Rect, options: Options)
    ensures
        ({
            let u = ctx.after_update(id, bounds, options);
            &&& u.focus == id && ctx.focus != id ==> ctx.mouse_pressed != 0 && u.hover == id
            &&& u.focus == ctx.focus || u.focus == id || u.focus == 0
            &&& options.has(Options::spec_passive()) ==> u.focus == ctx.focus && u.hover
                == ctx.hover
        }),
{
}

fn frame_color(ctx: &Context, id: Id, base: ColorSlot) -> (slot: ColorSlot)
    ensures
        slot == ctx.spec_frame_color(id, base),
{
    if ctx.focus == id {
        match base {
            ColorSlot::Button => ColorSlot::ButtonFocus,
            ColorSlot::Input => ColorSlot::InputFocus,
            _ => base,
        }
    } else if ctx.hover == id {
        match base {
            ColorSlot::Button => ColorSlot::ButtonHover,
            ColorSlot::Input => ColorSlot::InputHover,
            _ => base,
        }
    } else {
        base
    }
}

/// Draws the frame of the control `id`, in the color for its focus and hover state.
pub fn draw_frame(ctx: &mut Context, id: Id, bounds: Rect, base: ColorSlot, options: Options)
    requires
        old(ctx).can_draw_frame(bounds, options),
    ensures
        final(ctx).draws@ == old(ctx).draws@ + old(ctx).frame_cmds(id, bounds, base, options),
        *final(ctx) == (Context { draws: final(ctx).draws, ..*old(ctx) }),
{
    if options.contains(Options::no_frame()) {
        assert(ctx.draws@ =~= old(ctx).draws@ + old(ctx).frame_cmds(id, bounds, base, options));
        return ;
    }
    let slot = frame_color(ctx, id, base);
    let color = ctx.style.color(slot);
    let radius = ctx.style.corner_radius;
    if radius.is_positive() {
        ctx.draws.rounded_rect(bounds, color, radius);
        let border = ctx.style.color(ColorSlot::Border);
        if border.a > 0 {
            ctx.draws.rounded_outline(bounds.expand(1), border, radius);
        }
    } else {
        ctx.draws.rect(bounds, color);
        let border = ctx.style.color(ColorSlot::Border);
        if border.a > 0 {
            ctx.draws.border(bounds, border);
        }
    }
    assert(ctx.draws@ =~= old(ctx).draws@ + old(ctx).frame_cmds(id, bounds, base, options));
}

/// Draws `text` in `bounds`, clipped to them.
pub fn draw_text_aligned(
    ctx: &mut Context,
    text: &str,
    bounds: Rect,
    color: ColorSlot,
    options: Options,
)
    requires
        old(ctx).wf(),
        old(ctx).can_draw_text(bounds),
    ensures
        final(ctx).wf(),
        final(ctx).draws@ == old(ctx).draws@.push(old(ctx).text_cmd(text@, bounds, color)),
        final(ctx).clip_stack@ == old(ctx).clip_stack@,
        *final(ctx) == (Context {
            draws: final(ctx).draws,
            clip_stack: final(ctx).clip_stack,
            ..*old(ctx)
        }),
{
    let font = ctx.style.font;
    let padding = ctx.style.padding;
    let c = ctx.style.color(color);
    ctx.push_clip(bounds);
    let position = Vec2::new(bounds.x + padding, bounds.y + bounds.h / 4);
    assert(position.y == bounds.y + quarter(bounds.h as int));
    let s = text.to_owned();
    assert(s@ == text@);
    ctx.draws.text(font, s, position, c);
    ctx.pop_clip();
    assert(ctx.clip_stack@ =~= old(ctx).clip_stack@);
}

impl Context {
    /// A control in `bounds` can be updated and drawn without overflow.
    pub open spec fn can_place(&self, bounds: Rect, options: Options) -> bool {
        &&& self.can_mouse_over(bounds)
        &&& self.can_draw_frame(bounds, options)
        &&& self.can_draw_text(bounds)
    }

    /// The response of a click control: `bits` when the left button was pressed on it.
    pub open spec fn clicked(&self, id: Id) -> bool {
        self.mouse_pressed == MOUSE_LEFT && self.focus == id
    }

    /// `button(label, _, options)` can run.
    pub open spec fn can_button(&self, options: Options) -> bool {
        &&& self.wf()
        &&& self.can_next_bounds()
        &&& self.can_place(self.spec_next_bounds(), options)
    }

    /// The commands that `button` draws.
    pub open spec fn button_cmds(
        &self,
        id: Id,
        label: Seq<char>,
        bounds: Rect,
        icon: Option<Icon>,
        options: Options,
    ) -> Seq<CommandView> {
        self.frame_cmds(id, bounds, ColorSlot::Button, options) + seq![
            self.text_cmd(label, bounds, ColorSlot::Text),
        ] + match icon {
            Some(k) => seq![
                CommandView::Icon {
                    kind: k,
                    bounds: bounds,
                    color: self.style.spec_color(ColorSlot::Text),
                },
            ],
            None => Seq::empty(),
        }
    }

    /// The layout stack advanced by one placement, everything else as in `old`.
    pub open spec fn placed_next(&self, old: &Context) -> bool {
        &&& self.layout_stack@.len() == old.layout_stack@.len()
        &&& self.layout_stack@.drop_last() == old.layout_stack@.drop_last()
        &&& self.top_layout()@ == old.top_layout()@.after_next(old.style.size, old.style.spacing as int)
        &&& self.wf()
    }
}

/// A push button labelled `label`; reports `SUBMIT` when it is clicked.
#[verifier::rlimit(100)]
#[verifier::spinoff_prover]
pub fn button(ctx: &mut Context, label: &str, icon: Option<Icon>, options: Options) -> (r: Response)
    requires
        old(ctx).can_button(options),
    ensures
        ({
            let id = hash(old(ctx).id_seed(), label.spec_bytes());
            let b = old(ctx).spec_next_bounds();
            let u = old(ctx).after_update(id, b, options);
            &&& r.bits == (if u.clicked(id) {
                Response::spec_submit().bits
            } else {
                0
            })
            &&& final(ctx).draws@ == old(ctx).draws@ + u.button_cmds(id, label@, b, icon, options)
            &&& final(ctx).placed_next(old(ctx))
            &&& final(ctx).clip_stack@ == old(ctx).clip_stack@
            &&& *final(ctx) == (Context {
                draws: final(ctx).draws,
                layout_stack: final(ctx).layout_stack,
                clip_stack: final(ctx).clip_stack,
                last_id: id,
                ..u
            })
        }),
{
    let id = ctx.id_str(label);
    let bounds = ctx.next_bounds();
    update(ctx, id, bounds, options);
    let mut result = Response::empty();
    if ctx.mouse_pressed == MOUSE_LEFT && ctx.focus == id {
        proof {
            lemma_or_zero(2);
        }
        result = result.union(Response::submit());
    }
    draw_frame(ctx, id, bounds, ColorSlot::Button, options);
    draw_text_aligned(ctx, label, bounds, ColorSlot::Text, options);
    if let Some(icon) = icon {
        let color = ctx.style.color(ColorSlot::Text);
        ctx.draws.icon(icon, bounds, color);
    }
    proof {
        let u = old(ctx).after_update(id, bounds, options);
        assert(ctx.draws@ =~= old(ctx).draws@ + u.button_cmds(id, label@, bounds, icon, options));
    }
    result
}

/// `checkbox_raw(_, _, _, _)` can run.
pub open spec fn can_checkbox(ctx: &Context) -> bool {
    let b = ctx.spec_next_bounds();
    let boxed = Rect { w: b.h, ..b };
    let rest = Rect::spec_new(b.x + b.h, b.y as int, b.w - b.h, b.h as int);
    &&& ctx.wf()
    &&& ctx.can_next_bounds()
    &&& ctx.can_mouse_over(b)
    &&& ctx.can_draw_frame(boxed, Options { bits: 0 })
    &&& fits(b.x + b.h)
    &&& fits(b.w - b.h)
    &&& ctx.can_draw_text(rest)
}

/// A check box for `state`, labelled `label`, for the control `id`; a click flips `state` and
/// reports `CHANGE`.
#[verifier::rlimit(100)]
#[verifier::spinoff_prover]
pub fn checkbox_raw(ctx: &mut Context, label: &str, state: &mut bool, id: Id) -> (r: Response)
    requires
        can_checkbox(old(ctx)),
    ensures
        ({
            let b = old(ctx).spec_next_bounds();
            let boxed = Rect { w: b.h, ..b };
            let rest = Rect::spec_new(b.x + b.h, b.y as int, b.w - b.h, b.h as int);
            let u = old(ctx).after_update(id, b, Options { bits: 0 });
            &&& *final(state) == (*old(state) != u.clicked(id))
            &&& r.bits == (if u.clicked(id) {
                Response::spec_change().bits
            } else {
                0
            })
            &&& final(ctx).draws@ == old(ctx).draws@ + u.frame_cmds(
                id,
                boxed,
                ColorSlot::Input,
                Options { bits: 0 },
            ) + (if *final(state) {
                seq![
                    CommandView::Icon {
                        kind: Icon::Check,
                        bounds: boxed,
                        color: u.style.spec_color(ColorSlot::Text),
                    },
                ]
            } else {
                Seq::empty()
            }) + seq![u.text_cmd(label@, rest, ColorSlot::Text)]
            &&& final(ctx).placed_next(old(ctx))
            &&& final(ctx).clip_stack@ == old(ctx).clip_stack@
            &&& *final(ctx) == (Context {
                draws: final(ctx).draws,
                layout_stack: final(ctx).layout_stack,
                clip_stack: final(ctx).clip_stack,
                ..u
            })
        }),
{
    let bounds = ctx.next_bounds();
    let box_rect = Rect::new(bounds.x, bounds.y, bounds.h, bounds.h);
    update(ctx, id, bounds, Options::empty());
    let mut result = Response::empty();
    if ctx.mouse_pressed == MOUSE_LEFT && ctx.focus == id {
        proof {
            lemma_or_zero(4);
        }
        result = result.union(Response::change());
        *state = !*state;
    }
    draw_frame(ctx, id, box_rect, ColorSlot::Input, Options::empty());
    if *state {
        let color = ctx.style.color(ColorSlot::Text);
        ctx.draws.icon(Icon::Check, box_rect, color);
    }
    let label_bounds = Rect::new(bounds.x + box_rect.w, bounds.y, bounds.w - box_rect.w, bounds.h);
    draw_text_aligned(ctx, label, label_bounds, ColorSlot::Text, Options::empty());
    proof {
        let u = old(ctx).after_update(id, bounds, Options { bits: 0 });
        assert(ctx.draws@ =~= old(ctx).draws@ + u.frame_cmds(
            id,
            box_rect,
            ColorSlot::Input,
            Options { bits: 0 },
        ) + (if *state {
            seq![
                CommandView::Icon {
                    kind: Icon::Check,
                    bounds: box_rect,
                    color: u.style.spec_color(ColorSlot::Text),
                },
            ]
        } else {
            Seq::empty()
        }) + seq![u.text_cmd(label@, label_bounds, ColorSlot::Text)]);
    }
    result
}

/// A line of text.
pub fn label(ctx: &mut Context, text: &str)
    requires
        old(ctx).wf(),
        old(ctx).can_next_bounds(),
        old(ctx).can_draw_text(old(ctx).spec_next_bounds()),
    ensures
        final(ctx).draws@ == old(ctx).draws@.push(
            old(ctx).text_cmd(text@, old(ctx).spec_next_bounds(), ColorSlot::Text),
        ),
        final(ctx).placed_next(old(ctx)),
        final(ctx).clip_stack@ == old(ctx).clip_stack@,
        *final(ctx) == (Context {
            draws: final(ctx).draws,
            layout_stack: final(ctx).layout_stack,
            clip_stack: final(ctx).clip_stack,
            ..*old(ctx)
        }),
{
    let bounds = ctx.next_bounds();
    draw_text_aligned(ctx, text, bounds, ColorSlot::Text, Options::empty());
}

impl Context {
    /// The state after a text box's `update`: a newly focused text box starts text editing.
    pub open spec fn textbox_focus(&self, id: Id, bounds: Rect, options: Options) -> Context {
        let u = self.after_update(
            id,
            bounds,
            Options { bits: options.bits | Options::spec_hold_focus().bits },
        );
        if u.focus == id && u.text_focus != id {
            Context { text_focus: id, text_scroll: 0, ..u }
        } else {
            u
        }
    }

    /// The edit that a focused text box applies to `buffer`.
    pub open spec fn textbox_edit(&self, buffer: String, capacity: usize) -> Option<Edit> {
        edit_of(self, buffer, false).apply(
            self.key_down,
            self.key_pressed,
            bytes_of(self.input),
            capacity as int,
        )
    }

    /// Return was pressed in a single-line text box.
    pub open spec fn textbox_submits(&self, options: Options) -> bool {
        !options.has(Options::spec_multiline()) && self.key_pressed & Key::Return.spec_bit() != 0
    }

    /// Where a text box draws its text.
    pub open spec fn textbox_origin(&self, bounds: Rect) -> Vec2 {
        Vec2 {
            x: (bounds.x + self.style.padding) as i32,
            y: (bounds.y + self.style.padding) as i32,
        }
    }

    /// The rectangle of the text cursor at byte `cursor`.
    pub open spec fn cursor_rect(&self, bounds: Rect, cursor: int) -> Rect {
        let o = self.textbox_origin(bounds);
        Rect::spec_new(o.x + (cursor as i32) * 8, o.y as int, 1, self.style.size.y + 4)
    }

    /// `textbox_raw` can run on these arguments.
    pub open spec fn can_textbox(
        &self,
        buffer: String,
        capacity: usize,
        id: Id,
        bounds: Rect,
        options: Options,
    ) -> bool {
        let t = self.textbox_focus(id, bounds, options);
        let m = t.textbox_edit(buffer, capacity);
        let o = self.textbox_origin(bounds);
        &&& self.wf()
        &&& self.can_mouse_over(bounds)
        &&& t.focus == id ==> m is Some
        &&& self.can_draw_frame(bounds, options)
        &&& fits(bounds.x + self.style.padding)
        &&& fits(bounds.y + self.style.padding)
        &&& bounds.can_intersect(self.spec_clip())
        &&& t.focus == id ==> ({
            let c = (m->0.cursor as i32) as int;
            &&& fits(c * 8)
            &&& fits(o.x + c * 8)
            &&& fits(self.style.size.y + 4)
        })
    }
}

proof fn lemma_response_bits(changed: bool, submit: bool)
    ensures
        ({
            let x: u32 = if changed {
                0u32 | 4u32
            } else {
                0u32
            };
            &&& x == (if changed { 4u32 } else { 0u32 })
            &&& (x | 2u32) == (if changed { 6u32 } else { 2u32 })
        }),
{
    assert(0u32 | 4u32 == 4u32) by (bit_vector);
    assert(4u32 | 2u32 == 6u32) by (bit_vector);
    assert(0u32 | 2u32 == 2u32) by (bit_vector);
}

/// A text box for `buffer`, which holds at most `capacity` bytes, as the control `id` in
/// `bounds`. While focused it applies the frame's keys and typed text to the buffer, reports
/// `CHANGE` when the text changed and `SUBMIT` when Return ends a single-line edit.
#[verifier::rlimit(80)]
pub fn textbox_raw(
    ctx: &mut Context,
    buffer: &mut String,
    capacity: usize,
    id: Id,
    bounds: Rect,
    options: Options,
) -> (r: Response)
    requires
        old(ctx).can_textbox(*old(buffer), capacity, id, bounds, options),
    ensures
        ({
            let t = old(ctx).textbox_focus(id, bounds, options);
            let focused = t.focus == id;
            let m = t.textbox_edit(*old(buffer), capacity)->0;
            let submit = focused && t.textbox_submits(options);
            let color = t.style.spec_color(ColorSlot::Text);
            &&& focused ==> bytes_of(*final(buffer)) == m.bytes
            &&& focused ==> bytes_of(final(ctx).clipboard) == m.clipboard
            &&& !focused ==> *final(buffer) == *old(buffer)
            &&& !focused ==> final(ctx).clipboard == old(ctx).clipboard
            &&& focused ==> ({
                let e = edit_of(&t, *old(buffer), false).clamped();
                e.boundary(e.cursor) && e.boundary(e.selection) ==> {
                    &&& is_char_boundary(bytes_of(*final(buffer)), final(ctx).cursor as int)
                    &&& is_char_boundary(bytes_of(*final(buffer)), final(ctx).selection as int)
                }
            })
            &&& bytes_of(*old(buffer)).len() <= capacity ==> {
                &&& bytes_of(*final(buffer)).len() <= capacity
                &&& focused ==> final(ctx).cursor <= bytes_of(*final(buffer)).len()
                &&& focused ==> final(ctx).selection <= bytes_of(*final(buffer)).len()
            }
            &&& r.bits == (if focused && m.changed {
                Response::spec_change().bits
            } else {
                0
            }) + (if submit {
                Response::spec_submit().bits
            } else {
                0
            })
            &&& final(ctx).draws@ == old(ctx).draws@ + final(ctx).frame_cmds(
                id,
                bounds,
                ColorSlot::Input,
                options,
            ) + seq![
                CommandView::Text {
                    font: t.style.font,
                    text: final(buffer)@,
                    position: t.textbox_origin(bounds),
                    color: color,
                },
            ] + (if focused {
                plain_rect_cmds(t.cursor_rect(bounds, m.cursor), color)
            } else {
                Seq::empty()
            })
            &&& final(ctx).clip_stack@ == old(ctx).clip_stack@
            &&& *final(ctx) == (Context {
                draws: final(ctx).draws,
                clip_stack: final(ctx).clip_stack,
                clipboard: final(ctx).clipboard,
                cursor: if focused {
                    m.cursor as usize
                } else {
                    t.cursor
                },
                selection: if focused {
                    m.selection as usize
                } else {
                    t.selection
                },
                focus: if submit {
                    0
                } else {
                    t.focus
                },
                focus_updated: t.focus_updated || submit,
                text_focus: if submit {
                    0
                } else {
                    t.text_focus
                },
                text_scroll: if submit {
                    0
                } else {
                    t.text_scroll
                },
                ..t
            })
        }),
{
    let ghost t0 = old(ctx).textbox_focus(id, bounds, options);
    let mut result = Response::empty();
    update(ctx, id, bounds, options.union(Options::hold_focus()));
    let focused = ctx.focus == id;
    if focused && ctx.text_focus != id {
        ctx.text_focus = id;
        ctx.text_scroll = 0;
    }
    assert(*ctx == t0);
    if focused {
        proof {
            broadcast use vstd::utf8::encode_utf8_valid_utf8;

            let e0 = edit_of(&t0, *buffer, false);
            if e0.clamped().boundary(e0.clamped().cursor) && e0.clamped().boundary(
                e0.clamped().selection,
            ) {
                crate::text_edit::law_edit_keeps_boundaries(
                    e0,
                    t0.key_down,
                    t0.key_pressed,
                    bytes_of(t0.input),
                    capacity as int,
                );
            }
            if bytes_of(*buffer).len() <= capacity {
                crate::text_edit::law_edit_within_capacity(
                edit_of(&t0, *buffer, false),
                t0.key_down,
                t0.key_pressed,
                bytes_of(t0.input),
                    capacity as int,
                );
            }
        }
        let changed = apply_edit(ctx, buffer, capacity);
        if changed {
            result = result.union(Response::change());
        }
        if !options.contains(Options::multiline()) && ctx.key_pressed & Key::Return.bit() != 0 {
            ctx.set_focus(0);
            result = result.union(Response::submit());
        }
        proof {
            lemma_response_bits(changed, ctx.focus == 0 && t0.textbox_submits(options));
        }
    }
    draw_frame(ctx, id, bounds, ColorSlot::Input, options);
    let font = ctx.style.font;
    let color = ctx.style.color(ColorSlot::Text);
    let pos = Vec2::new(bounds.x + ctx.style.padding, bounds.y + ctx.style.padding);
    ctx.push_clip(bounds);
    let shown = buffer.clone();
    ctx.draws.text(font, shown, pos, color);
    if focused {
        let cursor_x = pos.x + (ctx.cursor as i32) * 8;
        let h = ctx.style.size.y + 4;
        ctx.draws.rect(Rect::new(cursor_x, pos.y, 1, h), color);
    }
    ctx.pop_clip();
    assert(ctx.clip_stack@ =~= old(ctx).clip_stack@);
    result
}

} // verus!
