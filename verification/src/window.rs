use vstd::prelude::*;
use vstd::string::StringSliceAdditionalSpecFns;

use crate::context::{Container, Context, POOL, PoolEntry, hash, ids_unique, is_first_slot, is_oldest_slot, pool_has};
use crate::controls::{quarter, update};
use crate::draw::{CommandView, plain_rect_cmds};
use crate::style::Style;
use crate::types::{ColorSlot, Icon, Id, MOUSE_LEFT, Options, Rect, Response, Vec2, fits, max_int};

verus! {

/// `a / b` rounded toward zero, as Rust's division of signed integers does.
pub open spec fn trunc_div(a: int, b: int) -> int {
    if a >= 0 {
        a / b
    } else {
        -((-a) / b)
    }
}

/// `v` limited to the range `lo..=hi`.
pub open spec fn clamp_int(v: int, lo: int, hi: int) -> int {
    if v < lo {
        lo
    } else if v > hi {
        hi
    } else {
        v
    }
}

/// The coordinate of `v` along the scrolling axis.
pub open spec fn along(v: Vec2, vertical: bool) -> int {
    if vertical {
        v.y as int
    } else {
        v.x as int
    }
}

/// The extent of `r` along the scrolling axis.
pub open spec fn extent(r: Rect, vertical: bool) -> int {
    if vertical {
        r.h as int
    } else {
        r.w as int
    }
}

/// `v` with its coordinate along the scrolling axis set to `a`.
pub open spec fn with_along(v: Vec2, vertical: bool, a: int) -> Vec2 {
    if vertical {
        Vec2 { y: a as i32, ..v }
    } else {
        Vec2 { x: a as i32, ..v }
    }
}

/// The track of a scrollbar of thickness `size`: right of `body` when vertical, below it
/// otherwise.
pub open spec fn scrollbar_track(body: Rect, size: int, vertical: bool) -> Rect {
    if vertical {
        Rect::spec_new(body.right(), body.y as int, size, body.h as int)
    } else {
        Rect::spec_new(body.x as int, body.bottom(), body.w as int, size)
    }
}

/// The length of the thumb: the share of the track that the viewport shows of the content,
/// and at least `thumb_min`.
pub open spec fn thumb_length(viewport: int, content: int, thumb_min: int) -> int {
    max_int(thumb_min, trunc_div(viewport * viewport, content))
}

/// The thumb of a scrollbar on `track`, placed for the scroll offset `scroll` of at most
/// `max_scroll`.
pub open spec fn scrollbar_thumb(
    track: Rect,
    visible: int,
    scroll: int,
    max_scroll: int,
    vertical: bool,
) -> Rect {
    let offset = trunc_div(scroll * (extent(track, vertical) - visible), max_scroll);
    if vertical {
        Rect::spec_new(track.x as int, track.y + offset, track.w as int, visible)
    } else {
        Rect::spec_new(track.x + offset, track.y as int, visible, track.h as int)
    }
}

/// The label whose id names a scrollbar.
pub open spec fn scrollbar_label(vertical: bool) -> Seq<u8> {
    if vertical {
        "!scrollbar_y".spec_bytes()
    } else {
        "!scrollbar_x".spec_bytes()
    }
}

/// The scrollbar of `body` along one axis computes without overflow or division by zero, with
/// the style, clip rectangle, mouse position and mouse motion given and the scroll offset
/// `scroll` along that axis; the scroll offset is moved with the mouse only when `dragged`.
pub open spec fn can_scrollbar(
    style: Style,
    clip: Rect,
    mouse: Vec2,
    delta: Vec2,
    body: Rect,
    content: Vec2,
    scroll: int,
    vertical: bool,
    dragged: bool,
) -> bool {
    let cs = along(content, vertical);
    let vs = extent(body, vertical);
    let ms = cs - vs;
    let track = scrollbar_track(body, style.scroll_size as int, vertical);
    let visible = thumb_length(vs, cs, style.thumb_size as int);
    let d = along(delta, vertical);
    &&& fits(ms)
    &&& ms > 0 ==> {
        &&& body.edges_fit()
        &&& track.edges_fit()
        &&& track.holds(mouse) ==> clip.edges_fit()
        &&& fits(vs * vs)
        &&& cs != 0
        &&& fits(vs - visible)
        &&& fits(scroll * (vs - visible))
        &&& fits(
            (if vertical {
                track.y as int
            } else {
                track.x as int
            }) + trunc_div(scroll * (vs - visible), ms),
        )
        &&& dragged ==> {
            &&& fits(d * cs)
            &&& vs != 0
            &&& !(d * cs == i32::MIN && vs == -1)
            &&& fits(scroll + trunc_div(d * cs, vs))
        }
    }
}

impl Context {
    /// The scrollbar of `body` along one axis is being dragged: once updated as a control, it
    /// holds the focus while the left button is down.
    pub open spec fn bar_dragged(&self, body: Rect, vertical: bool) -> bool {
        let bar = hash(self.id_seed(), scrollbar_label(vertical));
        let track = scrollbar_track(body, self.style.scroll_size as int, vertical);
        let u = self.after_update(bar, track, Options { bits: 0 });
        u.focus == bar && u.mouse_down == MOUSE_LEFT
    }
}

/// What a scrollbar does: the state after it, the new scroll offset along its axis, the
/// commands it draws, and whether it is shown at all.
pub struct BarRun {
    pub state: Context,
    pub scroll: int,
    pub cmds: Seq<CommandView>,
    pub shown: bool,
}

/// The scrollbar along one axis of the container in slot `idx`, scrolled by `scroll` along
/// that axis, beside `body` with content of extent `content`, run on the state `t` whose ids
/// are scoped by `seed`, whose clip rectangle is `clip`, and whose container's root is hovered
/// when `hovering`. When the content fits, the offset becomes zero and nothing else happens.
/// Otherwise the bar is updated as a control, the offset follows the mouse, kept within range,
/// while the bar is dragged with the left button, the track and the thumb (placed for the old
/// offset) are drawn, the bar is the last control updated, and the container becomes the
/// scroll target when the mouse is over `body`.
#[verifier::opaque]
pub open spec fn bar_run(
    t: Context,
    seed: Id,
    clip: Rect,
    hovering: bool,
    idx: usize,
    body: Rect,
    content: Vec2,
    scroll: int,
    vertical: bool,
) -> BarRun {
    let cs = along(content, vertical);
    let vs = extent(body, vertical);
    let ms = cs - vs;
    let bar = hash(seed, scrollbar_label(vertical));
    let track = scrollbar_track(body, t.style.scroll_size as int, vertical);
    let over = track.holds(t.mouse) && clip.holds(t.mouse) && hovering;
    let u = t.update_with(bar, Options { bits: 0 }, over);
    let visible = thumb_length(vs, cs, t.style.thumb_size as int);
    let thumb = scrollbar_thumb(track, visible, scroll, ms, vertical);
    if ms <= 0 {
        BarRun { state: t, scroll: 0, cmds: Seq::empty(), shown: false }
    } else {
        BarRun {
            state: Context {
                last_id: bar,
                scroll_target: if body.holds(t.mouse) {
                    Some(idx)
                } else {
                    t.scroll_target
                },
                ..u
            },
            scroll: if u.focus == bar && u.mouse_down == MOUSE_LEFT {
                clamp_int(scroll + trunc_div(along(t.delta, vertical) * cs, vs), 0, ms)
            } else {
                scroll
            },
            cmds: plain_rect_cmds(track, t.style.spec_color(ColorSlot::Scroll)) + plain_rect_cmds(
                thumb,
                t.style.spec_color(ColorSlot::Thumb),
            ),
            shown: true,
        }
    }
}

/// What the scrollbar along one axis of the container in slot `idx` beside `body` does to the
/// context: the container's offset along that axis and the state become those of `bar_run`
/// on the context before, and its commands are appended.
#[verifier::opaque]
pub open spec fn scrollbar_drawn(
    before: Context,
    after: Context,
    idx: usize,
    body: Rect,
    content: Vec2,
    vertical: bool,
) -> bool {
    let c = before.containers@[idx as int];
    let b = bar_run(
        before,
        before.id_seed(),
        before.spec_clip(),
        before.spec_hovering(),
        idx,
        body,
        content,
        along(c.scroll, vertical),
        vertical,
    );
    &&& after.containers@ == before.containers@.update(
        idx as int,
        Container { scroll: with_along(c.scroll, vertical, b.scroll), ..c },
    )
    &&& after.draws@ == before.draws@ + b.cmds
    &&& after == (Context { containers: after.containers, draws: after.draws, ..b.state })
}

proof fn lemma_div_neg_divisor(a: int, b: int)
    requires
        b < 0,
    ensures
        a / b == -(a / (-b)),
{
    assert(a / b == -(a / (-b))) by (nonlinear_arith)
        requires
            b < 0,
    ;
}

/// Rust's division of `a` by `b`.
fn div_i32(a: i32, b: i32) -> (r: i32)
    requires
        b != 0,
        !(a == i32::MIN && b == -1),
    ensures
        r == trunc_div(a as int, b as int),
{
    if b > 0 {
        a / b
    } else {
        let m: i64 = -(b as i64);
        let q: i64 = (a as i64) / m;
        proof {
            lemma_div_neg_divisor(a as int, b as int);
            lemma_div_neg_divisor(-(a as int), b as int);
            let ai = a as int;
            let mi = m as int;
            if ai >= 0 {
                assert(0 <= ai / mi <= ai) by (nonlinear_arith)
                    requires
                        ai >= 0,
                        mi >= 1,
                ;
            } else {
                assert(0 <= (-ai) / mi <= -ai) by (nonlinear_arith)
                    requires
                        ai < 0,
                        mi >= 1,
                ;
                if mi >= 2 {
                    assert((-ai) / mi <= (-ai) / 2) by (nonlinear_arith)
                        requires
                            ai < 0,
                            mi >= 2,
                    ;
                }
            }
        }
        (-q) as i32
    }
}

proof fn lemma_square_nonneg(v: int)
    ensures
        v * v >= 0,
{
    assert(v * v >= 0) by (nonlinear_arith);
}

/// Draws the scrollbar of the container in slot `idx` along one axis and lets it be dragged.
#[verifier::rlimit(100)]
#[verifier::spinoff_prover]
fn render_scrollbar(ctx: &mut Context, idx: usize, body: Rect, content: Vec2, vertical: bool)
    requires
        old(ctx).wf(),
        idx < crate::context::POOL,
        can_scrollbar(
            old(ctx).style,
            old(ctx).spec_clip(),
            old(ctx).mouse,
            old(ctx).delta,
            body,
            content,
            along(old(ctx).containers@[idx as int].scroll, vertical),
            vertical,
            old(ctx).bar_dragged(body, vertical),
        ),
    ensures
        final(ctx).wf(),
        ({
            let c = old(ctx).containers@[idx as int];
            let s = final(ctx).containers@[idx as int].scroll;
            &&& final(ctx).containers@ == old(ctx).containers@.update(
                idx as int,
                Container { scroll: s, ..c },
            )
            &&& along(s, !vertical) == along(c.scroll, !vertical)
            &&& old(ctx).draws@.is_prefix_of(final(ctx).draws@)
            &&& scroll_kept(
                along(s, vertical),
                along(c.scroll, vertical),
                along(content, vertical) - extent(body, vertical),
            )
            &&& *final(ctx) == (Context {
                containers: final(ctx).containers,
                draws: final(ctx).draws,
                hover: final(ctx).hover,
                focus: final(ctx).focus,
                focus_updated: final(ctx).focus_updated,
                text_focus: final(ctx).text_focus,
                text_scroll: final(ctx).text_scroll,
                last_id: final(ctx).last_id,
                scroll_target: final(ctx).scroll_target,
                ..*old(ctx)
            })
        }),
        scrollbar_drawn(*old(ctx), *final(ctx), idx, body, content, vertical),
{
    let size = ctx.style.scroll_size;
    let thumb_min = ctx.style.thumb_size;
    let content_size = if vertical {
        content.y
    } else {
        content.x
    };
    let viewport_size = if vertical {
        body.h
    } else {
        body.w
    };
    let max_scroll = content_size - viewport_size;
    if max_scroll <= 0 {
        let mut c = ctx.containers[idx];
        if vertical {
            c.scroll.y = 0;
        } else {
            c.scroll.x = 0;
        }
        ctx.containers.set(idx, c);
        proof {
            reveal(scrollbar_drawn);
            reveal(bar_run);
            assert(ctx.containers@ =~= old(ctx).containers@.update(
                idx as int,
                Container {
                    scroll: with_along(old(ctx).containers@[idx as int].scroll, vertical, 0),
                    ..old(ctx).containers@[idx as int]
                },
            ));
        }
        return ;
    }
    let base = if vertical {
        Rect::new(body.x + body.w, body.y, size, body.h)
    } else {
        Rect::new(body.x, body.y + body.h, body.w, size)
    };
    let bar_id = if vertical {
        ctx.id_str("!scrollbar_y")
    } else {
        ctx.id_str("!scrollbar_x")
    };
    update(ctx, bar_id, base, Options::empty());
    let ghost updated = *ctx;
    proof {
        assert(base == scrollbar_track(body, old(ctx).style.scroll_size as int, vertical));
        assert(updated == (Context { last_id: bar_id, ..*old(ctx) }).update_with(
            bar_id,
            Options { bits: 0 },
            old(ctx).spec_mouse_over(base),
        ));
    }

    let scroll = if vertical {
        ctx.containers[idx].scroll.y
    } else {
        ctx.containers[idx].scroll.x
    };
    proof {
        lemma_square_nonneg(viewport_size as int);
    }
    let share = div_i32(viewport_size * viewport_size, content_size);
    let visible = if thumb_min >= share {
        thumb_min
    } else {
        share
    };
    assert(share == trunc_div(viewport_size * viewport_size, content_size as int));
    assert(visible == thumb_length(viewport_size as int, content_size as int, thumb_min as int));
    let mut thumb = base;
    if vertical {
        thumb.h = visible;
        thumb.y = thumb.y + div_i32(scroll * (base.h - visible), max_scroll);
    } else {
        thumb.w = visible;
        thumb.x = thumb.x + div_i32(scroll * (base.w - visible), max_scroll);
    }
    if ctx.focus == bar_id && ctx.mouse_down == MOUSE_LEFT {
        let delta = if vertical {
            ctx.delta.y
        } else {
            ctx.delta.x
        };
        let track = if vertical {
            base.h
        } else {
            base.w
        };
        let new_scroll = scroll + div_i32(delta * content_size, track);
        let clamped = if new_scroll < 0 {
            0
        } else if new_scroll > max_scroll {
            max_scroll
        } else {
            new_scroll
        };
        let mut c = ctx.containers[idx];
        if vertical {
            c.scroll.y = clamped;
        } else {
            c.scroll.x = clamped;
        }
        ctx.containers.set(idx, c);
    }
    let scroll_color = ctx.style.color(ColorSlot::Scroll);
    let thumb_color = ctx.style.color(ColorSlot::Thumb);
    ctx.draws.rect(base, scroll_color);
    ctx.draws.rect(thumb, thumb_color);
    if body.contains(ctx.mouse) {
        ctx.scroll_target = Some(idx);
    }
    proof {
        reveal(scrollbar_drawn);
        reveal(bar_run);
        let b = bar_run(
            *old(ctx),
            old(ctx).id_seed(),
            old(ctx).spec_clip(),
            old(ctx).spec_hovering(),
            idx,
            body,
            content,
            scroll as int,
            vertical,
        );
        assert(bar_id == hash(old(ctx).id_seed(), scrollbar_label(vertical)));
        assert(ctx.containers@ =~= old(ctx).containers@.update(
            idx as int,
            Container {
                scroll: with_along(old(ctx).containers@[idx as int].scroll, vertical, b.scroll),
                ..old(ctx).containers@[idx as int]
            },
        ));
        assert(ctx.draws@ =~= old(ctx).draws@ + b.cmds);
        assert(ctx.focus == b.state.focus && ctx.hover == b.state.hover);
    }
}

/// The new scroll offset `now` is as a scrollbar leaves it from `before` with the largest
/// offset `max_scroll`: zero when nothing is hidden, otherwise unchanged or within range.
pub open spec fn scroll_kept(now: int, before: int, max_scroll: int) -> bool {
    if max_scroll <= 0 {
        now == 0
    } else {
        now == before || 0 <= now <= max_scroll
    }
}

/// The body left beside the scrollbars: narrower by `size` when the content is taller than the
/// body, lower by `size` when it is wider.
pub open spec fn scrolled_body(body: Rect, content: Vec2, size: int) -> Rect {
    Rect {
        w: if content.y > body.h {
            (body.w - size) as i32
        } else {
            body.w
        },
        h: if content.x > body.w {
            (body.h - size) as i32
        } else {
            body.h
        },
        ..body
    }
}

/// The extent of the content of `c`, with the style's padding on both sides.
pub open spec fn padded(style: Style, c: Container) -> Vec2 {
    let p = style.padding;
    Vec2 { x: (c.content.x + p * 2) as i32, y: (c.content.y + p * 2) as i32 }
}

/// The scrollbars of the container `c` beside `body` compute without overflow or division by
/// zero, with the style, clip rectangle, mouse position and mouse motion given; a bar can be
/// dragged only when `held`, the left button being down.
pub open spec fn scrollbars_fit(
    style: Style,
    clip: Rect,
    mouse: Vec2,
    delta: Vec2,
    c: Container,
    body: Rect,
    held: bool,
) -> bool {
    let p = style.padding;
    let size = style.scroll_size as int;
    let content = padded(style, c);
    let inner = scrolled_body(body, content, size);
    let clipped = body.intersection(clip);
    &&& fits(p * 2)
    &&& fits(c.content.x + p * 2)
    &&& fits(c.content.y + p * 2)
    &&& body.can_intersect(clip)
    &&& content.y > body.h ==> fits(body.w - size)
    &&& content.x > body.w ==> fits(body.h - size)
    &&& can_scrollbar(style, clipped, mouse, delta, inner, content, c.scroll.y as int, true, held)
    &&& can_scrollbar(style, clipped, mouse, delta, inner, content, c.scroll.x as int, false, held)
}

/// What the scrollbars of the container `c` in slot `idx` do beside `body`, run on the state
/// `t` whose ids are scoped by `seed`, whose clip rectangle is `clip` and whose container's
/// root is hovered when `hovering`: the vertical bar, then the horizontal one, both beside the
/// body narrowed for them and clipped to `body`.
#[verifier::opaque]
pub open spec fn bars_run(
    t: Context,
    seed: Id,
    clip: Rect,
    hovering: bool,
    idx: usize,
    c: Container,
    body: Rect,
) -> BarRun {
    let content = padded(t.style, c);
    let inner = scrolled_body(body, content, t.style.scroll_size as int);
    let bar_clip = body.intersection(clip);
    let y = bar_run(t, seed, bar_clip, hovering, idx, inner, content, c.scroll.y as int, true);
    let x = bar_run(y.state, seed, bar_clip, hovering, idx, inner, content, c.scroll.x as int, false);
    BarRun {
        state: x.state,
        scroll: 0,
        cmds: y.cmds + x.cmds,
        shown: y.shown || x.shown,
    }
}

/// The scroll offsets of the container `c` after its scrollbars beside `body`, as `bars_run`
/// runs them.
#[verifier::opaque]
pub open spec fn bars_scroll(
    t: Context,
    seed: Id,
    clip: Rect,
    hovering: bool,
    idx: usize,
    c: Container,
    body: Rect,
) -> Vec2 {
    let content = padded(t.style, c);
    let inner = scrolled_body(body, content, t.style.scroll_size as int);
    let bar_clip = body.intersection(clip);
    let y = bar_run(t, seed, bar_clip, hovering, idx, inner, content, c.scroll.y as int, true);
    let x = bar_run(y.state, seed, bar_clip, hovering, idx, inner, content, c.scroll.x as int, false);
    Vec2 { x: x.scroll as i32, y: y.scroll as i32 }
}

/// The body of the container `c` laid out in `body`: beside its scrollbars unless `options`
/// has `NO_SCROLL`.
pub open spec fn inner_body(style: Style, c: Container, body: Rect, options: Options) -> Rect {
    if options.has(Options::spec_no_scroll()) {
        body
    } else {
        scrolled_body(body, padded(style, c), style.scroll_size as int)
    }
}

/// Laying out the body of the container `c` in `body` computes without overflow or division
/// by zero.
pub open spec fn body_fits(
    style: Style,
    clip: Rect,
    mouse: Vec2,
    delta: Vec2,
    c: Container,
    body: Rect,
    options: Options,
    held: bool,
) -> bool {
    let p = style.padding as int;
    let inner = inner_body(style, c, body, options);
    let e = inner.expanded(-p);
    let content = padded(style, c);
    &&& !options.has(Options::spec_no_scroll()) ==> scrollbars_fit(
        style,
        clip,
        mouse,
        delta,
        c,
        body,
        held,
    )
    &&& inner.can_expand(-p)
    &&& fits(e.x - c.scroll.x)
    &&& fits(e.y - c.scroll.y)
    &&& !options.has(Options::spec_no_scroll()) ==> {
        &&& fits(e.x as int)
        &&& fits(e.y as int)
        &&& content.x - inner.w > 0 ==> fits(e.x - (content.x - inner.w))
        &&& content.y - inner.h > 0 ==> fits(e.y - (content.y - inner.h))
    }
}

impl Context {
    /// The extent of the content of the container in slot `idx`, with its padding.
    pub open spec fn padded_content(&self, idx: int) -> Vec2 {
        padded(self.style, self.containers@[idx])
    }

    /// The scrollbars of the container in slot `idx` beside `body` compute without overflow
    /// or division by zero.
    pub open spec fn can_scrollbars(&self, idx: int, body: Rect) -> bool {
        scrollbars_fit(
            self.style,
            self.spec_clip(),
            self.mouse,
            self.delta,
            self.containers@[idx],
            body,
            self.mouse_down == MOUSE_LEFT,
        )
    }
}

/// The scrollbars change only the focus and hover state, the last control and the scroll
/// target.
proof fn lemma_bars_keep(
    t: Context,
    seed: Id,
    clip: Rect,
    hovering: bool,
    idx: usize,
    c: Container,
    body: Rect,
)
    ensures
        ({
            let st = bars_run(t, seed, clip, hovering, idx, c, body).state;
            st == (Context {
                hover: st.hover,
                focus: st.focus,
                focus_updated: st.focus_updated,
                text_focus: st.text_focus,
                text_scroll: st.text_scroll,
                last_id: st.last_id,
                scroll_target: st.scroll_target,
                ..t
            })
        }),
{
    reveal(bars_run);
    reveal(bar_run);
}

/// The scrollbars do the same on two states that differ only in their containers and
/// commands, for containers with the same content and scroll offsets.
proof fn lemma_bars_frame(
    t: Context,
    t2: Context,
    seed: Id,
    clip: Rect,
    hovering: bool,
    idx: usize,
    c: Container,
    c2: Container,
    body: Rect,
)
    requires
        t2 == (Context { containers: t2.containers, draws: t2.draws, ..t }),
        c2.content == c.content,
        c2.scroll == c.scroll,
    ensures
        bars_run(t2, seed, clip, hovering, idx, c2, body).state == (Context {
            containers: t2.containers,
            draws: t2.draws,
            ..bars_run(t, seed, clip, hovering, idx, c, body).state
        }),
        bars_run(t2, seed, clip, hovering, idx, c2, body).cmds == bars_run(
            t,
            seed,
            clip,
            hovering,
            idx,
            c,
            body,
        ).cmds,
        bars_scroll(t2, seed, clip, hovering, idx, c2, body) == bars_scroll(
            t,
            seed,
            clip,
            hovering,
            idx,
            c,
            body,
        ),
{
    reveal(bars_run);
    reveal(bars_scroll);
    let content = padded(t.style, c);
    assert(padded(t2.style, c2) == content);
    let inner = scrolled_body(body, content, t.style.scroll_size as int);
    let bc = body.intersection(clip);
    lemma_bar_frame(t, t2, seed, bc, hovering, idx, inner, content, c.scroll.y as int, true);
    let y = bar_run(t, seed, bc, hovering, idx, inner, content, c.scroll.y as int, true);
    let y2 = bar_run(t2, seed, bc, hovering, idx, inner, content, c.scroll.y as int, true);
    lemma_bar_frame(y.state, y2.state, seed, bc, hovering, idx, inner, content, c.scroll.x as int, false);
}

/// One scrollbar does the same on two states that differ only in their containers and
/// commands.
proof fn lemma_bar_frame(
    t: Context,
    t2: Context,
    seed: Id,
    clip: Rect,
    hovering: bool,
    idx: usize,
    body: Rect,
    content: Vec2,
    scroll: int,
    vertical: bool,
)
    requires
        t2 == (Context { containers: t2.containers, draws: t2.draws, ..t }),
    ensures
        ({
            let a = bar_run(t, seed, clip, hovering, idx, body, content, scroll, vertical);
            let a2 = bar_run(t2, seed, clip, hovering, idx, body, content, scroll, vertical);
            &&& a2.state == (Context { containers: t2.containers, draws: t2.draws, ..a.state })
            &&& a2.scroll == a.scroll
            &&& a2.cmds == a.cmds
            &&& a2.shown == a.shown
        }),
{
    let bar = hash(seed, scrollbar_label(vertical));
    let track = scrollbar_track(body, t.style.scroll_size as int, vertical);
    let over = track.holds(t.mouse) && clip.holds(t.mouse) && hovering;
    reveal(bar_run);
    crate::controls::lemma_update_frame(t, t2, bar, Options { bits: 0 }, over);
}

#[verifier::rlimit(100)]
#[verifier::spinoff_prover]
proof fn lemma_bars_compose(
    before: Context,
    s0: Context,
    mid: Context,
    s2: Context,
    after: Context,
    idx: usize,
    body: Rect,
    inner: Rect,
)
    requires
        idx < POOL,
        before.containers@.len() == POOL,
        s0 == (Context { clip_stack: s0.clip_stack, ..before }),
        s0.spec_clip() == body.intersection(before.spec_clip()),
        s0.spec_hovering() == before.spec_hovering(),
        inner == scrolled_body(
            body,
            padded(before.style, before.containers@[idx as int]),
            before.style.scroll_size as int,
        ),
        scrollbar_drawn(
            s0,
            mid,
            idx,
            inner,
            padded(before.style, before.containers@[idx as int]),
            true,
        ),
        mid.spec_clip() == s0.spec_clip(),
        mid.spec_hovering() == s0.spec_hovering(),
        scrollbar_drawn(
            mid,
            s2,
            idx,
            inner,
            padded(before.style, before.containers@[idx as int]),
            false,
        ),
        after == (Context { clip_stack: after.clip_stack, ..s2 }),
    ensures
        ({
            let c = before.containers@[idx as int];
            let r = bars_run(
                before,
                before.id_seed(),
                before.spec_clip(),
                before.spec_hovering(),
                idx,
                c,
                body,
            );
            &&& after.containers@ == before.containers@.update(
                idx as int,
                Container {
                    scroll: bars_scroll(
                        before,
                        before.id_seed(),
                        before.spec_clip(),
                        before.spec_hovering(),
                        idx,
                        c,
                        body,
                    ),
                    ..c
                },
            )
            &&& after.draws@ == before.draws@ + r.cmds
            &&& after == (Context {
                containers: after.containers,
                draws: after.draws,
                clip_stack: after.clip_stack,
                ..r.state
            })
        }),
{
    reveal(scrollbar_drawn);
    reveal(bars_run);
    reveal(bars_scroll);
    reveal(bar_run);
    let c = before.containers@[idx as int];
    let content = padded(before.style, c);
    let seed = before.id_seed();
    let bc = body.intersection(before.spec_clip());
    let hov = before.spec_hovering();
    assert(s0.id_seed() == seed);
    let y0 = bar_run(s0, seed, bc, hov, idx, inner, content, c.scroll.y as int, true);
    let yo = bar_run(before, seed, bc, hov, idx, inner, content, c.scroll.y as int, true);
    assert(y0.state == (Context { clip_stack: s0.clip_stack, ..yo.state }));
    assert(mid.id_seed() == seed);
    assert(mid.containers@[idx as int].scroll.x == c.scroll.x);
    let x0 = bar_run(mid, seed, bc, hov, idx, inner, content, c.scroll.x as int, false);
    let xo = bar_run(yo.state, seed, bc, hov, idx, inner, content, c.scroll.x as int, false);
    assert(x0.state == (Context {
        containers: mid.containers,
        draws: mid.draws,
        clip_stack: s0.clip_stack,
        ..xo.state
    }));
    assert(after.draws@ =~= before.draws@ + (yo.cmds + xo.cmds));
    assert(after.containers@ =~= before.containers@.update(
        idx as int,
        Container { scroll: Vec2 { x: xo.scroll as i32, y: yo.scroll as i32 }, ..c },
    ));
}

/// Draws the scrollbars of the container in slot `idx` and narrows `body` to leave room for
/// them.
#[verifier::rlimit(100)]
#[verifier::spinoff_prover]
fn render_scrollbars(ctx: &mut Context, idx: usize, body: &mut Rect)
    requires
        old(ctx).wf(),
        idx < crate::context::POOL,
        old(ctx).can_scrollbars(idx as int, *old(body)),
    ensures
        final(ctx).wf(),
        ({
            let c = old(ctx).containers@[idx as int];
            let content = old(ctx).padded_content(idx as int);
            let inner = scrolled_body(*old(body), content, old(ctx).style.scroll_size as int);
            let s = final(ctx).containers@[idx as int].scroll;
            &&& *final(body) == inner
            &&& final(ctx).containers@ == old(ctx).containers@.update(
                idx as int,
                Container { scroll: s, ..c },
            )
            &&& scroll_kept(s.y as int, c.scroll.y as int, content.y - inner.h)
            &&& scroll_kept(s.x as int, c.scroll.x as int, content.x - inner.w)
            &&& final(ctx).clip_stack@ == old(ctx).clip_stack@
            &&& old(ctx).draws@.is_prefix_of(final(ctx).draws@)
            &&& {
                let r = bars_run(
                    *old(ctx),
                    old(ctx).id_seed(),
                    old(ctx).spec_clip(),
                    old(ctx).spec_hovering(),
                    idx,
                    c,
                    *old(body),
                );
                &&& s == bars_scroll(
                    *old(ctx),
                    old(ctx).id_seed(),
                    old(ctx).spec_clip(),
                    old(ctx).spec_hovering(),
                    idx,
                    c,
                    *old(body),
                )
                &&& final(ctx).draws@ == old(ctx).draws@ + r.cmds
                &&& *final(ctx) == (Context {
                    containers: final(ctx).containers,
                    draws: final(ctx).draws,
                    clip_stack: final(ctx).clip_stack,
                    ..r.state
                })
            }
            &&& *final(ctx) == (Context {
                containers: final(ctx).containers,
                clip_stack: final(ctx).clip_stack,
                draws: final(ctx).draws,
                hover: final(ctx).hover,
                focus: final(ctx).focus,
                focus_updated: final(ctx).focus_updated,
                text_focus: final(ctx).text_focus,
                text_scroll: final(ctx).text_scroll,
                last_id: final(ctx).last_id,
                scroll_target: final(ctx).scroll_target,
                ..*old(ctx)
            })
        }),
{
    let size = ctx.style.scroll_size;
    let padding = ctx.style.padding;
    let c = ctx.containers[idx];
    let content = Vec2::new(c.content.x + padding * 2, c.content.y + padding * 2);
    ctx.push_clip(*body);
    let ghost s0 = *ctx;
    let viewport_h = body.h;
    let viewport_w = body.w;
    if content.y > viewport_h {
        body.w = body.w - size;
    }
    if content.x > viewport_w {
        body.h = body.h - size;
    }
    render_scrollbar(ctx, idx, *body, content, true);
    let ghost mid2 = *ctx;
    assert(mid2.containers@[idx as int].scroll.x == c.scroll.x);
    render_scrollbar(ctx, idx, *body, content, false);
    let ghost s2 = *ctx;
    ctx.pop_clip();
    proof {
        lemma_bars_compose(*old(ctx), s0, mid2, s2, *ctx, idx, *old(body), *body);
        assert(ctx.clip_stack@ =~= old(ctx).clip_stack@);
        assert(ctx.containers@ =~= old(ctx).containers@.update(
            idx as int,
            Container { scroll: ctx.containers@[idx as int].scroll, ..c },
        ));
        let inner = scrolled_body(*old(body), old(ctx).padded_content(idx as int), old(ctx).style.scroll_size as int);
        assert(*body == inner);
        assert(content == old(ctx).padded_content(idx as int));
        let s = ctx.containers@[idx as int].scroll;
        assert(scroll_kept(s.y as int, c.scroll.y as int, content.y - inner.h));
        assert(scroll_kept(s.x as int, c.scroll.x as int, content.x - inner.w));
    }
}

/// Lays out the body of the container in slot `idx` inside `body`, with scrollbars unless
/// `options` has `NO_SCROLL`, and records the body.
fn push_body(ctx: &mut Context, idx: usize, body: Rect, options: Options)
    requires
        old(ctx).wf(),
        idx < crate::context::POOL,
        old(ctx).can_push_body(idx as int, body, options),
    ensures
        final(ctx).wf(),
        ({
            let c = old(ctx).containers@[idx as int];
            let inner = old(ctx).body_inside(idx as int, body, options);
            let s = final(ctx).containers@[idx as int].scroll;
            &&& final(ctx).containers@ == old(ctx).containers@.update(
                idx as int,
                Container { body: inner, scroll: s, ..c },
            )
            &&& options.has(Options::spec_no_scroll()) ==> s == c.scroll && final(ctx).draws
                == old(ctx).draws
            &&& !options.has(Options::spec_no_scroll()) ==> {
                let content = old(ctx).padded_content(idx as int);
                &&& scroll_kept(s.y as int, c.scroll.y as int, content.y - inner.h)
                &&& scroll_kept(s.x as int, c.scroll.x as int, content.x - inner.w)
            }
            &&& options.has(Options::spec_no_scroll()) ==> *final(ctx) == (Context {
                containers: final(ctx).containers,
                layout_stack: final(ctx).layout_stack,
                ..*old(ctx)
            })
            &&& !options.has(Options::spec_no_scroll()) ==> {
                let r = bars_run(
                    *old(ctx),
                    old(ctx).id_seed(),
                    old(ctx).spec_clip(),
                    old(ctx).spec_hovering(),
                    idx,
                    c,
                    body,
                );
                &&& s == bars_scroll(
                    *old(ctx),
                    old(ctx).id_seed(),
                    old(ctx).spec_clip(),
                    old(ctx).spec_hovering(),
                    idx,
                    c,
                    body,
                )
                &&& final(ctx).draws@ == old(ctx).draws@ + r.cmds
                &&& *final(ctx) == (Context {
                    containers: final(ctx).containers,
                    layout_stack: final(ctx).layout_stack,
                    draws: final(ctx).draws,
                    clip_stack: final(ctx).clip_stack,
                    ..r.state
                })
            }
            &&& final(ctx).layout_stack@.len() == old(ctx).layout_stack@.len() + 1
            &&& final(ctx).layout_stack@.drop_last() == old(ctx).layout_stack@
            &&& final(ctx).top_layout()@ == crate::layout::LayoutView::initial(
                inner.expanded(-old(ctx).style.padding),
                s,
            )
            &&& final(ctx).clip_stack@ == old(ctx).clip_stack@
            &&& old(ctx).draws@.is_prefix_of(final(ctx).draws@)
            &&& *final(ctx) == (Context {
                containers: final(ctx).containers,
                clip_stack: final(ctx).clip_stack,
                layout_stack: final(ctx).layout_stack,
                draws: final(ctx).draws,
                hover: final(ctx).hover,
                focus: final(ctx).focus,
                focus_updated: final(ctx).focus_updated,
                text_focus: final(ctx).text_focus,
                text_scroll: final(ctx).text_scroll,
                last_id: final(ctx).last_id,
                scroll_target: final(ctx).scroll_target,
                ..*old(ctx)
            })
        }),
{
    let mut inner = body;
    if !options.contains(Options::no_scroll()) {
        render_scrollbars(ctx, idx, &mut inner);
    }
    let padding = ctx.style.padding;
    let scroll = ctx.containers[idx].scroll;
    ctx.push_layout(inner.expand(-padding), scroll);
    let mut c = ctx.containers[idx];
    c.body = inner;
    ctx.containers.set(idx, c);
    proof {
        assert(ctx.containers@ =~= old(ctx).containers@.update(
            idx as int,
            Container {
                body: old(ctx).body_inside(idx as int, body, options),
                scroll: ctx.containers@[idx as int].scroll,
                ..old(ctx).containers@[idx as int]
            },
        ));
    }
}

impl Context {
    /// The body of the container in slot `idx` laid out in `body`: beside its scrollbars
    /// unless `options` has `NO_SCROLL`.
    pub open spec fn body_inside(&self, idx: int, body: Rect, options: Options) -> Rect {
        inner_body(self.style, self.containers@[idx], body, options)
    }

    /// `push_body(idx, body, options)` computes without overflow or division by zero.
    pub open spec fn can_push_body(&self, idx: int, body: Rect, options: Options) -> bool {
        body_fits(
            self.style,
            self.spec_clip(),
            self.mouse,
            self.delta,
            self.containers@[idx],
            body,
            options,
            self.mouse_down == MOUSE_LEFT,
        )
    }
}

/// The body of a window with frame `bounds`: below its title bar of height `th` unless
/// `options` has `NO_TITLE`.
pub open spec fn title_body(bounds: Rect, th: int, options: Options) -> Rect {
    if options.has(Options::spec_no_title()) {
        bounds
    } else {
        Rect { y: (bounds.y + th) as i32, h: (bounds.h - th) as i32, ..bounds }
    }
}

impl Context {
    /// The title bar of a window with frame `bounds` computes without overflow.
    pub open spec fn title_fits(&self, bounds: Rect, options: Options) -> bool {
        let th = self.style.title_height as int;
        let bar = Rect::spec_new(bounds.x as int, bounds.y as int, bounds.w as int, th);
        let close = Rect::spec_new(bounds.x + bounds.w - th, bounds.y as int, th, th);
        let clip = self.spec_clip();
        !options.has(Options::spec_no_title()) ==> {
            &&& fits(bounds.y + th)
            &&& bar.holds(self.mouse) ==> clip.edges_fit()
            &&& fits(bounds.x + self.style.padding)
            &&& fits(bounds.y + quarter(th))
            &&& fits(bounds.x + self.delta.x)
            &&& fits(bounds.y + self.delta.y)
            &&& fits(bounds.h - th)
            &&& !options.has(Options::spec_no_close()) ==> {
                &&& fits(bounds.x + bounds.w - th)
                &&& close.holds(self.mouse) ==> clip.edges_fit()
            }
        }
    }

    /// The resize handle of a window with frame `bounds` computes without overflow.
    pub open spec fn resize_fits(&self, bounds: Rect, options: Options) -> bool {
        let th = self.style.title_height as int;
        let handle = Rect::spec_new(bounds.x + bounds.w - th, bounds.y + bounds.h - th, th, th);
        !options.has(Options::spec_no_resize()) ==> {
            &&& fits(bounds.x + bounds.w - th)
            &&& fits(bounds.y + bounds.h - th)
            &&& handle.holds(self.mouse) ==> self.spec_clip().edges_fit()
            &&& fits(bounds.w + self.delta.x)
            &&& fits(bounds.h + self.delta.y)
        }
    }
}

/// The title bar of a window with frame `bounds`, as high as a title.
pub open spec fn title_bar(bounds: Rect, th: int) -> Rect {
    Rect::spec_new(bounds.x as int, bounds.y as int, bounds.w as int, th)
}

/// The close button at the right end of the title bar.
pub open spec fn close_button(bounds: Rect, th: int) -> Rect {
    Rect::spec_new(bounds.x + bounds.w - th, bounds.y as int, th, th)
}

/// The commands that draw the title bar of a window with frame `bounds` titled `title`: the
/// bar, the title and, unless `options` has `NO_CLOSE`, the close icon.
pub open spec fn title_cmds(style: Style, bounds: Rect, title: Seq<char>, options: Options) -> Seq<
    CommandView,
> {
    let th = style.title_height as int;
    let heading = style.spec_color(ColorSlot::Heading);
    plain_rect_cmds(title_bar(bounds, th), style.spec_color(ColorSlot::Title)) + seq![
        CommandView::Text {
            font: style.font,
            text: title,
            position: Vec2 {
                x: (bounds.x + style.padding) as i32,
                y: (bounds.y + quarter(th)) as i32,
            },
            color: heading,
        },
    ] + if options.has(Options::spec_no_close()) {
        Seq::empty()
    } else {
        seq![CommandView::Icon { kind: Icon::Close, bounds: close_button(bounds, th), color: heading }]
    }
}

/// `r` moved by `d`.
pub open spec fn moved_by(r: Rect, d: Vec2) -> Rect {
    Rect { x: (r.x + d.x) as i32, y: (r.y + d.y) as i32, ..r }
}

/// What the title bar of the window in slot `idx` with frame `bounds` does: unless
/// `NO_TITLE`, it draws the bar, the title and the close icon, updates the bar and the close
/// button as controls, moves the frame with the mouse while the bar is dragged with the left
/// button, and closes the window when the close button is clicked.
#[verifier::opaque]
pub open spec fn title_done(
    before: Context,
    after: Context,
    idx: usize,
    bounds: Rect,
    title: Seq<char>,
    options: Options,
) -> bool {
    let c = before.containers@[idx as int];
    let now = after.containers@[idx as int];
    &&& options.has(Options::spec_no_title()) ==> after == before
    &&& !options.has(Options::spec_no_title()) ==> {
        let th = before.style.title_height as int;
        let title_id = hash(before.id_seed(), "!title".spec_bytes());
        let close_id = hash(before.id_seed(), "!close".spec_bytes());
        let u1 = before.after_update(title_id, title_bar(bounds, th), options);
        let u2 = u1.after_update(close_id, close_button(bounds, th), options);
        let dragged = u1.focus == title_id && before.mouse_down == MOUSE_LEFT;
        let closing = !options.has(Options::spec_no_close()) && before.mouse_pressed
            == MOUSE_LEFT && u2.focus == close_id;
        &&& now.bounds == (if dragged {
            moved_by(bounds, before.delta)
        } else {
            bounds
        })
        &&& now.open == (c.open && !closing)
        &&& after.draws@ == before.draws@ + title_cmds(
            before.style,
            bounds,
            title,
            options,
        )
        &&& after == (Context {
            containers: after.containers,
            draws: after.draws,
            last_id: if options.has(Options::spec_no_close()) {
                title_id
            } else {
                close_id
            },
            ..if options.has(Options::spec_no_close()) {
                u1
            } else {
                u2
            }
        })
    }
}

/// The close button of the window in slot `idx` with frame `bounds`: drawn as an icon,
/// updated as a control, and closing the window when clicked with the left button.
fn close_button_run(ctx: &mut Context, idx: usize, bounds: Rect, options: Options)
    requires
        old(ctx).wf(),
        idx < POOL,
        bounds.edges_fit(),
        fits(bounds.y + old(ctx).style.title_height),
        fits(bounds.x + bounds.w - old(ctx).style.title_height),
        close_button(bounds, old(ctx).style.title_height as int).holds(old(ctx).mouse)
            ==> old(ctx).spec_clip().edges_fit(),
    ensures
        final(ctx).wf(),
        ({
            let th = old(ctx).style.title_height as int;
            let close_id = hash(old(ctx).id_seed(), "!close".spec_bytes());
            let u = old(ctx).after_update(close_id, close_button(bounds, th), options);
            let c = old(ctx).containers@[idx as int];
            let closing = old(ctx).mouse_pressed == MOUSE_LEFT && u.focus == close_id;
            &&& final(ctx).containers@ == old(ctx).containers@.update(
                idx as int,
                Container { open: c.open && !closing, ..c },
            )
            &&& final(ctx).draws@ == old(ctx).draws@.push(
                CommandView::Icon {
                    kind: Icon::Close,
                    bounds: close_button(bounds, th),
                    color: old(ctx).style.spec_color(ColorSlot::Heading),
                },
            )
            &&& *final(ctx) == (Context {
                containers: final(ctx).containers,
                draws: final(ctx).draws,
                last_id: close_id,
                ..u
            })
        }),
{
    let title_h = ctx.style.title_height;
    let heading_color = ctx.style.color(ColorSlot::Heading);
    let close_id = ctx.id_str("!close");
    let close = Rect::new(bounds.x + bounds.w - title_h, bounds.y, title_h, title_h);
    ctx.draws.icon(Icon::Close, close, heading_color);
    update(ctx, close_id, close, options);
    if ctx.mouse_pressed == MOUSE_LEFT && ctx.focus == close_id {
        let mut c = ctx.containers[idx];
        c.open = false;
        ctx.containers.set(idx, c);
    }
    proof {
        let c = old(ctx).containers@[idx as int];
        assert(ctx.containers@ =~= old(ctx).containers@.update(
            idx as int,
            Container { open: c.open && !(old(ctx).mouse_pressed == MOUSE_LEFT && ctx.focus == close_id), ..c },
        ));
    }
}

/// Draws the title bar of the window in slot `idx` with frame `bounds`: dragging it moves the
/// window and its close button closes it. Returns the body below the bar.
#[verifier::rlimit(40)]
fn window_title(ctx: &mut Context, idx: usize, bounds: Rect, title: &str, options: Options) -> (body:
    Rect)
    requires
        old(ctx).wf(),
        idx < POOL,
        bounds.edges_fit(),
        old(ctx).title_fits(bounds, options),
        old(ctx).containers@[idx as int].bounds == bounds,
    ensures
        final(ctx).wf(),
        body == title_body(bounds, old(ctx).style.title_height as int, options),
        ({
            let c = old(ctx).containers@[idx as int];
            let now = final(ctx).containers@[idx as int];
            &&& final(ctx).containers@ == old(ctx).containers@.update(
                idx as int,
                Container { bounds: now.bounds, open: now.open, ..c },
            )
            &&& now.bounds.w == c.bounds.w
            &&& now.bounds.h == c.bounds.h
            &&& old(ctx).draws@.is_prefix_of(final(ctx).draws@)
            &&& title_done(*old(ctx), *final(ctx), idx, bounds, title@, options)
            &&& *final(ctx) == (Context {
                containers: final(ctx).containers,
                draws: final(ctx).draws,
                hover: final(ctx).hover,
                focus: final(ctx).focus,
                focus_updated: final(ctx).focus_updated,
                text_focus: final(ctx).text_focus,
                text_scroll: final(ctx).text_scroll,
                last_id: final(ctx).last_id,
                ..*old(ctx)
            })
        }),
{
    let mut body = bounds;
    if options.contains(Options::no_title()) {
        proof {
            reveal(title_done);
        }
        return body;
    }
    let title_h = ctx.style.title_height;
    let title_rect = Rect::new(bounds.x, bounds.y, bounds.w, title_h);
    let title_color = ctx.style.color(ColorSlot::Title);
    ctx.draws.rect(title_rect, title_color);
    let title_id = ctx.id_str("!title");
    update(ctx, title_id, title_rect, options);
    let heading_color = ctx.style.color(ColorSlot::Heading);
    let font = ctx.style.font;
    let pos = Vec2::new(title_rect.x + ctx.style.padding, title_rect.y + title_h / 4);
    ctx.draws.text(font, title.to_string(), pos, heading_color);
    if ctx.focus == title_id && ctx.mouse_down == MOUSE_LEFT {
        let mut c = ctx.containers[idx];
        c.bounds.x = c.bounds.x + ctx.delta.x;
        c.bounds.y = c.bounds.y + ctx.delta.y;
        ctx.containers.set(idx, c);
    }
    body.y = body.y + title_h;
    body.h = body.h - title_h;
    let ghost titled = *ctx;
    if !options.contains(Options::no_close()) {
        close_button_run(ctx, idx, bounds, options);
    }
    proof {
        reveal(title_done);
        assert(ctx.draws@ =~= old(ctx).draws@ + title_cmds(old(ctx).style, bounds, title@, options));
        let c = old(ctx).containers@[idx as int];
        let now = ctx.containers@[idx as int];
        assert(ctx.containers@ =~= old(ctx).containers@.update(
            idx as int,
            Container { bounds: now.bounds, open: now.open, ..c },
        ));
    }
    body
}

impl Context {
    /// The id of the resize handle of a window.
    pub open spec fn resize_id(&self) -> Id {
        hash(self.id_seed(), "!resize".spec_bytes())
    }

    /// The resize handle of a window with frame `bounds`: a square as high as a title bar in
    /// its lower right corner.
    pub open spec fn resize_handle(&self, bounds: Rect) -> Rect {
        let th = self.style.title_height as int;
        Rect::spec_new(bounds.x + bounds.w - th, bounds.y + bounds.h - th, th, th)
    }

    /// The handle is being dragged with the left button once it has been updated as a control.
    pub open spec fn resize_dragged(&self, bounds: Rect, options: Options) -> bool {
        let u = self.after_update(self.resize_id(), self.resize_handle(bounds), options);
        u.focus == self.resize_id() && u.mouse_down == MOUSE_LEFT
    }

    /// The frame of the window in slot `idx` after its resize handle: grown by the mouse motion,
    /// to at least 96 by 64, while the handle is dragged, and otherwise as it was.
    pub open spec fn resized(&self, idx: int, bounds: Rect, options: Options) -> Rect {
        let b = self.containers@[idx].bounds;
        if !options.has(Options::spec_no_resize()) && self.resize_dragged(bounds, options) {
            Rect {
                w: max_int(b.w + self.delta.x, 96) as i32,
                h: max_int(b.h + self.delta.y, 64) as i32,
                ..b
            }
        } else {
            b
        }
    }
}

/// Draws nothing but lets the handle in the lower right corner of the window in slot `idx`
/// with frame `bounds` resize it, to at least 96 by 64.
fn window_resize(ctx: &mut Context, idx: usize, bounds: Rect, options: Options)
    requires
        old(ctx).wf(),
        idx < POOL,
        bounds.edges_fit(),
        old(ctx).resize_fits(bounds, options),
        old(ctx).containers@[idx as int].bounds.w == bounds.w,
        old(ctx).containers@[idx as int].bounds.h == bounds.h,
    ensures
        final(ctx).wf(),
        ({
            let c = old(ctx).containers@[idx as int];
            let now = final(ctx).containers@[idx as int];
            &&& final(ctx).containers@ == old(ctx).containers@.update(
                idx as int,
                Container { bounds: now.bounds, ..c },
            )
            &&& now.bounds.x == c.bounds.x
            &&& now.bounds.y == c.bounds.y
            &&& now.bounds == old(ctx).resized(idx as int, bounds, options)
            &&& options.has(Options::spec_no_resize()) ==> *final(ctx) == *old(ctx)
            &&& !options.has(Options::spec_no_resize()) ==> {
                let u = old(ctx).after_update(
                    old(ctx).resize_id(),
                    old(ctx).resize_handle(bounds),
                    options,
                );
                *final(ctx) == (Context {
                    containers: final(ctx).containers,
                    last_id: old(ctx).resize_id(),
                    ..u
                })
            }
            &&& *final(ctx) == (Context {
                containers: final(ctx).containers,
                hover: final(ctx).hover,
                focus: final(ctx).focus,
                focus_updated: final(ctx).focus_updated,
                text_focus: final(ctx).text_focus,
                text_scroll: final(ctx).text_scroll,
                last_id: final(ctx).last_id,
                ..*old(ctx)
            })
        }),
{
    if options.contains(Options::no_resize()) {
        return ;
    }
    let size = ctx.style.title_height;
    let resize_id = ctx.id_str("!resize");
    let resize = Rect::new(bounds.x + bounds.w - size, bounds.y + bounds.h - size, size, size);
    update(ctx, resize_id, resize, options);
    if ctx.focus == resize_id && ctx.mouse_down == MOUSE_LEFT {
        let mut c = ctx.containers[idx];
        let w = c.bounds.w + ctx.delta.x;
        let h = c.bounds.h + ctx.delta.y;
        c.bounds.w = if w >= 96 {
            w
        } else {
            96
        };
        c.bounds.h = if h >= 64 {
            h
        } else {
            64
        };
        ctx.containers.set(idx, c);
    }
    proof {
        let c = old(ctx).containers@[idx as int];
        let now = ctx.containers@[idx as int];
        assert(ctx.containers@ =~= old(ctx).containers@.update(
            idx as int,
            Container { bounds: now.bounds, ..c },
        ));
    }
}

/// The little-endian bytes of `id`.
pub open spec fn id_bytes(id: Id) -> Seq<u8> {
    seq![id as u8, (id >> 8u32) as u8, (id >> 16u32) as u8, (id >> 24u32) as u8]
}

fn le_bytes(id: Id) -> (v: Vec<u8>)
    ensures
        v@ == id_bytes(id),
{
    let mut v: Vec<u8> = Vec::new();
    v.push(#[verifier::truncate] (id as u8));
    v.push(#[verifier::truncate] ((id >> 8u32) as u8));
    v.push(#[verifier::truncate] ((id >> 16u32) as u8));
    v.push(#[verifier::truncate] ((id >> 24u32) as u8));
    assert(v@ =~= id_bytes(id));
    v
}

/// The frame of a window: the container's, or `initial` for a container never placed.
pub open spec fn window_frame(c: Container, initial: Rect) -> Rect {
    if c.bounds.w == 0 {
        initial
    } else {
        c.bounds
    }
}

impl Context {
    /// The container that `fetch_container(id, _)` hands out: the one in the first slot held
    /// by `id`, or a fresh one in front of all others.
    pub open spec fn fetched(&self, id: Id) -> Container {
        if pool_has(self.container_pool@, id) {
            self.containers@[choose|i: int| is_first_slot(self.container_pool@, id, i)]
        } else {
            Context::fresh_container(self.last_depth + 1)
        }
    }

    /// The window of `id` is shown: its container is open, or it has none and is not asked to
    /// start closed.
    pub open spec fn window_opens(&self, id: Id, closed: bool) -> bool {
        if pool_has(self.container_pool@, id) {
            self.fetched(id).open
        } else {
            !closed
        }
    }

    /// `begin_window(title, initial, options)` computes without overflow or division by zero.
    pub open spec fn can_begin_window(&self, title: Seq<u8>, initial: Rect, options: Options) -> bool {
        let id = hash(self.id_seed(), title);
        let c = self.fetched(id);
        let b = window_frame(c, initial);
        let placed = Container { bounds: b, ..c };
        let body = title_body(b, self.style.title_height as int, options);
        let clip = self.spec_clip();
        self.window_opens(id, options.has(Options::spec_is_closed())) ==> {
            &&& !pool_has(self.container_pool@, id) ==> self.last_depth < i32::MAX
            &&& b.edges_fit()
            &&& self.title_fits(b, options)
            &&& body_fits(
                self.style,
                clip,
                self.mouse,
                self.delta,
                placed,
                body,
                options,
                self.mouse_down == MOUSE_LEFT,
            )
            &&& self.resize_fits(b, options)
            &&& inner_body(self.style, placed, body, options).can_intersect(clip)
        }
    }
}

/// What the inside of the window in slot `idx` does to the context `before` it is drawn:
/// its frame is moved while the title bar is dragged and resized while the handle is, the
/// window is closed when the close button is clicked, no other container changes, the
/// commands start with the frame and the title bar, and the handle is the last control
/// updated.
/// The state that the title bar of the window in slot `idx` leaves: the bar, then the close
/// button, updated as controls, the last of them being the last control updated.
pub open spec fn title_state(before: Context, idx: usize, options: Options) -> Context {
    let b = before.containers@[idx as int].bounds;
    let th = before.style.title_height as int;
    let title_id = hash(before.id_seed(), "!title".spec_bytes());
    let close_id = hash(before.id_seed(), "!close".spec_bytes());
    let u1 = before.after_update(title_id, title_bar(b, th), options);
    let u2 = u1.after_update(close_id, close_button(b, th), options);
    if options.has(Options::spec_no_title()) {
        before
    } else if options.has(Options::spec_no_close()) {
        Context { last_id: title_id, ..u1 }
    } else {
        Context { last_id: close_id, ..u2 }
    }
}

/// The commands that open the drawing of the window in slot `idx`: its frame and title bar.
pub open spec fn frame_cmds_of(before: Context, idx: usize, text: Seq<char>, options: Options) -> Seq<
    CommandView,
> {
    let b = before.containers@[idx as int].bounds;
    (if options.has(Options::spec_no_frame()) {
        Seq::empty()
    } else {
        plain_rect_cmds(b, before.style.spec_color(ColorSlot::Window))
    }) + (if options.has(Options::spec_no_title()) {
        Seq::empty()
    } else {
        title_cmds(before.style, b, text, options)
    })
}

/// The state, the commands and the scroll offsets that the inside of the window in slot
/// `idx` leaves: those of its title bar, then its scrollbars, then its resize handle.
#[verifier::opaque]
pub open spec fn contents_run(
    before: Context,
    after: Context,
    idx: usize,
    text: Seq<char>,
    options: Options,
) -> bool {
    let c = before.containers@[idx as int];
    let b = c.bounds;
    let now = after.containers@[idx as int];
    let th = before.style.title_height as int;
    let resize_id = hash(before.id_seed(), "!resize".spec_bytes());
    let t0 = title_state(before, idx, options);
    let body = title_body(b, th, options);
    let bars = bars_run(t0, before.id_seed(), before.spec_clip(), before.spec_hovering(), idx, c, body);
    let t1 = if options.has(Options::spec_no_scroll()) {
        t0
    } else {
        bars.state
    };
    let fin = if options.has(Options::spec_no_resize()) {
        t1
    } else {
        Context {
            last_id: resize_id,
            ..t1.after_update(resize_id, t1.resize_handle(b), options)
        }
    };
    &&& after == (Context {
        containers: after.containers,
        draws: after.draws,
        layout_stack: after.layout_stack,
        clip_stack: after.clip_stack,
        ..fin
    })
    &&& after.draws@ == before.draws@ + frame_cmds_of(before, idx, text, options) + (if options.has(
        Options::spec_no_scroll(),
    ) {
        Seq::empty()
    } else {
        bars.cmds
    })
    &&& now.scroll == (if options.has(Options::spec_no_scroll()) {
        c.scroll
    } else {
        bars_scroll(t0, before.id_seed(), before.spec_clip(), before.spec_hovering(), idx, c, body)
    })
}

/// Where the inside of the window in slot `idx` leaves its frame, whether it stays open, and
/// the commands it starts with.
#[verifier::opaque]
pub open spec fn contents_placed(
    before: Context,
    after: Context,
    idx: usize,
    text: Seq<char>,
    options: Options,
) -> bool {
    let c = before.containers@[idx as int];
    let b = c.bounds;
    let now = after.containers@[idx as int];
    let th = before.style.title_height as int;
    let title_id = hash(before.id_seed(), "!title".spec_bytes());
    let close_id = hash(before.id_seed(), "!close".spec_bytes());
    let resize_id = hash(before.id_seed(), "!resize".spec_bytes());
    let u1 = before.after_update(title_id, title_bar(b, th), options);
    let u2 = u1.after_update(close_id, close_button(b, th), options);
    let titled = !options.has(Options::spec_no_title());
    let dragged = titled && u1.focus == title_id && before.mouse_down == MOUSE_LEFT;
    let closing = titled && !options.has(Options::spec_no_close()) && before.mouse_pressed
        == MOUSE_LEFT && u2.focus == close_id;
    let moved = if dragged {
        moved_by(b, before.delta)
    } else {
        b
    };
    let resizing = !options.has(Options::spec_no_resize()) && after.focus == resize_id
        && before.mouse_down == MOUSE_LEFT;
    let frame = if options.has(Options::spec_no_frame()) {
        Seq::empty()
    } else {
        plain_rect_cmds(b, before.style.spec_color(ColorSlot::Window))
    };
    let bar = if titled {
        title_cmds(before.style, b, text, options)
    } else {
        Seq::empty()
    };
    &&& now.bounds == (if resizing {
        Rect {
            w: max_int(b.w + before.delta.x, 96) as i32,
            h: max_int(b.h + before.delta.y, 64) as i32,
            ..moved
        }
    } else {
        moved
    })
    &&& now.open == (c.open && !closing)
    &&& forall|j: int|
        0 <= j < POOL && j != idx ==> #[trigger] after.containers@[j] == before.containers@[j]
    &&& (before.draws@ + frame + bar).is_prefix_of(after.draws@)
    &&& !options.has(Options::spec_no_resize()) ==> after.last_id == resize_id
}


/// What the inside of the window in slot `idx` does to the context `before` it is drawn.
pub open spec fn contents_framed(
    before: Context,
    after: Context,
    idx: usize,
    text: Seq<char>,
    options: Options,
) -> bool {
    &&& contents_placed(before, after, idx, text, options)
    &&& contents_run(before, after, idx, text, options)
}

/// Draws the window in slot `idx` inside its frame: the frame, the title bar and the body with
/// its scrollbars, the resize handle, and clips to the body.
#[verifier::rlimit(100)]
#[verifier::spinoff_prover]
fn window_contents(ctx: &mut Context, idx: usize, title: &str, options: Options)
    requires
        old(ctx).wf(),
        idx < POOL,
        ({
            let c = old(ctx).containers@[idx as int];
            let b = c.bounds;
            let body = title_body(b, old(ctx).style.title_height as int, options);
            let clip = old(ctx).spec_clip();
            &&& b.edges_fit()
            &&& old(ctx).title_fits(b, options)
            &&& body_fits(
                old(ctx).style,
                clip,
                old(ctx).mouse,
                old(ctx).delta,
                c,
                body,
                options,
                old(ctx).mouse_down == MOUSE_LEFT,
            )
            &&& old(ctx).resize_fits(b, options)
            &&& inner_body(old(ctx).style, c, body, options).can_intersect(clip)
        }),
    ensures
        final(ctx).wf(),
        contents_framed(*old(ctx), *final(ctx), idx, title@, options),
        ({
            let c = old(ctx).containers@[idx as int];
            let b = c.bounds;
            let body = inner_body(
                old(ctx).style,
                c,
                title_body(b, old(ctx).style.title_height as int, options),
                options,
            );
            let now = final(ctx).containers@[idx as int];
            &&& now.body == body
            &&& now.content == c.content
            &&& now.depth == c.depth
            &&& options.has(Options::spec_no_scroll()) ==> now.scroll == c.scroll
            &&& !options.has(Options::spec_no_scroll()) ==> {
                let content = padded(old(ctx).style, c);
                &&& scroll_kept(now.scroll.y as int, c.scroll.y as int, content.y - body.h)
                &&& scroll_kept(now.scroll.x as int, c.scroll.x as int, content.x - body.w)
            }
            &&& final(ctx).layout_stack@.len() == old(ctx).layout_stack@.len() + 1
            &&& final(ctx).layout_stack@.drop_last() == old(ctx).layout_stack@
            &&& final(ctx).top_layout()@ == crate::layout::LayoutView::initial(
                body.expanded(-old(ctx).style.padding),
                now.scroll,
            )
            &&& final(ctx).clip_stack@ == old(ctx).clip_stack@.push(
                body.intersection(old(ctx).spec_clip()),
            )
            &&& (old(ctx).draws@ + (if options.has(Options::spec_no_frame()) {
                Seq::empty()
            } else {
                plain_rect_cmds(b, old(ctx).style.spec_color(ColorSlot::Window))
            })).is_prefix_of(final(ctx).draws@)
            &&& *final(ctx) == (Context {
                draws: final(ctx).draws,
                hover: final(ctx).hover,
                focus: final(ctx).focus,
                focus_updated: final(ctx).focus_updated,
                text_focus: final(ctx).text_focus,
                text_scroll: final(ctx).text_scroll,
                last_id: final(ctx).last_id,
                scroll_target: final(ctx).scroll_target,
                containers: final(ctx).containers,
                layout_stack: final(ctx).layout_stack,
                clip_stack: final(ctx).clip_stack,
                ..*old(ctx)
            })
        }),
{
    let bounds = ctx.containers[idx].bounds;
    if !options.contains(Options::no_frame()) {
        let color = ctx.style.color(ColorSlot::Window);
        ctx.draws.rect(bounds, color);
    }
    let ghost s_in = *ctx;
    let body = window_title(ctx, idx, bounds, title, options);
    let ghost s_out = *ctx;
    push_body(ctx, idx, body, options);
    let ghost s_body = *ctx;
    window_resize(ctx, idx, bounds, options);
    let ghost s_res = *ctx;
    let body_rect = ctx.containers[idx].body;
    ctx.push_clip(body_rect);
    proof {
        lemma_prefix_trans(s_in.draws@, s_out.draws@, s_body.draws@);
        lemma_prefix_trans(old(ctx).draws@, s_in.draws@, s_body.draws@);
        lemma_contents_placed(*old(ctx), s_in, s_out, s_body, s_res, *ctx, idx, title@, options);
        lemma_title_state(*old(ctx), s_in, s_out, idx, title@, options);
        lemma_contents_run(*old(ctx), s_out, s_body, s_res, *ctx, idx, title@, options);
    }
}

#[verifier::rlimit(100)]
#[verifier::spinoff_prover]
proof fn lemma_contents_placed(
    before: Context,
    s_in: Context,
    s_out: Context,
    s_body: Context,
    s_res: Context,
    after: Context,
    idx: usize,
    text: Seq<char>,
    options: Options,
)
    requires
        before.wf(),
        idx < POOL,
        s_in == (Context { draws: s_in.draws, ..before }),
        s_in.draws@ == before.draws@ + (if options.has(Options::spec_no_frame()) {
            Seq::empty()
        } else {
            plain_rect_cmds(
                before.containers@[idx as int].bounds,
                before.style.spec_color(ColorSlot::Window),
            )
        }),
        title_done(s_in, s_out, idx, before.containers@[idx as int].bounds, text, options),
        s_out.containers@ == s_in.containers@.update(
            idx as int,
            Container {
                bounds: s_out.containers@[idx as int].bounds,
                open: s_out.containers@[idx as int].open,
                ..s_in.containers@[idx as int]
            },
        ),
        s_out.draws@.is_prefix_of(s_body.draws@),
        s_body.containers@ == s_out.containers@.update(
            idx as int,
            Container {
                body: s_body.containers@[idx as int].body,
                scroll: s_body.containers@[idx as int].scroll,
                ..s_out.containers@[idx as int]
            },
        ),
        ({
            let body = title_body(
                before.containers@[idx as int].bounds,
                before.style.title_height as int,
                options,
            );
            let r = bars_run(
                s_out,
                s_out.id_seed(),
                s_out.spec_clip(),
                s_out.spec_hovering(),
                idx,
                s_out.containers@[idx as int],
                body,
            );
            &&& options.has(Options::spec_no_scroll()) ==> s_body == (Context {
                containers: s_body.containers,
                layout_stack: s_body.layout_stack,
                ..s_out
            })
            &&& !options.has(Options::spec_no_scroll()) ==> {
                &&& s_body.containers@[idx as int].scroll == bars_scroll(
                    s_out,
                    s_out.id_seed(),
                    s_out.spec_clip(),
                    s_out.spec_hovering(),
                    idx,
                    s_out.containers@[idx as int],
                    body,
                )
                &&& s_body.draws@ == s_out.draws@ + r.cmds
                &&& s_body == (Context {
                    containers: s_body.containers,
                    layout_stack: s_body.layout_stack,
                    draws: s_body.draws,
                    clip_stack: s_body.clip_stack,
                    ..r.state
                })
            }
        }),
        s_body.clip_stack@ == s_out.clip_stack@,
        s_res.containers@ == s_body.containers@.update(
            idx as int,
            Container {
                bounds: s_body.resized(idx as int, before.containers@[idx as int].bounds, options),
                ..s_body.containers@[idx as int]
            },
        ),
        options.has(Options::spec_no_resize()) ==> s_res == s_body,
        !options.has(Options::spec_no_resize()) ==> s_res == (Context {
            containers: s_res.containers,
            last_id: s_body.resize_id(),
            ..s_body.after_update(
                s_body.resize_id(),
                s_body.resize_handle(before.containers@[idx as int].bounds),
                options,
            )
        }),
        after == (Context { clip_stack: after.clip_stack, ..s_res }),
    ensures
        contents_placed(before, after, idx, text, options),
{
    reveal(title_done);
    reveal(contents_placed);
    let b = before.containers@[idx as int].bounds;
    let th = before.style.title_height as int;
    let title_id = hash(before.id_seed(), "!title".spec_bytes());
    let close_id = hash(before.id_seed(), "!close".spec_bytes());
    let m1 = s_in.after_update(title_id, title_bar(b, th), options);
    let u1 = before.after_update(title_id, title_bar(b, th), options);
    assert(m1.focus == u1.focus);
    let m2 = m1.after_update(close_id, close_button(b, th), options);
    let u2 = u1.after_update(close_id, close_button(b, th), options);
    lemma_bars_keep(
        s_out,
        s_out.id_seed(),
        s_out.spec_clip(),
        s_out.spec_hovering(),
        idx,
        s_out.containers@[idx as int],
        title_body(b, th, options),
    );
    assert(s_body.id_seed() == before.id_seed());
    if !options.has(Options::spec_no_title()) {
        lemma_prefix_trans(before.draws@ + (if options.has(Options::spec_no_frame()) {
            Seq::empty()
        } else {
            plain_rect_cmds(b, before.style.spec_color(ColorSlot::Window))
        }) + title_cmds(before.style, b, text, options), s_out.draws@, s_body.draws@);
    } else {
        lemma_prefix_trans(s_in.draws@, s_out.draws@, s_body.draws@);
    }
    assert forall|j: int| 0 <= j < POOL && j != idx implies #[trigger] after.containers@[j]
        == before.containers@[j] by {
        assert(s_out.containers@[j] == s_in.containers@[j]);
        assert(s_body.containers@[j] == s_out.containers@[j]);
    }
}

/// The state and the commands that the title bar leaves, as `title_done` states them.
proof fn lemma_title_state(
    before: Context,
    s_in: Context,
    s_out: Context,
    idx: usize,
    text: Seq<char>,
    options: Options,
)
    requires
        idx < POOL,
        before.containers@.len() == POOL,
        s_in == (Context { draws: s_in.draws, ..before }),
        s_in.draws@ == before.draws@ + (if options.has(Options::spec_no_frame()) {
            Seq::empty()
        } else {
            plain_rect_cmds(
                before.containers@[idx as int].bounds,
                before.style.spec_color(ColorSlot::Window),
            )
        }),
        title_done(s_in, s_out, idx, before.containers@[idx as int].bounds, text, options),
    ensures
        s_out == (Context {
            containers: s_out.containers,
            draws: s_out.draws,
            ..title_state(before, idx, options)
        }),
        s_out.draws@ == before.draws@ + frame_cmds_of(before, idx, text, options),
{
    reveal(title_done);
    let b = before.containers@[idx as int].bounds;
    let th = before.style.title_height as int;
    let title_id = hash(before.id_seed(), "!title".spec_bytes());
    let close_id = hash(before.id_seed(), "!close".spec_bytes());
    let m1 = s_in.after_update(title_id, title_bar(b, th), options);
    let u1 = before.after_update(title_id, title_bar(b, th), options);
    assert(m1 == (Context { draws: s_in.draws, ..u1 }));
    let m2 = m1.after_update(close_id, close_button(b, th), options);
    let u2 = u1.after_update(close_id, close_button(b, th), options);
    assert(m2 == (Context { draws: s_in.draws, ..u2 }));
    assert(s_out.draws@ =~= before.draws@ + frame_cmds_of(before, idx, text, options));
}

/// The state after the inside of a window, from the title bar's, the body's and the resize
/// handle's.
#[verifier::rlimit(100)]
#[verifier::spinoff_prover]
proof fn lemma_contents_run(
    before: Context,
    s_out: Context,
    s_body: Context,
    s_res: Context,
    after: Context,
    idx: usize,
    text: Seq<char>,
    options: Options,
)
    requires
        idx < POOL,
        before.containers@.len() == POOL,
        s_out == (Context {
            containers: s_out.containers,
            draws: s_out.draws,
            ..title_state(before, idx, options)
        }),
        s_out.draws@ == before.draws@ + frame_cmds_of(before, idx, text, options),
        s_out.containers@[idx as int].content == before.containers@[idx as int].content,
        s_out.containers@[idx as int].scroll == before.containers@[idx as int].scroll,
        ({
            let body = title_body(
                before.containers@[idx as int].bounds,
                before.style.title_height as int,
                options,
            );
            let r = bars_run(
                s_out,
                s_out.id_seed(),
                s_out.spec_clip(),
                s_out.spec_hovering(),
                idx,
                s_out.containers@[idx as int],
                body,
            );
            &&& options.has(Options::spec_no_scroll()) ==> s_body == (Context {
                containers: s_body.containers,
                layout_stack: s_body.layout_stack,
                ..s_out
            })
            &&& options.has(Options::spec_no_scroll()) ==> s_body.containers@[idx as int].scroll
                == s_out.containers@[idx as int].scroll
            &&& !options.has(Options::spec_no_scroll()) ==> {
                &&& s_body.containers@[idx as int].scroll == bars_scroll(
                    s_out,
                    s_out.id_seed(),
                    s_out.spec_clip(),
                    s_out.spec_hovering(),
                    idx,
                    s_out.containers@[idx as int],
                    body,
                )
                &&& s_body.draws@ == s_out.draws@ + r.cmds
                &&& s_body == (Context {
                    containers: s_body.containers,
                    layout_stack: s_body.layout_stack,
                    draws: s_body.draws,
                    clip_stack: s_body.clip_stack,
                    ..r.state
                })
            }
        }),
        s_body.clip_stack@ == s_out.clip_stack@,
        s_res.containers@[idx as int].scroll == s_body.containers@[idx as int].scroll,
        options.has(Options::spec_no_resize()) ==> s_res == s_body,
        !options.has(Options::spec_no_resize()) ==> s_res == (Context {
            containers: s_res.containers,
            last_id: s_body.resize_id(),
            ..s_body.after_update(
                s_body.resize_id(),
                s_body.resize_handle(before.containers@[idx as int].bounds),
                options,
            )
        }),
        after == (Context { clip_stack: after.clip_stack, ..s_res }),
    ensures
        contents_run(before, after, idx, text, options),
{
    reveal(contents_run);
    let c = before.containers@[idx as int];
    let b = c.bounds;
    let th = before.style.title_height as int;
    let t0 = title_state(before, idx, options);
    let body = title_body(b, th, options);
    assert(s_out.id_seed() == before.id_seed());
    assert(s_out.spec_clip() == before.spec_clip());
    assert(s_out.spec_hovering() == before.spec_hovering());
    lemma_bars_frame(
        t0,
        s_out,
        before.id_seed(),
        before.spec_clip(),
        before.spec_hovering(),
        idx,
        c,
        s_out.containers@[idx as int],
        body,
    );
    let bars = bars_run(t0, before.id_seed(), before.spec_clip(), before.spec_hovering(), idx, c, body);
    lemma_bars_keep(t0, before.id_seed(), before.spec_clip(), before.spec_hovering(), idx, c, body);
    let t1 = if options.has(Options::spec_no_scroll()) {
        t0
    } else {
        bars.state
    };
    assert(s_body == (Context {
        containers: s_body.containers,
        layout_stack: s_body.layout_stack,
        draws: s_body.draws,
        clip_stack: s_body.clip_stack,
        ..t1
    }));
    assert(s_body.id_seed() == t1.id_seed());
    assert(s_body.spec_clip() == t1.spec_clip());
    assert(s_body.spec_hovering() == t1.spec_hovering());
    let resize_id = hash(before.id_seed(), "!resize".spec_bytes());
    assert(s_body.after_update(resize_id, s_body.resize_handle(b), options) == (Context {
        containers: s_body.containers,
        layout_stack: s_body.layout_stack,
        draws: s_body.draws,
        clip_stack: s_body.clip_stack,
        ..t1.after_update(resize_id, t1.resize_handle(b), options)
    }));
    if !options.has(Options::spec_no_scroll()) {
        assert(after.draws@ =~= before.draws@ + frame_cmds_of(before, idx, text, options)
            + bars.cmds);
    } else {
        assert(after.draws@ =~= before.draws@ + frame_cmds_of(before, idx, text, options)
            + Seq::empty());
    }
}

/// What `begin_window(title, initial, options)` does to the context and answers: when the
/// window is shown, its container comes on top of the container, root, id, layout and clip
/// stacks; otherwise these stacks and the draw list stay as they were.
pub open spec fn window_begun(
    before: Context,
    after: Context,
    title: Seq<u8>,
    initial: Rect,
    options: Options,
    r: Response,
) -> bool {
    let id = hash(before.id_seed(), title);
    let opens = before.window_opens(id, options.has(Options::spec_is_closed()));
    let c = before.fetched(id);
    let b = window_frame(c, initial);
    let placed = Container { bounds: b, ..c };
    let body = inner_body(
        before.style,
        placed,
        title_body(b, before.style.title_height as int, options),
        options,
    );
    let idx = after.container_stack@.last();
    let now = after.containers@[idx as int];
    let frame = if options.has(Options::spec_no_frame()) {
        Seq::empty()
    } else {
        plain_rect_cmds(b, before.style.spec_color(ColorSlot::Window))
    };
    &&& r == (if opens {
        Response::spec_active()
    } else {
        Response { bits: 0 }
    })
    &&& after == (Context {
        draws: after.draws,
        hover: after.hover,
        focus: after.focus,
        focus_updated: after.focus_updated,
        text_focus: after.text_focus,
        text_scroll: after.text_scroll,
        last_id: after.last_id,
        scroll_target: after.scroll_target,
        next_root: after.next_root,
        containers: after.containers,
        container_pool: after.container_pool,
        last_depth: after.last_depth,
        roots: after.roots,
        id_stack: after.id_stack,
        container_stack: after.container_stack,
        layout_stack: after.layout_stack,
        clip_stack: after.clip_stack,
        ..before
    })
    &&& !opens ==> {
        &&& after.id_stack@ == before.id_stack@
        &&& after.container_stack@ == before.container_stack@
        &&& after.layout_stack@ == before.layout_stack@
        &&& after.clip_stack@ == before.clip_stack@
        &&& after.roots@ == before.roots@
        &&& after.draws@ == before.draws@
    }
    &&& opens ==> {
        &&& after.container_stack@ == before.container_stack@.push(idx)
        &&& is_first_slot(after.container_pool@, id, idx as int)
        &&& after.container_pool@ == before.container_pool@.update(
            idx as int,
            PoolEntry { id: id, frame: before.frame },
        )
        &&& after.last_depth == before.last_depth + (if pool_has(before.container_pool@, id) {
            0int
        } else {
            1int
        })
        &&& after.roots@ == before.roots@.push(idx)
        &&& after.id_stack@ == before.id_stack@.push(hash(before.id_seed(), id_bytes(id)))
        &&& (before.draws@ + seq![CommandView::Clip(Rect::spec_unbounded())] + frame).is_prefix_of(
            after.draws@,
        )
        &&& now.body == body
        &&& now.content == c.content
        &&& now.depth == c.depth
        &&& options.has(Options::spec_no_scroll()) ==> now.scroll == c.scroll
        &&& !options.has(Options::spec_no_scroll()) ==> {
            let content = padded(before.style, placed);
            &&& scroll_kept(now.scroll.y as int, c.scroll.y as int, content.y - body.h)
            &&& scroll_kept(now.scroll.x as int, c.scroll.x as int, content.x - body.w)
        }
        &&& after.layout_stack@.len() == before.layout_stack@.len() + 1
        &&& after.layout_stack@.drop_last() == before.layout_stack@
        &&& after.top_layout()@ == crate::layout::LayoutView::initial(
            body.expanded(-before.style.padding),
            now.scroll,
        )
        &&& after.clip_stack@ == before.clip_stack@.push(body.intersection(before.spec_clip()))
    }
}

proof fn lemma_prefix_trans<T>(a: Seq<T>, b: Seq<T>, c: Seq<T>)
    requires
        a.is_prefix_of(b),
        b.is_prefix_of(c),
    ensures
        a.is_prefix_of(c),
{
    assert(a =~= c.subrange(0, a.len() as int));
}

/// What a shown window's title bar and resize handle do to its container, and which
/// commands open its drawing: the container is moved while the title bar is dragged, resized
/// (to at least 96 by 64) while the resize handle is, and closed when the close button is
/// clicked; no other container changes; the commands start with the clip reset, the frame and
/// the title bar; the resize handle is the last control updated, and the window becomes the
/// next hover root when the mouse is over it and it lies in front of the one found so far.
#[verifier::opaque]
pub open spec fn window_framed(
    before: Context,
    after: Context,
    title: Seq<u8>,
    text: Seq<char>,
    initial: Rect,
    options: Options,
) -> bool {
    let id = hash(before.id_seed(), title);
    let c = before.fetched(id);
    let b = window_frame(c, initial);
    let placed = Container { bounds: b, ..c };
    let idx = after.container_stack@.last();
    let now = after.containers@[idx as int];
    let seed = hash(before.id_seed(), id_bytes(id));
    let th = before.style.title_height as int;
    let clip = before.spec_clip();
    let mouse = before.mouse;
    let title_id = hash(seed, "!title".spec_bytes());
    let close_id = hash(seed, "!close".spec_bytes());
    let resize_id = hash(seed, "!resize".spec_bytes());
    let u1 = before.update_with(
        title_id,
        options,
        title_bar(b, th).holds(mouse) && clip.holds(mouse) && before.hover_root == Some(idx),
    );
    let u2 = u1.update_with(
        close_id,
        options,
        close_button(b, th).holds(mouse) && clip.holds(mouse) && before.hover_root == Some(idx),
    );
    let titled = !options.has(Options::spec_no_title());
    let dragged = titled && u1.focus == title_id && before.mouse_down == MOUSE_LEFT;
    let closing = titled && !options.has(Options::spec_no_close()) && before.mouse_pressed
        == MOUSE_LEFT && u2.focus == close_id;
    let moved = if dragged {
        moved_by(b, before.delta)
    } else {
        b
    };
    let resizing = !options.has(Options::spec_no_resize()) && after.focus == resize_id
        && before.mouse_down == MOUSE_LEFT;
    let frame = if options.has(Options::spec_no_frame()) {
        Seq::empty()
    } else {
        plain_rect_cmds(b, before.style.spec_color(ColorSlot::Window))
    };
    let bar = if titled {
        title_cmds(before.style, b, text, options)
    } else {
        Seq::empty()
    };
    let front = match before.next_root {
        None => true,
        Some(r) => placed.depth > (if r == idx {
            placed
        } else {
            before.containers@[r as int]
        }).depth,
    };
    before.window_opens(id, options.has(Options::spec_is_closed())) ==> {
        &&& now.bounds == (if resizing {
            Rect {
                w: max_int(b.w + before.delta.x, 96) as i32,
                h: max_int(b.h + before.delta.y, 64) as i32,
                ..moved
            }
        } else {
            moved
        })
        &&& now.open == !closing
        &&& forall|j: int|
            0 <= j < POOL && j != idx ==> #[trigger] after.containers@[j] == before.containers@[j]
        &&& (before.draws@ + seq![CommandView::Clip(Rect::spec_unbounded())] + frame
            + bar).is_prefix_of(after.draws@)
        &&& !options.has(Options::spec_no_resize()) ==> after.last_id == resize_id
        &&& after.next_root == (if b.holds(mouse) && front {
            Some(idx)
        } else {
            before.next_root
        })
    }
}

#[verifier::rlimit(100)]
#[verifier::spinoff_prover]
proof fn lemma_window_framed(
    before: Context,
    pushed: Context,
    after: Context,
    title: Seq<u8>,
    text: Seq<char>,
    initial: Rect,
    options: Options,
    idx: usize,
)
    requires
        before.wf(),
        idx < POOL,
        ({
            let id = hash(before.id_seed(), title);
            let c = before.fetched(id);
            let b = window_frame(c, initial);
            let placed = Container { bounds: b, ..c };
            let front = match before.next_root {
                None => true,
                Some(r) => placed.depth > (if r == idx {
                    placed
                } else {
                    before.containers@[r as int]
                }).depth,
            };
            &&& before.window_opens(id, options.has(Options::spec_is_closed()))
            &&& pushed.containers@ == before.containers@.update(idx as int, placed)
            &&& pushed.container_stack@ == before.container_stack@.push(idx)
            &&& pushed.roots@ == before.roots@.push(idx)
            &&& pushed.id_stack@ == before.id_stack@.push(hash(before.id_seed(), id_bytes(id)))
            &&& pushed.draws@ == before.draws@.push(CommandView::Clip(Rect::spec_unbounded()))
            &&& pushed.next_root == (if b.holds(before.mouse) && front {
                Some(idx)
            } else {
                before.next_root
            })
            &&& pushed.clip_stack@ == before.clip_stack@
            &&& pushed.hover_root == before.hover_root
            &&& pushed.focus == before.focus
            &&& pushed.hover == before.hover
            &&& pushed.focus_updated == before.focus_updated
            &&& pushed.text_focus == before.text_focus
            &&& pushed.text_scroll == before.text_scroll
            &&& pushed.mouse == before.mouse
            &&& pushed.mouse_down == before.mouse_down
            &&& pushed.mouse_pressed == before.mouse_pressed
            &&& pushed.delta == before.delta
            &&& pushed.style == before.style
        }),
        contents_framed(pushed, after, idx, text, options),
        after.container_stack@ == pushed.container_stack@,
        after.next_root == pushed.next_root,
    ensures
        window_framed(before, after, title, text, initial, options),
{
    reveal(window_framed);
    reveal(contents_placed);
    let id = hash(before.id_seed(), title);
    let c = before.fetched(id);
    let b = window_frame(c, initial);
    let seed = hash(before.id_seed(), id_bytes(id));
    let th = before.style.title_height as int;
    let mouse = before.mouse;
    let clip = before.spec_clip();
    assert(pushed.id_seed() == seed);
    assert(pushed.spec_clip() == clip);
    assert(after.container_stack@.last() == idx);
    crate::context::lemma_hover_top(before.container_stack@, before.hover_root, before.roots@, idx);
    let title_id = hash(seed, "!title".spec_bytes());
    let close_id = hash(seed, "!close".spec_bytes());
    let over_t = title_bar(b, th).holds(mouse) && clip.holds(mouse) && before.hover_root == Some(
        idx,
    );
    let over_c = close_button(b, th).holds(mouse) && clip.holds(mouse) && before.hover_root == Some(
        idx,
    );
    assert(pushed.containers@[idx as int].bounds == b);
    assert(pushed.spec_mouse_over(title_bar(b, th)) == over_t);
    let m1 = pushed.after_update(title_id, title_bar(b, th), options);
    let u1 = before.update_with(title_id, options, over_t);
    assert(m1.focus == u1.focus && m1.hover == u1.hover && m1.focus_updated == u1.focus_updated
        && m1.text_focus == u1.text_focus && m1.text_scroll == u1.text_scroll
        && m1.mouse_down == u1.mouse_down && m1.mouse_pressed == u1.mouse_pressed);
    assert(m1.spec_mouse_over(close_button(b, th)) == over_c);
    let m2 = m1.after_update(close_id, close_button(b, th), options);
    let u2 = u1.update_with(close_id, options, over_c);
    assert(m2.focus == u2.focus);
    assert forall|j: int| 0 <= j < POOL && j != idx implies #[trigger] after.containers@[j]
        == before.containers@[j] by {
        assert(after.containers@[j] == pushed.containers@[j]);
    }
    let frame = if options.has(Options::spec_no_frame()) {
        Seq::<CommandView>::empty()
    } else {
        plain_rect_cmds(b, before.style.spec_color(ColorSlot::Window))
    };
    let bar = if !options.has(Options::spec_no_title()) {
        title_cmds(before.style, b, text, options)
    } else {
        Seq::<CommandView>::empty()
    };
    assert(before.draws@ + seq![CommandView::Clip(Rect::spec_unbounded())] + frame + bar
        =~= pushed.draws@ + frame + bar);
}

/// Begins the window titled `title`, first placed at `initial`: it is shown with the response
/// `ACTIVE` when its container is open, and then becomes the innermost container, with its id
/// scope, its layout and its body as the clip rectangle, until `end_window`. Its frame,
/// title bar, close button, resize handle and scrollbars are drawn and handled as `options`
/// ask.
#[verifier::rlimit(100)]
#[verifier::spinoff_prover]
pub fn begin_window(ctx: &mut Context, title: &str, initial: Rect, options: Options) -> (r: Response)
    requires
        old(ctx).wf(),
        old(ctx).can_begin_window(title.spec_bytes(), initial, options),
    ensures
        final(ctx).wf(),
        window_begun(*old(ctx), *final(ctx), title.spec_bytes(), initial, options, r),
        window_framed(*old(ctx), *final(ctx), title.spec_bytes(), title@, initial, options),
{
    let id = ctx.id_str(title);
    let closed = options.contains(Options::is_closed());
    let fetched = ctx.fetch_container(id, closed);
    let idx = match fetched {
        None => {
            proof {
                reveal(window_framed);
            }
            return Response::empty();
        },
        Some(i) => i,
    };
    proof {
        if pool_has(old(ctx).container_pool@, id) {
            let k = choose|i: int| is_first_slot(old(ctx).container_pool@, id, i);
            crate::context::lemma_first_slot_unique(old(ctx).container_pool@, id, k, idx as int);
        }
    }
    if !ctx.containers[idx].open {
        proof {
            reveal(window_framed);
        }
        return Response::empty();
    }
    if ctx.containers[idx].bounds.w == 0 {
        let mut c = ctx.containers[idx];
        c.bounds = initial;
        ctx.containers.set(idx, c);
    }
    let ghost placed_state = *ctx;
    proof {
        let c = old(ctx).fetched(id);
        let placed = Container { bounds: window_frame(c, initial), ..c };
        assert(ctx.containers@ =~= old(ctx).containers@.update(idx as int, placed));
    }
    let bytes = le_bytes(id);
    ctx.push_id(bytes.as_slice());
    ctx.push_container(idx);
    let ghost pushed = *ctx;
    window_contents(ctx, idx, title, options);
    proof {
        lemma_window_framed(*old(ctx), pushed, *ctx, title.spec_bytes(), title@, initial, options, idx);
    }
    Response::active()
}

/// A sequence without its last element; an empty one stays empty.
pub open spec fn popped<T>(s: Seq<T>) -> Seq<T> {
    if s.len() == 0 {
        s
    } else {
        s.drop_last()
    }
}

/// Ends the innermost window.
pub fn end_window(ctx: &mut Context)
    requires
        old(ctx).wf(),
        old(ctx).can_pop_container(),
    ensures
        final(ctx).wf(),
        final(ctx).container_stack@ == old(ctx).container_stack@.drop_last(),
        final(ctx).layout_stack@ == old(ctx).layout_stack@.drop_last(),
        final(ctx).containers@ == old(ctx).containers@.update(
            old(ctx).top_container(),
            Container {
                content: old(ctx).top_layout()@.content(),
                ..old(ctx).containers@[old(ctx).top_container()]
            },
        ),
        final(ctx).id_stack@ == popped(old(ctx).id_stack@),
        final(ctx).clip_stack@ == popped(old(ctx).clip_stack@),
        *final(ctx) == (Context {
            container_stack: final(ctx).container_stack,
            layout_stack: final(ctx).layout_stack,
            containers: final(ctx).containers,
            id_stack: final(ctx).id_stack,
            clip_stack: final(ctx).clip_stack,
            ..*old(ctx)
        }),
{
    ctx.pop_clip();
    ctx.pop_container();
}

impl Context {
    /// `begin_panel(name, options)` computes without overflow or division by zero.
    pub open spec fn can_begin_panel(&self, name: Seq<u8>, options: Options) -> bool {
        let id = hash(self.id_seed(), name);
        let b = self.spec_next_bounds();
        let placed = Container { bounds: b, ..self.fetched(id) };
        &&& !pool_has(self.container_pool@, id) ==> self.last_depth < i32::MAX
        &&& self.can_next_bounds()
        &&& body_fits(
            self.style,
            self.spec_clip(),
            self.mouse,
            self.delta,
            placed,
            b,
            options,
            self.mouse_down == MOUSE_LEFT,
        )
        &&& inner_body(self.style, placed, b, options).can_intersect(self.spec_clip())
    }
}

/// Begins the panel named `name`: a container placed by the layout of the innermost one, which
/// becomes the innermost container with its id scope, layout and body as the clip rectangle
/// until `end_panel`.
#[verifier::rlimit(40)]
pub fn begin_panel(ctx: &mut Context, name: &str, options: Options)
    requires
        old(ctx).wf(),
        old(ctx).can_begin_panel(name.spec_bytes(), options),
    ensures
        final(ctx).wf(),
        ({
            let id = hash(old(ctx).id_seed(), name.spec_bytes());
            let b = old(ctx).spec_next_bounds();
            let placed = Container { bounds: b, ..old(ctx).fetched(id) };
            let body = inner_body(old(ctx).style, placed, b, options);
            let idx = final(ctx).container_stack@.last();
            let now = final(ctx).containers@[idx as int];
            let n = old(ctx).layout_stack@.len();
            &&& final(ctx).id_stack@ == old(ctx).id_stack@.push(id)
            &&& final(ctx).container_stack@ == old(ctx).container_stack@.push(idx)
            &&& is_first_slot(final(ctx).container_pool@, id, idx as int)
            &&& now.bounds == b
            &&& now.body == body
            &&& now.content == placed.content
            &&& final(ctx).layout_stack@.len() == n + 1
            &&& final(ctx).layout_stack@.take(n - 1) == old(ctx).layout_stack@.drop_last()
            &&& final(ctx).layout_stack@[n - 1]@ == old(ctx).top_layout()@.after_next(
                old(ctx).style.size,
                old(ctx).style.spacing as int,
            )
            &&& final(ctx).top_layout()@ == crate::layout::LayoutView::initial(
                body.expanded(-old(ctx).style.padding),
                now.scroll,
            )
            &&& final(ctx).clip_stack@ == old(ctx).clip_stack@.push(
                body.intersection(old(ctx).spec_clip()),
            )
            &&& final(ctx).roots@ == old(ctx).roots@
            &&& *final(ctx) == (Context {
                draws: final(ctx).draws,
                hover: final(ctx).hover,
                focus: final(ctx).focus,
                focus_updated: final(ctx).focus_updated,
                text_focus: final(ctx).text_focus,
                text_scroll: final(ctx).text_scroll,
                last_id: final(ctx).last_id,
                scroll_target: final(ctx).scroll_target,
                containers: final(ctx).containers,
                container_pool: final(ctx).container_pool,
                last_depth: final(ctx).last_depth,
                id_stack: final(ctx).id_stack,
                container_stack: final(ctx).container_stack,
                layout_stack: final(ctx).layout_stack,
                clip_stack: final(ctx).clip_stack,
                ..*old(ctx)
            })
            &&& options.has(Options::spec_no_scroll()) ==> now.scroll == placed.scroll
            &&& !options.has(Options::spec_no_scroll()) ==> {
                let content = padded(old(ctx).style, placed);
                &&& scroll_kept(now.scroll.y as int, placed.scroll.y as int, content.y - body.h)
                &&& scroll_kept(now.scroll.x as int, placed.scroll.x as int, content.x - body.w)
            }
            &&& final(ctx).container_pool@ == old(ctx).container_pool@.update(
                idx as int,
                PoolEntry { id: id, frame: old(ctx).frame },
            )
            &&& final(ctx).last_depth == old(ctx).last_depth + (if pool_has(
                old(ctx).container_pool@,
                id,
            ) {
                0int
            } else {
                1int
            })
            &&& now.depth == placed.depth
            &&& forall|j: int|
                0 <= j < POOL && j != idx ==> #[trigger] final(ctx).containers@[j] == old(
                    ctx,
                ).containers@[j]
            &&& (old(ctx).draws@ + (if options.has(Options::spec_no_frame()) {
                Seq::empty()
            } else {
                plain_rect_cmds(b, old(ctx).style.spec_color(ColorSlot::Panel))
            })).is_prefix_of(final(ctx).draws@)
        }),
{
    ctx.push_id(name.as_bytes());
    let id = ctx.last_id;
    let fetched = ctx.fetch_container(id, false);
    let idx = match fetched {
        None => {
            return ;
        },
        Some(i) => i,
    };
    proof {
        if pool_has(old(ctx).container_pool@, id) {
            let k = choose|i: int| is_first_slot(old(ctx).container_pool@, id, i);
            crate::context::lemma_first_slot_unique(old(ctx).container_pool@, id, k, idx as int);
        }
    }
    let bounds = ctx.next_bounds();
    let mut c = ctx.containers[idx];
    c.bounds = bounds;
    ctx.containers.set(idx, c);
    if !options.contains(Options::no_frame()) {
        let color = ctx.style.color(ColorSlot::Panel);
        ctx.draws.rect(bounds, color);
    }
    ctx.push_container_raw(idx);
    let ghost before_body = *ctx;
    push_body(ctx, idx, bounds, options);
    let body_rect = ctx.containers[idx].body;
    ctx.push_clip(body_rect);
    proof {
        let n = old(ctx).layout_stack@.len();
        assert(ctx.layout_stack@.take(n - 1) =~= before_body.layout_stack@.drop_last());
    }
}

/// Ends the innermost panel.
pub fn end_panel(ctx: &mut Context)
    requires
        old(ctx).wf(),
        old(ctx).can_pop_container(),
    ensures
        final(ctx).wf(),
        final(ctx).container_stack@ == old(ctx).container_stack@.drop_last(),
        final(ctx).layout_stack@ == old(ctx).layout_stack@.drop_last(),
        final(ctx).containers@ == old(ctx).containers@.update(
            old(ctx).top_container(),
            Container {
                content: old(ctx).top_layout()@.content(),
                ..old(ctx).containers@[old(ctx).top_container()]
            },
        ),
        final(ctx).id_stack@ == popped(old(ctx).id_stack@),
        final(ctx).clip_stack@ == popped(old(ctx).clip_stack@),
        *final(ctx) == (Context {
            container_stack: final(ctx).container_stack,
            layout_stack: final(ctx).layout_stack,
            containers: final(ctx).containers,
            id_stack: final(ctx).id_stack,
            clip_stack: final(ctx).clip_stack,
            ..*old(ctx)
        }),
{
    ctx.pop_clip();
    ctx.pop_container();
}

/// Opens the popup named `name` at the mouse: its container, a 1 by 1 rectangle under the
/// mouse, becomes open, the hover root and the next root, in front of all others.
pub fn open_popup(ctx: &mut Context, name: &str)
    requires
        old(ctx).wf(),
        old(ctx).last_depth < i32::MAX - (if pool_has(
            old(ctx).container_pool@,
            hash(old(ctx).id_seed(), name.spec_bytes()),
        ) {
            0int
        } else {
            1int
        }),
    ensures
        final(ctx).wf(),
        ({
            let id = hash(old(ctx).id_seed(), name.spec_bytes());
            let fresh = !pool_has(old(ctx).container_pool@, id);
            let idx = final(ctx).next_root->0;
            &&& final(ctx).next_root is Some
            &&& final(ctx).hover_root == final(ctx).next_root
            &&& is_first_slot(final(ctx).container_pool@, id, idx as int)
            &&& final(ctx).last_depth == old(ctx).last_depth + (if fresh {
                2int
            } else {
                1int
            })
            &&& final(ctx).containers@[idx as int] == (Container {
                bounds: Rect { x: old(ctx).mouse.x, y: old(ctx).mouse.y, w: 1, h: 1 },
                open: true,
                depth: final(ctx).last_depth,
                ..old(ctx).fetched(id)
            })
            &&& forall|j: int|
                0 <= j < POOL && j != idx ==> #[trigger] final(ctx).containers@[j] == old(
                    ctx,
                ).containers@[j]
            &&& final(ctx).container_pool@ == old(ctx).container_pool@.update(
                idx as int,
                PoolEntry { id: id, frame: old(ctx).frame },
            )
            &&& *final(ctx) == (Context {
                containers: final(ctx).containers,
                container_pool: final(ctx).container_pool,
                last_depth: final(ctx).last_depth,
                hover_root: final(ctx).hover_root,
                next_root: final(ctx).next_root,
                last_id: id,
                ..*old(ctx)
            })
        }),
{
    let id = ctx.id_str(name);
    let fetched = ctx.fetch_container(id, false);
    let idx = match fetched {
        None => {
            return ;
        },
        Some(i) => i,
    };
    proof {
        if pool_has(old(ctx).container_pool@, id) {
            let k = choose|i: int| is_first_slot(old(ctx).container_pool@, id, i);
            crate::context::lemma_first_slot_unique(old(ctx).container_pool@, id, k, idx as int);
        }
    }
    ctx.hover_root = Some(idx);
    ctx.next_root = Some(idx);
    let mut c = ctx.containers[idx];
    c.bounds = Rect::new(ctx.mouse.x, ctx.mouse.y, 1, 1);
    c.open = true;
    ctx.containers.set(idx, c);
    ctx.bring_front(idx);
}

/// The options of a popup: a window without title, resize handle or scrollbars, sized to its
/// content, that starts closed.
pub open spec fn spec_popup_options() -> Options {
    Options { bits: 0xeb0 }
}

fn popup_options() -> (o: Options)
    ensures
        o == spec_popup_options(),
{
    let o = Options::is_popup().union(Options::auto_size()).union(Options::no_resize()).union(
        Options::no_scroll(),
    ).union(Options::no_title()).union(Options::is_closed());
    assert(0x400u32 | 0x200u32 | 0x10u32 | 0x20u32 | 0x80u32 | 0x800u32 == 0xeb0u32) by (bit_vector);
    o
}

/// Begins the popup named `name`, a window that `open_popup` shows.
pub fn begin_popup(ctx: &mut Context, name: &str) -> (r: Response)
    requires
        old(ctx).wf(),
        old(ctx).can_begin_window(name.spec_bytes(), Rect { x: 0, y: 0, w: 0, h: 0 }, spec_popup_options()),
    ensures
        final(ctx).wf(),
        window_begun(
            *old(ctx),
            *final(ctx),
            name.spec_bytes(),
            Rect { x: 0, y: 0, w: 0, h: 0 },
            spec_popup_options(),
            r,
        ),
{
    let options = popup_options();
    begin_window(ctx, name, Rect::new(0, 0, 0, 0), options)
}

/// Ends the innermost popup.
pub fn end_popup(ctx: &mut Context)
    requires
        old(ctx).wf(),
        old(ctx).can_pop_container(),
    ensures
        final(ctx).wf(),
        final(ctx).container_stack@ == old(ctx).container_stack@.drop_last(),
        final(ctx).layout_stack@ == old(ctx).layout_stack@.drop_last(),
        final(ctx).id_stack@ == popped(old(ctx).id_stack@),
        final(ctx).clip_stack@ == popped(old(ctx).clip_stack@),
        final(ctx).containers@ == old(ctx).containers@.update(
            old(ctx).top_container(),
            Container {
                content: old(ctx).top_layout()@.content(),
                ..old(ctx).containers@[old(ctx).top_container()]
            },
        ),
        *final(ctx) == (Context {
            container_stack: final(ctx).container_stack,
            layout_stack: final(ctx).layout_stack,
            containers: final(ctx).containers,
            id_stack: final(ctx).id_stack,
            clip_stack: final(ctx).clip_stack,
            ..*old(ctx)
        }),
{
    end_window(ctx);
}

impl Context {
    /// The layout of the innermost container once a tree node starts its row: one column
    /// filling the body.
    pub open spec fn tree_row(&self) -> crate::layout::LayoutView {
        self.top_layout()@.after_row(1, seq![-1i32], 0)
    }

    /// The rectangle of the tree node.
    pub open spec fn tree_bounds(&self) -> Rect {
        self.tree_row().next_rect(self.style.size, self.style.spacing as int)
    }

    /// The tree node of `id` is shown expanded: it is active, or inactive when `options` has
    /// `IS_EXPANDED`.
    pub open spec fn tree_expanded(&self, id: Id, options: Options) -> bool {
        let active = pool_has(self.tree_pool@, id);
        if options.has(Options::spec_is_expanded()) {
            !active
        } else {
            active
        }
    }

    /// `begin_tree(label, options)` computes without overflow.
    pub open spec fn can_begin_tree(&self, label: Seq<u8>, options: Options) -> bool {
        let id = hash(self.id_seed(), label);
        let l = self.tree_row();
        let b = self.tree_bounds();
        let p = self.style.padding;
        &&& self.layout_stack@.len() > 0
        &&& l.can_next(self.style.size, self.style.spacing as int)
        &&& self.can_mouse_over(b)
        &&& fits(b.x + b.h)
        &&& fits(b.x + b.h - p)
        &&& fits(b.w - b.h)
        &&& fits(b.w - b.h + p)
        &&& self.tree_expanded(id, options) ==> fits(
            l.after_next(self.style.size, self.style.spacing as int).indent + self.style.indent,
        )
    }

    /// The commands that draw the tree node `id` labelled `label` in `b`, when `hovered` says
    /// whether the mouse hovers it.
    pub open spec fn tree_cmds(&self, label: Seq<char>, b: Rect, hovered: bool, expanded: bool) -> Seq<
        CommandView,
    > {
        let text = self.style.spec_color(ColorSlot::Text);
        (if hovered {
            plain_rect_cmds(b, self.style.spec_color(ColorSlot::ButtonHover))
        } else {
            Seq::empty()
        }) + seq![
            CommandView::Icon {
                kind: if expanded {
                    Icon::Expanded
                } else {
                    Icon::Collapsed
                },
                bounds: Rect { w: b.h, ..b },
                color: text,
            },
            CommandView::Text {
                font: self.style.font,
                text: label,
                position: Vec2 { x: (b.x + b.h - self.style.padding) as i32, y: b.y },
                color: text,
            },
        ]
    }
}

/// What `begin_tree(label, options)` does to the tree pool: a click toggles whether `id` holds
/// a slot; a node that stays active renews its slot.
pub open spec fn tree_toggled(before: Seq<PoolEntry>, after: Seq<PoolEntry>, id: Id, frame: u32, active: bool, toggled: bool) -> bool {
    if active && !toggled {
        exists|i: int|
            is_first_slot(before, id, i) && after == before.update(i, PoolEntry { id: id, frame: frame })
    } else if active && toggled {
        exists|i: int| is_first_slot(before, id, i) && after == before.update(i, PoolEntry::vacant())
    } else if toggled {
        exists|i: int| is_oldest_slot(before, i) && after == before.update(i, PoolEntry { id: id, frame: frame })
    } else {
        after == before
    }
}

/// In a pool where ids are distinct, a toggled node holds a slot exactly when it was inactive,
/// and an untoggled one exactly when it was active.
pub proof fn lemma_tree_toggled(
    before: Seq<PoolEntry>,
    after: Seq<PoolEntry>,
    id: Id,
    frame: u32,
    toggled: bool,
)
    requires
        tree_toggled(before, after, id, frame, pool_has(before, id), toggled),
        ids_unique(before),
        id != 0,
    ensures
        pool_has(after, id) == (pool_has(before, id) != toggled),
{
    let active = pool_has(before, id);
    if active && toggled {
        let i = choose|i: int|
            is_first_slot(before, id, i) && after == before.update(i, PoolEntry::vacant());
        assert forall|j: int| 0 <= j < after.len() implies after[j].id != id by {
            if j != i {
                if j < i {
                    assert(before[j].id != id);
                } else {
                    assert(before[i].id != 0);
                    assert(before[i].id != before[j].id);
                }
            }
        }
    } else if active {
        let i = choose|i: int|
            is_first_slot(before, id, i) && after == before.update(i, PoolEntry { id: id, frame: frame });
        assert(after[i].id == id);
    } else if toggled {
        let i = choose|i: int|
            is_oldest_slot(before, i) && after == before.update(i, PoolEntry { id: id, frame: frame });
        assert(after[i].id == id);
    }
}

/// Starts the row of a tree node in the innermost layout and places the node in it.
fn tree_place(ctx: &mut Context) -> (b: Rect)
    requires
        old(ctx).wf(),
        old(ctx).layout_stack@.len() > 0,
        old(ctx).tree_row().can_next(old(ctx).style.size, old(ctx).style.spacing as int),
    ensures
        final(ctx).wf(),
        b == old(ctx).tree_bounds(),
        final(ctx).layout_stack@.len() == old(ctx).layout_stack@.len(),
        final(ctx).layout_stack@.drop_last() == old(ctx).layout_stack@.drop_last(),
        final(ctx).top_layout()@ == old(ctx).tree_row().after_next(
            old(ctx).style.size,
            old(ctx).style.spacing as int,
        ),
        *final(ctx) == (Context { layout_stack: final(ctx).layout_stack, ..*old(ctx) }),
{
    let widths: Vec<i32> = vec![-1i32];
    let layout = ctx.layout();
    layout.row(1, widths.as_slice(), 0);
    assert(widths@ =~= seq![-1i32]);
    proof {
        let n = ctx.layout_stack@.len();
        assert forall|i: int| 0 <= i < n implies #[trigger] ctx.layout_stack@[i].wf() by {
            if i < n - 1 {
                assert(ctx.layout_stack@[i] == old(ctx).layout_stack@[i]);
            }
        }
    }
    let b = ctx.next_bounds();
    assert(ctx.layout_stack@.drop_last() =~= old(ctx).layout_stack@.drop_last());
    b
}

/// Toggles the tree node `id` in the tree pool: a click on an active node frees its slot, a
/// click on an inactive one takes the slot used least recently, and an active node that is
/// not clicked renews its slot.
fn tree_toggle(ctx: &mut Context, id: Id, active: bool, toggled: bool)
    requires
        old(ctx).wf(),
        active == pool_has(old(ctx).tree_pool@, id),
    ensures
        final(ctx).wf(),
        tree_toggled(old(ctx).tree_pool@, final(ctx).tree_pool@, id, old(ctx).frame, active, toggled),
        old(ctx).trees_unique() ==> final(ctx).trees_unique(),
        *final(ctx) == (Context { tree_pool: final(ctx).tree_pool, ..*old(ctx) }),
{
    let new_active = active != toggled;
    if active {
        if new_active {
            ctx.update_tree(id);
        } else {
            ctx.deactivate_tree(id);
        }
    } else if new_active {
        ctx.activate_tree(id);
    }
}

/// Draws the tree node labelled `label` in `b`.
fn draw_tree_node(ctx: &mut Context, label: &str, b: Rect, id: Id, expanded: bool)
    requires
        fits(b.x + b.h),
        fits(b.x + b.h - old(ctx).style.padding),
        fits(b.w - b.h),
        fits(b.w - b.h + old(ctx).style.padding),
    ensures
        final(ctx).draws@ == old(ctx).draws@ + old(ctx).tree_cmds(
            label@,
            b,
            old(ctx).hover == id,
            expanded,
        ),
        *final(ctx) == (Context { draws: final(ctx).draws, ..*old(ctx) }),
{
    let hover_color = ctx.style.color(ColorSlot::ButtonHover);
    if ctx.hover == id {
        ctx.draws.rect(b, hover_color);
    }
    let icon = if expanded {
        Icon::Expanded
    } else {
        Icon::Collapsed
    };
    let icon_color = ctx.style.color(ColorSlot::Text);
    let icon_rect = Rect::new(b.x, b.y, b.h, b.h);
    ctx.draws.icon(icon, icon_rect, icon_color);
    let text_bounds = Rect::new(
        b.x + b.h - ctx.style.padding,
        b.y,
        b.w - b.h + ctx.style.padding,
        b.h,
    );
    let text_color = ctx.style.color(ColorSlot::Text);
    let font = ctx.style.font;
    let text = label.to_string();
    ctx.draws.text(font, text, Vec2::new(text_bounds.x, text_bounds.y), text_color);
    assert(ctx.draws@ =~= old(ctx).draws@ + old(ctx).tree_cmds(label@, b, old(ctx).hover == id, expanded));
}

/// A tree node labelled `label` in its own row: a click toggles it, and while it is expanded
/// the response is `ACTIVE`, the layout is indented and an id scope is open until `end_tree`.
#[verifier::rlimit(60)]
pub fn begin_tree(ctx: &mut Context, label: &str, options: Options) -> (r: Response)
    requires
        old(ctx).wf(),
        old(ctx).can_begin_tree(label.spec_bytes(), options),
    ensures
        final(ctx).wf(),
        ({
            let id = hash(old(ctx).id_seed(), label.spec_bytes());
            let active = pool_has(old(ctx).tree_pool@, id);
            let expanded = old(ctx).tree_expanded(id, options);
            let b = old(ctx).tree_bounds();
            let u = old(ctx).after_update(id, b, Options { bits: 0 });
            let toggled = u.mouse_pressed == MOUSE_LEFT && u.focus == id;
            let next = old(ctx).tree_row().after_next(old(ctx).style.size, old(ctx).style.spacing as int);
            &&& r == (if expanded {
                Response::spec_active()
            } else {
                Response { bits: 0 }
            })
            &&& tree_toggled(old(ctx).tree_pool@, final(ctx).tree_pool@, id, old(ctx).frame, active, toggled)
            &&& old(ctx).trees_unique() ==> final(ctx).trees_unique()
            &&& old(ctx).trees_unique() && id != 0 ==> pool_has(final(ctx).tree_pool@, id) == (active
                != toggled)
            &&& final(ctx).last_id == (if expanded {
                hash(old(ctx).id_seed(), id_bytes(id))
            } else {
                id
            })
            &&& final(ctx).draws@ == old(ctx).draws@ + old(ctx).tree_cmds(label@, b, u.hover == id, expanded)
            &&& final(ctx).id_stack@ == (if expanded {
                old(ctx).id_stack@.push(hash(old(ctx).id_seed(), id_bytes(id)))
            } else {
                old(ctx).id_stack@
            })
            &&& final(ctx).layout_stack@.len() == old(ctx).layout_stack@.len()
            &&& final(ctx).layout_stack@.drop_last() == old(ctx).layout_stack@.drop_last()
            &&& final(ctx).top_layout()@ == (if expanded {
                crate::layout::LayoutView { indent: next.indent + old(ctx).style.indent, ..next }
            } else {
                next
            })
            &&& *final(ctx) == (Context {
                draws: final(ctx).draws,
                tree_pool: final(ctx).tree_pool,
                layout_stack: final(ctx).layout_stack,
                id_stack: final(ctx).id_stack,
                last_id: final(ctx).last_id,
                hover: u.hover,
                focus: u.focus,
                focus_updated: u.focus_updated,
                text_focus: u.text_focus,
                text_scroll: u.text_scroll,
                ..*old(ctx)
            })
        }),
{
    let id = ctx.id_str(label);
    let active = ctx.fetch_tree(id);
    let expanded = if options.contains(Options::is_expanded()) {
        !active
    } else {
        active
    };
    let bounds = tree_place(ctx);
    update(ctx, id, bounds, Options::empty());
    let toggled = ctx.mouse_pressed == MOUSE_LEFT && ctx.focus == id;
    let ghost pool_before = ctx.tree_pool@;
    tree_toggle(ctx, id, active, toggled);
    proof {
        if old(ctx).trees_unique() && id != 0 {
            lemma_tree_toggled(pool_before, ctx.tree_pool@, id, old(ctx).frame, toggled);
        }
    }
    draw_tree_node(ctx, label, bounds, id, expanded);
    if expanded {
        let indent = ctx.style.indent;
        let ghost before = *ctx;
        let layout = ctx.layout();
        layout.indent = layout.indent + indent;
        proof {
            let n = ctx.layout_stack@.len();
            assert forall|i: int| 0 <= i < n implies #[trigger] ctx.layout_stack@[i].wf() by {
                if i < n - 1 {
                    assert(ctx.layout_stack@[i] == before.layout_stack@[i]);
                }
            }
            assert(ctx.layout_stack@.drop_last() =~= before.layout_stack@.drop_last());
        }
        let bytes = le_bytes(id);
        ctx.push_id(bytes.as_slice());
        Response::active()
    } else {
        Response::empty()
    }
}

/// Ends the innermost expanded tree node: the indentation and id scope that it opened end.
pub fn end_tree(ctx: &mut Context)
    requires
        old(ctx).wf(),
        old(ctx).layout_stack@.len() > 0,
        fits(old(ctx).top_layout().indent - old(ctx).style.indent),
    ensures
        final(ctx).wf(),
        final(ctx).layout_stack@.len() == old(ctx).layout_stack@.len(),
        final(ctx).layout_stack@.drop_last() == old(ctx).layout_stack@.drop_last(),
        final(ctx).top_layout()@ == (crate::layout::LayoutView {
            indent: old(ctx).top_layout()@.indent - old(ctx).style.indent,
            ..old(ctx).top_layout()@
        }),
        final(ctx).id_stack@ == popped(old(ctx).id_stack@),
        *final(ctx) == (Context {
            layout_stack: final(ctx).layout_stack,
            id_stack: final(ctx).id_stack,
            ..*old(ctx)
        }),
{
    let indent = ctx.style.indent;
    let layout = ctx.layout();
    layout.indent = layout.indent - indent;
    proof {
        let n = ctx.layout_stack@.len();
        assert(old(ctx).layout_stack@[n - 1].wf());
        assert forall|i: int| 0 <= i < n implies #[trigger] ctx.layout_stack@[i].wf() by {
            if i < n - 1 {
                assert(ctx.layout_stack@[i] == old(ctx).layout_stack@[i]);
            }
        }
        assert(ctx.layout_stack@.drop_last() =~= old(ctx).layout_stack@.drop_last());
    }
    ctx.pop_id();
}

/// A shown window closed by `end_window` leaves the container, layout, id and clip stacks as
/// they were before `begin_window`.
pub proof fn law_window_nesting(
    before: Context,
    begun: Context,
    ended: Context,
    title: Seq<u8>,
    initial: Rect,
    options: Options,
    r: Response,
)
    requires
        window_begun(before, begun, title, initial, options, r),
        r == Response::spec_active(),
        ended.container_stack@ == begun.container_stack@.drop_last(),
        ended.layout_stack@ == begun.layout_stack@.drop_last(),
        ended.id_stack@ == popped(begun.id_stack@),
        ended.clip_stack@ == popped(begun.clip_stack@),
    ensures
        ended.container_stack@ == before.container_stack@,
        ended.layout_stack@ == before.layout_stack@,
        ended.id_stack@ == before.id_stack@,
        ended.clip_stack@ == before.clip_stack@,
{
    let id = hash(before.id_seed(), title);
    assert(before.window_opens(id, options.has(Options::spec_is_closed())));
    assert(begun.container_stack@.drop_last() =~= before.container_stack@);
    assert(begun.id_stack@.drop_last() =~= before.id_stack@);
    assert(begun.clip_stack@.drop_last() =~= before.clip_stack@);
}

/// A window that is not shown leaves every stack as it was.
pub proof fn law_hidden_window(
    before: Context,
    after: Context,
    title: Seq<u8>,
    initial: Rect,
    options: Options,
    r: Response,
)
    requires
        window_begun(before, after, title, initial, options, r),
        r != Response::spec_active(),
    ensures
        r == (Response { bits: 0 }),
        after.container_stack@ == before.container_stack@,
        after.layout_stack@ == before.layout_stack@,
        after.id_stack@ == before.id_stack@,
        after.clip_stack@ == before.clip_stack@,
        after.draws@ == before.draws@,
{
}

/// A tree node that holds no slot in the tree pool (one never clicked) is shown expanded
/// exactly when its options ask for `IS_EXPANDED`; one that holds a slot (it was toggled) is
/// shown expanded exactly when they do not: a click flips the node from how it starts.
pub proof fn law_tree_starts_as_asked(ctx: Context, id: Id, options: Options)
    ensures
        (forall|i: int| 0 <= i < ctx.tree_pool@.len() ==> #[trigger] ctx.tree_pool@[i].id != id)
            ==> (ctx.tree_expanded(id, options) <==> options.bits & 0x1000 != 0),
        (exists|i: int| 0 <= i < ctx.tree_pool@.len() && #[trigger] ctx.tree_pool@[i].id == id)
            ==> (ctx.tree_expanded(id, options) <==> options.bits & 0x1000 == 0),
{
    assert(forall|x: u32| #[trigger] (x & 0x1000) == 0x1000 <==> x & 0x1000 != 0) by (bit_vector);
}

/// An expanded tree node closed by `end_tree`, once everything pushed inside it has been
/// popped again, gives back the id stack and the indentation of the layout from before
/// `begin_tree`: `begun` is the context that `begin_tree` leaves, `inside` the one just before
/// `end_tree`, and `ended` the one that `end_tree` leaves.
pub proof fn law_tree_nesting(
    before: Context,
    begun: Context,
    inside: Context,
    ended: Context,
    label: Seq<u8>,
    options: Options,
)
    requires
        before.layout_stack@.len() > 0,
        before.tree_expanded(hash(before.id_seed(), label), options),
        begun.id_stack@ == before.id_stack@.push(
            hash(before.id_seed(), id_bytes(hash(before.id_seed(), label))),
        ),
        begun.layout_stack@.len() == before.layout_stack@.len(),
        ({
            let next = before.tree_row().after_next(before.style.size, before.style.spacing as int);
            begun.top_layout()@ == (crate::layout::LayoutView {
                indent: next.indent + before.style.indent,
                ..next
            })
        }),
        begun.style == before.style,
        inside.id_stack@ == begun.id_stack@,
        inside.layout_stack@.len() == begun.layout_stack@.len(),
        inside.top_layout()@.indent == begun.top_layout()@.indent,
        inside.style == begun.style,
        ended.id_stack@ == popped(inside.id_stack@),
        ended.layout_stack@.len() == inside.layout_stack@.len(),
        ended.top_layout()@.indent == inside.top_layout()@.indent - inside.style.indent,
    ensures
        ended.id_stack@ == before.id_stack@,
        ended.top_layout()@.indent == before.top_layout()@.indent,
{
    assert(begun.id_stack@.drop_last() =~= before.id_stack@);
}

} // verus!
