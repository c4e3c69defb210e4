use uvea::context::{Context, HASH_INITIAL, HASH_PRIME};
use uvea::controls::{button, checkbox_raw, label, textbox_raw};
use uvea::text_edit::edit_succeeds;
use uvea::draw::Command;
use uvea::types::{Clip, Color, Icon, Key, Options, Rect, Response, Vec2, MOUSE_LEFT};
use uvea::window::{begin_panel, begin_popup, begin_tree, begin_window, end_panel, end_popup, end_tree, end_window, open_popup};

fn fnv(seed: u32, data: &[u8]) -> u32 {
    let mut h = seed;
    for b in data {
        h = (h ^ (*b as u32)).wrapping_mul(HASH_PRIME);
    }
    h
}

fn commands(ctx: &Context) -> Vec<Command> {
    ctx.draws.iter().cloned().collect()
}

#[test]
fn id_is_fnv1a_in_scope() {
    let mut ctx = Context::new();
    assert_eq!(ctx.id_str("a"), 0xe40c292c);
    assert_eq!(ctx.last_id, 0xe40c292c);
    ctx.push_id(b"scope");
    let scope = fnv(HASH_INITIAL, b"scope");
    assert_eq!(ctx.id_stack, vec![scope]);
    assert_eq!(ctx.id_str("a"), fnv(scope, b"a"));
    ctx.pop_id();
    assert_eq!(ctx.id_str("a"), 0xe40c292c);
}

#[test]
fn id_of_concatenation_continues_hash() {
    let mut ctx = Context::new();
    let ab = ctx.id(b"ab");
    assert_eq!(ab, fnv(fnv(HASH_INITIAL, b"a"), b"b"));
}

#[test]
fn clip_stack_intersects_and_restores() {
    let mut ctx = Context::new();
    assert_eq!(ctx.clip(), Rect::unbounded());
    ctx.push_clip(Rect::new(0, 0, 100, 100));
    ctx.push_clip(Rect::new(50, 50, 100, 100));
    assert_eq!(ctx.clip(), Rect::new(50, 50, 50, 50));
    ctx.pop_clip();
    assert_eq!(ctx.clip(), Rect::new(0, 0, 100, 100));
    ctx.pop_clip();
    assert_eq!(ctx.clip(), Rect::unbounded());
}

#[test]
fn check_clip_classifies() {
    let mut ctx = Context::new();
    ctx.push_clip(Rect::new(0, 0, 100, 100));
    assert_eq!(ctx.check_clip(Rect::new(10, 10, 20, 20)), Clip::Unclipped);
    assert_eq!(ctx.check_clip(Rect::new(90, 90, 20, 20)), Clip::Partial);
    assert_eq!(ctx.check_clip(Rect::new(200, 0, 20, 20)), Clip::All);
}

#[test]
fn set_focus_zero_leaves_text_editing() {
    let mut ctx = Context::new();
    ctx.text_focus = 7;
    ctx.text_scroll = 3;
    ctx.set_focus(5);
    assert_eq!((ctx.focus, ctx.text_focus, ctx.text_scroll), (5, 7, 3));
    assert!(ctx.focus_updated);
    ctx.set_focus(0);
    assert_eq!((ctx.focus, ctx.text_focus, ctx.text_scroll), (0, 0, 0));
}

#[test]
fn fetch_container_same_id_same_slot() {
    // Within one frame every slot is equally old, so a frame must have begun for a second id
    // to take a second slot.
    let mut ctx = Context::new();
    ctx.begin_frame();
    assert_eq!(ctx.fetch_container(11, true), None);
    let a = ctx.fetch_container(11, false).unwrap();
    let b = ctx.fetch_container(22, false).unwrap();
    assert_ne!(a, b);
    assert_eq!(ctx.fetch_container(11, false), Some(a));
    assert!(ctx.containers[a].open);
    assert_eq!(ctx.containers[a].depth, 1);
    assert_eq!(ctx.containers[b].depth, 2);
    ctx.bring_front(a);
    assert_eq!(ctx.containers[a].depth, 3);
}

#[test]
fn tree_pool_activate_and_deactivate() {
    let mut ctx = Context::new();
    assert!(!ctx.fetch_tree(9));
    ctx.activate_tree(9);
    assert!(ctx.fetch_tree(9));
    ctx.update_tree(9);
    assert!(ctx.fetch_tree(9));
    ctx.deactivate_tree(9);
    assert!(!ctx.fetch_tree(9));
}

#[test]
fn input_records_buttons_keys_and_text() {
    let mut ctx = Context::new();
    ctx.mouse_down(3, 4, MOUSE_LEFT);
    assert_eq!(ctx.mouse, Vec2::new(3, 4));
    assert_eq!((ctx.mouse_down, ctx.mouse_pressed), (1, 1));
    ctx.mouse_up(5, 6, MOUSE_LEFT);
    assert_eq!((ctx.mouse_down, ctx.mouse_pressed), (0, 1));
    ctx.key_down(Key::Shift.bit());
    ctx.key_up(Key::Shift.bit());
    assert_eq!((ctx.key_down, ctx.key_pressed), (0, 1));
    ctx.text_input("ab");
    ctx.text_input("c");
    assert_eq!(ctx.input, "abc");
    ctx.scroll(1, -2);
    assert_eq!(ctx.scroll_delta, Vec2::new(1, -2));
    ctx.set_clipboard(String::from("clip"));
    assert_eq!(ctx.get_clipboard(), "clip");
    ctx.begin_frame();
    ctx.end_frame();
    assert_eq!((ctx.mouse_pressed, ctx.key_pressed), (0, 0));
    assert_eq!(ctx.input, "");
    assert_eq!(ctx.scroll_delta, Vec2::new(0, 0));
}

#[test]
fn window_draws_frame_title_and_close() {
    let mut ctx = Context::new();
    ctx.begin_frame();
    let r = begin_window(&mut ctx, "Demo", Rect::new(10, 10, 200, 150), Options::empty());
    assert_eq!(r, Response::active());
    let cmds = commands(&ctx);
    assert_eq!(cmds.len(), 5);
    assert!(matches!(cmds[0], Command::Clip(c) if c == Rect::unbounded()));
    assert!(matches!(cmds[1], Command::Rect { bounds, color, .. } if bounds == Rect::new(10, 10, 200, 150) && color == Color::rgba(50, 50, 50, 255)));
    assert!(matches!(cmds[2], Command::Rect { bounds, .. } if bounds == Rect::new(10, 10, 200, 24)));
    match &cmds[3] {
        Command::Text { text, position, .. } => {
            assert_eq!(text, "Demo");
            assert_eq!(*position, Vec2::new(15, 16));
        }
        _ => panic!("expected the title"),
    }
    assert!(matches!(cmds[4], Command::Icon { kind: Icon::Close, bounds, .. } if bounds == Rect::new(186, 10, 24, 24)));
    assert_eq!(ctx.clip(), Rect::new(10, 34, 200, 126));
    assert_eq!(ctx.container_stack.len(), 1);
    assert_eq!(ctx.layout_stack.len(), 1);
    assert_eq!(ctx.id_stack.len(), 1);
    label(&mut ctx, "hi");
    end_window(&mut ctx);
    assert!(ctx.container_stack.is_empty());
    assert!(ctx.layout_stack.is_empty());
    assert!(ctx.id_stack.is_empty());
    assert!(ctx.clip_stack.is_empty());
    ctx.end_frame();
    let idx = ctx.fetch_container(fnv(HASH_INITIAL, b"Demo"), false).unwrap();
    assert_eq!(ctx.containers[idx].content, Vec2::new(76, 18));
    assert_eq!(ctx.containers[idx].body, Rect::new(10, 34, 200, 126));
}

#[test]
fn label_draws_text_in_next_cell() {
    let mut ctx = Context::new();
    ctx.begin_frame();
    begin_window(&mut ctx, "W", Rect::new(10, 10, 200, 150), Options::empty());
    let before = ctx.draws.iter().count();
    label(&mut ctx, "hi");
    let cmds = commands(&ctx);
    assert_eq!(cmds.len(), before + 1);
    match &cmds[before] {
        Command::Text { text, position, color, .. } => {
            assert_eq!(text, "hi");
            assert_eq!(*position, Vec2::new(20, 43));
            assert_eq!(*color, Color::rgba(230, 230, 230, 255));
        }
        _ => panic!("expected text"),
    }
    end_window(&mut ctx);
    ctx.end_frame();
}

#[test]
fn closed_popup_is_not_shown_until_opened() {
    let mut ctx = Context::new();
    ctx.begin_frame();
    assert_eq!(begin_popup(&mut ctx, "menu"), Response::empty());
    assert!(ctx.container_stack.is_empty());
    ctx.end_frame();
    ctx.mouse_move(40, 50);
    ctx.begin_frame();
    open_popup(&mut ctx, "menu");
    let idx = ctx.hover_root.unwrap();
    assert_eq!(ctx.next_root, Some(idx));
    assert!(ctx.containers[idx].open);
    assert_eq!(ctx.containers[idx].bounds, Rect::new(40, 50, 1, 1));
    assert_eq!(begin_popup(&mut ctx, "menu"), Response::active());
    end_popup(&mut ctx);
    ctx.end_frame();
}

fn run_frame(ctx: &mut Context, f: &mut dyn FnMut(&mut Context)) {
    ctx.begin_frame();
    begin_window(ctx, "Win", Rect::new(0, 0, 300, 300), Options::empty());
    f(ctx);
    end_window(ctx);
    ctx.end_frame();
}

#[test]
fn button_reports_submit_when_clicked() {
    let mut ctx = Context::new();
    let mut results: Vec<Response> = Vec::new();
    ctx.mouse_move(20, 40);
    for step in 0..4 {
        if step == 2 {
            ctx.mouse_down(20, 40, MOUSE_LEFT);
        }
        if step == 3 {
            ctx.mouse_up(20, 40, MOUSE_LEFT);
        }
        run_frame(&mut ctx, &mut |c: &mut Context| {
            results.push(button(c, "OK", None, Options::empty()));
        });
    }
    assert_eq!(results[0], Response::empty());
    assert_eq!(results[1], Response::empty());
    assert_eq!(results[2], Response::submit());
    assert_eq!(results[3], Response::empty());
}

#[test]
fn checkbox_flips_when_clicked() {
    let mut ctx = Context::new();
    let mut state = false;
    let mut changes = 0;
    ctx.mouse_move(10, 40);
    for step in 0..3 {
        if step == 2 {
            ctx.mouse_down(10, 40, MOUSE_LEFT);
        }
        run_frame(&mut ctx, &mut |c: &mut Context| {
            let r = checkbox_raw(c, "check", &mut state, 77);
            if r == Response::change() {
                changes += 1;
            }
        });
    }
    assert!(state);
    assert_eq!(changes, 1);
}

#[test]
fn textbox_edits_focused_buffer() {
    let mut ctx = Context::new();
    let mut buf = String::from("ab");
    let bounds = Rect::new(5, 40, 100, 20);
    let mut last = Response::empty();
    ctx.mouse_move(10, 45);
    for step in 0..6 {
        if step == 2 {
            ctx.mouse_down(10, 45, MOUSE_LEFT);
        }
        if step == 3 {
            ctx.mouse_up(10, 45, MOUSE_LEFT);
            ctx.text_input("cd");
        }
        if step == 4 {
            ctx.key_down(Key::Backspace.bit());
        }
        if step == 5 {
            ctx.key_up(Key::Backspace.bit());
            ctx.key_down(Key::Return.bit());
        }
        run_frame(&mut ctx, &mut |c: &mut Context| {
            last = textbox_raw(c, &mut buf, 16, 123, bounds, Options::empty());
        });
        if step == 3 {
            assert_eq!(buf, "cdab");
            assert_eq!(last, Response::change());
        }
        if step == 4 {
            assert_eq!(buf, "cab");
        }
    }
    assert_eq!(last, Response::submit());
    assert_eq!(ctx.focus, 0);
}

#[test]
fn textbox_respects_capacity() {
    let mut ctx = Context::new();
    let mut buf = String::from("ab");
    let bounds = Rect::new(5, 40, 100, 20);
    ctx.mouse_move(10, 45);
    for step in 0..4 {
        if step == 2 {
            ctx.mouse_down(10, 45, MOUSE_LEFT);
        }
        if step == 3 {
            ctx.text_input("cdef");
        }
        run_frame(&mut ctx, &mut |c: &mut Context| {
            textbox_raw(c, &mut buf, 4, 123, bounds, Options::empty());
        });
    }
    assert_eq!(buf, "cdab");
}

#[test]
fn tree_node_toggles_on_click() {
    let mut ctx = Context::new();
    let mut expanded = Vec::new();
    ctx.mouse_move(20, 40);
    for step in 0..5 {
        if step == 2 {
            ctx.mouse_down(20, 40, MOUSE_LEFT);
        }
        if step == 3 {
            ctx.mouse_up(20, 40, MOUSE_LEFT);
        }
        run_frame(&mut ctx, &mut |c: &mut Context| {
            let r = begin_tree(c, "Node", Options::empty());
            let open = r == Response::active();
            if open {
                assert_eq!(c.layout().indent, 24);
                end_tree(c);
                assert_eq!(c.layout().indent, 0);
            }
            expanded.push(open);
        });
    }
    assert_eq!(expanded, vec![false, false, false, true, true]);
}

#[test]
fn panel_is_laid_out_inside_window() {
    let mut ctx = Context::new();
    ctx.begin_frame();
    begin_window(&mut ctx, "W", Rect::new(10, 10, 200, 150), Options::empty());
    begin_panel(&mut ctx, "P", Options::empty());
    assert_eq!(ctx.container_stack.len(), 2);
    let idx = *ctx.container_stack.last().unwrap();
    assert_eq!(ctx.containers[idx].bounds, Rect::new(15, 39, 76, 18));
    end_panel(&mut ctx);
    assert_eq!(ctx.container_stack.len(), 1);
    end_window(&mut ctx);
    ctx.end_frame();
}

#[test]
fn window_closes_with_close_button() {
    let mut ctx = Context::new();
    ctx.mouse_move(195, 20);
    let mut shown = Vec::new();
    for step in 0..4 {
        if step == 2 {
            ctx.mouse_down(195, 20, MOUSE_LEFT);
        }
        ctx.begin_frame();
        let r = begin_window(&mut ctx, "Closable", Rect::new(10, 10, 200, 150), Options::empty());
        shown.push(r == Response::active());
        if r == Response::active() {
            end_window(&mut ctx);
        }
        ctx.end_frame();
    }
    assert_eq!(shown, vec![true, true, true, false]);
}

#[test]
fn nested_window_end_restores_the_parent_clip() {
    let mut ctx = Context::new();
    ctx.begin_frame();
    begin_window(&mut ctx, "Outer", Rect::new(0, 0, 300, 300), Options::empty());
    assert_eq!(ctx.clip_stack.len(), 1);
    let outer_clip = ctx.clip();
    begin_window(&mut ctx, "Inner", Rect::new(20, 20, 100, 100), Options::empty());
    assert_eq!(ctx.clip_stack.len(), 2);
    assert_eq!(ctx.container_stack.len(), 2);
    end_window(&mut ctx);
    assert_eq!(ctx.container_stack.len(), 1);
    assert_eq!(ctx.id_stack.len(), 1);
    assert_eq!(ctx.layout_stack.len(), 1);
    assert_eq!(ctx.clip_stack.len(), 1);
    assert_eq!(ctx.clip(), outer_clip);
    end_window(&mut ctx);
    assert_eq!(ctx.clip_stack.len(), 0);
    ctx.end_frame();
}

#[test]
fn panel_end_restores_the_window_clip() {
    let mut ctx = Context::new();
    ctx.begin_frame();
    begin_window(&mut ctx, "W", Rect::new(0, 0, 200, 200), Options::empty());
    let c = ctx.clip();
    assert_eq!(c, Rect::new(0, 24, 200, 176));
    begin_panel(&mut ctx, "p", Options::empty());
    assert_eq!(ctx.clip_stack.len(), 2);
    end_panel(&mut ctx);
    assert_eq!(ctx.clip(), c);
    assert_eq!(ctx.clip_stack.len(), 1);
    assert_eq!(ctx.current_container().bounds, Rect::new(0, 0, 200, 200));
    end_window(&mut ctx);
    ctx.end_frame();
}

#[test]
fn controls_inside_a_panel_can_be_hovered() {
    let mut ctx = Context::new();
    ctx.mouse_move(20, 40);
    ctx.begin_frame();
    begin_window(&mut ctx, "W", Rect::new(0, 0, 200, 200), Options::empty());
    end_window(&mut ctx);
    ctx.end_frame();
    ctx.begin_frame();
    begin_window(&mut ctx, "W", Rect::new(0, 0, 200, 200), Options::empty());
    let win = *ctx.container_stack.last().unwrap();
    assert_eq!(ctx.hover_root, Some(win));
    assert!(ctx.hovering());
    begin_panel(&mut ctx, "p", Options::empty());
    assert!(ctx.hovering());
    end_panel(&mut ctx);
    end_window(&mut ctx);
    ctx.end_frame();
}

#[test]
fn button_inside_a_panel_reports_submit_when_clicked() {
    let mut ctx = Context::new();
    let mut results: Vec<Response> = Vec::new();
    ctx.mouse_move(15, 38);
    for step in 0..4 {
        if step == 2 {
            ctx.mouse_down(15, 38, MOUSE_LEFT);
        }
        if step == 3 {
            ctx.mouse_up(15, 38, MOUSE_LEFT);
        }
        run_frame(&mut ctx, &mut |c: &mut Context| {
            c.layout().row(1, &[200], 100);
            begin_panel(c, "p", Options::empty());
            results.push(button(c, "OK", None, Options::empty()));
            end_panel(c);
        });
    }
    assert_eq!(results[0], Response::empty());
    assert_eq!(results[1], Response::empty());
    assert_eq!(results[2], Response::submit());
    assert_eq!(results[3], Response::empty());
}

#[test]
fn fresh_window_keeps_its_bounds_and_stays_open() {
    let mut ctx = Context::new();
    ctx.begin_frame();
    let r = begin_window(&mut ctx, "Demo Window", Rect::new(40, 40, 300, 450), Options::empty());
    assert_eq!(r, Response::active());
    assert_eq!(ctx.current_container().bounds, Rect::new(40, 40, 300, 450));
    assert!(ctx.current_container().open);
    assert_eq!(ctx.current_container().body, Rect::new(40, 64, 300, 426));
    end_window(&mut ctx);
    ctx.end_frame();
}

#[test]
fn dragging_the_title_bar_moves_the_window() {
    let mut ctx = Context::new();
    ctx.mouse_move(50, 45);
    let mut bounds = Vec::new();
    for step in 0..4 {
        if step == 2 {
            ctx.mouse_down(50, 45, MOUSE_LEFT);
        }
        if step == 3 {
            ctx.mouse_move(70, 65);
        }
        ctx.begin_frame();
        begin_window(&mut ctx, "Drag", Rect::new(40, 40, 300, 450), Options::empty());
        bounds.push(ctx.current_container().bounds);
        end_window(&mut ctx);
        ctx.end_frame();
    }
    assert_eq!(bounds[2], Rect::new(40, 40, 300, 450));
    assert_eq!(bounds[3], Rect::new(60, 60, 300, 450));
}

#[test]
fn layout_wraps_below_everything_placed() {
    let mut ctx = Context::new();
    ctx.begin_frame();
    begin_window(&mut ctx, "W", Rect::new(0, 0, 300, 300), Options::empty());
    ctx.layout().row(2, &[40, 40], 30);
    let a = ctx.next_bounds();
    let b = ctx.next_bounds();
    let c = ctx.next_bounds();
    assert_eq!(a.y, b.y);
    assert_eq!(b.x, a.x + a.w + 4);
    assert_eq!(c.x, a.x);
    assert!(c.y >= a.y + a.h);
    end_window(&mut ctx);
    ctx.end_frame();
}

#[test]
fn textbox_select_all_copy_cut_paste() {
    let mut ctx = Context::new();
    let mut buf = String::from("héllo");
    let bounds = Rect::new(5, 40, 100, 20);
    ctx.mouse_move(10, 45);
    let ctrl = Key::Control.bit();
    for step in 0..7 {
        match step {
            2 => ctx.mouse_down(10, 45, MOUSE_LEFT),
            3 => {
                ctx.mouse_up(10, 45, MOUSE_LEFT);
                ctx.key_down(ctrl);
                ctx.key_down(Key::A.bit());
                ctx.key_down(Key::C.bit());
            }
            4 => {
                ctx.key_up(Key::A.bit());
                ctx.key_up(Key::C.bit());
                ctx.key_down(Key::A.bit());
                ctx.key_down(Key::X.bit());
            }
            5 => {
                ctx.key_up(Key::A.bit());
                ctx.key_up(Key::X.bit());
                ctx.key_down(Key::V.bit());
            }
            6 => {
                ctx.key_down(Key::V.bit());
            }
            _ => {}
        }
        run_frame(&mut ctx, &mut |c: &mut Context| {
            textbox_raw(c, &mut buf, 32, 321, bounds, Options::empty());
        });
        if step == 3 {
            assert_eq!(ctx.clipboard, "héllo");
            assert_eq!(buf, "héllo");
        }
        if step == 4 {
            assert_eq!(buf, "");
            assert_eq!(ctx.clipboard, "héllo");
        }
        if step == 5 {
            assert_eq!(buf, "héllo");
        }
    }
    assert_eq!(buf, "héllohéllo");
}

fn tall_window(ctx: &mut Context) -> Vec<Command> {
    ctx.begin_frame();
    begin_window(ctx, "Tall", Rect::new(0, 0, 200, 100), Options::empty());
    for _ in 0..10 {
        label(ctx, "line");
    }
    let cmds = commands(ctx);
    end_window(ctx);
    ctx.end_frame();
    cmds
}

fn has_rect(cmds: &[Command], r: Rect) -> bool {
    cmds.iter().any(|c| matches!(c, Command::Rect { bounds, .. } if *bounds == r))
}

#[test]
fn tall_content_gets_a_scrollbar_and_scrolls() {
    let mut ctx = Context::new();
    ctx.mouse_move(50, 50);
    let first = tall_window(&mut ctx);
    assert!(!has_rect(&first, Rect::new(188, 24, 12, 76)));
    let idx = ctx.fetch_container(fnv(HASH_INITIAL, b"Tall"), false).unwrap();
    assert_eq!(ctx.containers[idx].content, Vec2::new(76, 216));
    let second = tall_window(&mut ctx);
    assert!(has_rect(&second, Rect::new(188, 24, 12, 76)));
    assert!(has_rect(&second, Rect::new(188, 24, 12, 25)));
    assert_eq!(ctx.containers[idx].body, Rect::new(0, 24, 188, 76));
    ctx.scroll(0, 30);
    tall_window(&mut ctx);
    assert_eq!(ctx.containers[idx].scroll, Vec2::new(0, 30));
    let fourth = tall_window(&mut ctx);
    assert!(has_rect(&fourth, Rect::new(188, 34, 12, 25)));
}

#[test]
fn edit_succeeds_checks_boundaries_capacity_and_cuts() {
    let mut ctx = Context::new();
    let buffer = String::from("h\u{e9}llo");
    ctx.cursor = 3;
    ctx.selection = 3;
    assert!(edit_succeeds(&ctx, &buffer, 32));
    assert!(!edit_succeeds(&ctx, &buffer, 4));
    ctx.cursor = 2;
    assert!(!edit_succeeds(&ctx, &buffer, 32));
    ctx.cursor = 100;
    assert!(edit_succeeds(&ctx, &buffer, 32));
    ctx.input = String::from("\u{e9}");
    assert!(!edit_succeeds(&ctx, &buffer, 32));
    ctx.input = String::from("ab");
    assert!(edit_succeeds(&ctx, &buffer, 32));
}
