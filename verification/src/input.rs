use vstd::prelude::*;
use vstd::string::StringExecFns;

use crate::context::Context;
use crate::types::{Vec2, fits};

verus! {

impl Context {
    /// The mouse moved to `(x, y)`.
    pub fn mouse_move(&mut self, x: i32, y: i32)
        ensures
            *final(self) == (Context { mouse: Vec2 { x, y }, ..*old(self) }),
    {
        self.mouse = Vec2::new(x, y);
    }

    /// The buttons in `button` went down at `(x, y)`.
    pub fn mouse_down(&mut self, x: i32, y: i32, button: u32)
        ensures
            *final(self) == (Context {
                mouse: Vec2 { x, y },
                mouse_down: old(self).mouse_down | button,
                mouse_pressed: old(self).mouse_pressed | button,
                ..*old(self)
            }),
    {
        self.mouse = Vec2::new(x, y);
        self.mouse_down = self.mouse_down | button;
        self.mouse_pressed = self.mouse_pressed | button;
    }

    /// The buttons in `button` went up at `(x, y)`.
    pub fn mouse_up(&mut self, x: i32, y: i32, button: u32)
        ensures
            *final(self) == (Context {
                mouse: Vec2 { x, y },
                mouse_down: old(self).mouse_down & !button,
                ..*old(self)
            }),
    {
        self.mouse = Vec2::new(x, y);
        self.mouse_down = self.mouse_down & !button;
    }

    /// The wheel scrolled by `(dx, dy)`.
    pub fn scroll(&mut self, dx: i32, dy: i32)
        requires
            fits(old(self).scroll_delta.x + dx),
            fits(old(self).scroll_delta.y + dy),
        ensures
            *final(self) == (Context {
                scroll_delta: Vec2 {
                    x: (old(self).scroll_delta.x + dx) as i32,
                    y: (old(self).scroll_delta.y + dy) as i32,
                },
                ..*old(self)
            }),
    {
        self.scroll_delta.x = self.scroll_delta.x + dx;
        self.scroll_delta.y = self.scroll_delta.y + dy;
    }

    /// The keys in `key` went down.
    pub fn key_down(&mut self, key: u32)
        ensures
            *final(self) == (Context {
                key_pressed: old(self).key_pressed | key,
                key_down: old(self).key_down | key,
                ..*old(self)
            }),
    {
        self.key_pressed = self.key_pressed | key;
        self.key_down = self.key_down | key;
    }

    /// The keys in `key` went up.
    pub fn key_up(&mut self, key: u32)
        ensures
            *final(self) == (Context { key_down: old(self).key_down & !key, ..*old(self) }),
    {
        self.key_down = self.key_down & !key;
    }

    /// Text was typed.
    pub fn text_input(&mut self, text: &str)
        ensures
            final(self).input@ == old(self).input@ + text@,
            *final(self) == (Context { input: final(self).input, ..*old(self) }),
    {
        self.input.append(text);
    }

    /// Replaces the clipboard's text.
    pub fn set_clipboard(&mut self, text: String)
        ensures
            *final(self) == (Context { clipboard: text, ..*old(self) }),
    {
        self.clipboard = text;
    }

    /// The clipboard's text.
    pub fn get_clipboard(&self) -> (s: &str)
        ensures
            s@ == self.clipboard@,
    {
        self.clipboard.as_str()
    }
}

/// A button pressed and then released is up again, and the other buttons are as they were
/// before it was pressed: `mouse_down` then `mouse_up` with the same bits leaves
/// `down & !button` (and likewise for keys with `key_down` and `key_up`).
pub proof fn law_press_release(down: u32, button: u32)
    ensures
        (down | button) & !button == down & !button,
        ((down | button) & !button) & button == 0,
{
    assert((down | button) & !button == down & !button) by (bit_vector);
    assert(((down | button) & !button) & button == 0) by (bit_vector);
}

} // verus!
