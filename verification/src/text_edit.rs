use vstd::prelude::*;
use vstd::string::{StringExecFns, StringSliceAdditionalSpecFns};
use vstd::utf8::{
    encode_utf8, is_char_boundary, is_continuation_byte, length_of_first_scalar, pop_first_scalar,
    valid_first_scalar, valid_utf8, valid_utf8_split,
};

use crate::context::Context;
use crate::types::Key;

verus! {

broadcast use {
    vstd::utf8::encode_utf8_valid_utf8,
    vstd::utf8::utf8_byte_ranges_bitwise,
    vstd::utf8::is_char_boundary_start_end_of_seq,
    vstd::utf8::is_char_boundary_iff_not_is_continuation_byte,
};

/// The UTF-8 bytes of a string.
pub open spec fn bytes_of(s: String) -> Seq<u8> {
    encode_utf8(s@)
}

/// The byte is a UTF-8 continuation byte, tested as the editor tests it.
pub open spec fn continues(b: u8) -> bool {
    b & 0xC0 == 0x80
}

/// The first position at or after `i` that does not hold a continuation byte (or the end).
pub open spec fn scan_forward(b: Seq<u8>, i: int) -> int
    decreases b.len() - i,
{
    if 0 <= i < b.len() && continues(b[i]) {
        scan_forward(b, i + 1)
    } else {
        i
    }
}

/// The last position at or before `i` that does not hold a continuation byte (or zero).
pub open spec fn scan_back(b: Seq<u8>, i: int) -> int
    decreases i,
{
    if 0 < i < b.len() && continues(b[i]) {
        scan_back(b, i - 1)
    } else {
        i
    }
}

/// Where the character after the one at `i` starts.
pub open spec fn spec_next_char(b: Seq<u8>, i: int) -> int {
    scan_forward(b, i + 1)
}

/// Where the character before position `i` starts.
pub open spec fn spec_prev_char(b: Seq<u8>, i: int) -> int {
    if i == 0 {
        0
    } else {
        scan_back(b, i - 1)
    }
}

proof fn lemma_scan_forward(b: Seq<u8>, i: int)
    requires
        valid_utf8(b),
        0 < i <= b.len(),
    ensures
        i <= scan_forward(b, i) <= b.len(),
        is_char_boundary(b, scan_forward(b, i)),
    decreases b.len() - i,
{
    if i < b.len() && continues(b[i]) {
        lemma_scan_forward(b, i + 1);
    } else if i < b.len() {
        assert(!is_continuation_byte(b[i]));
    }
}

proof fn lemma_scan_back(b: Seq<u8>, i: int)
    requires
        valid_utf8(b),
        0 <= i < b.len(),
    ensures
        0 <= scan_back(b, i) <= i,
        is_char_boundary(b, scan_back(b, i)),
    decreases i,
{
    if 0 < i && continues(b[i]) {
        lemma_scan_back(b, i - 1);
    } else if 0 < i {
        assert(!is_continuation_byte(b[i]));
    }
}

/// In valid UTF-8, the next character starts on a character boundary after `i`.
pub proof fn lemma_next_char_boundary(b: Seq<u8>, i: int)
    requires
        valid_utf8(b),
        0 <= i < b.len(),
    ensures
        i < spec_next_char(b, i) <= b.len(),
        is_char_boundary(b, spec_next_char(b, i)),
{
    lemma_scan_forward(b, i + 1);
}

/// In valid UTF-8, the previous character starts on a character boundary before `i`.
pub proof fn lemma_prev_char_boundary(b: Seq<u8>, i: int)
    requires
        valid_utf8(b),
        0 < i <= b.len(),
    ensures
        0 <= spec_prev_char(b, i) < i,
        is_char_boundary(b, spec_prev_char(b, i)),
{
    lemma_scan_back(b, i - 1);
}

proof fn lemma_forward_bounds(b: Seq<u8>, m: int)
    requires
        0 <= m <= b.len(),
    ensures
        m <= scan_forward(b, m) <= b.len(),
    decreases b.len() - m,
{
    if m < b.len() && continues(b[m]) {
        lemma_forward_bounds(b, m + 1);
    }
}

proof fn lemma_forward_skips(b: Seq<u8>, m: int, k: int)
    requires
        0 <= m <= k < scan_forward(b, m),
    ensures
        k < b.len(),
        continues(b[k]),
    decreases b.len() - m,
{
    if 0 <= m < b.len() && continues(b[m]) {
        if k > m {
            lemma_forward_skips(b, m + 1, k);
        }
    }
}

proof fn lemma_back_to(b: Seq<u8>, i: int, k: int)
    requires
        0 <= i <= k < b.len(),
        !continues(b[i]),
        forall|m: int| i < m <= k ==> continues(#[trigger] b[m]),
    ensures
        scan_back(b, k) == i,
    decreases k,
{
    if k > i {
        lemma_back_to(b, i, k - 1);
    }
}

/// Stepping back from where the next character starts returns to the character one started
/// from.
pub proof fn law_prev_undoes_next(b: Seq<u8>, i: int)
    requires
        0 <= i < b.len(),
        !continues(b[i]),
    ensures
        spec_prev_char(b, spec_next_char(b, i)) == i,
{
    let j = spec_next_char(b, i);
    lemma_forward_bounds(b, i + 1);
    assert forall|m: int| i < m <= j - 1 implies continues(#[trigger] b[m]) by {
        lemma_forward_skips(b, i + 1, m);
    }
    lemma_back_to(b, i, j - 1);
}

/// The byte position where the character after the one at `idx` starts.
pub fn next_char(s: &str, idx: usize) -> (r: usize)
    requires
        idx < usize::MAX,
    ensures
        r == spec_next_char(s.spec_bytes(), idx as int),
{
    let bytes = s.as_bytes();
    let len = bytes.len();
    let mut i = idx + 1;
    while i < len && (bytes[i] & 0xC0) == 0x80
        invariant
            len == bytes@.len(),
            bytes@ == s.spec_bytes(),
            idx < i,
            scan_forward(bytes@, i as int) == scan_forward(bytes@, idx + 1),
        decreases len - i,
    {
        i = i + 1;
    }
    i
}

/// The byte position where the character before position `idx` starts.
pub fn prev_char(s: &str, idx: usize) -> (r: usize)
    requires
        idx <= s.spec_bytes().len(),
    ensures
        r == spec_prev_char(s.spec_bytes(), idx as int),
{
    if idx == 0 {
        return 0;
    }
    let bytes = s.as_bytes();
    let mut i = idx - 1;
    while i > 0 && (bytes[i] & 0xC0) == 0x80
        invariant
            bytes@ == s.spec_bytes(),
            i < bytes@.len(),
            scan_back(bytes@, i as int) == scan_back(bytes@, idx - 1),
        decreases i,
    {
        i = i - 1;
    }
    i
}

/// The text of `s` from byte `from` up to byte `to`; both must lie on character boundaries.
pub(crate) fn str_range(s: &str, from: usize, to: usize) -> (r: &str)
    requires
        from <= to <= s.spec_bytes().len(),
        is_char_boundary(s.spec_bytes(), from as int),
        is_char_boundary(s.spec_bytes(), to as int),
    ensures
        r.spec_bytes() == s.spec_bytes().subrange(from as int, to as int),
{
    let (_, rest) = s.split_at(from);
    proof {
        let b = s.spec_bytes();
        let k = to - from;
        if to < b.len() && k > 0 {
            vstd::utf8::is_char_boundary_iff_not_is_continuation_byte(b, to as int);
            assert(rest.spec_bytes()[k as int] == b[to as int]);
            vstd::utf8::is_char_boundary_iff_not_is_continuation_byte(rest.spec_bytes(), k as int);
        } else if to == b.len() {
            assert(rest.spec_bytes().len() == k);
        }
    }
    let (mid, _) = rest.split_at(to - from);
    assert(mid.spec_bytes() =~= s.spec_bytes().subrange(from as int, to as int));
    mid
}

/// The bytes of joined characters are the bytes of each part, joined.
proof fn lemma_encode_concat(x: Seq<char>, y: Seq<char>)
    ensures
        encode_utf8(x + y) == encode_utf8(x) + encode_utf8(y),
    decreases x.len(),
{
    if x.len() == 0 {
        assert(x + y =~= y);
        assert(encode_utf8(x) + encode_utf8(y) =~= encode_utf8(y));
    } else {
        lemma_encode_concat(x.drop_first(), y);
        assert((x + y).drop_first() =~= x.drop_first() + y);
        assert((x + y)[0] == x[0]);
        let h = vstd::utf8::encode_scalar(x[0] as u32);
        assert(h + (encode_utf8(x.drop_first()) + encode_utf8(y)) =~= (h + encode_utf8(
            x.drop_first(),
        )) + encode_utf8(y));
    }
}

/// A string made of `a`, `b` and `c` in turn.
fn joined(a: &str, b: &str, c: &str) -> (r: String)
    ensures
        bytes_of(r) == a.spec_bytes() + b.spec_bytes() + c.spec_bytes(),
{
    let r = <String as StringExecFns>::from_str(a).concat(b).concat(c);
    proof {
        lemma_encode_concat(a@, b@);
        lemma_encode_concat(a@ + b@, c@);
    }
    r
}

/// The bytes from `from` up to `to` of `s` become `with`, as `String::replace_range` does.
fn string_replace_range(s: &mut String, from: usize, to: usize, with: &str)
    requires
        from <= to <= bytes_of(*old(s)).len(),
        is_char_boundary(bytes_of(*old(s)), from as int),
        is_char_boundary(bytes_of(*old(s)), to as int),
    ensures
        bytes_of(*final(s)) == bytes_of(*old(s)).subrange(0, from as int) + with.spec_bytes()
            + bytes_of(*old(s)).subrange(to as int, bytes_of(*old(s)).len() as int),
{
    let t = {
        let v = s.as_str();
        let len = v.as_bytes().len();
        proof {
            vstd::utf8::is_char_boundary_start_end_of_seq(v.spec_bytes());
        }
        let head = str_range(v, 0, from);
        let tail = str_range(v, to, len);
        joined(head, with, tail)
    };
    *s = t;
}

/// `t` goes in at byte `idx` of `s`, as `String::insert_str` does.
fn string_insert_str(s: &mut String, idx: usize, t: &str)
    requires
        idx <= bytes_of(*old(s)).len(),
        is_char_boundary(bytes_of(*old(s)), idx as int),
    ensures
        bytes_of(*final(s)) == bytes_of(*old(s)).subrange(0, idx as int) + t.spec_bytes()
            + bytes_of(*old(s)).subrange(idx as int, bytes_of(*old(s)).len() as int),
{
    string_replace_range(s, idx, idx, t);
}

/// `String::remove`: the character that starts at byte `idx` goes.
#[verifier::external_body]
fn string_remove(s: &mut String, idx: usize)
    requires
        idx < bytes_of(*old(s)).len(),
        is_char_boundary(bytes_of(*old(s)), idx as int),
    ensures
        bytes_of(*final(s)) == bytes_of(*old(s)).subrange(0, idx as int) + pop_first_scalar(
            bytes_of(*old(s)).subrange(idx as int, bytes_of(*old(s)).len() as int),
        ),
{
    s.remove(idx);
}

/// The state of a text edit: the text's bytes, the cursor and the other end of the selection
/// (byte positions), the clipboard's bytes, and whether the text changed.
pub struct Edit {
    pub bytes: Seq<u8>,
    pub cursor: int,
    pub selection: int,
    pub clipboard: Seq<u8>,
    pub changed: bool,
}

/// The smaller of two positions.
pub open spec fn lesser(a: int, b: int) -> int {
    if a <= b {
        a
    } else {
        b
    }
}

/// The larger of two positions.
pub open spec fn greater(a: int, b: int) -> int {
    if a >= b {
        a
    } else {
        b
    }
}

impl Edit {
    /// The start of the selection.
    pub open spec fn lo(self) -> int {
        lesser(self.cursor, self.selection)
    }

    /// The end of the selection.
    pub open spec fn hi(self) -> int {
        greater(self.cursor, self.selection)
    }

    /// The number of bytes of the text.
    pub open spec fn len(self) -> int {
        self.bytes.len() as int
    }

    /// Both ends of the selection lie within the text, which is valid UTF-8.
    pub open spec fn ok(self) -> bool {
        &&& 0 <= self.cursor <= self.len()
        &&& 0 <= self.selection <= self.len()
        &&& valid_utf8(self.bytes)
        &&& valid_utf8(self.clipboard)
    }

    /// Position `i` starts a character.
    pub open spec fn boundary(self, i: int) -> bool {
        is_char_boundary(self.bytes, i)
    }

    /// Cursor and selection moved into the text.
    pub open spec fn clamped(self) -> Edit {
        Edit {
            cursor: lesser(self.cursor, self.len()),
            selection: lesser(self.selection, self.len()),
            ..self
        }
    }

    /// Everything selected, the cursor at the end.
    pub open spec fn select_all(self) -> Edit {
        Edit { selection: 0, cursor: self.len(), ..self }
    }

    /// A non-empty selection copied to the clipboard; `None` when its ends do not start
    /// characters.
    pub open spec fn copy(self) -> Option<Edit> {
        if self.lo() == self.hi() {
            Some(self)
        } else if self.boundary(self.lo()) && self.boundary(self.hi()) {
            Some(Edit { clipboard: self.bytes.subrange(self.lo(), self.hi()), ..self })
        } else {
            None
        }
    }

    /// A non-empty selection removed, the cursor where it started; `None` when its ends do not
    /// start characters.
    pub open spec fn delete_selection(self) -> Option<Edit> {
        if self.lo() == self.hi() {
            Some(self)
        } else if self.boundary(self.lo()) && self.boundary(self.hi()) {
            Some(
                Edit {
                    bytes: self.bytes.subrange(0, self.lo()) + self.bytes.subrange(
                        self.hi(),
                        self.len(),
                    ),
                    cursor: self.lo(),
                    selection: self.lo(),
                    ..self
                },
            )
        } else {
            None
        }
    }

    /// The selection copied to the clipboard and, when `cut`, removed.
    pub open spec fn copy_or_cut(self, cut: bool) -> Option<Edit> {
        match self.copy() {
            None => None,
            Some(e) => if cut && e.lo() != e.hi() {
                match e.delete_selection() {
                    None => None,
                    Some(d) => Some(Edit { changed: true, ..d }),
                }
            } else {
                Some(e)
            },
        }
    }

    /// How many bytes of `text` fit into a text of at most `capacity` bytes.
    pub open spec fn room(self, text: Seq<u8>, capacity: int) -> int {
        lesser(capacity - self.len(), text.len() as int)
    }

    /// As much of `text` as fits inserted at the cursor; `None` when the text is already over
    /// capacity, or the cut of `text` or the cursor does not start a character.
    pub open spec fn insert(self, text: Seq<u8>, capacity: int) -> Option<Edit> {
        let n = self.room(text, capacity);
        if self.len() > capacity {
            None
        } else if n <= 0 {
            Some(self)
        } else if is_char_boundary(text, n) && self.boundary(self.cursor) {
            Some(
                Edit {
                    bytes: self.bytes.subrange(0, self.cursor) + text.subrange(0, n)
                        + self.bytes.subrange(self.cursor, self.len()),
                    cursor: self.cursor + n,
                    selection: self.cursor + n,
                    changed: true,
                    ..self
                },
            )
        } else {
            None
        }
    }

    /// The selection replaced by as much of `text` as fits.
    pub open spec fn paste(self, text: Seq<u8>, capacity: int) -> Option<Edit> {
        match self.delete_selection() {
            None => None,
            Some(e) => e.insert(text, capacity),
        }
    }

    /// The cursor one character left; the selection follows unless `shift`.
    pub open spec fn left(self, shift: bool) -> Edit {
        let c = spec_prev_char(self.bytes, self.cursor);
        Edit {
            cursor: c,
            selection: if shift {
                self.selection
            } else {
                c
            },
            ..self
        }
    }

    /// The cursor one character right; the selection follows unless `shift`.
    pub open spec fn right(self, shift: bool) -> Edit {
        let c = spec_next_char(self.bytes, self.cursor);
        Edit {
            cursor: c,
            selection: if shift {
                self.selection
            } else {
                c
            },
            ..self
        }
    }

    /// The character before the cursor removed.
    pub open spec fn backspace(self) -> Edit {
        let p = spec_prev_char(self.bytes, self.cursor);
        Edit {
            bytes: self.bytes.subrange(0, p) + pop_first_scalar(self.bytes.subrange(p, self.len())),
            cursor: p,
            selection: p,
            changed: true,
            ..self
        }
    }

    /// The character at the cursor removed; `None` when the cursor does not start a character.
    pub open spec fn delete_forward(self) -> Option<Edit> {
        let n = spec_next_char(self.bytes, self.cursor);
        if self.boundary(self.cursor) {
            Some(
                Edit {
                    bytes: self.bytes.subrange(0, self.cursor) + self.bytes.subrange(n, self.len()),
                    changed: true,
                    ..self
                },
            )
        } else {
            None
        }
    }

    /// The effect of the keys pressed with Control down.
    pub open spec fn control_keys(self, pressed: u32, capacity: int) -> Option<Edit> {
        let e1 = if pressed & Key::A.spec_bit() != 0 {
            self.select_all()
        } else {
            self
        };
        let copying = pressed & Key::C.spec_bit() != 0 || pressed & Key::X.spec_bit() != 0;
        let e2 = if copying {
            e1.copy_or_cut(pressed & Key::X.spec_bit() != 0)
        } else {
            Some(e1)
        };
        match e2 {
            None => None,
            Some(e) => if pressed & Key::V.spec_bit() != 0 {
                e.paste(e.clipboard, capacity)
            } else {
                Some(e)
            },
        }
    }

    /// The effect of the keys pressed without Control.
    pub open spec fn plain_keys(self, pressed: u32, shift: bool) -> Option<Edit> {
        let e1 = if pressed & Key::Left.spec_bit() != 0 && self.cursor > 0 {
            self.left(shift)
        } else {
            self
        };
        let e2 = if pressed & Key::Right.spec_bit() != 0 && e1.cursor < e1.len() {
            e1.right(shift)
        } else {
            e1
        };
        if pressed & (Key::Backspace.spec_bit() | Key::Delete.spec_bit()) != 0 {
            if e2.lo() != e2.hi() {
                match e2.delete_selection() {
                    None => None,
                    Some(d) => Some(Edit { changed: true, ..d }),
                }
            } else if pressed & Key::Backspace.spec_bit() != 0 && e2.cursor > 0 {
                Some(e2.backspace())
            } else if pressed & Key::Delete.spec_bit() != 0 && e2.cursor < e2.len() {
                e2.delete_forward()
            } else {
                Some(e2)
            }
        } else {
            Some(e2)
        }
    }

    /// The effect of the keys of a frame, then of the text typed in it.
    pub open spec fn apply(self, down: u32, pressed: u32, input: Seq<u8>, capacity: int) -> Option<
        Edit,
    > {
        let e = self.clamped();
        let keyed = if down & Key::Control.spec_bit() != 0 {
            e.control_keys(pressed, capacity)
        } else {
            e.plain_keys(pressed, down & Key::Shift.spec_bit() != 0)
        };
        match keyed {
            None => None,
            Some(k) => if input.len() != 0 {
                k.paste(input, capacity)
            } else {
                Some(k)
            },
        }
    }
}

impl Edit {
    /// Both ends of the selection lie within the text.
    pub open spec fn within(self) -> bool {
        &&& 0 <= self.cursor <= self.len()
        &&& 0 <= self.selection <= self.len()
    }
}

proof fn lemma_pop_first_shorter(b: Seq<u8>)
    requires
        valid_utf8(b),
        b.len() > 0,
    ensures
        pop_first_scalar(b).len() < b.len(),
{
    assert(valid_first_scalar(b));
    assert(1 <= length_of_first_scalar(b) <= b.len());
}

proof fn lemma_delete_selection_within(e: Edit)
    requires
        e.within(),
    ensures
        e.delete_selection() matches Some(d) ==> d.within() && d.len() <= e.len() && d.clipboard
            == e.clipboard,
{
}

proof fn lemma_insert_within(e: Edit, text: Seq<u8>, capacity: int)
    requires
        e.within(),
        e.len() <= capacity,
    ensures
        e.insert(text, capacity) matches Some(d) ==> d.within() && d.len() <= capacity,
{
}

proof fn lemma_paste_within(e: Edit, text: Seq<u8>, capacity: int)
    requires
        e.within(),
        e.len() <= capacity,
    ensures
        e.paste(text, capacity) matches Some(d) ==> d.within() && d.len() <= capacity,
{
    lemma_delete_selection_within(e);
    if let Some(d) = e.delete_selection() {
        lemma_insert_within(d, text, capacity);
    }
}

proof fn lemma_control_keys_within(e: Edit, pressed: u32, capacity: int)
    requires
        e.within(),
        e.len() <= capacity,
    ensures
        e.control_keys(pressed, capacity) matches Some(d) ==> d.within() && d.len() <= capacity,
{
    let e1 = if pressed & Key::A.spec_bit() != 0 {
        e.select_all()
    } else {
        e
    };
    assert(e1.within() && e1.len() == e.len());
    if let Some(c) = e1.copy() {
        assert(c.within() && c.len() == e.len());
        lemma_delete_selection_within(c);
        lemma_paste_within(c, c.clipboard, capacity);
        if let Some(d) = c.delete_selection() {
            let cut = Edit { changed: true, ..d };
            assert(cut.within() && cut.len() <= capacity);
            lemma_paste_within(cut, cut.clipboard, capacity);
        }
    }
    lemma_paste_within(e1, e1.clipboard, capacity);
}

proof fn lemma_plain_keys_within(e: Edit, pressed: u32, shift: bool)
    requires
        e.within(),
        valid_utf8(e.bytes),
    ensures
        e.plain_keys(pressed, shift) matches Some(d) ==> d.within() && d.len() <= e.len(),
{
    let e1 = if pressed & Key::Left.spec_bit() != 0 && e.cursor > 0 {
        lemma_prev_char_boundary(e.bytes, e.cursor);
        e.left(shift)
    } else {
        e
    };
    assert(e1.within() && e1.bytes == e.bytes);
    let e2 = if pressed & Key::Right.spec_bit() != 0 && e1.cursor < e1.len() {
        lemma_next_char_boundary(e1.bytes, e1.cursor);
        e1.right(shift)
    } else {
        e1
    };
    assert(e2.within() && e2.bytes == e.bytes);
    lemma_delete_selection_within(e2);
    if e2.cursor > 0 {
        let p = spec_prev_char(e2.bytes, e2.cursor);
        lemma_prev_char_boundary(e2.bytes, e2.cursor);
        let rest = e2.bytes.subrange(p, e2.len());
        valid_utf8_split(e2.bytes, p);
        lemma_pop_first_shorter(rest);
        assert(e2.backspace().len() <= e.len());
    }
    if e2.cursor < e2.len() {
        lemma_next_char_boundary(e2.bytes, e2.cursor);
    }
}

/// A text box never holds more bytes than its capacity: the keys and the text of a frame,
/// applied to a text within capacity, leave it within capacity, with the cursor and the
/// selection inside it.
pub proof fn law_edit_within_capacity(
    e: Edit,
    down: u32,
    pressed: u32,
    input: Seq<u8>,
    capacity: int,
)
    requires
        e.cursor >= 0,
        e.selection >= 0,
        valid_utf8(e.bytes),
        valid_utf8(e.clipboard),
        e.len() <= capacity,
    ensures
        e.apply(down, pressed, input, capacity) matches Some(k) ==> k.len() <= capacity
            && k.within(),
{
    let c = e.clamped();
    assert(c.within() && c.bytes == e.bytes);
    lemma_control_keys_within(c, pressed, capacity);
    lemma_plain_keys_within(c, pressed, down & Key::Shift.spec_bit() != 0);
    if let Some(k) = c.control_keys(pressed, capacity) {
        lemma_paste_within(k, input, capacity);
    }
    if let Some(k) = c.plain_keys(pressed, down & Key::Shift.spec_bit() != 0) {
        lemma_paste_within(k, input, capacity);
    }
}

impl Edit {
    /// The text and the clipboard are valid UTF-8, and the cursor and the selection lie within
    /// the text, each at the start of a character or at the end.
    pub open spec fn sound(self) -> bool {
        &&& valid_utf8(self.bytes)
        &&& valid_utf8(self.clipboard)
        &&& self.within()
        &&& self.boundary(self.cursor)
        &&& self.boundary(self.selection)
    }
}

/// Every prefix of `text` ends on a character boundary, as in ASCII text.
pub open spec fn cuts_anywhere(text: Seq<u8>) -> bool {
    forall|n: int| 0 <= n <= text.len() ==> #[trigger] is_char_boundary(text, n)
}

/// Joining two pieces of valid UTF-8 gives valid UTF-8 with a boundary where they meet.
proof fn lemma_join(a: Seq<u8>, b: Seq<u8>)
    requires
        valid_utf8(a),
        valid_utf8(b),
    ensures
        valid_utf8(a + b),
        is_char_boundary(a + b, a.len() as int),
{
    vstd::utf8::valid_utf8_concat(a, b);
    if b.len() == 0 {
        assert(a + b =~= a);
    } else {
        vstd::utf8::is_char_boundary_iff_not_is_continuation_byte(b, 0);
        assert((a + b)[a.len() as int] == b[0]);
        vstd::utf8::is_char_boundary_iff_not_is_continuation_byte(a + b, a.len() as int);
    }
}

/// The bytes of valid UTF-8 between two boundaries are valid UTF-8.
proof fn lemma_middle(b: Seq<u8>, lo: int, hi: int)
    requires
        valid_utf8(b),
        0 <= lo <= hi <= b.len(),
        is_char_boundary(b, lo),
        is_char_boundary(b, hi),
    ensures
        valid_utf8(b.subrange(lo, hi)),
        valid_utf8(b.subrange(0, lo)),
        valid_utf8(b.subrange(hi, b.len() as int)),
{
    valid_utf8_split(b, lo);
    valid_utf8_split(b, hi);
    let rest = b.subrange(lo, b.len() as int);
    if hi < b.len() {
        vstd::utf8::is_char_boundary_iff_not_is_continuation_byte(b, hi);
        assert(rest[hi - lo] == b[hi]);
        vstd::utf8::is_char_boundary_iff_not_is_continuation_byte(rest, hi - lo);
    } else {
        assert(rest.len() == hi - lo);
    }
    valid_utf8_split(rest, hi - lo);
    assert(rest.subrange(0, hi - lo) =~= b.subrange(lo, hi));
}

proof fn lemma_delete_selection_sound(e: Edit)
    requires
        e.sound(),
    ensures
        e.delete_selection() matches Some(d) ==> d.sound(),
{
    if e.lo() != e.hi() {
        lemma_middle(e.bytes, e.lo(), e.hi());
        lemma_join(e.bytes.subrange(0, e.lo()), e.bytes.subrange(e.hi(), e.len()));
    }
}

proof fn lemma_insert_sound(e: Edit, text: Seq<u8>, capacity: int)
    requires
        e.sound(),
        valid_utf8(text),
    ensures
        e.insert(text, capacity) matches Some(d) ==> d.sound(),
{
    let n = e.room(text, capacity);
    if e.len() <= capacity && n > 0 && is_char_boundary(text, n) && e.boundary(e.cursor) {
        lemma_middle(e.bytes, e.cursor, e.cursor);
        valid_utf8_split(text, n);
        let a = e.bytes.subrange(0, e.cursor) + text.subrange(0, n);
        lemma_join(e.bytes.subrange(0, e.cursor), text.subrange(0, n));
        lemma_join(a, e.bytes.subrange(e.cursor, e.len()));
        assert(e.bytes.subrange(0, e.cursor) + text.subrange(0, n) + e.bytes.subrange(
            e.cursor,
            e.len(),
        ) == a + e.bytes.subrange(e.cursor, e.len()));
    }
}

proof fn lemma_paste_sound(e: Edit, text: Seq<u8>, capacity: int)
    requires
        e.sound(),
        valid_utf8(text),
    ensures
        e.paste(text, capacity) matches Some(d) ==> d.sound(),
{
    lemma_delete_selection_sound(e);
    if let Some(d) = e.delete_selection() {
        lemma_insert_sound(d, text, capacity);
    }
}

proof fn lemma_control_keys_sound(e: Edit, pressed: u32, capacity: int)
    requires
        e.sound(),
    ensures
        e.control_keys(pressed, capacity) matches Some(d) ==> d.sound(),
{
    let e1 = if pressed & Key::A.spec_bit() != 0 {
        e.select_all()
    } else {
        e
    };
    assert(e1.sound());
    if let Some(c) = e1.copy() {
        if e1.lo() != e1.hi() {
            lemma_middle(e1.bytes, e1.lo(), e1.hi());
        }
        assert(c.sound());
        lemma_delete_selection_sound(c);
        lemma_paste_sound(c, c.clipboard, capacity);
        if let Some(d) = c.delete_selection() {
            let cut = Edit { changed: true, ..d };
            assert(cut.sound());
            lemma_paste_sound(cut, cut.clipboard, capacity);
        }
    }
    lemma_paste_sound(e1, e1.clipboard, capacity);
}

#[verifier::rlimit(100)]
#[verifier::spinoff_prover]
proof fn lemma_plain_keys_sound(e: Edit, pressed: u32, shift: bool)
    requires
        e.sound(),
    ensures
        e.plain_keys(pressed, shift) matches Some(d) ==> d.sound(),
{
    let e1 = if pressed & Key::Left.spec_bit() != 0 && e.cursor > 0 {
        lemma_prev_char_boundary(e.bytes, e.cursor);
        e.left(shift)
    } else {
        e
    };
    assert(e1.sound());
    let e2 = if pressed & Key::Right.spec_bit() != 0 && e1.cursor < e1.len() {
        lemma_next_char_boundary(e1.bytes, e1.cursor);
        e1.right(shift)
    } else {
        e1
    };
    assert(e2.sound());
    lemma_delete_selection_sound(e2);
    if e2.cursor > 0 {
        let p = spec_prev_char(e2.bytes, e2.cursor);
        lemma_prev_char_boundary(e2.bytes, e2.cursor);
        lemma_middle(e2.bytes, p, p);
        let rest = e2.bytes.subrange(p, e2.len());
        assert(rest.len() > 0);
        assert(valid_utf8(pop_first_scalar(rest)));
        lemma_join(e2.bytes.subrange(0, p), pop_first_scalar(rest));
        assert(e2.backspace().sound());
    }
    if e2.cursor < e2.len() {
        let n = spec_next_char(e2.bytes, e2.cursor);
        lemma_next_char_boundary(e2.bytes, e2.cursor);
        lemma_middle(e2.bytes, e2.cursor, n);
        lemma_join(e2.bytes.subrange(0, e2.cursor), e2.bytes.subrange(n, e2.len()));
    }
}

/// Editing keeps a text box sound: applied to valid UTF-8 with the cursor and the selection
/// (once moved into the text) at character boundaries, and to typed text that is valid UTF-8,
/// the keys and the text of a frame, when they succeed, leave valid UTF-8 with the cursor and
/// the selection within it at character boundaries.
pub proof fn law_edit_keeps_boundaries(
    e: Edit,
    down: u32,
    pressed: u32,
    input: Seq<u8>,
    capacity: int,
)
    requires
        e.cursor >= 0,
        e.selection >= 0,
        valid_utf8(e.bytes),
        valid_utf8(e.clipboard),
        valid_utf8(input),
        e.clamped().boundary(e.clamped().cursor),
        e.clamped().boundary(e.clamped().selection),
    ensures
        e.apply(down, pressed, input, capacity) matches Some(k) ==> k.sound(),
{
    let c = e.clamped();
    assert(c.sound());
    lemma_control_keys_sound(c, pressed, capacity);
    lemma_plain_keys_sound(c, pressed, down & Key::Shift.spec_bit() != 0);
    if let Some(k) = c.control_keys(pressed, capacity) {
        lemma_paste_sound(k, input, capacity);
    }
    if let Some(k) = c.plain_keys(pressed, down & Key::Shift.spec_bit() != 0) {
        lemma_paste_sound(k, input, capacity);
    }
}

proof fn lemma_paste_some(e: Edit, text: Seq<u8>, capacity: int)
    requires
        e.sound(),
        valid_utf8(text),
        e.len() <= capacity,
        cuts_anywhere(text) || e.len() - (e.hi() - e.lo()) + text.len() <= capacity,
    ensures
        e.paste(text, capacity) is Some,
{
    lemma_delete_selection_sound(e);
    let d = e.delete_selection()->0;
    assert(d.len() == e.len() - (e.hi() - e.lo()));
    let n = d.room(text, capacity);
    if n > 0 && !cuts_anywhere(text) {
        assert(n == text.len());
        vstd::utf8::is_char_boundary_start_end_of_seq(text);
    }
}

proof fn lemma_control_keys_some(e: Edit, pressed: u32, capacity: int)
    requires
        e.sound(),
        e.len() <= capacity,
        cuts_anywhere(e.clipboard),
    ensures
        e.control_keys(pressed, capacity) is Some,
{
    let e1 = if pressed & Key::A.spec_bit() != 0 {
        e.select_all()
    } else {
        e
    };
    assert(e1.sound());
    let c = e1.copy()->0;
    if e1.lo() != e1.hi() {
        lemma_middle(e1.bytes, e1.lo(), e1.hi());
    }
    assert(c.sound());
    lemma_paste_some(e1, e1.clipboard, capacity);
    if e1.lo() != e1.hi() {
        assert(c.clipboard.len() == c.hi() - c.lo());
        lemma_paste_some(c, c.clipboard, capacity);
        lemma_delete_selection_sound(c);
        let d = c.delete_selection()->0;
        let cut = Edit { changed: true, ..d };
        assert(cut.sound());
        lemma_paste_some(cut, cut.clipboard, capacity);
    } else {
        assert(c == e1);
        lemma_paste_some(c, c.clipboard, capacity);
    }
}

/// A text box's edit always succeeds when it starts sound: valid UTF-8 with the cursor and
/// the selection (once moved into the text) at character boundaries, within capacity, with a
/// clipboard and typed text whose every prefix ends on a character boundary (ASCII, say).
pub proof fn law_edit_succeeds(e: Edit, down: u32, pressed: u32, input: Seq<u8>, capacity: int)
    requires
        e.cursor >= 0,
        e.selection >= 0,
        valid_utf8(e.bytes),
        valid_utf8(e.clipboard),
        valid_utf8(input),
        e.clamped().boundary(e.clamped().cursor),
        e.clamped().boundary(e.clamped().selection),
        e.len() <= capacity,
        cuts_anywhere(e.clipboard),
        cuts_anywhere(input),
    ensures
        e.apply(down, pressed, input, capacity) is Some,
{
    let c = e.clamped();
    assert(c.sound());
    let shift = down & Key::Shift.spec_bit() != 0;
    lemma_control_keys_some(c, pressed, capacity);
    lemma_control_keys_sound(c, pressed, capacity);
    lemma_control_keys_within(c, pressed, capacity);
    lemma_plain_keys_sound(c, pressed, shift);
    lemma_plain_keys_within(c, pressed, shift);
    lemma_plain_keys_some(c, pressed, shift);
    if let Some(k) = c.control_keys(pressed, capacity) {
        lemma_paste_some(k, input, capacity);
    }
    if let Some(k) = c.plain_keys(pressed, shift) {
        lemma_paste_some(k, input, capacity);
    }
}

proof fn lemma_plain_keys_some(e: Edit, pressed: u32, shift: bool)
    requires
        e.sound(),
    ensures
        e.plain_keys(pressed, shift) is Some,
{
    let e1 = if pressed & Key::Left.spec_bit() != 0 && e.cursor > 0 {
        lemma_prev_char_boundary(e.bytes, e.cursor);
        e.left(shift)
    } else {
        e
    };
    assert(e1.sound());
    let e2 = if pressed & Key::Right.spec_bit() != 0 && e1.cursor < e1.len() {
        lemma_next_char_boundary(e1.bytes, e1.cursor);
        e1.right(shift)
    } else {
        e1
    };
    assert(e2.sound());
}

proof fn lemma_scan_back_skips(b: Seq<u8>, i: int, j: int)
    requires
        0 <= i < b.len(),
        scan_back(b, i) < j <= i,
    ensures
        continues(b[j]),
    decreases i,
{
    if 0 < i && continues(b[i]) {
        if j < i {
            lemma_scan_back_skips(b, i - 1, j);
        }
    }
}

/// In valid UTF-8, the character before position `c > 0` starts at the last character boundary
/// strictly below `c`.
pub proof fn law_prev_char_is_last_boundary_below(b: Seq<u8>, c: int)
    requires
        valid_utf8(b),
        0 < c <= b.len(),
    ensures
        0 <= spec_prev_char(b, c) < c,
        is_char_boundary(b, spec_prev_char(b, c)),
        forall|j: int| spec_prev_char(b, c) < j < c ==> !#[trigger] is_char_boundary(b, j),
{
    lemma_prev_char_boundary(b, c);
    assert forall|j: int| spec_prev_char(b, c) < j < c implies !#[trigger] is_char_boundary(b, j) by {
        lemma_scan_back_skips(b, c - 1, j);
        assert(is_continuation_byte(b[j]));
        vstd::utf8::is_char_boundary_iff_not_is_continuation_byte(b, j);
    }
}

/// Pressing Left (without Control, and nothing typed) in a text box moves the cursor from byte
/// `c > 0` to the start of the character that ends at `c`: the last character boundary strictly
/// below `c` (for ASCII text, `c - 1`). The text and the clipboard stay as they are, and the
/// selection follows the cursor unless Shift is down, when it stays where it was.
pub proof fn law_left_moves_back_one_character(e: Edit, down: u32, capacity: int)
    requires
        valid_utf8(e.bytes),
        0 < e.cursor <= e.len(),
        0 <= e.selection <= e.len(),
        down & Key::Control.spec_bit() == 0,
    ensures
        e.apply(down, Key::Left.spec_bit(), Seq::empty(), capacity) matches Some(k) && {
            &&& k.bytes == e.bytes
            &&& k.clipboard == e.clipboard
            &&& 0 <= k.cursor < e.cursor
            &&& is_char_boundary(e.bytes, k.cursor)
            &&& forall|j: int| k.cursor < j < e.cursor ==> !#[trigger] is_char_boundary(e.bytes, j)
            &&& k.selection == (if down & Key::Shift.spec_bit() != 0 {
                e.selection
            } else {
                k.cursor
            })
        },
{
    assert(0x20u32 & 0x20u32 != 0) by (bit_vector);
    assert(0x20u32 & 0x40u32 == 0) by (bit_vector);
    assert(0x20u32 & (0x8u32 | 0x200u32) == 0) by (bit_vector);
    assert(e.clamped() == e);
    law_prev_char_is_last_boundary_below(e.bytes, e.cursor);
}

/// The edit state of a focused text box.
pub open spec fn edit_of(ctx: &Context, buffer: String, changed: bool) -> Edit {
    Edit {
        bytes: bytes_of(buffer),
        cursor: ctx.cursor as int,
        selection: ctx.selection as int,
        clipboard: bytes_of(ctx.clipboard),
        changed,
    }
}

/// Only the cursor, the selection and the clipboard changed.
pub open spec fn edit_frame(new: &Context, old: &Context) -> bool {
    *new == (Context {
        cursor: new.cursor,
        selection: new.selection,
        clipboard: new.clipboard,
        ..*old
    })
}

fn edit_bounds(ctx: &Context, buffer: &String) -> (r: (usize, usize))
    requires
        edit_of(ctx, *buffer, false).ok(),
    ensures
        r.0 == edit_of(ctx, *buffer, false).lo(),
        r.1 == edit_of(ctx, *buffer, false).hi(),
{
    let left = if ctx.cursor <= ctx.selection {
        ctx.cursor
    } else {
        ctx.selection
    };
    let right = if ctx.cursor >= ctx.selection {
        ctx.cursor
    } else {
        ctx.selection
    };
    (left, right)
}

fn byte_len(s: &String) -> (n: usize)
    ensures
        n == bytes_of(*s).len(),
{
    s.as_str().as_bytes().len()
}

/// Every prefix of `s` ends on a character boundary.
pub fn cuts_anywhere_in(s: &str) -> (r: bool)
    ensures
        r == cuts_anywhere(s.spec_bytes()),
{
    let len = s.as_bytes().len();
    let mut n: usize = 0;
    while n <= len
        invariant
            len == s.spec_bytes().len(),
            n <= len + 1,
            forall|k: int| 0 <= k < n ==> #[trigger] is_char_boundary(s.spec_bytes(), k),
        decreases len + 1 - n,
    {
        if !s.is_char_boundary(n) {
            return false;
        }
        if n == len {
            return true;
        }
        n = n + 1;
    }
    true
}

/// Tells whether the edit of a focused text box holding `buffer`, of at most `capacity` bytes,
/// is sure to succeed on the keys and the text of this frame: the text is within capacity, the
/// cursor and the selection (once moved into the text) start characters, and every prefix of
/// the typed text and of the clipboard ends on a character boundary.
#[verifier::rlimit(100)]
#[verifier::spinoff_prover]
pub fn edit_succeeds(ctx: &Context, buffer: &String, capacity: usize) -> (r: bool)
    ensures
        r == ({
            let e = edit_of(ctx, *buffer, false);
            &&& e.len() <= capacity
            &&& e.clamped().boundary(e.clamped().cursor)
            &&& e.clamped().boundary(e.clamped().selection)
            &&& cuts_anywhere(bytes_of(ctx.clipboard))
            &&& cuts_anywhere(bytes_of(ctx.input))
        }),
        r ==> edit_of(ctx, *buffer, false).apply(
            ctx.key_down,
            ctx.key_pressed,
            bytes_of(ctx.input),
            capacity as int,
        ) is Some,
{
    let text = buffer.as_str();
    let len = byte_len(buffer);
    assert(text.spec_bytes() == bytes_of(*buffer));
    let cursor = if ctx.cursor < len {
        ctx.cursor
    } else {
        len
    };
    let selection = if ctx.selection < len {
        ctx.selection
    } else {
        len
    };
    let clip = ctx.clipboard.as_str();
    let typed = ctx.input.as_str();
    assert(clip.spec_bytes() == bytes_of(ctx.clipboard));
    assert(typed.spec_bytes() == bytes_of(ctx.input));
    let r = len <= capacity && text.is_char_boundary(cursor) && text.is_char_boundary(selection)
        && cuts_anywhere_in(clip) && cuts_anywhere_in(typed);
    proof {
        if r {
            law_edit_succeeds(
                edit_of(ctx, *buffer, false),
                ctx.key_down,
                ctx.key_pressed,
                bytes_of(ctx.input),
                capacity as int,
            );
        }
    }
    r
}

/// Copies a non-empty selection to the clipboard.
fn copy_selection(ctx: &mut Context, buffer: &String, changed: bool)
    requires
        edit_of(old(ctx), *buffer, changed).ok(),
        edit_of(old(ctx), *buffer, changed).copy() is Some,
    ensures
        edit_of(final(ctx), *buffer, changed) == edit_of(old(ctx), *buffer, changed).copy()->0,
        edit_of(final(ctx), *buffer, changed).ok(),
        edit_frame(final(ctx), old(ctx)),
{
    let (left, right) = edit_bounds(ctx, buffer);
    if left != right {
        let piece = str_range(buffer.as_str(), left, right);
        ctx.clipboard = piece.to_owned();
        proof {
            vstd::utf8::decode_utf8_encode_utf8(piece.spec_bytes());
        }
    }
}

/// Removes a non-empty selection and puts the cursor where it started.
fn delete_selection(ctx: &mut Context, buffer: &mut String, changed: bool)
    requires
        edit_of(old(ctx), *old(buffer), changed).ok(),
        edit_of(old(ctx), *old(buffer), changed).delete_selection() is Some,
    ensures
        edit_of(final(ctx), *final(buffer), changed) == edit_of(
            old(ctx),
            *old(buffer),
            changed,
        ).delete_selection()->0,
        edit_of(final(ctx), *final(buffer), changed).ok(),
        edit_frame(final(ctx), old(ctx)),
{
    let ghost e = edit_of(ctx, *buffer, changed);
    let (left, right) = edit_bounds(ctx, buffer);
    if left != right {
        proof {
            reveal_strlit("");
        }
        string_replace_range(buffer, left, right, "");
        ctx.cursor = left;
        ctx.selection = left;
        proof {
            let d = e.delete_selection()->0;
            assert(bytes_of(*buffer) =~= d.bytes);
        }
    }
}

/// Inserts as much of `text` at the cursor as fits into `capacity` bytes.
fn insert_text(ctx: &mut Context, buffer: &mut String, text: &str, capacity: usize, changed: bool) -> (c: bool)
    requires
        edit_of(old(ctx), *old(buffer), changed).ok(),
        edit_of(old(ctx), *old(buffer), changed).insert(text.spec_bytes(), capacity as int) is Some,
    ensures
        edit_of(final(ctx), *final(buffer), c) == edit_of(old(ctx), *old(buffer), changed).insert(
            text.spec_bytes(),
            capacity as int,
        )->0,
        edit_of(final(ctx), *final(buffer), c).ok(),
        edit_frame(final(ctx), old(ctx)),
{
    let ghost e = edit_of(ctx, *buffer, changed);
    let len = byte_len(buffer);
    let room = capacity - len;
    let tlen = text.as_bytes().len();
    let insert = if room <= tlen {
        room
    } else {
        tlen
    };
    if insert > 0 {
        let piece = str_range(text, 0, insert);
        let at = ctx.cursor;
        string_insert_str(buffer, at, piece);
        ctx.cursor = at + insert;
        ctx.selection = ctx.cursor;
        proof {
            let d = e.insert(text.spec_bytes(), capacity as int)->0;
            assert(bytes_of(*buffer) =~= d.bytes);
        }
        true
    } else {
        changed
    }
}

/// Replaces the selection with as much of `text` as fits.
fn paste(ctx: &mut Context, buffer: &mut String, text: &str, capacity: usize, changed: bool) -> (c: bool)
    requires
        edit_of(old(ctx), *old(buffer), changed).ok(),
        edit_of(old(ctx), *old(buffer), changed).paste(text.spec_bytes(), capacity as int) is Some,
    ensures
        edit_of(final(ctx), *final(buffer), c) == edit_of(old(ctx), *old(buffer), changed).paste(
            text.spec_bytes(),
            capacity as int,
        )->0,
        edit_of(final(ctx), *final(buffer), c).ok(),
        edit_frame(final(ctx), old(ctx)),
{
    delete_selection(ctx, buffer, changed);
    insert_text(ctx, buffer, text, capacity, changed)
}

/// Applies the keys pressed with Control down: select all, copy, cut, paste.
fn control_keys(ctx: &mut Context, buffer: &mut String, capacity: usize, changed: bool) -> (c: bool)
    requires
        edit_of(old(ctx), *old(buffer), changed).ok(),
        edit_of(old(ctx), *old(buffer), changed).control_keys(old(ctx).key_pressed, capacity as int) is Some,
    ensures
        edit_of(final(ctx), *final(buffer), c) == edit_of(old(ctx), *old(buffer), changed).control_keys(
            old(ctx).key_pressed,
            capacity as int,
        )->0,
        edit_of(final(ctx), *final(buffer), c).ok(),
        edit_frame(final(ctx), old(ctx)),
{
    let mut changed = changed;
    if ctx.key_pressed & Key::A.bit() != 0 {
        ctx.selection = 0;
        ctx.cursor = byte_len(buffer);
    }
    if ctx.key_pressed & Key::C.bit() != 0 || ctx.key_pressed & Key::X.bit() != 0 {
        copy_selection(ctx, buffer, changed);
        let (left, right) = edit_bounds(ctx, buffer);
        if ctx.key_pressed & Key::X.bit() != 0 && left != right {
            delete_selection(ctx, buffer, changed);
            changed = true;
        }
    }
    if ctx.key_pressed & Key::V.bit() != 0 {
        let clip = ctx.clipboard.clone();
        changed = paste(ctx, buffer, clip.as_str(), capacity, changed);
    }
    changed
}

/// Applies the keys pressed without Control: cursor movement, backspace and delete.
fn plain_keys(ctx: &mut Context, buffer: &mut String, changed: bool) -> (c: bool)
    requires
        edit_of(old(ctx), *old(buffer), changed).ok(),
        edit_of(old(ctx), *old(buffer), changed).plain_keys(
            old(ctx).key_pressed,
            old(ctx).key_down & Key::Shift.spec_bit() != 0,
        ) is Some,
    ensures
        edit_of(final(ctx), *final(buffer), c) == edit_of(old(ctx), *old(buffer), changed).plain_keys(
            old(ctx).key_pressed,
            old(ctx).key_down & Key::Shift.spec_bit() != 0,
        )->0,
        edit_of(final(ctx), *final(buffer), c).ok(),
        edit_frame(final(ctx), old(ctx)),
{
    let ghost e0 = edit_of(ctx, *buffer, changed);
    let shift = ctx.key_down & Key::Shift.bit() != 0;
    let len = byte_len(buffer);
    if ctx.key_pressed & Key::Left.bit() != 0 && ctx.cursor > 0 {
        proof {
            lemma_prev_char_boundary(e0.bytes, ctx.cursor as int);
        }
        ctx.cursor = prev_char(buffer.as_str(), ctx.cursor);
        if !shift {
            ctx.selection = ctx.cursor;
        }
    }
    if ctx.key_pressed & Key::Right.bit() != 0 && ctx.cursor < len {
        proof {
            lemma_next_char_boundary(e0.bytes, ctx.cursor as int);
        }
        ctx.cursor = next_char(buffer.as_str(), ctx.cursor);
        if !shift {
            ctx.selection = ctx.cursor;
        }
    }
    let mut changed = changed;
    if ctx.key_pressed & (Key::Backspace.bit() | Key::Delete.bit()) != 0 {
        let (left, right) = edit_bounds(ctx, buffer);
        if left != right {
            delete_selection(ctx, buffer, changed);
            changed = true;
        } else if ctx.key_pressed & Key::Backspace.bit() != 0 && ctx.cursor > 0 {
            let ghost e = edit_of(ctx, *buffer, changed);
            proof {
                lemma_prev_char_boundary(e.bytes, ctx.cursor as int);
            }
            let prev = prev_char(buffer.as_str(), ctx.cursor);
            string_remove(buffer, prev);
            ctx.cursor = prev;
            ctx.selection = prev;
            changed = true;
            proof {
                assert(bytes_of(*buffer) =~= e.backspace().bytes);
            }
        } else if ctx.key_pressed & Key::Delete.bit() != 0 && ctx.cursor < len {
            let ghost e = edit_of(ctx, *buffer, changed);
            proof {
                lemma_next_char_boundary(e.bytes, ctx.cursor as int);
            }
            let next = next_char(buffer.as_str(), ctx.cursor);
            proof {
                reveal_strlit("");
            }
            string_replace_range(buffer, ctx.cursor, next, "");
            changed = true;
            proof {
                assert(bytes_of(*buffer) =~= (e.delete_forward()->0).bytes);
            }
        }
    }
    changed
}

#[verifier::rlimit(40)]
/// Applies the keys and the typed text of a frame to a focused text box of at most `capacity`
/// bytes; returns whether the text changed.
pub fn apply_edit(ctx: &mut Context, buffer: &mut String, capacity: usize) -> (c: bool)
    requires
        edit_of(old(ctx), *old(buffer), false).apply(
            old(ctx).key_down,
            old(ctx).key_pressed,
            bytes_of(old(ctx).input),
            capacity as int,
        ) is Some,
    ensures
        edit_of(final(ctx), *final(buffer), c) == edit_of(old(ctx), *old(buffer), false).apply(
            old(ctx).key_down,
            old(ctx).key_pressed,
            bytes_of(old(ctx).input),
            capacity as int,
        )->0,
        edit_frame(final(ctx), old(ctx)),
{
    let ghost e0 = edit_of(ctx, *buffer, false);
    let ghost input = bytes_of(ctx.input);
    let len = byte_len(buffer);
    if ctx.cursor > len {
        ctx.cursor = len;
    }
    if ctx.selection > len {
        ctx.selection = len;
    }
    assert(edit_of(ctx, *buffer, false) == e0.clamped());
    let mut changed = false;
    if ctx.key_down & Key::Control.bit() != 0 {
        changed = control_keys(ctx, buffer, capacity, changed);
    } else {
        changed = plain_keys(ctx, buffer, changed);
    }
    assert(ctx.input == old(ctx).input);
    let ghost k = edit_of(ctx, *buffer, changed);
    assert(Some(k) == (if old(ctx).key_down & Key::Control.spec_bit() != 0 {
        e0.clamped().control_keys(old(ctx).key_pressed, capacity as int)
    } else {
        e0.clamped().plain_keys(old(ctx).key_pressed, old(ctx).key_down & Key::Shift.spec_bit() != 0)
    }));
    if ctx.input.as_str().as_bytes().len() != 0 {
        let text = ctx.input.clone();
        assert(bytes_of(text) == input);
        changed = paste(ctx, buffer, text.as_str(), capacity, changed);
    }
    changed
}

} // verus!
