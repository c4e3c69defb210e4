use std::collections::HashMap;
use vstd::prelude::*;
use vstd::std_specs::iter::IteratorSpec;
use vstd::string::next_post;

use crate::atlas::{Atlas, alpha_rows, row_offset};
use crate::types::{Vec2, fits};

verus! {

broadcast use vstd::std_specs::hash::group_hash_axioms;

/// A glyph of a font at a pixel size.
#[derive(Debug, Clone, Copy, PartialEq, Eq, Structural, Hash)]
pub struct GlyphKey {
    pub id: u16,
    pub size: u16,
}

impl GlyphKey {
    /// The number that stands for the key in a glyph cache.
    pub open spec fn spec_code(self) -> u32 {
        (self.id as int * 65536 + self.size as int) as u32
    }

    pub fn code(self) -> (c: u32)
        ensures
            c == self.spec_code(),
    {
        (self.id as u32) * 65536 + (self.size as u32)
    }
}

/// Two keys have the same code only when they are equal.
pub proof fn lemma_code_injective(a: GlyphKey, b: GlyphKey)
    ensures
        a.spec_code() == b.spec_code() ==> a == b,
{
}

/// Where a rasterized glyph lies in the atlas, and how it is placed against the pen.
#[derive(Debug, Clone, Copy, PartialEq, Eq, Structural)]
pub struct GlyphEntry {
    pub atlas_x: u32,
    pub atlas_y: u32,
    pub w: u32,
    pub h: u32,
    pub bearing_x: i32,
    pub bearing_y: i32,
    pub advance: i32,
}

/// A glyph of shaped text: its offsets from the pen and how far it moves the pen.
#[derive(Debug, Clone, Copy, PartialEq, Eq, Structural)]
pub struct ShapedGlyph {
    pub id: u16,
    pub x_offset: i32,
    pub y_offset: i32,
    pub x_advance: i32,
}

/// Shaped text: its glyphs in visual order and its width.
pub struct Shaped {
    pub glyphs: Vec<ShapedGlyph>,
    pub width: i32,
}

/// The glyphs already rasterized into the atlas.
pub struct GlyphCache {
    entries: HashMap<u32, GlyphEntry>,
}

impl View for GlyphCache {
    type V = Map<u32, GlyphEntry>;

    closed spec fn view(&self) -> Map<u32, GlyphEntry> {
        self.entries@
    }
}

impl GlyphCache {
    /// The glyph of `key` is in the cache.
    pub open spec fn holds(&self, key: GlyphKey) -> bool {
        self@.contains_key(key.spec_code())
    }

    pub fn new() -> (c: Self)
        ensures
            c@ == Map::<u32, GlyphEntry>::empty(),
    {
        GlyphCache { entries: HashMap::new() }
    }

    pub fn contains(&self, key: GlyphKey) -> (b: bool)
        ensures
            b == self.holds(key),
    {
        let code = key.code();
        self.entries.contains_key(&code)
    }

    pub fn get(&self, key: GlyphKey) -> (r: Option<GlyphEntry>)
        ensures
            r == (if self.holds(key) {
                Some(self@[key.spec_code()])
            } else {
                None
            }),
    {
        let code = key.code();
        match self.entries.get(&code) {
            Some(e) => Some(*e),
            None => None,
        }
    }

    pub fn insert(&mut self, key: GlyphKey, entry: GlyphEntry)
        ensures
            final(self)@ == old(self)@.insert(key.spec_code(), entry),
    {
        let code = key.code();
        self.entries.insert(code, entry);
    }
}

/// The ISO 15924 tag of the script that a character belongs to, among Arabic (`arab`),
/// Cyrillic (`cyrl`), Han (`hani`) and Devanagari (`deva`), as ASCII bytes.
pub open spec fn char_script(c: char) -> Option<Seq<u8>> {
    let cp = c as int;
    if (0x0600 <= cp <= 0x06ff) || (0x0750 <= cp <= 0x077f) {
        Some(seq![97u8, 114u8, 97u8, 98u8])
    } else if 0x0400 <= cp <= 0x04ff {
        Some(seq![99u8, 121u8, 114u8, 108u8])
    } else if 0x4e00 <= cp <= 0x9fff {
        Some(seq![104u8, 97u8, 110u8, 105u8])
    } else if 0x0900 <= cp <= 0x097f {
        Some(seq![100u8, 101u8, 118u8, 97u8])
    } else {
        None
    }
}

/// The script tag of a run of text: that of its first character of a known script, and Latin
/// (`latn`) when there is none.
pub open spec fn script_tag_of(text: Seq<char>) -> Seq<u8>
    decreases text.len(),
{
    if text.len() == 0 {
        seq![108u8, 97u8, 116u8, 110u8]
    } else {
        match char_script(text[0]) {
            Some(t) => t,
            None => script_tag_of(text.drop_first()),
        }
    }
}

fn char_script_tag(ch: char) -> (t: Option<[u8; 4]>)
    ensures
        match t {
            Some(a) => char_script(ch) == Some(a@),
            None => char_script(ch) is None,
        },
{
    let cp = ch as u32;
    let t = if (0x0600 <= cp && cp <= 0x06ff) || (0x0750 <= cp && cp <= 0x077f) {
        Some([97u8, 114u8, 97u8, 98u8])
    } else if 0x0400 <= cp && cp <= 0x04ff {
        Some([99u8, 121u8, 114u8, 108u8])
    } else if 0x4e00 <= cp && cp <= 0x9fff {
        Some([104u8, 97u8, 110u8, 105u8])
    } else if 0x0900 <= cp && cp <= 0x097f {
        Some([100u8, 101u8, 118u8, 97u8])
    } else {
        None
    };
    proof {
        if let Some(a) = t {
            assert(a@ =~= char_script(ch)->0);
        }
    }
    t
}

/// The ISO 15924 tag of the script to shape `text` with.
pub fn detect_script(text: &str) -> (tag: [u8; 4])
    ensures
        tag@ == script_tag_of(text@),
{
    let ghost s = text@;
    let mut chars = text.chars();
    let ghost mut k: int = 0;
    assert(s.skip(0) =~= s);
    assert(IteratorSpec::remaining(&chars) == s);
    loop
        invariant
            s == text@,
            0 <= k <= s.len(),
            IteratorSpec::remaining(&chars) == s.skip(k),
            chars.obeys_prophetic_iter_laws(),
            script_tag_of(s) == script_tag_of(s.skip(k)),
        decreases s.len() - k,
    {
        let ghost before = chars;
        let next = chars.next();
        assert(next_post(&before, &chars, next));
        match next {
            None => {
                assert(s.skip(k).len() == 0);
                let latn = [108u8, 97u8, 116u8, 110u8];
                assert(latn@ =~= script_tag_of(s.skip(k)));
                return latn;
            },
            Some(ch) => {
                assert(s.skip(k)[0] == ch);
                if let Some(t) = char_script_tag(ch) {
                    return t;
                }
                assert(s.skip(k).drop_first() =~= s.skip(k + 1));
                proof {
                    k = k + 1;
                }
            },
        }
    }
}

/// What is kept of a rasterized glyph with a `width` by `height` bitmap whose bounding box
/// starts at `(xmin, ymin)`: nothing for an empty bitmap, and otherwise the bitmap, its size and
/// its bearings, the vertical one measured to the top of the box.
pub fn rasterized(bitmap: Vec<u8>, width: usize, height: usize, xmin: i32, ymin: i32) -> (r: Option<
    (Vec<u8>, u32, u32, i32, i32),
>)
    requires
        fits(ymin + (height as i32)),
    ensures
        match r {
            None => width == 0 || height == 0,
            Some(g) => {
                &&& width != 0 && height != 0
                &&& g.0@ == bitmap@
                &&& g.1 == width as u32
                &&& g.2 == height as u32
                &&& g.3 == xmin
                &&& g.4 == ymin + (height as i32)
            },
        },
{
    if width == 0 || height == 0 {
        return None;
    }
    let w = #[verifier::truncate] (width as u32);
    let h = #[verifier::truncate] (height as u32);
    let bx = xmin;
    let by = ymin + #[verifier::truncate] (height as i32);
    Some((bitmap, w, h, bx, by))
}

/// `store_glyph` can copy a `w` by `h` glyph to wherever the atlas places it.
pub open spec fn can_store(atlas: &Atlas, w: int, h: int, pixels: Seq<u8>) -> bool {
    &&& atlas.pen().can_allocate(w, h)
    &&& h * w <= pixels.len()
    &&& atlas.pen().placed(w, h) matches Some(c) ==> {
        &&& h > 0 ==> row_offset(atlas.size as int, c.0, c.1, h - 1) + w * 4 <= atlas.pixels@.len()
        &&& c.1 + h <= usize::MAX
    }
}

/// Puts the rasterized glyph of `key` into the atlas and the cache, when the atlas has room
/// for it; reports whether it had.
pub fn store_glyph(
    cache: &mut GlyphCache,
    atlas: &mut Atlas,
    key: GlyphKey,
    pixels: &[u8],
    w: u32,
    h: u32,
    bearing_x: i32,
    bearing_y: i32,
    advance: i32,
) -> (stored: bool)
    requires
        can_store(old(atlas), w as int, h as int, pixels@),
    ensures
        final(atlas).pen() == old(atlas).pen().after_allocate(w as int, h as int),
        final(atlas).size == old(atlas).size,
        match old(atlas).pen().placed(w as int, h as int) {
            Some(c) => {
                &&& stored
                &&& final(cache)@ == old(cache)@.insert(
                    key.spec_code(),
                    GlyphEntry {
                        atlas_x: c.0 as u32,
                        atlas_y: c.1 as u32,
                        w,
                        h,
                        bearing_x,
                        bearing_y,
                        advance,
                    },
                )
                &&& final(atlas).pixels@ == alpha_rows(
                    old(atlas).pixels@,
                    old(atlas).size as int,
                    c.0,
                    c.1,
                    w as int,
                    pixels@,
                    h as nat,
                )
                &&& final(atlas).dirty
            },
            None => {
                &&& !stored
                &&& final(cache)@ == old(cache)@
                &&& final(atlas).pixels == old(atlas).pixels
                &&& final(atlas).dirty == old(atlas).dirty
            },
        },
{
    match atlas.allocate(w, h) {
        Some((ax, ay)) => {
            atlas.blit_alpha(ax, ay, w, h, pixels);
            cache.insert(
                key,
                GlyphEntry { atlas_x: ax, atlas_y: ay, w, h, bearing_x, bearing_y, advance },
            );
            true
        },
        None => false,
    }
}

/// The ids of the glyphs of `glyphs` at pixel size `size` that the cache lacks, each once, in the
/// order in which they first appear.
pub open spec fn missing(glyphs: Seq<ShapedGlyph>, cache: Map<u32, GlyphEntry>, size: u16) -> Seq<u16>
    decreases glyphs.len(),
{
    if glyphs.len() == 0 {
        Seq::empty()
    } else {
        let m = missing(glyphs.drop_last(), cache, size);
        let id = glyphs.last().id;
        if cache.contains_key((GlyphKey { id, size }).spec_code()) || m.contains(id) {
            m
        } else {
            m.push(id)
        }
    }
}

fn contains_id(ids: &Vec<u16>, id: u16) -> (b: bool)
    ensures
        b == ids@.contains(id),
{
    let mut i: usize = 0;
    while i < ids.len()
        invariant
            i <= ids@.len(),
            forall|j: int| 0 <= j < i ==> ids@[j] != id,
        decreases ids@.len() - i,
    {
        if ids[i] == id {
            return true;
        }
        i = i + 1;
    }
    false
}

/// The glyphs of `shaped` at pixel size `size` to rasterize before it is drawn.
pub fn missing_glyphs(shaped: &Shaped, cache: &GlyphCache, size: u16) -> (ids: Vec<u16>)
    ensures
        ids@ == missing(shaped.glyphs@, cache@, size),
{
    let mut ids: Vec<u16> = Vec::new();
    let mut i: usize = 0;
    while i < shaped.glyphs.len()
        invariant
            i <= shaped.glyphs@.len(),
            ids@ == missing(shaped.glyphs@.take(i as int), cache@, size),
        decreases shaped.glyphs@.len() - i,
    {
        let g = shaped.glyphs[i];
        assert(shaped.glyphs@.take(i + 1).drop_last() =~= shaped.glyphs@.take(i as int));
        let key = GlyphKey { id: g.id, size };
        if !cache.contains(key) && !contains_id(&ids, g.id) {
            ids.push(g.id);
        }
        i = i + 1;
    }
    assert(shaped.glyphs@.take(shaped.glyphs@.len() as int) =~= shaped.glyphs@);
    ids
}

/// Where a cached glyph is drawn, and where its image lies in the atlas.
#[derive(Debug, Clone, Copy, PartialEq, Eq, Structural)]
pub struct GlyphQuad {
    pub x: i32,
    pub y: i32,
    pub w: u32,
    pub h: u32,
    pub atlas_x: u32,
    pub atlas_y: u32,
}

/// How far the glyphs move the pen.
pub open spec fn advance_sum(glyphs: Seq<ShapedGlyph>) -> int
    decreases glyphs.len(),
{
    if glyphs.len() == 0 {
        0
    } else {
        advance_sum(glyphs.drop_last()) + glyphs.last().x_advance
    }
}

/// The quad of glyph `g` with cache entry `e`, the pen at `pen` on the baseline `y`.
pub open spec fn quad_of(g: ShapedGlyph, e: GlyphEntry, pen: int, y: int) -> GlyphQuad {
    GlyphQuad {
        x: (pen + e.bearing_x + g.x_offset) as i32,
        y: (y - e.bearing_y + g.y_offset) as i32,
        w: e.w,
        h: e.h,
        atlas_x: e.atlas_x,
        atlas_y: e.atlas_y,
    }
}

/// The quads of the cached glyphs of `glyphs` at pixel size `size`, in order, the pen starting
/// at `start` on the baseline `y`; glyphs not in the cache are skipped but still move the pen.
pub open spec fn quads(
    glyphs: Seq<ShapedGlyph>,
    cache: Map<u32, GlyphEntry>,
    size: u16,
    start: int,
    y: int,
) -> Seq<GlyphQuad>
    decreases glyphs.len(),
{
    if glyphs.len() == 0 {
        Seq::empty()
    } else {
        let prefix = quads(glyphs.drop_last(), cache, size, start, y);
        let g = glyphs.last();
        let code = (GlyphKey { id: g.id, size }).spec_code();
        if cache.contains_key(code) {
            prefix.push(quad_of(g, cache[code], start + advance_sum(glyphs.drop_last()), y))
        } else {
            prefix
        }
    }
}

/// Placing glyph `g` with the pen at `pen` on the baseline `y` computes without overflow.
pub open spec fn glyph_fits(g: ShapedGlyph, cache: Map<u32, GlyphEntry>, size: u16, pen: int, y: int) -> bool {
    let code = (GlyphKey { id: g.id, size }).spec_code();
    let e = cache[code];
    &&& fits(pen + g.x_advance)
    &&& cache.contains_key(code) ==> {
        &&& fits(pen + e.bearing_x)
        &&& fits(pen + e.bearing_x + g.x_offset)
        &&& fits(y - e.bearing_y)
        &&& fits(y - e.bearing_y + g.y_offset)
    }
}

/// The quads to draw `shaped` at pixel size `size` from `position`, for the glyphs in the cache.
pub fn glyph_quads(shaped: &Shaped, cache: &GlyphCache, size: u16, position: Vec2) -> (v: Vec<
    GlyphQuad,
>)
    requires
        forall|i: int|
            0 <= i < shaped.glyphs@.len() ==> glyph_fits(
                #[trigger] shaped.glyphs@[i],
                cache@,
                size,
                position.x + advance_sum(shaped.glyphs@.take(i)),
                position.y as int,
            ),
    ensures
        v@ == quads(shaped.glyphs@, cache@, size, position.x as int, position.y as int),
{
    let mut v: Vec<GlyphQuad> = Vec::new();
    let mut cursor_x = position.x;
    let mut i: usize = 0;
    while i < shaped.glyphs.len()
        invariant
            i <= shaped.glyphs@.len(),
            cursor_x == position.x + advance_sum(shaped.glyphs@.take(i as int)),
            v@ == quads(shaped.glyphs@.take(i as int), cache@, size, position.x as int, position.y as int),
            forall|j: int|
                0 <= j < shaped.glyphs@.len() ==> glyph_fits(
                    #[trigger] shaped.glyphs@[j],
                    cache@,
                    size,
                    position.x + advance_sum(shaped.glyphs@.take(j)),
                    position.y as int,
                ),
        decreases shaped.glyphs@.len() - i,
    {
        let g = shaped.glyphs[i];
        assert(shaped.glyphs@.take(i + 1).drop_last() =~= shaped.glyphs@.take(i as int));
        assert(glyph_fits(shaped.glyphs@[i as int], cache@, size, cursor_x as int, position.y as int));
        let key = GlyphKey { id: g.id, size };
        if let Some(entry) = cache.get(key) {
            let x = cursor_x + entry.bearing_x + g.x_offset;
            let y = position.y - entry.bearing_y + g.y_offset;
            v.push(
                GlyphQuad {
                    x,
                    y,
                    w: entry.w,
                    h: entry.h,
                    atlas_x: entry.atlas_x,
                    atlas_y: entry.atlas_y,
                },
            );
        }
        cursor_x = cursor_x + g.x_advance;
        i = i + 1;
    }
    assert(shaped.glyphs@.take(shaped.glyphs@.len() as int) =~= shaped.glyphs@);
    v
}

/// The glyphs to rasterize are exactly what is needed: each is missing from the cache, occurs
/// in the text, and is listed once.
pub proof fn law_missing_glyphs(glyphs: Seq<ShapedGlyph>, cache: Map<u32, GlyphEntry>, size: u16)
    ensures
        forall|k: int|
            0 <= k < missing(glyphs, cache, size).len() ==> !cache.contains_key(
                (GlyphKey { id: #[trigger] missing(glyphs, cache, size)[k], size }).spec_code(),
            ) && exists|j: int| 0 <= j < glyphs.len() && glyphs[j].id == missing(glyphs, cache, size)[k],
        forall|a: int, c: int|
            0 <= a < c < missing(glyphs, cache, size).len() ==> missing(glyphs, cache, size)[a]
                != missing(glyphs, cache, size)[c],
    decreases glyphs.len(),
{
    if glyphs.len() > 0 {
        let rest = glyphs.drop_last();
        law_missing_glyphs(rest, cache, size);
        let m = missing(rest, cache, size);
        assert forall|k: int| 0 <= k < m.len() implies exists|j: int|
            0 <= j < glyphs.len() && glyphs[j].id == #[trigger] m[k] by {
            let j = choose|j: int| 0 <= j < rest.len() && rest[j].id == m[k];
            assert(glyphs[j] == rest[j]);
        }
        let id = glyphs.last().id;
        if !(cache.contains_key((GlyphKey { id, size }).spec_code()) || m.contains(id)) {
            assert(glyphs[glyphs.len() - 1].id == id);
            assert forall|a: int, c: int|
                0 <= a < c < m.push(id).len() implies m.push(id)[a] != m.push(id)[c] by {
                if c == m.len() {
                    assert(m[a] == m.push(id)[a]);
                }
            }
        }
    }
}

} // verus!
