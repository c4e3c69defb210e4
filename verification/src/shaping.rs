use vstd::prelude::*;
use vstd::string::StringSliceAdditionalSpecFns;
use vstd::utf8::{decode_utf8, encode_utf8, is_char_boundary};

use rustybuzz::{Direction, Face, Script, UnicodeBuffer};
use unicode_bidi::BidiInfo;

use crate::glyph::{char_script, detect_script, script_tag_of};
use crate::text_edit::str_range;

verus! {

broadcast use vstd::utf8::encode_utf8_decode_utf8;

/// The level runs of `text` in visual order, paragraph after paragraph, as the bidirectional
/// algorithm finds them: each is a byte range of `text` and whether it runs right to left.
pub uninterp spec fn bidi_runs(text: Seq<char>) -> Seq<(usize, usize, bool)>;

/// What shaping `text` with the font `face`, in the direction `rtl` says and the script tagged
/// `script`, gives: the font's units per em and, for each glyph, its id, its offsets and its
/// advance in font units; `None` when `face` is not a font.
pub uninterp spec fn shaped_units(face: Seq<u8>, text: Seq<char>, rtl: bool, script: Seq<u8>) -> Option<
    (i32, Seq<(u16, i32, i32, i32)>),
>;

/// `unicode_bidi::BidiInfo::new(text, None)`, then `visual_runs` of each of its paragraphs over
/// the paragraph's whole range: each run as its byte range and whether its level is right to
/// left. The runs lie within the paragraph, which lies within `text`, and start and end on
/// character boundaries (the levels are kept per byte, equal over the bytes of a character, and
/// the crate slices `text` by these runs itself).
#[verifier::external_body]
fn visual_runs(text: &str) -> (r: Vec<(usize, usize, bool)>)
    ensures
        r@ == bidi_runs(text@),
        forall|i: int|
            0 <= i < r@.len() ==> {
                &&& (#[trigger] r@[i]).0 <= r@[i].1 <= text.spec_bytes().len()
                &&& is_char_boundary(text.spec_bytes(), r@[i].0 as int)
                &&& is_char_boundary(text.spec_bytes(), r@[i].1 as int)
            },
{
    let bidi = BidiInfo::new(text, None);
    let mut runs = Vec::new();
    for para in &bidi.paragraphs {
        let (levels, line_runs) = bidi.visual_runs(para, para.range.clone());
        for run in line_runs {
            runs.push((run.start, run.end, levels[run.start].is_rtl()));
        }
    }
    runs
}

/// `rustybuzz::Face::from_slice(face, 0)`, then `rustybuzz::shape` of `text` with no features,
/// the direction `rtl` says and the script whose ISO 15924 tag is `script` (a tag that is not
/// all zero always names a script): the face's units per em and each glyph's id (which the
/// crate keeps within `u16`), x and y offsets and x advance; `None` when `face` does not parse.
#[verifier::external_body]
fn shape_run(face: &[u8], text: &str, rtl: bool, script: [u8; 4]) -> (r: Option<
    (i32, Vec<(u16, i32, i32, i32)>),
>)
    requires
        script@[0] != 0,
    ensures
        match r {
            Some((units, glyphs)) => shaped_units(face@, text@, rtl, script@) == Some(
                (units, glyphs@),
            ),
            None => shaped_units(face@, text@, rtl, script@) is None,
        },
{
    let face = Face::from_slice(face, 0)?;
    let mut buf = UnicodeBuffer::new();
    buf.push_str(text);
    buf.set_direction(if rtl { Direction::RightToLeft } else { Direction::LeftToRight });
    buf.set_script(Script::from_iso15924_tag(rustybuzz::ttf_parser::Tag::from_bytes(&script)).unwrap());
    let shaped = rustybuzz::shape(&face, &[], buf);
    let infos = shaped.glyph_infos().iter();
    let glyphs = infos.zip(shaped.glyph_positions().iter()).map(
        |(gi, gp)| (gi.glyph_id as u16, gp.x_offset, gp.y_offset, gp.x_advance),
    ).collect();
    Some((face.units_per_em(), glyphs))
}

/// A run of text in one direction and one script, shaped: its byte range, its direction, its
/// script tag, and the font's units per em with its glyphs in font units (`None` when the font
/// does not parse).
pub struct ShapedRun {
    pub start: usize,
    pub end: usize,
    pub rtl: bool,
    pub script: [u8; 4],
    pub shaped: Option<(i32, Vec<(u16, i32, i32, i32)>)>,
}

/// The characters of `text` from byte `start` up to byte `end`.
pub open spec fn run_chars(text: Seq<char>, start: int, end: int) -> Seq<char> {
    decode_utf8(encode_utf8(text).subrange(start, end))
}

/// A script tag never starts with a zero byte.
proof fn lemma_script_tag_named(text: Seq<char>)
    ensures
        script_tag_of(text).len() == 4,
        script_tag_of(text)[0] != 0,
    decreases text.len(),
{
    if text.len() > 0 && char_script(text[0]) is None {
        lemma_script_tag_named(text.drop_first());
    }
}

/// Splits `text` into its runs of one direction, in visual order, and shapes each run with the
/// font `face` in the script of its first character of a known script.
pub fn shape_runs(face: &[u8], text: &str) -> (runs: Vec<ShapedRun>)
    ensures
        runs@.len() == bidi_runs(text@).len(),
        forall|i: int|
            0 <= i < runs@.len() ==> {
                let b = bidi_runs(text@)[i];
                let r = #[trigger] runs@[i];
                let chars = run_chars(text@, b.0 as int, b.1 as int);
                &&& r.start == b.0
                &&& r.end == b.1
                &&& r.rtl == b.2
                &&& r.script@ == script_tag_of(chars)
                &&& match r.shaped {
                    Some((units, glyphs)) => shaped_units(face@, chars, b.2, r.script@) == Some(
                        (units, glyphs@),
                    ),
                    None => shaped_units(face@, chars, b.2, r.script@) is None,
                }
            },
{
    let raw = visual_runs(text);
    let mut runs: Vec<ShapedRun> = Vec::new();
    let mut i: usize = 0;
    while i < raw.len()
        invariant
            i <= raw@.len(),
            raw@ == bidi_runs(text@),
            runs@.len() == i,
            forall|k: int|
                0 <= k < raw@.len() ==> {
                    &&& (#[trigger] raw@[k]).0 <= raw@[k].1 <= text.spec_bytes().len()
                    &&& is_char_boundary(text.spec_bytes(), raw@[k].0 as int)
                    &&& is_char_boundary(text.spec_bytes(), raw@[k].1 as int)
                },
            forall|k: int|
                0 <= k < i ==> {
                    let b = bidi_runs(text@)[k];
                    let r = #[trigger] runs@[k];
                    let chars = run_chars(text@, b.0 as int, b.1 as int);
                    &&& r.start == b.0
                    &&& r.end == b.1
                    &&& r.rtl == b.2
                    &&& r.script@ == script_tag_of(chars)
                    &&& match r.shaped {
                        Some((units, glyphs)) => shaped_units(face@, chars, b.2, r.script@) == Some(
                            (units, glyphs@),
                        ),
                        None => shaped_units(face@, chars, b.2, r.script@) is None,
                    }
                },
        decreases raw@.len() - i,
    {
        let (start, end, rtl) = raw[i];
        assert(raw@[i as int].0 <= raw@[i as int].1);
        let chunk = str_range(text, start, end);
        proof {
            assert(chunk@ == decode_utf8(encode_utf8(chunk@)));
            assert(chunk@ == run_chars(text@, start as int, end as int));
            lemma_script_tag_named(chunk@);
        }
        let script = detect_script(chunk);
        let shaped = shape_run(face, chunk, rtl, script);
        runs.push(ShapedRun { start, end, rtl, script, shaped });
        i = i + 1;
    }
    runs
}

} // verus!
