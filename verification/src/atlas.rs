use vstd::prelude::*;

verus! {

/// A rectangle of the atlas, in pixels.
pub struct Region {
    pub x: u32,
    pub y: u32,
    pub w: u32,
    pub h: u32,
}

/// A square RGBA texture into which glyph images are packed in rows.
pub struct Atlas {
    pub size: u32,
    pub pen_x: u32,
    pub pen_y: u32,
    pub row_h: u32,
    pub dirty: bool,
    pub pixels: Vec<u8>,
}

/// The packing state of an atlas: where the next image goes.
pub struct Pen {
    pub size: int,
    pub x: int,
    pub y: int,
    pub row_h: int,
}

impl Pen {
    /// The image does not fit on the current row.
    pub open spec fn wraps(self, w: int) -> bool {
        self.x + w + 1 > self.size
    }

    /// The pen after moving to a new row when the image does not fit on this one.
    pub open spec fn row_start(self, w: int) -> Pen {
        if self.wraps(w) {
            Pen { x: 0, y: self.y + self.row_h + 1, row_h: 0, ..self }
        } else {
            self
        }
    }

    /// The image fits below the pen.
    pub open spec fn room(self, w: int, h: int) -> bool {
        self.row_start(w).y + h + 1 <= self.size
    }

    /// Where `allocate(w, h)` places the image, if there is room.
    pub open spec fn placed(self, w: int, h: int) -> Option<(int, int)> {
        if self.room(w, h) {
            Some((self.row_start(w).x, self.row_start(w).y))
        } else {
            None
        }
    }

    /// The pen after `allocate(w, h)`.
    pub open spec fn after_allocate(self, w: int, h: int) -> Pen {
        let s = self.row_start(w);
        if self.room(w, h) {
            Pen { x: s.x + w + 1, row_h: if h > s.row_h { h } else { s.row_h }, ..s }
        } else {
            s
        }
    }

    /// `allocate(w, h)` computes without overflow.
    pub open spec fn can_allocate(self, w: int, h: int) -> bool {
        &&& self.x + w + 1 <= u32::MAX
        &&& self.wraps(w) ==> self.y + self.row_h + 1 <= u32::MAX
        &&& self.row_start(w).y + h + 1 <= u32::MAX
    }

    /// The pixel `(px, py)` lies in space already handed out: above the current row, or on the
    /// current row left of the pen.
    pub open spec fn claimed(self, px: int, py: int) -> bool {
        ||| py < self.y
        ||| (py < self.y + self.row_h && px < self.x)
    }
}

/// The pixels after one row of an RGBA copy.
pub open spec fn copy_row(
    pixels: Seq<u8>,
    dst: int,
    src: Seq<u8>,
    from: int,
    len: int,
) -> Seq<u8> {
    pixels.subrange(0, dst) + src.subrange(from, from + len) + pixels.subrange(dst + len, pixels.len() as int)
}

/// Where row `row` of a blit to `(x, y)` starts in the pixel buffer of an atlas of side `size`.
pub open spec fn row_offset(size: int, x: int, y: int, row: int) -> int {
    ((y + row) * size + x) * 4
}

/// The pixels after the first `rows` rows of `blit_rgba`.
pub open spec fn rgba_rows(
    pixels: Seq<u8>,
    size: int,
    x: int,
    y: int,
    w: int,
    src: Seq<u8>,
    stride: int,
    rows: nat,
) -> Seq<u8>
    decreases rows,
{
    if rows == 0 {
        pixels
    } else {
        let r = rows - 1;
        copy_row(
            rgba_rows(pixels, size, x, y, w, src, stride, (rows - 1) as nat),
            row_offset(size, x, y, r),
            src,
            r * stride,
            w * 4,
        )
    }
}

/// The pixels after writing a white pixel of coverage `a` at byte offset `off`.
pub open spec fn put_alpha(pixels: Seq<u8>, off: int, a: u8) -> Seq<u8> {
    pixels.update(off, 255).update(off + 1, 255).update(off + 2, 255).update(off + 3, a)
}

/// The pixels after the first `cols` pixels of row `row` of `blit_alpha`.
pub open spec fn alpha_cols(
    pixels: Seq<u8>,
    size: int,
    x: int,
    y: int,
    w: int,
    src: Seq<u8>,
    row: int,
    cols: nat,
) -> Seq<u8>
    decreases cols,
{
    if cols == 0 {
        pixels
    } else {
        let c = cols - 1;
        put_alpha(
            alpha_cols(pixels, size, x, y, w, src, row, (cols - 1) as nat),
            row_offset(size, x, y, row) + c * 4,
            src[row * w + c],
        )
    }
}

/// The pixels after the first `rows` rows of `blit_alpha`.
pub open spec fn alpha_rows(
    pixels: Seq<u8>,
    size: int,
    x: int,
    y: int,
    w: int,
    src: Seq<u8>,
    rows: nat,
) -> Seq<u8>
    decreases rows,
{
    if rows == 0 {
        pixels
    } else {
        alpha_cols(
            alpha_rows(pixels, size, x, y, w, src, (rows - 1) as nat),
            size,
            x,
            y,
            w,
            src,
            rows - 1,
            w as nat,
        )
    }
}

proof fn lemma_row_offset_grows(size: int, x: int, y: int, r1: int, r2: int)
    requires
        size >= 0,
        x >= 0,
        y >= 0,
        0 <= r1 <= r2,
    ensures
        0 <= row_offset(size, x, y, r1) <= row_offset(size, x, y, r2),
        row_offset(size, x, y, r1 + 1) == row_offset(size, x, y, r1) + size * 4,
{
    assert(0 <= (y + r1) * size <= (y + r2) * size) by (nonlinear_arith)
        requires
            size >= 0,
            y >= 0,
            0 <= r1 <= r2,
    ;
    assert((y + r1 + 1) * size == (y + r1) * size + size) by (nonlinear_arith);
}

proof fn lemma_mul_le(a: int, b: int, c: int)
    requires
        0 <= a <= b,
        c >= 0,
    ensures
        0 <= a * c <= b * c,
{
    assert(0 <= a * c <= b * c) by (nonlinear_arith)
        requires
            0 <= a <= b,
            c >= 0,
    ;
}

/// What `allocate` hands out was free before and is claimed after, and space once claimed stays
/// claimed.
pub proof fn law_allocate_claims(p: Pen, w: int, h: int)
    requires
        w >= 0,
        h >= 0,
        p.row_h >= 0,
    ensures
        forall|px: int, py: int| #[trigger] p.claimed(px, py) ==> p.after_allocate(w, h).claimed(px, py),
        p.placed(w, h) matches Some(c) ==> forall|px: int, py: int|
            c.0 <= px < c.0 + w && c.1 <= py < c.1 + h ==> !#[trigger] p.claimed(px, py)
                && p.after_allocate(w, h).claimed(px, py),
{
}

/// Two images placed one after the other never overlap.
pub proof fn law_allocations_disjoint(p: Pen, w1: int, h1: int, w2: int, h2: int, px: int, py: int)
    requires
        w1 >= 0,
        h1 >= 0,
        w2 >= 0,
        h2 >= 0,
        p.row_h >= 0,
    ensures
        p.placed(w1, h1) matches Some(a) ==> p.after_allocate(w1, h1).placed(w2, h2) matches Some(b)
            ==> !(a.0 <= px < a.0 + w1 && a.1 <= py < a.1 + h1 && b.0 <= px < b.0 + w2 && b.1 <= py
            < b.1 + h2),
{
    law_allocate_claims(p, w1, h1);
    law_allocate_claims(p.after_allocate(w1, h1), w2, h2);
}

/// An image narrower than the atlas is placed entirely inside it.
pub proof fn law_allocation_inside(p: Pen, w: int, h: int)
    requires
        w >= 0,
        h >= 0,
        w + 1 <= p.size,
    ensures
        p.placed(w, h) matches Some(c) ==> c.0 + w <= p.size && c.1 + h <= p.size,
{
}

/// The pen after the allocations `sizes[0..k]`, made one after the other.
pub open spec fn pen_after(p: Pen, sizes: Seq<(int, int)>, k: nat) -> Pen
    decreases k,
{
    if k == 0 {
        p
    } else {
        pen_after(p, sizes, (k - 1) as nat).after_allocate(sizes[k - 1].0, sizes[k - 1].1)
    }
}

/// The pen has moved past the image of `w` by `h` placed at `a`, gutters included: it is
/// further right on the same row, whose height covers the image, or on a row below it.
pub open spec fn moved_past(q: Pen, a: (int, int), w: int, h: int) -> bool {
    ||| q.y == a.1 && q.x >= a.0 + w + 1 && q.row_h >= h
    ||| q.y >= a.1 + h + 1
}

proof fn lemma_pen_row_h(p: Pen, sizes: Seq<(int, int)>, k: nat)
    requires
        p.row_h >= 0,
        k <= sizes.len(),
        forall|i: int| 0 <= i < sizes.len() ==> #[trigger] sizes[i].0 >= 0 && sizes[i].1 >= 0,
    ensures
        pen_after(p, sizes, k).row_h >= 0,
    decreases k,
{
    if k > 0 {
        lemma_pen_row_h(p, sizes, (k - 1) as nat);
        assert(sizes[k - 1].0 >= 0 && sizes[k - 1].1 >= 0);
    }
}

proof fn lemma_moved_past_kept(
    p: Pen,
    sizes: Seq<(int, int)>,
    a: (int, int),
    w: int,
    h: int,
    i: nat,
    k: nat,
)
    requires
        p.row_h >= 0,
        i <= k <= sizes.len(),
        forall|t: int| 0 <= t < sizes.len() ==> #[trigger] sizes[t].0 >= 0 && sizes[t].1 >= 0,
        moved_past(pen_after(p, sizes, i), a, w, h),
        h >= 0,
    ensures
        moved_past(pen_after(p, sizes, k), a, w, h),
    decreases k - i,
{
    if k > i {
        lemma_moved_past_kept(p, sizes, a, w, h, i, (k - 1) as nat);
        lemma_pen_row_h(p, sizes, (k - 1) as nat);
        assert(sizes[k - 1].0 >= 0 && sizes[k - 1].1 >= 0);
    }
}

/// Any two images allocated one after the other, with any allocations between them, never
/// overlap, each with the 1-pixel gutter to its right and below it.
pub proof fn law_any_two_allocations_disjoint(p: Pen, sizes: Seq<(int, int)>, i: nat, j: nat)
    requires
        p.row_h >= 0,
        forall|t: int| 0 <= t < sizes.len() ==> #[trigger] sizes[t].0 >= 0 && sizes[t].1 >= 0,
        i < j < sizes.len(),
    ensures
        ({
            let (w1, h1) = sizes[i as int];
            let (w2, h2) = sizes[j as int];
            pen_after(p, sizes, i).placed(w1, h1) matches Some(a) ==> pen_after(p, sizes, j).placed(
                w2,
                h2,
            ) matches Some(b) ==> {
                ||| a.0 + w1 + 1 <= b.0
                ||| b.0 + w2 + 1 <= a.0
                ||| a.1 + h1 + 1 <= b.1
                ||| b.1 + h2 + 1 <= a.1
            }
        }),
{
    let (w1, h1) = sizes[i as int];
    let (w2, h2) = sizes[j as int];
    assert(sizes[i as int].0 >= 0 && sizes[i as int].1 >= 0);
    assert(sizes[j as int].0 >= 0 && sizes[j as int].1 >= 0);
    if let Some(a) = pen_after(p, sizes, i).placed(w1, h1) {
        lemma_pen_row_h(p, sizes, i);
        lemma_pen_row_h(p, sizes, j);
        assert(pen_after(p, sizes, (i + 1) as nat) == pen_after(p, sizes, i).after_allocate(w1, h1));
        assert(moved_past(pen_after(p, sizes, (i + 1) as nat), a, w1, h1));
        lemma_moved_past_kept(p, sizes, a, w1, h1, (i + 1) as nat, j);
    }
}

impl Atlas {
    /// The atlas holds four bytes for each of its `size` by `size` pixels, a count that fits in
    /// `u32`.
    pub open spec fn wf(&self) -> bool {
        &&& self.size * self.size * 4 <= u32::MAX
        &&& self.pixels@.len() == self.size * self.size * 4
    }

    /// The packing state of the atlas.
    pub open spec fn pen(&self) -> Pen {
        Pen {
            size: self.size as int,
            x: self.pen_x as int,
            y: self.pen_y as int,
            row_h: self.row_h as int,
        }
    }

    pub fn new(size: u32) -> (a: Self)
        requires
            size * size * 4 <= u32::MAX,
        ensures
            a.wf(),
            a.size == size,
            a.pen_x == 0,
            a.pen_y == 0,
            a.row_h == 0,
            !a.dirty,
            a.pixels@ == Seq::new((size * size * 4) as nat, |i: int| 0u8),
    {
        let n = size * size * 4;
        let pixels = vec![0u8; n as usize];
        assert(pixels@ =~= Seq::new((size * size * 4) as nat, |i: int| 0u8));
        Atlas { size, pen_x: 0, pen_y: 0, row_h: 0, dirty: false, pixels }
    }

    /// Finds room for a `w` by `h` image and returns its top-left corner; `None` when the atlas
    /// is full.
    pub fn allocate(&mut self, w: u32, h: u32) -> (r: Option<(u32, u32)>)
        requires
            old(self).pen().can_allocate(w as int, h as int),
        ensures
            old(self).wf() ==> final(self).wf(),
            final(self).pen() == old(self).pen().after_allocate(w as int, h as int),
            final(self).size == old(self).size,
            final(self).dirty == old(self).dirty,
            final(self).pixels == old(self).pixels,
            r == (match old(self).pen().placed(w as int, h as int) {
                Some(p) => Some((p.0 as u32, p.1 as u32)),
                None => None,
            }),
    {
        if self.pen_x + w + 1 > self.size {
            self.pen_x = 0;
            self.pen_y = self.pen_y + self.row_h + 1;
            self.row_h = 0;
        }
        if self.pen_y + h + 1 > self.size {
            return None;
        }
        let x = self.pen_x;
        let y = self.pen_y;
        self.pen_x = self.pen_x + w + 1;
        if h > self.row_h {
            self.row_h = h;
        }
        Some((x, y))
    }

    /// Copies a `w` by `h` block of RGBA pixels from `src`, whose rows are `stride` bytes apart,
    /// to `(x, y)`.
    pub fn blit_rgba(&mut self, x: u32, y: u32, w: u32, h: u32, src: &[u8], stride: usize)
        requires
            h > 0 ==> row_offset(old(self).size as int, x as int, y as int, h - 1) + w * 4
                <= old(self).pixels@.len(),
            h > 0 ==> (h - 1) * stride + w * 4 <= src@.len(),
            y + h <= usize::MAX,
        ensures
            final(self).pixels@ == rgba_rows(
                old(self).pixels@,
                old(self).size as int,
                x as int,
                y as int,
                w as int,
                src@,
                stride as int,
                h as nat,
            ),
            final(self).dirty,
            final(self).size == old(self).size,
            final(self).pen() == old(self).pen(),
            old(self).wf() ==> final(self).wf(),
    {
        let ghost size = self.size as int;
        let mut row: usize = 0;
        while row < h as usize
            invariant
                0 <= row <= h,
                size == self.size,
                self.size == old(self).size,
                y + h <= usize::MAX,
                self.pixels@.len() == old(self).pixels@.len(),
                h > 0 ==> row_offset(size, x as int, y as int, h - 1) + w * 4 <= self.pixels@.len(),
                h > 0 ==> (h - 1) * stride + w * 4 <= src@.len(),
                self.pixels@ == rgba_rows(
                    old(self).pixels@,
                    size,
                    x as int,
                    y as int,
                    w as int,
                    src@,
                    stride as int,
                    row as nat,
                ),
                self.pen_x == old(self).pen_x,
                self.pen_y == old(self).pen_y,
                self.row_h == old(self).row_h,
            decreases h - row,
        {
            proof {
                lemma_row_offset_grows(size, x as int, y as int, row as int, h - 1);
                lemma_mul_le(row as int, h - 1, stride as int);
                assert(row_offset(size, x as int, y as int, row as int) + w * 4 <= self.pixels@.len());
            }
            let plen = self.pixels.len();
            let slen = src.len();
            let dst_off = ((y as usize + row) * self.size as usize + x as usize) * 4;
            let src_off = row * stride;
            let len = w as usize * 4;
            let ghost before = self.pixels@;
            let mut k: usize = 0;
            while k < len
                invariant
                    k <= len,
                    len == w * 4,
                    dst_off + len <= self.pixels@.len(),
                    plen == self.pixels@.len(),
                    slen == src@.len(),
                    src_off + len <= src@.len(),
                    self.pixels@.len() == before.len(),
                    forall|i: int|
                        0 <= i < self.pixels@.len() ==> #[trigger] self.pixels@[i] == if dst_off
                            <= i < dst_off + k {
                            src@[src_off + i - dst_off]
                        } else {
                            before[i]
                        },
                    self.size == old(self).size,
                    self.pen_x == old(self).pen_x,
                    self.pen_y == old(self).pen_y,
                    self.row_h == old(self).row_h,
                decreases len - k,
            {
                self.pixels.set(dst_off + k, src[src_off + k]);
                k = k + 1;
            }
            assert(self.pixels@ =~= copy_row(
                before,
                dst_off as int,
                src@,
                src_off as int,
                len as int,
            ));
            row = row + 1;
        }
        self.dirty = true;
    }

    /// Writes a `w` by `h` block of white pixels whose coverage comes from `src`, one byte per
    /// pixel, to `(x, y)`.
    pub fn blit_alpha(&mut self, x: u32, y: u32, w: u32, h: u32, src: &[u8])
        requires
            h > 0 ==> row_offset(old(self).size as int, x as int, y as int, h - 1) + w * 4
                <= old(self).pixels@.len(),
            h * w <= src@.len(),
            y + h <= usize::MAX,
        ensures
            final(self).pixels@ == alpha_rows(
                old(self).pixels@,
                old(self).size as int,
                x as int,
                y as int,
                w as int,
                src@,
                h as nat,
            ),
            final(self).dirty,
            final(self).size == old(self).size,
            final(self).pen() == old(self).pen(),
            old(self).wf() ==> final(self).wf(),
    {
        let ghost size = self.size as int;
        let mut row: usize = 0;
        while row < h as usize
            invariant
                0 <= row <= h,
                size == self.size,
                self.size == old(self).size,
                y + h <= usize::MAX,
                self.pixels@.len() == old(self).pixels@.len(),
                h > 0 ==> row_offset(size, x as int, y as int, h - 1) + w * 4 <= self.pixels@.len(),
                h * w <= src@.len(),
                self.pixels@ == alpha_rows(
                    old(self).pixels@,
                    size,
                    x as int,
                    y as int,
                    w as int,
                    src@,
                    row as nat,
                ),
                self.pen_x == old(self).pen_x,
                self.pen_y == old(self).pen_y,
                self.row_h == old(self).row_h,
            decreases h - row,
        {
            proof {
                lemma_row_offset_grows(size, x as int, y as int, row as int, h - 1);
                lemma_mul_le(row as int + 1, h as int, w as int);
                assert((row + 1) * w == row * w + w) by (nonlinear_arith);
                assert(row_offset(size, x as int, y as int, row as int) + w * 4 <= self.pixels@.len());
            }
            let plen = self.pixels.len();
            let slen = src.len();
            let ghost start = self.pixels@;
            let base = ((y as usize + row) * self.size as usize + x as usize) * 4;
            let mut col: usize = 0;
            while col < w as usize
                invariant
                    0 <= col <= w,
                    base == row_offset(size, x as int, y as int, row as int),
                    base + w * 4 <= self.pixels@.len(),
                    row * w + w <= src@.len(),
                    plen == self.pixels@.len(),
                    slen == src@.len(),
                    self.pixels@.len() == start.len(),
                    self.pixels@ == alpha_cols(
                        start,
                        size,
                        x as int,
                        y as int,
                        w as int,
                        src@,
                        row as int,
                        col as nat,
                    ),
                    self.size == old(self).size,
                    self.pen_x == old(self).pen_x,
                    self.pen_y == old(self).pen_y,
                    self.row_h == old(self).row_h,
                decreases w - col,
            {
                let dst_off = base + col * 4;
                let a = src[row * w as usize + col];
                self.pixels.set(dst_off, 255);
                self.pixels.set(dst_off + 1, 255);
                self.pixels.set(dst_off + 2, 255);
                self.pixels.set(dst_off + 3, a);
                col = col + 1;
            }
            row = row + 1;
        }
        self.dirty = true;
    }

    /// Empties the atlas: the pen goes back to the corner and every pixel becomes zero.
    pub fn reset(&mut self)
        ensures
            old(self).wf() ==> final(self).wf(),
            final(self).pen_x == 0,
            final(self).pen_y == 0,
            final(self).row_h == 0,
            final(self).dirty,
            final(self).size == old(self).size,
            final(self).pixels@ == Seq::new(old(self).pixels@.len(), |i: int| 0u8),
    {
        self.pen_x = 0;
        self.pen_y = 0;
        self.row_h = 0;
        let mut i: usize = 0;
        while i < self.pixels.len()
            invariant
                i <= self.pixels@.len(),
                self.pixels@.len() == old(self).pixels@.len(),
                forall|j: int| 0 <= j < i ==> self.pixels@[j] == 0u8,
                self.size == old(self).size,
                self.pen_x == 0,
                self.pen_y == 0,
                self.row_h == 0,
            decreases self.pixels@.len() - i,
        {
            self.pixels.set(i, 0);
            i = i + 1;
        }
        assert(self.pixels@ =~= Seq::new(old(self).pixels@.len(), |i: int| 0u8));
        self.dirty = true;
    }
}

} // verus!
