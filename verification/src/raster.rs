use vstd::prelude::*;
use vstd::arithmetic::div_mod::lemma_fundamental_div_mod_converse;

verus! {

/// A pixel of a zone texture: column `i`, row `j`.
#[derive(Debug, Clone, Copy, PartialEq, Eq)]
pub struct Pixel {
    pub i: usize,
    pub j: usize,
}

/// An RGB colour of one byte per channel.
#[derive(Debug, Clone, Copy, PartialEq, Eq)]
pub struct Rgb {
    pub r: u8,
    pub g: u8,
    pub b: u8,
}

/// Channel `c` (0 red, 1 green, 2 blue) of a colour.
pub open spec fn channel(col: Rgb, c: int) -> u8 {
    if c == 0 { col.r } else if c == 1 { col.g } else { col.b }
}

/// The first byte of a pixel in a row-major RGB buffer whose rows start
/// `stride` bytes apart (three bytes per pixel).
pub open spec fn pixel_offset(stride: int, p: Pixel) -> int {
    p.j * stride + p.i * 3
}

/// Whether byte `b` of the buffer belongs to pixel `p`.
pub open spec fn covers(stride: int, p: Pixel, b: int) -> bool {
    pixel_offset(stride, p) <= b < pixel_offset(stride, p) + 3
}

/// The pixel at position `k` of a whole zone of `h` rows: column by column,
/// and within a column row by row.
pub open spec fn zone_pixel(h: int, k: int) -> Pixel {
    Pixel { i: (k / h) as usize, j: (k % h) as usize }
}

/// The pixel at position `k` of the border traversal of a `w` by `h` zone:
/// first the top and bottom row, pixel column by pixel column (top, then
/// bottom); then the left and right column without their corners, row by row
/// (all of the left column, then all of the right column).
pub open spec fn border_pixel(w: int, h: int, k: int) -> Pixel {
    if k < 2 * w {
        Pixel { i: (k / 2) as usize, j: (if k % 2 == 0 { 0 } else { h - 1 }) as usize }
    } else {
        let m: int = k - 2 * w;
        if m < h - 2 {
            Pixel { i: 0, j: (1 + m) as usize }
        } else {
            Pixel { i: (w - 1) as usize, j: (1 + m - (h - 2)) as usize }
        }
    }
}

/// The length of the border traversal of a `w` by `h` zone.
pub open spec fn border_len(w: int, h: int) -> int {
    2 * w + 2 * (if h >= 2 { h - 2 } else { 0 })
}

/// All pixels of a `w` by `h` zone, in the order in which a zone is rendered.
pub fn zone_pixels(w: usize, h: usize) -> (pixels: Vec<Pixel>)
    ensures
        pixels@.len() == w * h,
        forall|k: int| 0 <= k < pixels@.len() ==> #[trigger] pixels@[k] == zone_pixel(h as int, k),
{
    let mut pixels: Vec<Pixel> = Vec::new();
    let mut i: usize = 0;
    while i < w
        invariant
            i <= w,
            pixels@.len() == i * h,
            forall|k: int| 0 <= k < pixels@.len() ==> #[trigger] pixels@[k] == zone_pixel(h as int, k),
        decreases w - i,
    {
        let mut j: usize = 0;
        while j < h
            invariant
                i < w,
                j <= h,
                pixels@.len() == i * h + j,
                forall|k: int| 0 <= k < pixels@.len() ==> #[trigger] pixels@[k] == zone_pixel(h as int, k),
            decreases h - j,
        {
            proof {
                lemma_fundamental_div_mod_converse(i * h + j, h as int, i as int, j as int);
            }
            pixels.push(Pixel { i, j });
            j = j + 1;
        }
        assert((i + 1) * h == i * h + h) by (nonlinear_arith);
        i = i + 1;
    }
    pixels
}

/// The border pixels of a `w` by `h` zone, in the order in which the border
/// of a zone is rendered.
pub fn border_pixels(w: usize, h: usize) -> (pixels: Vec<Pixel>)
    requires
        w >= 1,
        h >= 1,
    ensures
        pixels@.len() == border_len(w as int, h as int),
        forall|k: int| 0 <= k < pixels@.len() ==> #[trigger] pixels@[k] == border_pixel(w as int, h as int, k),
{
    let mut pixels: Vec<Pixel> = Vec::new();
    let mut i: usize = 0;
    while i < w
        invariant
            1 <= w,
            1 <= h,
            i <= w,
            pixels@.len() == 2 * i,
            forall|k: int| 0 <= k < pixels@.len() ==> #[trigger] pixels@[k] == border_pixel(w as int, h as int, k),
        decreases w - i,
    {
        pixels.push(Pixel { i, j: 0 });
        pixels.push(Pixel { i, j: h - 1 });
        i = i + 1;
    }
    let mut side: usize = 0;
    while side < 2
        invariant
            1 <= w,
            1 <= h,
            side <= 2,
            pixels@.len() == 2 * w + side * (if h >= 2 { h - 2 } else { 0 }),
            forall|k: int| 0 <= k < pixels@.len() ==> #[trigger] pixels@[k] == border_pixel(w as int, h as int, k),
        decreases 2 - side,
    {
        let col: usize = if side == 0 { 0 } else { w - 1 };
        let mut j: usize = 1;
        let ghost start: int = pixels@.len() as int;
        while j + 1 < h
            invariant
                1 <= w,
                1 <= h,
                side < 2,
                col == (if side == 0 { 0 } else { w - 1 }),
                1 <= j,
                h >= 2 ==> j <= h - 1,
                h < 2 ==> j == 1,
                    start == 2 * w + side * (if h >= 2 { h - 2 } else { 0 }),
                pixels@.len() == start + (j - 1),
                forall|k: int| 0 <= k < pixels@.len() ==> #[trigger] pixels@[k] == border_pixel(w as int, h as int, k),
            decreases h - j,
        {
            pixels.push(Pixel { i: col, j });
            j = j + 1;
        }
        side = side + 1;
    }
    pixels
}

/// The pixels a zone is rendered at: its border when it is a border ring,
/// else all of it.
pub fn zone_traversal(w: usize, h: usize, border: bool) -> (pixels: Vec<Pixel>)
    requires
        border ==> w >= 1 && h >= 1,
    ensures
        border ==> pixels@.len() == border_len(w as int, h as int),
        border ==> forall|k: int| 0 <= k < pixels@.len() ==> #[trigger] pixels@[k] == border_pixel(w as int, h as int, k),
        !border ==> pixels@.len() == w * h,
        !border ==> forall|k: int| 0 <= k < pixels@.len() ==> #[trigger] pixels@[k] == zone_pixel(h as int, k),
{
    if border {
        border_pixels(w, h)
    } else {
        zone_pixels(w, h)
    }
}

/// Whether pixel `(i, j)` lies on the border of a `w` by `h` zone.
pub open spec fn on_border(w: int, h: int, i: int, j: int) -> bool {
    0 <= i < w && 0 <= j < h && (i == 0 || i == w - 1 || j == 0 || j == h - 1)
}

/// The border traversal of a zone lists only border pixels of the zone, and
/// every border pixel of the zone is listed.
pub proof fn lemma_border_pixels_are_the_border(w: usize, h: usize)
    requires
        w >= 1,
        h >= 1,
    ensures
        forall|k: int| 0 <= k < border_len(w as int, h as int) ==> on_border(w as int, h as int,
            #[trigger] border_pixel(w as int, h as int, k).i as int, border_pixel(w as int, h as int, k).j as int),
        forall|i: int, j: int| #[trigger] on_border(w as int, h as int, i, j) ==>
            exists|k: int| 0 <= k < border_len(w as int, h as int)
                && #[trigger] border_pixel(w as int, h as int, k) == (Pixel { i: i as usize, j: j as usize }),
{
    let wi: int = w as int;
    let hi: int = h as int;
    assert forall|i: int, j: int| #[trigger] on_border(wi, hi, i, j) implies
        exists|k: int| 0 <= k < border_len(wi, hi)
            && #[trigger] border_pixel(wi, hi, k) == (Pixel { i: i as usize, j: j as usize }) by {
        if j == 0 {
            assert(border_pixel(wi, hi, 2 * i) == (Pixel { i: i as usize, j: j as usize }));
        } else if j == hi - 1 {
            assert(border_pixel(wi, hi, 2 * i + 1) == (Pixel { i: i as usize, j: j as usize }));
        } else if i == 0 {
            assert(border_pixel(wi, hi, 2 * wi + (j - 1)) == (Pixel { i: i as usize, j: j as usize }));
        } else {
            assert(border_pixel(wi, hi, 2 * wi + (hi - 2) + (j - 1)) == (Pixel { i: i as usize, j: j as usize }));
        }
    }
}

/// The position of the last among the first `n` pixels that covers byte `b`,
/// or -1 when none does.
pub open spec fn last_cover(stride: int, pixels: Seq<Pixel>, b: int, n: int) -> int
    decreases n,
{
    if n <= 0 {
        -1
    } else if covers(stride, pixels[n - 1], b) {
        n - 1
    } else {
        last_cover(stride, pixels, b, n - 1)
    }
}

/// Byte `b` of a buffer after the first `n` pixels were painted in order, each
/// with its colour: the colour of the last pixel that covers it, or the old
/// byte when no pixel does.
pub open spec fn painted_byte(old: Seq<u8>, stride: int, pixels: Seq<Pixel>, colors: Seq<Rgb>, b: int, n: int) -> u8 {
    let k: int = last_cover(stride, pixels, b, n);
    if k >= 0 {
        channel(colors[k], b - pixel_offset(stride, pixels[k]))
    } else {
        old[b]
    }
}

/// Paints each pixel with its colour, in order, into a row-major RGB buffer
/// whose rows start `stride` bytes apart: bytes `j * stride + 3 * i` to
/// `j * stride + 3 * i + 2` of pixel `(i, j)` get red, green and blue. A byte that several pixels cover
/// ends with the colour of the last of them; the other bytes stay as they were.
pub fn paint(buffer: &mut [u8], stride: usize, pixels: &Vec<Pixel>, colors: &Vec<Rgb>)
    requires
        pixels@.len() == colors@.len(),
        forall|k: int| 0 <= k < pixels@.len() ==> pixel_offset(stride as int, #[trigger] pixels@[k]) + 3 <= old(buffer)@.len(),
    ensures
        final(buffer)@.len() == old(buffer)@.len(),
        forall|b: int| 0 <= b < final(buffer)@.len() ==> #[trigger] final(buffer)@[b] == painted_byte(
            old(buffer)@, stride as int, pixels@, colors@, b, pixels@.len() as int),
{
    let ghost start = buffer@;
    let blen: usize = buffer.len();
    let n: usize = pixels.len();
    let mut k: usize = 0;
    while k < n
        invariant
            n == pixels@.len(),
            n == colors@.len(),
            k <= n,
            buffer@.len() == start.len(),
            start.len() == blen,
            forall|q: int| 0 <= q < pixels@.len() ==> pixel_offset(stride as int, #[trigger] pixels@[q]) + 3 <= start.len(),
            forall|b: int| 0 <= b < buffer@.len() ==> #[trigger] buffer@[b] == painted_byte(
                start, stride as int, pixels@, colors@, b, k as int),
        decreases n - k,
    {
        let p = pixels[k];
        let c = colors[k];
        assert(pixel_offset(stride as int, pixels@[k as int]) + 3 <= start.len());
        assert(p.j * stride >= 0) by (nonlinear_arith);
        let off: usize = p.j * stride + p.i * 3;
        let ghost before = buffer@;
        buffer[off] = c.r;
        buffer[off + 1] = c.g;
        buffer[off + 2] = c.b;
        assert forall|b: int| 0 <= b < buffer@.len() implies #[trigger] buffer@[b] == painted_byte(
            start, stride as int, pixels@, colors@, b, k + 1) by {
            if covers(stride as int, p, b) {
                assert(last_cover(stride as int, pixels@, b, k + 1) == k);
            } else {
                assert(last_cover(stride as int, pixels@, b, k + 1) == last_cover(stride as int, pixels@, b, k as int));
                assert(buffer@[b] == before[b]);
            }
        }
        k = k + 1;
    }
}

proof fn lemma_last_cover_unique(stride: int, pixels: Seq<Pixel>, b: int, n: int, k0: int)
    requires
        0 <= k0 < n <= pixels.len(),
        covers(stride, pixels[k0], b),
        forall|k: int| 0 <= k < n && covers(stride, #[trigger] pixels[k], b) ==> k == k0,
    ensures
        last_cover(stride, pixels, b, n) == k0,
    decreases n,
{
    if n - 1 != k0 {
        lemma_last_cover_unique(stride, pixels, b, n - 1, k0);
    }
}

proof fn lemma_last_cover_none(stride: int, pixels: Seq<Pixel>, b: int, n: int)
    requires
        0 <= n <= pixels.len(),
        forall|k: int| 0 <= k < n ==> !covers(stride, #[trigger] pixels[k], b),
    ensures
        last_cover(stride, pixels, b, n) == -1,
    decreases n,
{
    if n > 0 {
        lemma_last_cover_none(stride, pixels, b, n - 1);
    }
}

proof fn lemma_zone_pixel_bounds(w: int, h: int, k: int)
    requires
        1 <= w <= usize::MAX,
        1 <= h <= usize::MAX,
        0 <= k < w * h,
    ensures
        0 <= zone_pixel(h, k).i < w,
        0 <= zone_pixel(h, k).j < h,
        k == zone_pixel(h, k).i * h + zone_pixel(h, k).j,
        pixel_offset(3 * w, zone_pixel(h, k)) == (zone_pixel(h, k).j * w + zone_pixel(h, k).i) * 3,
        pixel_offset(3 * w, zone_pixel(h, k)) + 3 <= w * h * 3,
{
    let q: int = k / h;
    let r: int = k % h;
    assert(k == q * h + r && 0 <= r < h) by (nonlinear_arith)
        requires h >= 1, q == k / h, r == k % h;
    assert(0 <= q < w) by (nonlinear_arith)
        requires k == q * h + r, 0 <= r < h, 0 <= k < w * h, h >= 1;
    assert((r * w + q) * 3 + 3 <= w * h * 3) by (nonlinear_arith)
        requires 0 <= q < w, 0 <= r < h;
    assert(r * (3 * w) + q * 3 == (r * w + q) * 3) by (nonlinear_arith);
}

proof fn lemma_zone_pixel_at(w: int, h: int, i: int, j: int)
    requires
        0 <= i < w <= usize::MAX,
        0 <= j < h <= usize::MAX,
    ensures
        0 <= i * h + j < w * h,
        zone_pixel(h, i * h + j) == (Pixel { i: i as usize, j: j as usize }),
{
    lemma_fundamental_div_mod_converse(i * h + j, h, i, j);
    assert(i * h + j < w * h) by (nonlinear_arith)
        requires 0 <= i < w, 0 <= j < h;
    assert(0 <= i * h) by (nonlinear_arith)
        requires 0 <= i, 0 <= h;
}

/// Painting the whole traversal of a `w` by `h` zone into a buffer of rows of
/// `w` pixels (a stride of `3 * w` bytes) fits a buffer of `3 * w * h` bytes,
/// gives each pixel `(i, j)` exactly the colour computed at its position in
/// the traversal, and leaves the bytes past the zone as they were.
pub proof fn lemma_zone_paint_exact(old: Seq<u8>, w: usize, h: usize, pixels: Seq<Pixel>, colors: Seq<Rgb>)
    requires
        w >= 1,
        h >= 1,
        pixels.len() == w * h,
        colors.len() == w * h,
        forall|k: int| 0 <= k < pixels.len() ==> #[trigger] pixels[k] == zone_pixel(h as int, k),
        w * h * 3 <= old.len(),
    ensures
        forall|k: int| 0 <= k < pixels.len() ==> pixel_offset(3 * w, #[trigger] pixels[k]) + 3 <= old.len(),
        forall|i: int, j: int, c: int| 0 <= i < w && 0 <= j < h && 0 <= c < 3 ==>
            #[trigger] painted_byte(old, 3 * w, pixels, colors, (j * w + i) * 3 + c, w * h)
                == channel(colors[i * h + j], c),
        forall|b: int| w * h * 3 <= b < old.len() ==>
            #[trigger] painted_byte(old, 3 * w, pixels, colors, b, w * h) == old[b],
{
    let wi: int = w as int;
    let hi: int = h as int;
    let st: int = 3 * wi;
    assert forall|k: int| 0 <= k < pixels.len() implies pixel_offset(st, #[trigger] pixels[k]) + 3 <= old.len() by {
        lemma_zone_pixel_bounds(wi, hi, k);
    }
    assert forall|i: int, j: int, c: int| 0 <= i < w && 0 <= j < h && 0 <= c < 3 implies
        #[trigger] painted_byte(old, st, pixels, colors, (j * w + i) * 3 + c, w * h)
            == channel(colors[i * h + j], c) by {
        let b: int = (j * wi + i) * 3 + c;
        let k0 = i * hi + j;
        lemma_zone_pixel_at(wi, hi, i, j);
        lemma_zone_pixel_bounds(wi, hi, k0);
        assert(pixels[k0] == Pixel { i: i as usize, j: j as usize });
        assert(covers(st, pixels[k0], b));
        assert forall|k: int| 0 <= k < w * h && covers(st, #[trigger] pixels[k], b) implies k == k0 by {
            lemma_zone_pixel_bounds(wi, hi, k);
            let p = pixels[k];
            assert(p.j * wi + p.i == j * wi + i);
            lemma_fundamental_div_mod_converse(j * wi + i, wi, p.j as int, p.i as int);
            lemma_fundamental_div_mod_converse(j * wi + i, wi, j, i);
        }
        lemma_last_cover_unique(st, pixels, b, w * h, k0);
    }
    assert forall|b: int| w * h * 3 <= b < old.len() implies
        #[trigger] painted_byte(old, st, pixels, colors, b, w * h) == old[b] by {
        assert forall|k: int| 0 <= k < w * h implies !covers(st, #[trigger] pixels[k], b) by {
            lemma_zone_pixel_bounds(wi, hi, k);
        }
        lemma_last_cover_none(st, pixels, b, w * h);
    }
}

proof fn lemma_last_cover_concat(stride: int, a: Seq<Pixel>, b: Seq<Pixel>, byte: int, n: int)
    requires
        0 <= n <= b.len(),
    ensures
        last_cover(stride, b, byte, n) >= 0 ==>
            last_cover(stride, a + b, byte, a.len() + n) == a.len() + last_cover(stride, b, byte, n),
        last_cover(stride, b, byte, n) < 0 ==>
            last_cover(stride, a + b, byte, a.len() + n) == last_cover(stride, a, byte, a.len() as int),
        -1 <= last_cover(stride, b, byte, n) < n,
    decreases n,
{
    if n == 0 {
        lemma_last_cover_prefix(stride, a, b, byte, a.len() as int);
    } else {
        assert((a + b)[a.len() + n - 1] == b[n - 1]);
        lemma_last_cover_concat(stride, a, b, byte, n - 1);
    }
}

proof fn lemma_last_cover_prefix(stride: int, a: Seq<Pixel>, b: Seq<Pixel>, byte: int, n: int)
    requires
        0 <= n <= a.len(),
    ensures
        last_cover(stride, a + b, byte, n) == last_cover(stride, a, byte, n),
        -1 <= last_cover(stride, a, byte, n) < n,
    decreases n,
{
    if n > 0 {
        assert((a + b)[n - 1] == a[n - 1]);
        lemma_last_cover_prefix(stride, a, b, byte, n - 1);
    }
}

/// Painting two lists of pixels one after the other gives the same bytes as
/// painting the two lists joined in one go: later pixels paint over earlier
/// ones, across calls as within a call.
pub proof fn lemma_paint_in_two_calls(old: Seq<u8>, stride: int, a: Seq<Pixel>, ca: Seq<Rgb>,
    b: Seq<Pixel>, cb: Seq<Rgb>, byte: int)
    requires
        a.len() == ca.len(),
        b.len() == cb.len(),
        0 <= byte < old.len(),
    ensures
        painted_byte(
            Seq::new(old.len(), |x: int| painted_byte(old, stride, a, ca, x, a.len() as int)),
            stride, b, cb, byte, b.len() as int)
            == painted_byte(old, stride, a + b, ca + cb, byte, (a.len() + b.len()) as int),
{
    let mid = Seq::new(old.len(), |x: int| painted_byte(old, stride, a, ca, x, a.len() as int));
    lemma_last_cover_concat(stride, a, b, byte, b.len() as int);
    lemma_last_cover_prefix(stride, a, b, byte, a.len() as int);
    let kb = last_cover(stride, b, byte, b.len() as int);
    let ka = last_cover(stride, a, byte, a.len() as int);
    if kb >= 0 {
        assert((a + b)[a.len() + kb] == b[kb]);
        assert((ca + cb)[a.len() + kb] == cb[kb]);
    } else {
        assert(mid[byte] == painted_byte(old, stride, a, ca, byte, a.len() as int));
        if ka >= 0 {
            assert((a + b)[ka] == a[ka]);
            assert((ca + cb)[ka] == ca[ka]);
        }
    }
}

} // verus!
