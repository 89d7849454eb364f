//! The small RGBA icons of the interface, drawn pixel by pixel on a square
//! canvas: filled and outlined circles, rectangles and thick lines.
use vstd::prelude::*;

verus! {

// ---------------------------------------------------------------------------
// The canvas
// ---------------------------------------------------------------------------

/// The first byte of pixel `(x, y)` on a canvas `size` pixels wide; each
/// pixel takes four bytes, red, green, blue and alpha, row after row.
pub open spec fn px_index(size: int, x: int, y: int) -> int {
    4 * (y * size + x)
}

/// Whether `(x, y)` lies on a canvas `size` pixels wide and high.
pub open spec fn in_canvas(size: int, x: int, y: int) -> bool {
    0 <= x < size && 0 <= y < size
}

/// The color of pixel `(x, y)`.
pub open spec fn pixel_at(pix: Seq<u8>, size: int, x: int, y: int) -> (u8, u8, u8, u8) {
    let i = px_index(size, x, y);
    (pix[i], pix[i + 1], pix[i + 2], pix[i + 3])
}

/// Whether `pix` is a canvas of `size` by `size` pixels.
pub open spec fn canvas_ok(pix: Seq<u8>, size: int) -> bool {
    &&& 0 <= size <= i32::MAX
    &&& pix.len() == 4 * size * size
    &&& 4 * size * size <= usize::MAX
}

/// The single pixel `(x, y)`.
pub open spec fn single(x: int, y: int) -> spec_fn(int, int) -> bool {
    |px: int, py: int| px == x && py == y
}

/// Whether `(px, py)` lies in the `w` by `h` rectangle with top-left corner
/// `(x, y)`.
pub open spec fn rect_covers(x: int, y: int, w: int, h: int, px: int, py: int) -> bool {
    x <= px < x + w && y <= py < y + h
}

/// The `w` by `h` rectangle with top-left corner `(x, y)`.
pub open spec fn rect_cov(x: int, y: int, w: int, h: int) -> spec_fn(int, int) -> bool {
    |px: int, py: int| rect_covers(x, y, w, h, px, py)
}

/// The pixels of either coverage.
pub open spec fn union_cov(a: spec_fn(int, int) -> bool, b: spec_fn(int, int) -> bool) -> spec_fn(int, int) -> bool {
    |px: int, py: int| a(px, py) || b(px, py)
}

/// No pixel.
pub open spec fn no_cov() -> spec_fn(int, int) -> bool {
    |px: int, py: int| false
}

/// Whether `new` is `old` with the pixels that `covered` picks painted `c`
/// and every other pixel unchanged.
pub open spec fn painted_as(
    new: Seq<u8>,
    old: Seq<u8>,
    size: int,
    covered: spec_fn(int, int) -> bool,
    c: (u8, u8, u8, u8),
) -> bool {
    &&& new.len() == old.len()
    &&& forall|x: int, y: int|
        in_canvas(size, x, y) ==> #[trigger] pixel_at(new, size, x, y) == (if covered(x, y) {
            c
        } else {
            pixel_at(old, size, x, y)
        })
}

proof fn lemma_px_index_bounds(size: int, x: int, y: int)
    requires
        in_canvas(size, x, y),
    ensures
        0 <= px_index(size, x, y),
        px_index(size, x, y) + 3 < 4 * size * size,
{
    assert(4 * size * size == 4 * (size * size)) by (nonlinear_arith);
    assert(y * size + x <= (size - 1) * size + (size - 1)) by (nonlinear_arith)
        requires
            0 <= x < size,
            0 <= y < size,
    ;
    assert((size - 1) * size + (size - 1) == size * size - 1) by (nonlinear_arith);
    assert(0 <= y * size) by (nonlinear_arith)
        requires
            0 <= y,
            0 <= size,
    ;
}

proof fn lemma_px_index_apart(size: int, x: int, y: int, u: int, v: int)
    requires
        in_canvas(size, x, y),
        in_canvas(size, u, v),
        x != u || y != v,
    ensures
        px_index(size, x, y) + 4 <= px_index(size, u, v) || px_index(size, u, v) + 4 <= px_index(
            size,
            x,
            y,
        ),
{
    if y == v {
    } else if y < v {
        assert(y * size + x < v * size + u) by (nonlinear_arith)
            requires
                0 <= x < size,
                0 <= u < size,
                0 <= y < v,
        {
            assert((y + 1) * size <= v * size);
        }
    } else {
        assert(v * size + u < y * size + x) by (nonlinear_arith)
            requires
                0 <= x < size,
                0 <= u < size,
                0 <= v < y,
        {
            assert((v + 1) * size <= y * size);
        }
    }
}

/// Painting with `c1` over the pixels of `cov1`, then with the same color
/// over those of `cov2`, paints their union.
proof fn lemma_paint_union(
    a: Seq<u8>,
    b: Seq<u8>,
    old: Seq<u8>,
    size: int,
    cov1: spec_fn(int, int) -> bool,
    cov2: spec_fn(int, int) -> bool,
    c: (u8, u8, u8, u8),
)
    requires
        painted_as(a, old, size, cov1, c),
        painted_as(b, a, size, cov2, c),
    ensures
        painted_as(b, old, size, union_cov(cov1, cov2), c),
{
    assert forall|x: int, y: int| in_canvas(size, x, y) implies #[trigger] pixel_at(b, size, x, y) == (if cov1(x, y) || cov2(x, y) {
        c
    } else {
        pixel_at(old, size, x, y)
    }) by {
        assert(pixel_at(b, size, x, y) == (if cov2(x, y) { c } else { pixel_at(a, size, x, y) }));
        assert(pixel_at(a, size, x, y) == (if cov1(x, y) { c } else { pixel_at(old, size, x, y) }));
    }
}

/// The same painting, described by a coverage that agrees on the canvas.
proof fn lemma_paint_same(
    new: Seq<u8>,
    old: Seq<u8>,
    size: int,
    cov1: spec_fn(int, int) -> bool,
    cov2: spec_fn(int, int) -> bool,
    c: (u8, u8, u8, u8),
)
    requires
        painted_as(new, old, size, cov1, c),
        forall|x: int, y: int| in_canvas(size, x, y) ==> cov1(x, y) == cov2(x, y),
    ensures
        painted_as(new, old, size, cov2, c),
{
    assert forall|x: int, y: int| in_canvas(size, x, y) implies #[trigger] pixel_at(new, size, x, y) == (if cov2(x, y) {
        c
    } else {
        pixel_at(old, size, x, y)
    }) by {
        assert(pixel_at(new, size, x, y) == (if cov1(x, y) { c } else { pixel_at(old, size, x, y) }));
    }
}

/// Nothing painted.
proof fn lemma_paint_nothing(old: Seq<u8>, size: int, c: (u8, u8, u8, u8))
    ensures
        painted_as(old, old, size, no_cov(), c),
{
}

/// Paints pixel `(x, y)` with `(r, g, b, a)` when it lies on the canvas.
pub fn set_pixel(pixels: &mut Vec<u8>, size: usize, x: i32, y: i32, r: u8, g: u8, b: u8, a: u8)
    requires
        canvas_ok(old(pixels)@, size as int),
    ensures
        painted_as(final(pixels)@, old(pixels)@, size as int, single(x as int, y as int), (r, g, b, a)),
{
    let ghost old_pix = pixels@;
    let ghost cov = single(x as int, y as int);
    if x >= 0 && x < size as i32 && y >= 0 && y < size as i32 {
        proof {
            lemma_px_index_bounds(size as int, x as int, y as int);
            assert(y * size + x <= size * size) by (nonlinear_arith)
                requires
                    0 <= x < size,
                    0 <= y < size,
            {
                assert(y * size + x <= (size - 1) * size + size);
            }
        }
        let idx = ((y as usize) * size + (x as usize)) * 4;
        assert(idx == px_index(size as int, x as int, y as int));
        pixels.set(idx, r);
        pixels.set(idx + 1, g);
        pixels.set(idx + 2, b);
        pixels.set(idx + 3, a);
        proof {
            assert forall|px: int, py: int| in_canvas(size as int, px, py) implies #[trigger] pixel_at(pixels@, size as int, px, py)
                == (if cov(px, py) { (r, g, b, a) } else { pixel_at(old_pix, size as int, px, py) }) by {
                if !(px == x && py == y) {
                    lemma_px_index_apart(size as int, px, py, x as int, y as int);
                    lemma_px_index_bounds(size as int, px, py);
                }
            }
        }
    } else {
        proof {
            assert forall|px: int, py: int| in_canvas(size as int, px, py) implies #[trigger] pixel_at(pixels@, size as int, px, py)
                == (if cov(px, py) { (r, g, b, a) } else { pixel_at(old_pix, size as int, px, py) }) by {}
        }
    }
}

/// Paints the `w` by `h` rectangle with top-left corner `(x, y)`.
pub fn draw_rect(pixels: &mut Vec<u8>, size: usize, x: i32, y: i32, w: i32, h: i32, r: u8, g: u8, b: u8, a: u8)
    requires
        canvas_ok(old(pixels)@, size as int),
        i32::MIN <= x + w <= i32::MAX,
        i32::MIN <= y + h <= i32::MAX,
    ensures
        canvas_ok(final(pixels)@, size as int),
        painted_as(final(pixels)@, old(pixels)@, size as int, rect_cov(x as int, y as int, w as int, h as int), (r, g, b, a)),
{
    let ghost old_pix = pixels@;
    let ghost c = (r, g, b, a);
    let mut dy: i32 = 0;
    proof {
        lemma_paint_nothing(old_pix, size as int, c);
        lemma_paint_same(old_pix, old_pix, size as int, no_cov(), rect_cov(x as int, y as int, w as int, 0), c);
    }
    while dy < h
        invariant
            canvas_ok(pixels@, size as int),
            old_pix.len() == pixels@.len(),
            c == (r, g, b, a),
            i32::MIN <= x + w <= i32::MAX,
            i32::MIN <= y + h <= i32::MAX,
            0 <= dy,
            dy < h || dy == 0 || dy == h,
            painted_as(pixels@, old_pix, size as int, rect_cov(x as int, y as int, w as int, dy as int), c),
        decreases h - dy,
    {
        let ghost row_start = pixels@;
        let mut dx: i32 = 0;
        proof {
            lemma_paint_nothing(row_start, size as int, c);
            lemma_paint_same(row_start, row_start, size as int, no_cov(), rect_cov(x as int, (y + dy) as int, 0, 1), c);
        }
        while dx < w
            invariant
                canvas_ok(pixels@, size as int),
                row_start.len() == pixels@.len(),
                c == (r, g, b, a),
                i32::MIN <= x + w <= i32::MAX,
                0 <= dy < h,
                i32::MIN <= y + h <= i32::MAX,
                0 <= dx,
                dx < w || dx == 0 || dx == w,
                painted_as(pixels@, row_start, size as int, rect_cov(x as int, (y + dy) as int, dx as int, 1), c),
            decreases w - dx,
        {
            let ghost before = pixels@;
            set_pixel(pixels, size, x + dx, y + dy, r, g, b, a);
            proof {
                lemma_paint_union(before, pixels@, row_start, size as int,
                    rect_cov(x as int, (y + dy) as int, dx as int, 1),
                    single((x + dx) as int, (y + dy) as int), c);
                lemma_paint_same(pixels@, row_start, size as int,
                    union_cov(rect_cov(x as int, (y + dy) as int, dx as int, 1), single((x + dx) as int, (y + dy) as int)),
                    rect_cov(x as int, (y + dy) as int, dx + 1, 1), c);
            }
            dx = dx + 1;
        }
        proof {
            lemma_paint_union(row_start, pixels@, old_pix, size as int,
                rect_cov(x as int, y as int, w as int, dy as int),
                rect_cov(x as int, (y + dy) as int, dx as int, 1), c);
            lemma_paint_same(pixels@, old_pix, size as int,
                union_cov(rect_cov(x as int, y as int, w as int, dy as int), rect_cov(x as int, (y + dy) as int, dx as int, 1)),
                rect_cov(x as int, y as int, w as int, dy + 1), c);
        }
        dy = dy + 1;
    }
    proof {
        lemma_paint_same(pixels@, old_pix, size as int,
            rect_cov(x as int, y as int, w as int, dy as int),
            rect_cov(x as int, y as int, w as int, h as int), c);
    }
}

/// Whether offset `(dx, dy)` from a center lies within `r` in both
/// directions and its squared distance is between `lo` and `r * r`.
pub open spec fn in_band(r: int, lo: int, dx: int, dy: int) -> bool {
    -r <= dx <= r && -r <= dy <= r && lo <= dx * dx + dy * dy && dx * dx + dy * dy <= r * r
}

/// The pixels whose offset from `(cx, cy)` is in the band (see `in_band`).
pub open spec fn band_cov(cx: int, cy: int, r: int, lo: int) -> spec_fn(int, int) -> bool {
    |px: int, py: int| in_band(r, lo, px - cx, py - cy)
}

/// The band's pixels in the rows above offset `ny`.
pub open spec fn band_rows(cx: int, cy: int, r: int, lo: int, ny: int) -> spec_fn(int, int) -> bool {
    |px: int, py: int| in_band(r, lo, px - cx, py - cy) && py - cy < ny
}

/// The band's pixels in the row at offset `dy`, left of offset `nx`.
pub open spec fn band_row(cx: int, cy: int, r: int, lo: int, dy: int, nx: int) -> spec_fn(int, int) -> bool {
    |px: int, py: int| in_band(r, lo, px - cx, py - cy) && py - cy == dy && px - cx < nx
}

/// The filled circle of radius `r` around `(cx, cy)`.
pub open spec fn disk_cov(cx: int, cy: int, r: int) -> spec_fn(int, int) -> bool {
    band_cov(cx, cy, r, 0)
}

/// The ring around `(cx, cy)` between radius `r - t` and `r`.
pub open spec fn ring_cov(cx: int, cy: int, r: int, t: int) -> spec_fn(int, int) -> bool {
    band_cov(cx, cy, r, (r - t) * (r - t))
}

/// Whether a band around `(cx, cy)` of radius `r` can be drawn without
/// overflow.
pub open spec fn band_fits(cx: int, cy: int, r: int) -> bool {
    &&& i32::MIN < r <= 32767
    &&& r >= 0 ==> i32::MIN <= cx - r && cx + r <= i32::MAX && i32::MIN <= cy - r && cy + r <= i32::MAX
}

/// Paints the pixels whose offset from `(cx, cy)` is in the band (see
/// `in_band`), row by row.
fn draw_band(pixels: &mut Vec<u8>, size: usize, cx: i32, cy: i32, radius: i32, lo: i32, r: u8, g: u8, b: u8, a: u8)
    requires
        canvas_ok(old(pixels)@, size as int),
        band_fits(cx as int, cy as int, radius as int),
    ensures
        canvas_ok(final(pixels)@, size as int),
        painted_as(final(pixels)@, old(pixels)@, size as int, band_cov(cx as int, cy as int, radius as int, lo as int), (r, g, b, a)),
{
    let ghost old_pix = pixels@;
    let ghost c = (r, g, b, a);
    let ghost (ci, cj, ri, li) = (cx as int, cy as int, radius as int, lo as int);
    proof {
        lemma_paint_nothing(old_pix, size as int, c);
        lemma_paint_same(old_pix, old_pix, size as int, no_cov(), band_rows(ci, cj, ri, li, -ri), c);
    }
    if radius < 0 {
        proof {
            lemma_paint_same(old_pix, old_pix, size as int, no_cov(), band_cov(ci, cj, ri, li), c);
        }
        return;
    }
    let mut dy: i32 = -radius;
    while dy <= radius
        invariant
            canvas_ok(pixels@, size as int),
            old_pix.len() == pixels@.len(),
            c == (r, g, b, a),
            ci == cx && cj == cy && ri == radius && li == lo,
            band_fits(cx as int, cy as int, radius as int),
            0 <= radius,
            -radius <= dy <= radius + 1,
            painted_as(pixels@, old_pix, size as int, band_rows(ci, cj, ri, li, dy as int), c),
        decreases radius + 1 - dy,
    {
        let ghost row_start = pixels@;
        let mut dx: i32 = -radius;
        proof {
            lemma_paint_nothing(row_start, size as int, c);
            lemma_paint_same(row_start, row_start, size as int, no_cov(), band_row(ci, cj, ri, li, dy as int, -ri), c);
        }
        while dx <= radius
            invariant
                canvas_ok(pixels@, size as int),
                row_start.len() == pixels@.len(),
                c == (r, g, b, a),
                ci == cx && cj == cy && ri == radius && li == lo,
                band_fits(cx as int, cy as int, radius as int),
                0 <= radius,
                -radius <= dy <= radius,
                -radius <= dx <= radius + 1,
                painted_as(pixels@, row_start, size as int, band_row(ci, cj, ri, li, dy as int, dx as int), c),
            decreases radius + 1 - dx,
        {
            proof {
                assert(0 <= dx * dx <= radius * radius) by (nonlinear_arith)
                    requires -radius <= dx <= radius;
                assert(0 <= dy * dy <= radius * radius) by (nonlinear_arith)
                    requires -radius <= dy <= radius;
                assert(radius * radius <= 32767 * 32767) by (nonlinear_arith)
                    requires 0 <= radius <= 32767;
            }
            let d2 = dx * dx + dy * dy;
            if lo <= d2 && d2 <= radius * radius {
                let ghost before = pixels@;
                set_pixel(pixels, size, cx + dx, cy + dy, r, g, b, a);
                proof {
                    lemma_paint_union(before, pixels@, row_start, size as int,
                        band_row(ci, cj, ri, li, dy as int, dx as int),
                        single((cx + dx) as int, (cy + dy) as int), c);
                    lemma_paint_same(pixels@, row_start, size as int,
                        union_cov(band_row(ci, cj, ri, li, dy as int, dx as int), single((cx + dx) as int, (cy + dy) as int)),
                        band_row(ci, cj, ri, li, dy as int, dx + 1), c);
                }
            } else {
                proof {
                    lemma_paint_same(pixels@, row_start, size as int,
                        band_row(ci, cj, ri, li, dy as int, dx as int),
                        band_row(ci, cj, ri, li, dy as int, dx + 1), c);
                }
            }
            dx = dx + 1;
        }
        proof {
            lemma_paint_union(row_start, pixels@, old_pix, size as int,
                band_rows(ci, cj, ri, li, dy as int),
                band_row(ci, cj, ri, li, dy as int, dx as int), c);
            lemma_paint_same(pixels@, old_pix, size as int,
                union_cov(band_rows(ci, cj, ri, li, dy as int), band_row(ci, cj, ri, li, dy as int, dx as int)),
                band_rows(ci, cj, ri, li, dy + 1), c);
        }
        dy = dy + 1;
    }
    proof {
        lemma_paint_same(pixels@, old_pix, size as int,
            band_rows(ci, cj, ri, li, dy as int),
            band_cov(ci, cj, ri, li), c);
    }
}

/// Paints the filled circle of radius `radius` around `(cx, cy)`.
pub fn draw_circle(pixels: &mut Vec<u8>, size: usize, cx: i32, cy: i32, radius: i32, r: u8, g: u8, b: u8, a: u8)
    requires
        canvas_ok(old(pixels)@, size as int),
        band_fits(cx as int, cy as int, radius as int),
    ensures
        canvas_ok(final(pixels)@, size as int),
        painted_as(final(pixels)@, old(pixels)@, size as int, disk_cov(cx as int, cy as int, radius as int), (r, g, b, a)),
{
    draw_band(pixels, size, cx, cy, radius, 0, r, g, b, a);
}

/// Paints the ring of width `thickness` inside radius `radius` around
/// `(cx, cy)`.
pub fn draw_circle_outline(pixels: &mut Vec<u8>, size: usize, cx: i32, cy: i32, radius: i32, thickness: i32, r: u8, g: u8, b: u8, a: u8)
    requires
        canvas_ok(old(pixels)@, size as int),
        band_fits(cx as int, cy as int, radius as int),
        (radius - thickness) * (radius - thickness) <= i32::MAX,
    ensures
        canvas_ok(final(pixels)@, size as int),
        painted_as(final(pixels)@, old(pixels)@, size as int, ring_cov(cx as int, cy as int, radius as int, thickness as int), (r, g, b, a)),
{
    proof {
        assert(0 <= (radius - thickness) * (radius - thickness)) by (nonlinear_arith);
        assert(-46341 < radius - thickness < 46341) by (nonlinear_arith)
            requires (radius - thickness) * (radius - thickness) <= i32::MAX;
    }
    let inner_r2 = (radius - thickness) * (radius - thickness);
    draw_band(pixels, size, cx, cy, radius, inner_r2, r, g, b, a);
}

/// `t / 2` rounded toward zero, as integer division does.
pub open spec fn trunc_half(t: int) -> int {
    if t >= 0 {
        t / 2
    } else {
        -((-t) / 2)
    }
}

/// One step of Bresenham's walk from `(x, y)` with error term `err`, for
/// distances `dx >= 0` and `dy <= 0` and directions `sx`, `sy`.
pub open spec fn line_step(x: int, y: int, err: int, dx: int, dy: int, sx: int, sy: int) -> (int, int, int) {
    let e2 = 2 * err;
    let (err1, x1) = if e2 >= dy {
        (err + dy, x + sx)
    } else {
        (err, x)
    };
    if e2 <= dx {
        (x1, y + sy, err1 + dx)
    } else {
        (x1, y, err1)
    }
}

/// The points Bresenham's walk visits from `(x, y)` until it reaches
/// `(tx, ty)`, taking at most `fuel` steps.
pub open spec fn line_points(x: int, y: int, err: int, tx: int, ty: int, dx: int, dy: int, sx: int, sy: int, fuel: nat) -> Seq<(int, int)>
    decreases fuel,
{
    if fuel == 0 || (x == tx && y == ty) {
        seq![(x, y)]
    } else {
        let (nx, ny, ne) = line_step(x, y, err, dx, dy, sx, sy);
        seq![(x, y)] + line_points(nx, ny, ne, tx, ty, dx, dy, sx, sy, (fuel - 1) as nat)
    }
}

/// The distance terms and directions of the walk from `(x0, y0)` to `(x1, y1)`.
pub open spec fn line_dx(x0: int, x1: int) -> int {
    if x1 >= x0 { x1 - x0 } else { x0 - x1 }
}

pub open spec fn line_dy(y0: int, y1: int) -> int {
    if y1 >= y0 { y0 - y1 } else { y1 - y0 }
}

pub open spec fn line_dir(a: int, b: int) -> int {
    if a < b { 1 } else { -1 }
}

/// The points of the line from `(x0, y0)` to `(x1, y1)`, as Bresenham's
/// algorithm walks it.
pub open spec fn bresenham(x0: int, y0: int, x1: int, y1: int) -> Seq<(int, int)> {
    let dx = line_dx(x0, x1);
    let dy = line_dy(y0, y1);
    line_points(x0, y0, dx + dy, x1, y1, dx, dy, line_dir(x0, x1), line_dir(y0, y1), (dx - dy) as nat)
}

/// Whether `(px, py)` is on the cross of arms `h` centred on `p`.
pub open spec fn cross_covers(p: (int, int), h: int, px: int, py: int) -> bool {
    (py == p.1 && p.0 - h <= px <= p.0 + h) || (px == p.0 && p.1 - h <= py <= p.1 + h)
}

/// The pixels on the crosses centred on the first `n` points of `pts`.
pub open spec fn crosses_cov(pts: Seq<(int, int)>, n: int, h: int) -> spec_fn(int, int) -> bool {
    |px: int, py: int| exists|k: int| 0 <= k < n && k < pts.len() && #[trigger] cross_covers(pts[k], h, px, py)
}

/// The thick line from `(x0, y0)` to `(x1, y1)`: a cross with arms of
/// `thickness / 2` pixels at each point of the walk.
pub open spec fn line_cov(x0: int, y0: int, x1: int, y1: int, thickness: int) -> spec_fn(int, int) -> bool {
    crosses_cov(bresenham(x0, y0, x1, y1), bresenham(x0, y0, x1, y1).len() as int, trunc_half(thickness))
}

/// Whether a coordinate is small enough for the walk's arithmetic.
pub open spec fn line_coord_ok(v: int) -> bool {
    -0x1000_0000 < v < 0x1000_0000
}

/// The walk never passes its end point.
proof fn lemma_walk_step(dx: int, dy: int, kx: int, ky: int, err: int)
    requires
        dx >= 0,
        dy <= 0,
        0 <= kx <= dx,
        0 <= ky <= -dy,
        err == dx * (ky + 1) + dy * (kx + 1),
        !(kx == dx && ky == -dy),
    ensures
        2 * err >= dy ==> kx < dx,
        2 * err <= dx ==> ky < -dy,
{
    if kx == dx {
        assert(dx * (ky + 1) <= dx * (-dy)) by (nonlinear_arith)
            requires dx >= 0, ky + 1 <= -dy;
        assert(dy * (kx + 1) == dy * dx + dy) by (nonlinear_arith)
            requires kx == dx;
        assert(dx * (-dy) == -(dy * dx)) by (nonlinear_arith);
    }
    if ky == -dy {
        assert(dy * (kx + 1) >= dy * dx) by (nonlinear_arith)
            requires dy <= 0, kx + 1 <= dx;
        assert(dx * (ky + 1) == dx * (-dy) + dx) by (nonlinear_arith)
            requires ky == -dy;
        assert(dx * (-dy) == -(dy * dx)) by (nonlinear_arith);
    }
}

/// Paints pixel `(x + t, y)` and `(x, y + t)` for `t` from `-h` to `h`.
fn draw_cross(pixels: &mut Vec<u8>, size: usize, x: i32, y: i32, h: i32, r: u8, g: u8, b: u8, a: u8)
    requires
        canvas_ok(old(pixels)@, size as int),
        line_coord_ok(x as int),
        line_coord_ok(y as int),
        -0x4000_0000 <= h <= 0x4000_0000,
    ensures
        canvas_ok(final(pixels)@, size as int),
        painted_as(final(pixels)@, old(pixels)@, size as int, |px: int, py: int| cross_covers((x as int, y as int), h as int, px, py), (r, g, b, a)),
{
    let ghost old_pix = pixels@;
    let ghost c = (r, g, b, a);
    let ghost cross_upto = |n: int| |px: int, py: int| (py == y && -h <= px - x < n) || (px == x && -h <= py - y < n);
    proof {
        lemma_paint_nothing(old_pix, size as int, c);
        lemma_paint_same(old_pix, old_pix, size as int, no_cov(), cross_upto(-h as int), c);
    }
    if h < 0 {
        proof {
            lemma_paint_same(old_pix, old_pix, size as int, cross_upto(-h as int),
                |px: int, py: int| cross_covers((x as int, y as int), h as int, px, py), c);
        }
        return;
    }
    let mut t: i32 = -h;
    while t <= h
        invariant
            canvas_ok(pixels@, size as int),
            old_pix.len() == pixels@.len(),
            c == (r, g, b, a),
            line_coord_ok(x as int),
            line_coord_ok(y as int),
            0 <= h <= 0x4000_0000,
            -h <= t <= h + 1,
            cross_upto == (|n: int| |px: int, py: int| (py == y && -h <= px - x < n) || (px == x && -h <= py - y < n)),
            painted_as(pixels@, old_pix, size as int, cross_upto(t as int), c),
        decreases h + 1 - t,
    {
        let ghost p0 = pixels@;
        set_pixel(pixels, size, x + t, y, r, g, b, a);
        let ghost p1 = pixels@;
        set_pixel(pixels, size, x, y + t, r, g, b, a);
        proof {
            lemma_paint_union(p0, p1, old_pix, size as int, cross_upto(t as int), single((x + t) as int, y as int), c);
            lemma_paint_union(p1, pixels@, old_pix, size as int,
                union_cov(cross_upto(t as int), single((x + t) as int, y as int)), single(x as int, (y + t) as int), c);
            lemma_paint_same(pixels@, old_pix, size as int,
                union_cov(union_cov(cross_upto(t as int), single((x + t) as int, y as int)), single(x as int, (y + t) as int)),
                cross_upto(t + 1), c);
        }
        t = t + 1;
    }
    proof {
        lemma_paint_same(pixels@, old_pix, size as int, cross_upto(t as int),
            |px: int, py: int| cross_covers((x as int, y as int), h as int, px, py), c);
    }
}

proof fn lemma_line_points_nonempty(x: int, y: int, err: int, tx: int, ty: int, dx: int, dy: int, sx: int, sy: int, fuel: nat)
    ensures
        line_points(x, y, err, tx, ty, dx, dy, sx, sy, fuel).len() >= 1,
        line_points(x, y, err, tx, ty, dx, dy, sx, sy, fuel)[0] == (x, y),
{
}

proof fn lemma_crosses_extend(pts: Seq<(int, int)>, k: int, h: int)
    requires
        0 <= k < pts.len(),
    ensures
        forall|px: int, py: int|
            #![trigger crosses_cov(pts, k + 1, h)(px, py)]
            (crosses_cov(pts, k, h)(px, py) || cross_covers(pts[k], h, px, py)) == crosses_cov(pts, k + 1, h)(px, py),
{
    assert forall|px: int, py: int|
        #![trigger crosses_cov(pts, k + 1, h)(px, py)]
        (crosses_cov(pts, k, h)(px, py) || cross_covers(pts[k], h, px, py)) == crosses_cov(pts, k + 1, h)(px, py) by {
        if crosses_cov(pts, k + 1, h)(px, py) {
            let j = choose|j: int| 0 <= j < k + 1 && j < pts.len() && #[trigger] cross_covers(pts[j], h, px, py);
            if j < k {
                assert(crosses_cov(pts, k, h)(px, py));
            }
        }
        if crosses_cov(pts, k, h)(px, py) {
            let j = choose|j: int| 0 <= j < k && j < pts.len() && #[trigger] cross_covers(pts[j], h, px, py);
            assert(0 <= j < k + 1 && j < pts.len() && cross_covers(pts[j], h, px, py));
        }
        if cross_covers(pts[k], h, px, py) {
            assert(0 <= k < k + 1 && k < pts.len() && cross_covers(pts[k], h, px, py));
        }
    }
}

/// Paints the thick line from `(x0, y0)` to `(x1, y1)`: Bresenham's walk,
/// with a cross of arms `thickness / 2` at each point (see `line_cov`).
pub fn draw_line(pixels: &mut Vec<u8>, size: usize, x0: i32, y0: i32, x1: i32, y1: i32, thickness: i32, r: u8, g: u8, b: u8, a: u8)
    requires
        canvas_ok(old(pixels)@, size as int),
        line_coord_ok(x0 as int),
        line_coord_ok(y0 as int),
        line_coord_ok(x1 as int),
        line_coord_ok(y1 as int),
    ensures
        canvas_ok(final(pixels)@, size as int),
        painted_as(final(pixels)@, old(pixels)@, size as int, line_cov(x0 as int, y0 as int, x1 as int, y1 as int, thickness as int), (r, g, b, a)),
{
    let ghost old_pix = pixels@;
    let ghost c = (r, g, b, a);
    let dx: i32 = if x1 >= x0 { x1 - x0 } else { x0 - x1 };
    let dy: i32 = if y1 >= y0 { y0 - y1 } else { y1 - y0 };
    let sx: i32 = if x0 < x1 { 1 } else { -1 };
    let sy: i32 = if y0 < y1 { 1 } else { -1 };
    let h: i32 = thickness / 2;
    assert(h == trunc_half(thickness as int));
    let ghost pts = bresenham(x0 as int, y0 as int, x1 as int, y1 as int);
    let ghost hh = h as int;
    let mut err: i32 = dx + dy;
    let mut x: i32 = x0;
    let mut y: i32 = y0;
    let ghost mut kx: int = 0;
    let ghost mut ky: int = 0;
    let ghost mut k: int = 0;
    let mut done = false;
    proof {
        lemma_paint_nothing(old_pix, size as int, c);
        lemma_paint_same(old_pix, old_pix, size as int, no_cov(), crosses_cov(pts, 0, hh), c);
        assert(pts.skip(0) =~= pts);
        assert(dx * (0 + 1) + dy * (0 + 1) == dx + dy) by (nonlinear_arith);
    }
    while !done
        invariant
            canvas_ok(pixels@, size as int),
            old_pix.len() == pixels@.len(),
            c == (r, g, b, a),
            line_coord_ok(x0 as int),
            line_coord_ok(y0 as int),
            line_coord_ok(x1 as int),
            line_coord_ok(y1 as int),
            dx == line_dx(x0 as int, x1 as int),
            dy == line_dy(y0 as int, y1 as int),
            sx == line_dir(x0 as int, x1 as int),
            sy == line_dir(y0 as int, y1 as int),
            hh == h,
            -0x4000_0000 <= h <= 0x4000_0000,
            pts == bresenham(x0 as int, y0 as int, x1 as int, y1 as int),
            done ==> painted_as(pixels@, old_pix, size as int, crosses_cov(pts, pts.len() as int, hh), c),
            !done ==> x == x0 + sx * kx,
            !done ==> y == y0 + sy * ky,
            !done ==> 0 <= kx <= dx,
            !done ==> 0 <= ky <= -dy,
            !done ==> err == dx * (ky + 1) + dy * (kx + 1),
            !done ==> 2 * dy <= err <= 2 * dx,
            !done ==> 0 <= k <= kx + ky,
            !done ==> k < pts.len(),
            !done ==> pts.skip(k) == line_points(x as int, y as int, err as int, x1 as int, y1 as int, dx as int, dy as int, sx as int, sy as int, (dx - dy - k) as nat),
            !done ==> painted_as(pixels@, old_pix, size as int, crosses_cov(pts, k, hh), c),
        decreases (dx - kx) + (-dy - ky) + (if done { 0int } else { 1int }),
    {
        let ghost before = pixels@;
        proof {
            assert(pts.skip(k)[0] == (x as int, y as int));
            assert(pts[k] == pts.skip(k)[0]);
        }
        draw_cross(pixels, size, x, y, h, r, g, b, a);
        proof {
            lemma_paint_union(before, pixels@, old_pix, size as int, crosses_cov(pts, k, hh),
                |px: int, py: int| cross_covers((x as int, y as int), h as int, px, py), c);
            lemma_crosses_extend(pts, k, hh);
            lemma_paint_same(pixels@, old_pix, size as int,
                union_cov(crosses_cov(pts, k, hh), |px: int, py: int| cross_covers((x as int, y as int), h as int, px, py)),
                crosses_cov(pts, k + 1, hh), c);
        }
        if x == x1 && y == y1 {
            proof {
                assert(pts.skip(k).len() == 1);
                assert(pts.len() == k + 1);
            }
            done = true;
        } else {
            proof {
                assert(!(kx == dx && ky == -dy)) by {
                    if kx == dx && ky == -dy {
                        assert(x == x1 && y == y1);
                    }
                }
                lemma_walk_step(dx as int, dy as int, kx, ky, err as int);
                assert(dx - dy - k > 0);
            }
            let ghost step = line_step(x as int, y as int, err as int, dx as int, dy as int, sx as int, sy as int);
            let e2 = 2 * err;
            if e2 >= dy {
                err = err + dy;
                x = x + sx;
                proof {
                    assert(dy * (kx + 1 + 1) == dy * (kx + 1) + dy) by (nonlinear_arith);
                    kx = kx + 1;
                }
            }
            if e2 <= dx {
                err = err + dx;
                y = y + sy;
                proof {
                    assert(dx * (ky + 1 + 1) == dx * (ky + 1) + dx) by (nonlinear_arith);
                    ky = ky + 1;
                }
            }
            proof {
                assert(step == (x as int, y as int, err as int));
                assert(pts.skip(k + 1) =~= pts.skip(k).drop_first());
                lemma_line_points_nonempty(x as int, y as int, err as int, x1 as int, y1 as int, dx as int, dy as int, sx as int, sy as int, (dx - dy - k - 1) as nat);
                k = k + 1;
            }
        }
    }
}

// ---------------------------------------------------------------------------
// Images and icons
// ---------------------------------------------------------------------------

/// `base` with the pixels of `cov` in color `col`.
pub open spec fn over(
    base: spec_fn(int, int) -> (u8, u8, u8, u8),
    cov: spec_fn(int, int) -> bool,
    col: (u8, u8, u8, u8),
) -> spec_fn(int, int) -> (u8, u8, u8, u8) {
    |x: int, y: int| if cov(x, y) { col } else { base(x, y) }
}

/// A fully transparent image.
pub open spec fn blank() -> spec_fn(int, int) -> (u8, u8, u8, u8) {
    |x: int, y: int| (0u8, 0u8, 0u8, 0u8)
}

/// Whether every pixel of the canvas has the color `img` gives it.
pub open spec fn shows(pix: Seq<u8>, size: int, img: spec_fn(int, int) -> (u8, u8, u8, u8)) -> bool {
    forall|x: int, y: int| in_canvas(size, x, y) ==> #[trigger] pixel_at(pix, size, x, y) == img(x, y)
}

proof fn lemma_shows_paint(
    a: Seq<u8>,
    b: Seq<u8>,
    size: int,
    img: spec_fn(int, int) -> (u8, u8, u8, u8),
    cov: spec_fn(int, int) -> bool,
    col: (u8, u8, u8, u8),
)
    requires
        shows(a, size, img),
        painted_as(b, a, size, cov, col),
    ensures
        shows(b, size, over(img, cov, col)),
{
    assert forall|x: int, y: int| in_canvas(size, x, y) implies #[trigger] pixel_at(b, size, x, y) == over(img, cov, col)(x, y) by {
        assert(pixel_at(b, size, x, y) == (if cov(x, y) { col } else { pixel_at(a, size, x, y) }));
        assert(pixel_at(a, size, x, y) == img(x, y));
    }
}

/// The dice icon painted over `base`, for a canvas centred at `c`:
/// a twenty-sided die: a hexagon with its inner edges and two dots.
pub open spec fn dice_image(base: spec_fn(int, int) -> (u8, u8, u8, u8), c: int) -> spec_fn(int, int) -> (u8, u8, u8, u8) {
    over(over(over(over(over(over(over(over(over(over(over(base, line_cov(c, 4, c + 10, 10, 2), (220, 180, 100, 255)), line_cov(c + 10, 10, c + 10, 22, 2), (220, 180, 100, 255)), line_cov(c + 10, 22, c, 28, 2), (220, 180, 100, 255)), line_cov(c, 28, c - 10, 22, 2), (220, 180, 100, 255)), line_cov(c - 10, 22, c - 10, 10, 2), (220, 180, 100, 255)), line_cov(c - 10, 10, c, 4, 2), (220, 180, 100, 255)), line_cov(c, 4, c, 28, 2), (220, 180, 100, 255)), line_cov(c - 10, 10, c + 10, 22, 2), (220, 180, 100, 255)), line_cov(c + 10, 10, c - 10, 22, 2), (220, 180, 100, 255)), disk_cov(c - 2, c, 3), (220, 180, 100, 255)), disk_cov(c + 4, c, 3), (220, 180, 100, 255))
}

/// Paints the dice icon (see `dice_image`).
fn draw_dice_icon(pixels: &mut Vec<u8>, size: usize, Ghost(base): Ghost<spec_fn(int, int) -> (u8, u8, u8, u8)>)
    requires
        canvas_ok(old(pixels)@, size as int),
        size <= 0x0800_0000,
        shows(old(pixels)@, size as int, base),
    ensures
        canvas_ok(final(pixels)@, size as int),
        shows(final(pixels)@, size as int, dice_image(base, (size / 2) as int)),
{
    let c = (size / 2) as i32;
    let ghost ci = c as int;
    let ghost mut img = base;
    let ghost before = pixels@;
    draw_line(pixels, size, c, 4, c + 10, 10, 2, 220, 180, 100, 255);
    proof {
        lemma_shows_paint(before, pixels@, size as int, img, line_cov(ci, 4, ci + 10, 10, 2), (220, 180, 100, 255));
        img = over(img, line_cov(ci, 4, ci + 10, 10, 2), (220, 180, 100, 255));
    }
    let ghost before = pixels@;
    draw_line(pixels, size, c + 10, 10, c + 10, 22, 2, 220, 180, 100, 255);
    proof {
        lemma_shows_paint(before, pixels@, size as int, img, line_cov(ci + 10, 10, ci + 10, 22, 2), (220, 180, 100, 255));
        img = over(img, line_cov(ci + 10, 10, ci + 10, 22, 2), (220, 180, 100, 255));
    }
    let ghost before = pixels@;
    draw_line(pixels, size, c + 10, 22, c, 28, 2, 220, 180, 100, 255);
    proof {
        lemma_shows_paint(before, pixels@, size as int, img, line_cov(ci + 10, 22, ci, 28, 2), (220, 180, 100, 255));
        img = over(img, line_cov(ci + 10, 22, ci, 28, 2), (220, 180, 100, 255));
    }
    let ghost before = pixels@;
    draw_line(pixels, size, c, 28, c - 10, 22, 2, 220, 180, 100, 255);
    proof {
        lemma_shows_paint(before, pixels@, size as int, img, line_cov(ci, 28, ci - 10, 22, 2), (220, 180, 100, 255));
        img = over(img, line_cov(ci, 28, ci - 10, 22, 2), (220, 180, 100, 255));
    }
    let ghost before = pixels@;
    draw_line(pixels, size, c - 10, 22, c - 10, 10, 2, 220, 180, 100, 255);
    proof {
        lemma_shows_paint(before, pixels@, size as int, img, line_cov(ci - 10, 22, ci - 10, 10, 2), (220, 180, 100, 255));
        img = over(img, line_cov(ci - 10, 22, ci - 10, 10, 2), (220, 180, 100, 255));
    }
    let ghost before = pixels@;
    draw_line(pixels, size, c - 10, 10, c, 4, 2, 220, 180, 100, 255);
    proof {
        lemma_shows_paint(before, pixels@, size as int, img, line_cov(ci - 10, 10, ci, 4, 2), (220, 180, 100, 255));
        img = over(img, line_cov(ci - 10, 10, ci, 4, 2), (220, 180, 100, 255));
    }
    let ghost before = pixels@;
    draw_line(pixels, size, c, 4, c, 28, 2, 220, 180, 100, 255);
    proof {
        lemma_shows_paint(before, pixels@, size as int, img, line_cov(ci, 4, ci, 28, 2), (220, 180, 100, 255));
        img = over(img, line_cov(ci, 4, ci, 28, 2), (220, 180, 100, 255));
    }
    let ghost before = pixels@;
    draw_line(pixels, size, c - 10, 10, c + 10, 22, 2, 220, 180, 100, 255);
    proof {
        lemma_shows_paint(before, pixels@, size as int, img, line_cov(ci - 10, 10, ci + 10, 22, 2), (220, 180, 100, 255));
        img = over(img, line_cov(ci - 10, 10, ci + 10, 22, 2), (220, 180, 100, 255));
    }
    let ghost before = pixels@;
    draw_line(pixels, size, c + 10, 10, c - 10, 22, 2, 220, 180, 100, 255);
    proof {
        lemma_shows_paint(before, pixels@, size as int, img, line_cov(ci + 10, 10, ci - 10, 22, 2), (220, 180, 100, 255));
        img = over(img, line_cov(ci + 10, 10, ci - 10, 22, 2), (220, 180, 100, 255));
    }
    let ghost before = pixels@;
    draw_circle(pixels, size, c - 2, c, 3, 220, 180, 100, 255);
    proof {
        lemma_shows_paint(before, pixels@, size as int, img, disk_cov(ci - 2, ci, 3), (220, 180, 100, 255));
        img = over(img, disk_cov(ci - 2, ci, 3), (220, 180, 100, 255));
    }
    let ghost before = pixels@;
    draw_circle(pixels, size, c + 4, c, 3, 220, 180, 100, 255);
    proof {
        lemma_shows_paint(before, pixels@, size as int, img, disk_cov(ci + 4, ci, 3), (220, 180, 100, 255));
        img = over(img, disk_cov(ci + 4, ci, 3), (220, 180, 100, 255));
    }
    assert(img == dice_image(base, ci));
}

/// The character icon painted over `base`, for a canvas centred at `c`:
/// a person: head, body and shoulders.
pub open spec fn character_image(base: spec_fn(int, int) -> (u8, u8, u8, u8), c: int) -> spec_fn(int, int) -> (u8, u8, u8, u8) {
    over(over(over(over(base, disk_cov(c, 9, 5), (150, 200, 255, 255)), rect_cov(c - 6, 15, 12, 10), (150, 200, 255, 255)), disk_cov(c - 6, 17, 3), (150, 200, 255, 255)), disk_cov(c + 6, 17, 3), (150, 200, 255, 255))
}

/// Paints the character icon (see `character_image`).
fn draw_character_icon(pixels: &mut Vec<u8>, size: usize, Ghost(base): Ghost<spec_fn(int, int) -> (u8, u8, u8, u8)>)
    requires
        canvas_ok(old(pixels)@, size as int),
        size <= 0x0800_0000,
        shows(old(pixels)@, size as int, base),
    ensures
        canvas_ok(final(pixels)@, size as int),
        shows(final(pixels)@, size as int, character_image(base, (size / 2) as int)),
{
    let c = (size / 2) as i32;
    let ghost ci = c as int;
    let ghost mut img = base;
    let ghost before = pixels@;
    draw_circle(pixels, size, c, 9, 5, 150, 200, 255, 255);
    proof {
        lemma_shows_paint(before, pixels@, size as int, img, disk_cov(ci, 9, 5), (150, 200, 255, 255));
        img = over(img, disk_cov(ci, 9, 5), (150, 200, 255, 255));
    }
    let ghost before = pixels@;
    draw_rect(pixels, size, c - 6, 15, 12, 10, 150, 200, 255, 255);
    proof {
        lemma_shows_paint(before, pixels@, size as int, img, rect_cov(ci - 6, 15, 12, 10), (150, 200, 255, 255));
        img = over(img, rect_cov(ci - 6, 15, 12, 10), (150, 200, 255, 255));
    }
    let ghost before = pixels@;
    draw_circle(pixels, size, c - 6, 17, 3, 150, 200, 255, 255);
    proof {
        lemma_shows_paint(before, pixels@, size as int, img, disk_cov(ci - 6, 17, 3), (150, 200, 255, 255));
        img = over(img, disk_cov(ci - 6, 17, 3), (150, 200, 255, 255));
    }
    let ghost before = pixels@;
    draw_circle(pixels, size, c + 6, 17, 3, 150, 200, 255, 255);
    proof {
        lemma_shows_paint(before, pixels@, size as int, img, disk_cov(ci + 6, 17, 3), (150, 200, 255, 255));
        img = over(img, disk_cov(ci + 6, 17, 3), (150, 200, 255, 255));
    }
    assert(img == character_image(base, ci));
}

/// The info icon painted over `base`, for a canvas centred at `c`:
/// an "i" in a circle.
pub open spec fn info_image(base: spec_fn(int, int) -> (u8, u8, u8, u8), c: int) -> spec_fn(int, int) -> (u8, u8, u8, u8) {
    over(over(over(base, ring_cov(c, c, 12, 2), (100, 180, 255, 255)), disk_cov(c, 10, 2), (100, 180, 255, 255)), rect_cov(c - 2, 14, 4, 10), (100, 180, 255, 255))
}

/// Paints the info icon (see `info_image`).
fn draw_info_icon(pixels: &mut Vec<u8>, size: usize, Ghost(base): Ghost<spec_fn(int, int) -> (u8, u8, u8, u8)>)
    requires
        canvas_ok(old(pixels)@, size as int),
        size <= 0x0800_0000,
        shows(old(pixels)@, size as int, base),
    ensures
        canvas_ok(final(pixels)@, size as int),
        shows(final(pixels)@, size as int, info_image(base, (size / 2) as int)),
{
    let c = (size / 2) as i32;
    let ghost ci = c as int;
    let ghost mut img = base;
    let ghost before = pixels@;
    draw_circle_outline(pixels, size, c, c, 12, 2, 100, 180, 255, 255);
    proof {
        lemma_shows_paint(before, pixels@, size as int, img, ring_cov(ci, ci, 12, 2), (100, 180, 255, 255));
        img = over(img, ring_cov(ci, ci, 12, 2), (100, 180, 255, 255));
    }
    let ghost before = pixels@;
    draw_circle(pixels, size, c, 10, 2, 100, 180, 255, 255);
    proof {
        lemma_shows_paint(before, pixels@, size as int, img, disk_cov(ci, 10, 2), (100, 180, 255, 255));
        img = over(img, disk_cov(ci, 10, 2), (100, 180, 255, 255));
    }
    let ghost before = pixels@;
    draw_rect(pixels, size, c - 2, 14, 4, 10, 100, 180, 255, 255);
    proof {
        lemma_shows_paint(before, pixels@, size as int, img, rect_cov(ci - 2, 14, 4, 10), (100, 180, 255, 255));
        img = over(img, rect_cov(ci - 2, 14, 4, 10), (100, 180, 255, 255));
    }
    assert(img == info_image(base, ci));
}

/// The settings icon painted over `base`, for a canvas centred at `c`:
/// a gear: a disc with a hole and eight teeth.
pub open spec fn settings_image(base: spec_fn(int, int) -> (u8, u8, u8, u8), c: int) -> spec_fn(int, int) -> (u8, u8, u8, u8) {
    over(over(over(over(over(over(over(over(over(over(base, disk_cov(c, c, 10), (180, 180, 190, 255)), disk_cov(c, c, 4), (0, 0, 0, 0)), rect_cov(c + 12 - 2, c + 0 - 2, 5, 5), (180, 180, 190, 255)), rect_cov(c + 8 - 2, c + 8 - 2, 5, 5), (180, 180, 190, 255)), rect_cov(c + 0 - 2, c + 12 - 2, 5, 5), (180, 180, 190, 255)), rect_cov(c - 8 - 2, c + 8 - 2, 5, 5), (180, 180, 190, 255)), rect_cov(c - 12 - 2, c + 0 - 2, 5, 5), (180, 180, 190, 255)), rect_cov(c - 8 - 2, c - 8 - 2, 5, 5), (180, 180, 190, 255)), rect_cov(c + 0 - 2, c - 12 - 2, 5, 5), (180, 180, 190, 255)), rect_cov(c + 8 - 2, c - 8 - 2, 5, 5), (180, 180, 190, 255))
}

/// Paints the settings icon (see `settings_image`).
fn draw_settings_icon(pixels: &mut Vec<u8>, size: usize, Ghost(base): Ghost<spec_fn(int, int) -> (u8, u8, u8, u8)>)
    requires
        canvas_ok(old(pixels)@, size as int),
        size <= 0x0800_0000,
        shows(old(pixels)@, size as int, base),
    ensures
        canvas_ok(final(pixels)@, size as int),
        shows(final(pixels)@, size as int, settings_image(base, (size / 2) as int)),
{
    let c = (size / 2) as i32;
    let ghost ci = c as int;
    let ghost mut img = base;
    let ghost before = pixels@;
    draw_circle(pixels, size, c, c, 10, 180, 180, 190, 255);
    proof {
        lemma_shows_paint(before, pixels@, size as int, img, disk_cov(ci, ci, 10), (180, 180, 190, 255));
        img = over(img, disk_cov(ci, ci, 10), (180, 180, 190, 255));
    }
    let ghost before = pixels@;
    draw_circle(pixels, size, c, c, 4, 0, 0, 0, 0);
    proof {
        lemma_shows_paint(before, pixels@, size as int, img, disk_cov(ci, ci, 4), (0, 0, 0, 0));
        img = over(img, disk_cov(ci, ci, 4), (0, 0, 0, 0));
    }
    let ghost before = pixels@;
    draw_rect(pixels, size, c + 12 - 2, c + 0 - 2, 5, 5, 180, 180, 190, 255);
    proof {
        lemma_shows_paint(before, pixels@, size as int, img, rect_cov(ci + 12 - 2, ci + 0 - 2, 5, 5), (180, 180, 190, 255));
        img = over(img, rect_cov(ci + 12 - 2, ci + 0 - 2, 5, 5), (180, 180, 190, 255));
    }
    let ghost before = pixels@;
    draw_rect(pixels, size, c + 8 - 2, c + 8 - 2, 5, 5, 180, 180, 190, 255);
    proof {
        lemma_shows_paint(before, pixels@, size as int, img, rect_cov(ci + 8 - 2, ci + 8 - 2, 5, 5), (180, 180, 190, 255));
        img = over(img, rect_cov(ci + 8 - 2, ci + 8 - 2, 5, 5), (180, 180, 190, 255));
    }
    let ghost before = pixels@;
    draw_rect(pixels, size, c + 0 - 2, c + 12 - 2, 5, 5, 180, 180, 190, 255);
    proof {
        lemma_shows_paint(before, pixels@, size as int, img, rect_cov(ci + 0 - 2, ci + 12 - 2, 5, 5), (180, 180, 190, 255));
        img = over(img, rect_cov(ci + 0 - 2, ci + 12 - 2, 5, 5), (180, 180, 190, 255));
    }
    let ghost before = pixels@;
    draw_rect(pixels, size, c - 8 - 2, c + 8 - 2, 5, 5, 180, 180, 190, 255);
    proof {
        lemma_shows_paint(before, pixels@, size as int, img, rect_cov(ci - 8 - 2, ci + 8 - 2, 5, 5), (180, 180, 190, 255));
        img = over(img, rect_cov(ci - 8 - 2, ci + 8 - 2, 5, 5), (180, 180, 190, 255));
    }
    let ghost before = pixels@;
    draw_rect(pixels, size, c - 12 - 2, c + 0 - 2, 5, 5, 180, 180, 190, 255);
    proof {
        lemma_shows_paint(before, pixels@, size as int, img, rect_cov(ci - 12 - 2, ci + 0 - 2, 5, 5), (180, 180, 190, 255));
        img = over(img, rect_cov(ci - 12 - 2, ci + 0 - 2, 5, 5), (180, 180, 190, 255));
    }
    let ghost before = pixels@;
    draw_rect(pixels, size, c - 8 - 2, c - 8 - 2, 5, 5, 180, 180, 190, 255);
    proof {
        lemma_shows_paint(before, pixels@, size as int, img, rect_cov(ci - 8 - 2, ci - 8 - 2, 5, 5), (180, 180, 190, 255));
        img = over(img, rect_cov(ci - 8 - 2, ci - 8 - 2, 5, 5), (180, 180, 190, 255));
    }
    let ghost before = pixels@;
    draw_rect(pixels, size, c + 0 - 2, c - 12 - 2, 5, 5, 180, 180, 190, 255);
    proof {
        lemma_shows_paint(before, pixels@, size as int, img, rect_cov(ci + 0 - 2, ci - 12 - 2, 5, 5), (180, 180, 190, 255));
        img = over(img, rect_cov(ci + 0 - 2, ci - 12 - 2, 5, 5), (180, 180, 190, 255));
    }
    let ghost before = pixels@;
    draw_rect(pixels, size, c + 8 - 2, c - 8 - 2, 5, 5, 180, 180, 190, 255);
    proof {
        lemma_shows_paint(before, pixels@, size as int, img, rect_cov(ci + 8 - 2, ci - 8 - 2, 5, 5), (180, 180, 190, 255));
        img = over(img, rect_cov(ci + 8 - 2, ci - 8 - 2, 5, 5), (180, 180, 190, 255));
    }
    assert(img == settings_image(base, ci));
}

/// The add icon painted over `base`, for a canvas centred at `c`:
/// a plus sign.
pub open spec fn add_image(base: spec_fn(int, int) -> (u8, u8, u8, u8), c: int) -> spec_fn(int, int) -> (u8, u8, u8, u8) {
    over(over(base, rect_cov(c - 10, c - 2, 20, 5), (100, 220, 100, 255)), rect_cov(c - 2, c - 10, 5, 20), (100, 220, 100, 255))
}

/// Paints the add icon (see `add_image`).
fn draw_add_icon(pixels: &mut Vec<u8>, size: usize, Ghost(base): Ghost<spec_fn(int, int) -> (u8, u8, u8, u8)>)
    requires
        canvas_ok(old(pixels)@, size as int),
        size <= 0x0800_0000,
        shows(old(pixels)@, size as int, base),
    ensures
        canvas_ok(final(pixels)@, size as int),
        shows(final(pixels)@, size as int, add_image(base, (size / 2) as int)),
{
    let c = (size / 2) as i32;
    let ghost ci = c as int;
    let ghost mut img = base;
    let ghost before = pixels@;
    draw_rect(pixels, size, c - 10, c - 2, 20, 5, 100, 220, 100, 255);
    proof {
        lemma_shows_paint(before, pixels@, size as int, img, rect_cov(ci - 10, ci - 2, 20, 5), (100, 220, 100, 255));
        img = over(img, rect_cov(ci - 10, ci - 2, 20, 5), (100, 220, 100, 255));
    }
    let ghost before = pixels@;
    draw_rect(pixels, size, c - 2, c - 10, 5, 20, 100, 220, 100, 255);
    proof {
        lemma_shows_paint(before, pixels@, size as int, img, rect_cov(ci - 2, ci - 10, 5, 20), (100, 220, 100, 255));
        img = over(img, rect_cov(ci - 2, ci - 10, 5, 20), (100, 220, 100, 255));
    }
    assert(img == add_image(base, ci));
}

/// The delete icon painted over `base`, for a canvas centred at `c`:
/// a trash can with its lid and three slots.
pub open spec fn delete_image(base: spec_fn(int, int) -> (u8, u8, u8, u8), c: int) -> spec_fn(int, int) -> (u8, u8, u8, u8) {
    over(over(over(over(over(over(base, rect_cov(c - 10, 6, 20, 3), (220, 80, 80, 255)), rect_cov(c - 4, 4, 8, 2), (220, 80, 80, 255)), rect_cov(c - 8, 10, 16, 16), (220, 80, 80, 255)), rect_cov(c - 5, 13, 2, 10), (80, 30, 30, 255)), rect_cov(c - 1, 13, 2, 10), (80, 30, 30, 255)), rect_cov(c + 3, 13, 2, 10), (80, 30, 30, 255))
}

/// Paints the delete icon (see `delete_image`).
fn draw_delete_icon(pixels: &mut Vec<u8>, size: usize, Ghost(base): Ghost<spec_fn(int, int) -> (u8, u8, u8, u8)>)
    requires
        canvas_ok(old(pixels)@, size as int),
        size <= 0x0800_0000,
        shows(old(pixels)@, size as int, base),
    ensures
        canvas_ok(final(pixels)@, size as int),
        shows(final(pixels)@, size as int, delete_image(base, (size / 2) as int)),
{
    let c = (size / 2) as i32;
    let ghost ci = c as int;
    let ghost mut img = base;
    let ghost before = pixels@;
    draw_rect(pixels, size, c - 10, 6, 20, 3, 220, 80, 80, 255);
    proof {
        lemma_shows_paint(before, pixels@, size as int, img, rect_cov(ci - 10, 6, 20, 3), (220, 80, 80, 255));
        img = over(img, rect_cov(ci - 10, 6, 20, 3), (220, 80, 80, 255));
    }
    let ghost before = pixels@;
    draw_rect(pixels, size, c - 4, 4, 8, 2, 220, 80, 80, 255);
    proof {
        lemma_shows_paint(before, pixels@, size as int, img, rect_cov(ci - 4, 4, 8, 2), (220, 80, 80, 255));
        img = over(img, rect_cov(ci - 4, 4, 8, 2), (220, 80, 80, 255));
    }
    let ghost before = pixels@;
    draw_rect(pixels, size, c - 8, 10, 16, 16, 220, 80, 80, 255);
    proof {
        lemma_shows_paint(before, pixels@, size as int, img, rect_cov(ci - 8, 10, 16, 16), (220, 80, 80, 255));
        img = over(img, rect_cov(ci - 8, 10, 16, 16), (220, 80, 80, 255));
    }
    let ghost before = pixels@;
    draw_rect(pixels, size, c - 5, 13, 2, 10, 80, 30, 30, 255);
    proof {
        lemma_shows_paint(before, pixels@, size as int, img, rect_cov(ci - 5, 13, 2, 10), (80, 30, 30, 255));
        img = over(img, rect_cov(ci - 5, 13, 2, 10), (80, 30, 30, 255));
    }
    let ghost before = pixels@;
    draw_rect(pixels, size, c - 1, 13, 2, 10, 80, 30, 30, 255);
    proof {
        lemma_shows_paint(before, pixels@, size as int, img, rect_cov(ci - 1, 13, 2, 10), (80, 30, 30, 255));
        img = over(img, rect_cov(ci - 1, 13, 2, 10), (80, 30, 30, 255));
    }
    let ghost before = pixels@;
    draw_rect(pixels, size, c + 3, 13, 2, 10, 80, 30, 30, 255);
    proof {
        lemma_shows_paint(before, pixels@, size as int, img, rect_cov(ci + 3, 13, 2, 10), (80, 30, 30, 255));
        img = over(img, rect_cov(ci + 3, 13, 2, 10), (80, 30, 30, 255));
    }
    assert(img == delete_image(base, ci));
}

/// The edit icon painted over `base`, for a canvas centred at `c`:
/// a pencil: body, tip and eraser.
pub open spec fn edit_image(base: spec_fn(int, int) -> (u8, u8, u8, u8), c: int) -> spec_fn(int, int) -> (u8, u8, u8, u8) {
    over(over(over(base, line_cov(6, 26, 22, 10, 4), (255, 200, 100, 255)), line_cov(4, 28, 8, 24, 2), (200, 150, 80, 255)), line_cov(22, 10, 26, 6, 3), (220, 100, 100, 255))
}

/// Paints the edit icon (see `edit_image`).
fn draw_edit_icon(pixels: &mut Vec<u8>, size: usize, Ghost(base): Ghost<spec_fn(int, int) -> (u8, u8, u8, u8)>)
    requires
        canvas_ok(old(pixels)@, size as int),
        size <= 0x0800_0000,
        shows(old(pixels)@, size as int, base),
    ensures
        canvas_ok(final(pixels)@, size as int),
        shows(final(pixels)@, size as int, edit_image(base, (size / 2) as int)),
{
    let c = (size / 2) as i32;
    let ghost ci = c as int;
    let ghost mut img = base;
    let ghost before = pixels@;
    draw_line(pixels, size, 6, 26, 22, 10, 4, 255, 200, 100, 255);
    proof {
        lemma_shows_paint(before, pixels@, size as int, img, line_cov(6, 26, 22, 10, 4), (255, 200, 100, 255));
        img = over(img, line_cov(6, 26, 22, 10, 4), (255, 200, 100, 255));
    }
    let ghost before = pixels@;
    draw_line(pixels, size, 4, 28, 8, 24, 2, 200, 150, 80, 255);
    proof {
        lemma_shows_paint(before, pixels@, size as int, img, line_cov(4, 28, 8, 24, 2), (200, 150, 80, 255));
        img = over(img, line_cov(4, 28, 8, 24, 2), (200, 150, 80, 255));
    }
    let ghost before = pixels@;
    draw_line(pixels, size, 22, 10, 26, 6, 3, 220, 100, 100, 255);
    proof {
        lemma_shows_paint(before, pixels@, size as int, img, line_cov(22, 10, 26, 6, 3), (220, 100, 100, 255));
        img = over(img, line_cov(22, 10, 26, 6, 3), (220, 100, 100, 255));
    }
    assert(img == edit_image(base, ci));
}

/// The save icon painted over `base`, for a canvas centred at `c`:
/// a floppy disk: body, label and slider.
pub open spec fn save_image(base: spec_fn(int, int) -> (u8, u8, u8, u8), c: int) -> spec_fn(int, int) -> (u8, u8, u8, u8) {
    over(over(over(over(base, rect_cov(6, 6, 20, 20), (100, 150, 220, 255)), rect_cov(10, 6, 12, 8), (230, 230, 230, 255)), rect_cov(10, 16, 12, 10), (60, 60, 80, 255)), rect_cov(12, 18, 8, 6), (40, 40, 50, 255))
}

/// Paints the save icon (see `save_image`).
fn draw_save_icon(pixels: &mut Vec<u8>, size: usize, Ghost(base): Ghost<spec_fn(int, int) -> (u8, u8, u8, u8)>)
    requires
        canvas_ok(old(pixels)@, size as int),
        size <= 0x0800_0000,
        shows(old(pixels)@, size as int, base),
    ensures
        canvas_ok(final(pixels)@, size as int),
        shows(final(pixels)@, size as int, save_image(base, (size / 2) as int)),
{
    let c = (size / 2) as i32;
    let ghost ci = c as int;
    let ghost mut img = base;
    let ghost before = pixels@;
    draw_rect(pixels, size, 6, 6, 20, 20, 100, 150, 220, 255);
    proof {
        lemma_shows_paint(before, pixels@, size as int, img, rect_cov(6, 6, 20, 20), (100, 150, 220, 255));
        img = over(img, rect_cov(6, 6, 20, 20), (100, 150, 220, 255));
    }
    let ghost before = pixels@;
    draw_rect(pixels, size, 10, 6, 12, 8, 230, 230, 230, 255);
    proof {
        lemma_shows_paint(before, pixels@, size as int, img, rect_cov(10, 6, 12, 8), (230, 230, 230, 255));
        img = over(img, rect_cov(10, 6, 12, 8), (230, 230, 230, 255));
    }
    let ghost before = pixels@;
    draw_rect(pixels, size, 10, 16, 12, 10, 60, 60, 80, 255);
    proof {
        lemma_shows_paint(before, pixels@, size as int, img, rect_cov(10, 16, 12, 10), (60, 60, 80, 255));
        img = over(img, rect_cov(10, 16, 12, 10), (60, 60, 80, 255));
    }
    let ghost before = pixels@;
    draw_rect(pixels, size, 12, 18, 8, 6, 40, 40, 50, 255);
    proof {
        lemma_shows_paint(before, pixels@, size as int, img, rect_cov(12, 18, 8, 6), (40, 40, 50, 255));
        img = over(img, rect_cov(12, 18, 8, 6), (40, 40, 50, 255));
    }
    assert(img == save_image(base, ci));
}

/// The cancel icon painted over `base`, for a canvas centred at `c`:
/// an X.
pub open spec fn cancel_image(base: spec_fn(int, int) -> (u8, u8, u8, u8), c: int) -> spec_fn(int, int) -> (u8, u8, u8, u8) {
    over(over(base, line_cov(8, 8, 24, 24, 3), (220, 100, 100, 255)), line_cov(24, 8, 8, 24, 3), (220, 100, 100, 255))
}

/// Paints the cancel icon (see `cancel_image`).
fn draw_cancel_icon(pixels: &mut Vec<u8>, size: usize, Ghost(base): Ghost<spec_fn(int, int) -> (u8, u8, u8, u8)>)
    requires
        canvas_ok(old(pixels)@, size as int),
        size <= 0x0800_0000,
        shows(old(pixels)@, size as int, base),
    ensures
        canvas_ok(final(pixels)@, size as int),
        shows(final(pixels)@, size as int, cancel_image(base, (size / 2) as int)),
{
    let c = (size / 2) as i32;
    let ghost ci = c as int;
    let ghost mut img = base;
    let ghost before = pixels@;
    draw_line(pixels, size, 8, 8, 24, 24, 3, 220, 100, 100, 255);
    proof {
        lemma_shows_paint(before, pixels@, size as int, img, line_cov(8, 8, 24, 24, 3), (220, 100, 100, 255));
        img = over(img, line_cov(8, 8, 24, 24, 3), (220, 100, 100, 255));
    }
    let ghost before = pixels@;
    draw_line(pixels, size, 24, 8, 8, 24, 3, 220, 100, 100, 255);
    proof {
        lemma_shows_paint(before, pixels@, size as int, img, line_cov(24, 8, 8, 24, 3), (220, 100, 100, 255));
        img = over(img, line_cov(24, 8, 8, 24, 3), (220, 100, 100, 255));
    }
    assert(img == cancel_image(base, ci));
}

/// The check icon painted over `base`, for a canvas centred at `c`:
/// a check mark.
pub open spec fn check_image(base: spec_fn(int, int) -> (u8, u8, u8, u8), c: int) -> spec_fn(int, int) -> (u8, u8, u8, u8) {
    over(over(base, line_cov(6, 16, 12, 24, 3), (100, 220, 100, 255)), line_cov(12, 24, 26, 8, 3), (100, 220, 100, 255))
}

/// Paints the check icon (see `check_image`).
fn draw_check_icon(pixels: &mut Vec<u8>, size: usize, Ghost(base): Ghost<spec_fn(int, int) -> (u8, u8, u8, u8)>)
    requires
        canvas_ok(old(pixels)@, size as int),
        size <= 0x0800_0000,
        shows(old(pixels)@, size as int, base),
    ensures
        canvas_ok(final(pixels)@, size as int),
        shows(final(pixels)@, size as int, check_image(base, (size / 2) as int)),
{
    let c = (size / 2) as i32;
    let ghost ci = c as int;
    let ghost mut img = base;
    let ghost before = pixels@;
    draw_line(pixels, size, 6, 16, 12, 24, 3, 100, 220, 100, 255);
    proof {
        lemma_shows_paint(before, pixels@, size as int, img, line_cov(6, 16, 12, 24, 3), (100, 220, 100, 255));
        img = over(img, line_cov(6, 16, 12, 24, 3), (100, 220, 100, 255));
    }
    let ghost before = pixels@;
    draw_line(pixels, size, 12, 24, 26, 8, 3, 100, 220, 100, 255);
    proof {
        lemma_shows_paint(before, pixels@, size as int, img, line_cov(12, 24, 26, 8, 3), (100, 220, 100, 255));
        img = over(img, line_cov(12, 24, 26, 8, 3), (100, 220, 100, 255));
    }
    assert(img == check_image(base, ci));
}

/// The roll icon painted over `base`, for a canvas centred at `c`:
/// a circular arrow: a ring with an arrow head and a gap.
pub open spec fn roll_image(base: spec_fn(int, int) -> (u8, u8, u8, u8), c: int) -> spec_fn(int, int) -> (u8, u8, u8, u8) {
    over(over(over(over(base, ring_cov(c, c, 10, 2), (220, 220, 100, 255)), line_cov(c + 8, c - 6, c + 10, c - 2, 2), (220, 220, 100, 255)), line_cov(c + 4, c - 4, c + 10, c - 2, 2), (220, 220, 100, 255)), rect_cov(c + 8, c - 4, 6, 8), (0, 0, 0, 0))
}

/// Paints the roll icon (see `roll_image`).
fn draw_roll_icon(pixels: &mut Vec<u8>, size: usize, Ghost(base): Ghost<spec_fn(int, int) -> (u8, u8, u8, u8)>)
    requires
        canvas_ok(old(pixels)@, size as int),
        size <= 0x0800_0000,
        shows(old(pixels)@, size as int, base),
    ensures
        canvas_ok(final(pixels)@, size as int),
        shows(final(pixels)@, size as int, roll_image(base, (size / 2) as int)),
{
    let c = (size / 2) as i32;
    let ghost ci = c as int;
    let ghost mut img = base;
    let ghost before = pixels@;
    draw_circle_outline(pixels, size, c, c, 10, 2, 220, 220, 100, 255);
    proof {
        lemma_shows_paint(before, pixels@, size as int, img, ring_cov(ci, ci, 10, 2), (220, 220, 100, 255));
        img = over(img, ring_cov(ci, ci, 10, 2), (220, 220, 100, 255));
    }
    let ghost before = pixels@;
    draw_line(pixels, size, c + 8, c - 6, c + 10, c - 2, 2, 220, 220, 100, 255);
    proof {
        lemma_shows_paint(before, pixels@, size as int, img, line_cov(ci + 8, ci - 6, ci + 10, ci - 2, 2), (220, 220, 100, 255));
        img = over(img, line_cov(ci + 8, ci - 6, ci + 10, ci - 2, 2), (220, 220, 100, 255));
    }
    let ghost before = pixels@;
    draw_line(pixels, size, c + 4, c - 4, c + 10, c - 2, 2, 220, 220, 100, 255);
    proof {
        lemma_shows_paint(before, pixels@, size as int, img, line_cov(ci + 4, ci - 4, ci + 10, ci - 2, 2), (220, 220, 100, 255));
        img = over(img, line_cov(ci + 4, ci - 4, ci + 10, ci - 2, 2), (220, 220, 100, 255));
    }
    let ghost before = pixels@;
    draw_rect(pixels, size, c + 8, c - 4, 6, 8, 0, 0, 0, 0);
    proof {
        lemma_shows_paint(before, pixels@, size as int, img, rect_cov(ci + 8, ci - 4, 6, 8), (0, 0, 0, 0));
        img = over(img, rect_cov(ci + 8, ci - 4, 6, 8), (0, 0, 0, 0));
    }
    assert(img == roll_image(base, ci));
}

/// The rows of a triangle ten rows high starting at row 10, centred on
/// column `c`: row `k` spans `k` pixels each side of the centre when it
/// points down, `9 - k` when it points up; only the first `n` rows.
pub open spec fn triangle_cov(c: int, down: bool, n: int) -> spec_fn(int, int) -> bool {
    |px: int, py: int| {
        let row = py - 10;
        let half = if down { row } else { 9 - row };
        0 <= row < n && row < 10 && c - half <= px <= c + half
    }
}

/// Paints a triangle (see `triangle_cov`), row by row.
fn draw_triangle(pixels: &mut Vec<u8>, size: usize, down: bool, r: u8, g: u8, b: u8, a: u8)
    requires
        canvas_ok(old(pixels)@, size as int),
        size <= 0x0800_0000,
    ensures
        canvas_ok(final(pixels)@, size as int),
        painted_as(final(pixels)@, old(pixels)@, size as int, triangle_cov((size / 2) as int, down, 10), (r, g, b, a)),
{
    let c = (size / 2) as i32;
    let ghost old_pix = pixels@;
    let ghost col = (r, g, b, a);
    proof {
        lemma_paint_nothing(old_pix, size as int, col);
        lemma_paint_same(old_pix, old_pix, size as int, no_cov(), triangle_cov(c as int, down, 0), col);
    }
    let mut row: i32 = 0;
    while row < 10
        invariant
            canvas_ok(pixels@, size as int),
            old_pix.len() == pixels@.len(),
            col == (r, g, b, a),
            c == size / 2,
            size <= 0x0800_0000,
            0 <= row <= 10,
            painted_as(pixels@, old_pix, size as int, triangle_cov(c as int, down, row as int), col),
        decreases 10 - row,
    {
        let half: i32 = if down { row } else { 9 - row };
        let ghost before = pixels@;
        draw_rect(pixels, size, c - half, 10 + row, 2 * half + 1, 1, r, g, b, a);
        proof {
            lemma_paint_union(before, pixels@, old_pix, size as int, triangle_cov(c as int, down, row as int),
                rect_cov((c - half) as int, (10 + row) as int, (2 * half + 1) as int, 1), col);
            lemma_paint_same(pixels@, old_pix, size as int,
                union_cov(triangle_cov(c as int, down, row as int), rect_cov((c - half) as int, (10 + row) as int, (2 * half + 1) as int, 1)),
                triangle_cov(c as int, down, row + 1), col);
        }
        row = row + 1;
    }
}

/// The expand icon over `base`: a triangle pointing down.
pub open spec fn expand_image(base: spec_fn(int, int) -> (u8, u8, u8, u8), c: int) -> spec_fn(int, int) -> (u8, u8, u8, u8) {
    over(base, triangle_cov(c, true, 10), (180, 180, 200, 255))
}

/// The collapse icon over `base`: a triangle pointing up.
pub open spec fn collapse_image(base: spec_fn(int, int) -> (u8, u8, u8, u8), c: int) -> spec_fn(int, int) -> (u8, u8, u8, u8) {
    over(base, triangle_cov(c, false, 10), (180, 180, 200, 255))
}

/// Paints the expand icon (see `expand_image`).
fn draw_expand_icon(pixels: &mut Vec<u8>, size: usize, Ghost(base): Ghost<spec_fn(int, int) -> (u8, u8, u8, u8)>)
    requires
        canvas_ok(old(pixels)@, size as int),
        size <= 0x0800_0000,
        shows(old(pixels)@, size as int, base),
    ensures
        canvas_ok(final(pixels)@, size as int),
        shows(final(pixels)@, size as int, expand_image(base, (size / 2) as int)),
{
    let ghost before = pixels@;
    draw_triangle(pixels, size, true, 180, 180, 200, 255);
    proof {
        lemma_shows_paint(before, pixels@, size as int, base, triangle_cov((size / 2) as int, true, 10), (180, 180, 200, 255));
    }
}

/// Paints the collapse icon (see `collapse_image`).
fn draw_collapse_icon(pixels: &mut Vec<u8>, size: usize, Ghost(base): Ghost<spec_fn(int, int) -> (u8, u8, u8, u8)>)
    requires
        canvas_ok(old(pixels)@, size as int),
        size <= 0x0800_0000,
        shows(old(pixels)@, size as int, base),
    ensures
        canvas_ok(final(pixels)@, size as int),
        shows(final(pixels)@, size as int, collapse_image(base, (size / 2) as int)),
{
    let ghost before = pixels@;
    draw_triangle(pixels, size, false, 180, 180, 200, 255);
    proof {
        lemma_shows_paint(before, pixels@, size as int, base, triangle_cov((size / 2) as int, false, 10), (180, 180, 200, 255));
    }
}

/// The icons of the interface.
#[derive(Clone, Copy, Debug, PartialEq, Eq, Hash, Structural)]
pub enum IconType {
    Dice,
    Character,
    Info,
    Settings,
    Add,
    Delete,
    Edit,
    Save,
    Cancel,
    Check,
    Roll,
    Expand,
    Collapse,
}

/// Every icon, in the order they are loaded.
pub open spec fn spec_all_icons() -> Seq<IconType> {
    seq![IconType::Dice, IconType::Character, IconType::Info, IconType::Settings, IconType::Add, IconType::Delete, IconType::Edit, IconType::Save, IconType::Cancel, IconType::Check, IconType::Roll, IconType::Expand, IconType::Collapse]
}

impl IconType {
    /// Every icon, in the order they are loaded.
    pub fn all() -> (r: Vec<IconType>)
        ensures
            r@ == spec_all_icons(),
    {
        let mut v: Vec<IconType> = Vec::new();
        v.push(IconType::Dice);
        v.push(IconType::Character);
        v.push(IconType::Info);
        v.push(IconType::Settings);
        v.push(IconType::Add);
        v.push(IconType::Delete);
        v.push(IconType::Edit);
        v.push(IconType::Save);
        v.push(IconType::Cancel);
        v.push(IconType::Check);
        v.push(IconType::Roll);
        v.push(IconType::Expand);
        v.push(IconType::Collapse);
        assert(v@ =~= spec_all_icons());
        v
    }
}

/// Every icon type is listed once.
pub proof fn law_all_icons_listed_once(t: IconType)
    ensures
        spec_all_icons().contains(t),
        forall|i: int, j: int| 0 <= i < j < spec_all_icons().len() ==> spec_all_icons()[i] != spec_all_icons()[j],
        spec_all_icons().len() == 13,
{
    let s = spec_all_icons();
    match t {
        IconType::Dice => { assert(s[0] == t); }
        IconType::Character => { assert(s[1] == t); }
        IconType::Info => { assert(s[2] == t); }
        IconType::Settings => { assert(s[3] == t); }
        IconType::Add => { assert(s[4] == t); }
        IconType::Delete => { assert(s[5] == t); }
        IconType::Edit => { assert(s[6] == t); }
        IconType::Save => { assert(s[7] == t); }
        IconType::Cancel => { assert(s[8] == t); }
        IconType::Check => { assert(s[9] == t); }
        IconType::Roll => { assert(s[10] == t); }
        IconType::Expand => { assert(s[11] == t); }
        IconType::Collapse => { assert(s[12] == t); }
    }
}

/// The picture of an icon on a transparent 32 by 32 canvas.
pub open spec fn icon_image(t: IconType) -> spec_fn(int, int) -> (u8, u8, u8, u8) {
    match t {
        IconType::Dice => dice_image(blank(), 16),
        IconType::Character => character_image(blank(), 16),
        IconType::Info => info_image(blank(), 16),
        IconType::Settings => settings_image(blank(), 16),
        IconType::Add => add_image(blank(), 16),
        IconType::Delete => delete_image(blank(), 16),
        IconType::Edit => edit_image(blank(), 16),
        IconType::Save => save_image(blank(), 16),
        IconType::Cancel => cancel_image(blank(), 16),
        IconType::Check => check_image(blank(), 16),
        IconType::Roll => roll_image(blank(), 16),
        IconType::Expand => expand_image(blank(), 16),
        IconType::Collapse => collapse_image(blank(), 16),
    }
}

/// The RGBA pixels of an icon: a transparent 32 by 32 canvas with the icon
/// painted on it (see `icon_image`).
pub fn generate_icon_pixels(icon_type: IconType) -> (r: Vec<u8>)
    ensures
        r@.len() == 4 * 32 * 32,
        shows(r@, 32, icon_image(icon_type)),
{
    let size: usize = 32;
    let mut pixels: Vec<u8> = Vec::new();
    let mut i: usize = 0;
    while i < size * size * 4
        invariant
            size == 32,
            i <= size * size * 4,
            pixels@.len() == i,
            forall|k: int| 0 <= k < i ==> pixels@[k] == 0u8,
        decreases size * size * 4 - i,
    {
        pixels.push(0u8);
        i = i + 1;
    }
    proof {
        assert forall|x: int, y: int| in_canvas(32, x, y) implies #[trigger] pixel_at(pixels@, 32, x, y) == blank()(x, y) by {
            lemma_px_index_bounds(32, x, y);
        }
    }
    match icon_type {
        IconType::Dice => draw_dice_icon(&mut pixels, size, Ghost(blank())),
        IconType::Character => draw_character_icon(&mut pixels, size, Ghost(blank())),
        IconType::Info => draw_info_icon(&mut pixels, size, Ghost(blank())),
        IconType::Settings => draw_settings_icon(&mut pixels, size, Ghost(blank())),
        IconType::Add => draw_add_icon(&mut pixels, size, Ghost(blank())),
        IconType::Delete => draw_delete_icon(&mut pixels, size, Ghost(blank())),
        IconType::Edit => draw_edit_icon(&mut pixels, size, Ghost(blank())),
        IconType::Save => draw_save_icon(&mut pixels, size, Ghost(blank())),
        IconType::Cancel => draw_cancel_icon(&mut pixels, size, Ghost(blank())),
        IconType::Check => draw_check_icon(&mut pixels, size, Ghost(blank())),
        IconType::Roll => draw_roll_icon(&mut pixels, size, Ghost(blank())),
        IconType::Expand => draw_expand_icon(&mut pixels, size, Ghost(blank())),
        IconType::Collapse => draw_collapse_icon(&mut pixels, size, Ghost(blank())),
    }
    pixels
}

} // verus!
