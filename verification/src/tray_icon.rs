//! The menu-bar icon: five black bars with rounded ends on a transparent
//! 64×64 RGBA canvas.
use vstd::prelude::*;

verus! {

/// Whether the point (`local_x`, `local_y`) of a `width`×`height` box
/// lies in the box with its ends rounded to `radius`: the straight middle
/// always does; in the end caps it must lie within `radius` of the cap's
/// centre.
pub open spec fn inside_rounded(local_x: int, local_y: int, width: int, height: int, radius: int) -> bool {
    let inner_left = radius;
    let inner_right = if width >= radius + 1 {
        width - (radius + 1)
    } else {
        0
    };
    if inner_left <= local_x && local_x <= inner_right {
        true
    } else {
        let center_x = if local_x < inner_left {
            inner_left
        } else {
            inner_right
        };
        let center_y = height / 2;
        (local_x - center_x) * (local_x - center_x) + (local_y - center_y) * (local_y - center_y) <= radius * radius
    }
}

/// `inside_rounded_rect` can compute `radius + 1`.
pub open spec fn rounded_arith_fits(local_x: int, local_y: int, width: int, height: int, radius: int) -> bool {
    radius < u32::MAX
}

/// Whether a point lies in a box with rounded ends.
pub fn inside_rounded_rect(local_x: u32, local_y: u32, width: u32, height: u32, radius: u32) -> (r: bool)
    requires
        rounded_arith_fits(local_x as int, local_y as int, width as int, height as int, radius as int),
    ensures
        r == inside_rounded(local_x as int, local_y as int, width as int, height as int, radius as int),
{
    let inner_left = radius;
    let inner_right = width.saturating_sub(radius + 1);
    if local_x >= inner_left && local_x <= inner_right {
        return true;
    }
    let center_x = if local_x < inner_left {
        inner_left
    } else {
        inner_right
    };
    let center_y = height / 2;
    let dx = local_x as i128 - center_x as i128;
    let dy = local_y as i128 - center_y as i128;
    let rr = radius as i128;
    assert(dx * dx <= 0x1_0000_0000_0000_0000 && dy * dy <= 0x1_0000_0000_0000_0000 && rr * rr <= 0x1_0000_0000_0000_0000
        && 0 <= dx * dx && 0 <= dy * dy) by (nonlinear_arith)
        requires
            -0x1_0000_0000 <= dx <= 0x1_0000_0000,
            -0x1_0000_0000 <= dy <= 0x1_0000_0000,
            0 <= rr <= 0x1_0000_0000,
    ;
    dx * dx + dy * dy <= rr * rr
}

/// Where pixel (`px`, `py`) starts in an RGBA buffer `canvas_width`
/// pixels wide.
pub open spec fn pixel_offset(canvas_width: int, px: int, py: int) -> int {
    (py * canvas_width + px) * 4
}

/// Channel `c` of a painted pixel: opaque black.
pub open spec fn paint(c: int) -> u8 {
    if c == 3 {
        255
    } else {
        0
    }
}

/// Pixel (`px`, `py`) lies in the rounded box at (`x`, `y`).
pub open spec fn in_rounded_box(px: int, py: int, x: int, y: int, width: int, height: int, radius: int) -> bool {
    &&& x <= px < x + width
    &&& y <= py < y + height
    &&& inside_rounded(px - x, py - y, width, height, radius)
}

proof fn lemma_offset_injective(cw: int, px: int, py: int, c: int, qx: int, qy: int, d: int)
    requires
        cw > 0,
        0 <= px < cw,
        0 <= qx < cw,
        0 <= py,
        0 <= qy,
        0 <= c < 4,
        0 <= d < 4,
        pixel_offset(cw, px, py) + c == pixel_offset(cw, qx, qy) + d,
    ensures
        px == qx,
        py == qy,
        c == d,
{
    assert(py == qy && px == qx && c == d) by (nonlinear_arith)
        requires
            cw > 0,
            0 <= px < cw,
            0 <= qx < cw,
            0 <= py,
            0 <= qy,
            0 <= c < 4,
            0 <= d < 4,
            (py * cw + px) * 4 + c == (qy * cw + qx) * 4 + d,
    ;
}

proof fn lemma_offset_bound(cw: int, px: int, py: int, rows: int)
    requires
        cw > 0,
        0 <= px < cw,
        0 <= py < rows,
    ensures
        pixel_offset(cw, px, py) + 3 < rows * cw * 4,
        pixel_offset(cw, px, py) >= 0,
{
    assert((py * cw + px) * 4 + 3 < rows * cw * 4 && (py * cw + px) * 4 >= 0) by (nonlinear_arith)
        requires
            cw > 0,
            0 <= px < cw,
            0 <= py < rows,
    ;
}

/// Paints the rounded box at (`x`, `y`) opaque black; the rest of the
/// canvas keeps its pixels.
pub fn fill_rounded_rect(rgba: &mut Vec<u8>, canvas_width: u32, x: u32, y: u32, width: u32, height: u32, radius: u32)
    requires
        canvas_width > 0,
        x + width <= canvas_width,
        (y + height) * canvas_width * 4 <= old(rgba)@.len() <= u32::MAX,
        radius < u32::MAX,
    ensures
        final(rgba)@.len() == old(rgba)@.len(),
        forall|px: int, py: int, c: int|
            0 <= px < canvas_width && 0 <= py && 0 <= c < 4 && pixel_offset(canvas_width as int, px, py) + c < old(rgba)@.len()
                ==> #[trigger] final(rgba)@[pixel_offset(canvas_width as int, px, py) + c] == if in_rounded_box(
                px,
                py,
                x as int,
                y as int,
                width as int,
                height as int,
                radius as int,
            ) && 0 <= c < 4 {
                paint(c)
            } else {
                old(rgba)@[pixel_offset(canvas_width as int, px, py) + c]
            },
{
    let ghost start = rgba@;
    let ghost cw = canvas_width as int;
    assert(y + height <= u32::MAX) by (nonlinear_arith)
        requires
            (y + height) * canvas_width * 4 <= u32::MAX,
            canvas_width >= 1,
    ;
    let mut pixel_y: u32 = y;
    while pixel_y < y + height
        invariant
            y <= pixel_y <= y + height,
            y + height <= u32::MAX,
            canvas_width > 0,
            x + width <= canvas_width,
            cw == canvas_width as int,
            (y + height) * canvas_width * 4 <= start.len() <= u32::MAX,
            radius < u32::MAX,
            rgba@.len() == start.len(),
            forall|px: int, py: int, c: int|
                0 <= px < cw && 0 <= py && 0 <= c < 4 && pixel_offset(cw, px, py) + c < start.len() ==> #[trigger] rgba@[pixel_offset(
                    cw,
                    px,
                    py,
                ) + c] == if in_rounded_box(px, py, x as int, y as int, width as int, height as int, radius as int) && py < pixel_y {
                    paint(c)
                } else {
                    start[pixel_offset(cw, px, py) + c]
                },
        decreases y + height - pixel_y,
    {
        let mut pixel_x: u32 = x;
        while pixel_x < x + width
            invariant
                y <= pixel_y < y + height,
                y + height <= u32::MAX,
                x <= pixel_x <= x + width,
                canvas_width > 0,
                x + width <= canvas_width,
                cw == canvas_width as int,
                (y + height) * canvas_width * 4 <= start.len() <= u32::MAX,
                radius < u32::MAX,
                rgba@.len() == start.len(),
                forall|px: int, py: int, c: int|
                    0 <= px < cw && 0 <= py && 0 <= c < 4 && pixel_offset(cw, px, py) + c < start.len() ==> #[trigger] rgba@[pixel_offset(
                        cw,
                        px,
                        py,
                    ) + c] == if in_rounded_box(px, py, x as int, y as int, width as int, height as int, radius as int) && (py
                        < pixel_y || (py == pixel_y && px < pixel_x)) {
                        paint(c)
                    } else {
                        start[pixel_offset(cw, px, py) + c]
                    },
            decreases x + width - pixel_x,
        {
            let lx = pixel_x - x;
            let ly = pixel_y - y;
            if inside_rounded_rect(lx, ly, width, height, radius) {
                proof {
                    lemma_offset_bound(cw, pixel_x as int, pixel_y as int, (y + height) as int);
                    assert(pixel_offset(cw, pixel_x as int, pixel_y as int) + 3 < start.len()) by (nonlinear_arith)
                        requires
                            pixel_offset(cw, pixel_x as int, pixel_y as int) + 3 < (y + height) * cw * 4,
                            (y + height) * canvas_width * 4 <= start.len(),
                            cw == canvas_width,
                    ;
                    assert((pixel_y as int * canvas_width as int + pixel_x as int) * 4 + 3 <= u32::MAX);
                }
                let offset = ((pixel_y * canvas_width + pixel_x) * 4) as usize;
                let ghost before = rgba@;
                rgba.set(offset, 0);
                rgba.set(offset + 1, 0);
                rgba.set(offset + 2, 0);
                rgba.set(offset + 3, 255);
                proof {
                    let o = pixel_offset(cw, pixel_x as int, pixel_y as int);
                    assert(offset == o);
                    assert forall|px: int, py: int, c: int|
                        0 <= px < cw && 0 <= py && 0 <= c < 4 && pixel_offset(cw, px, py) + c < start.len() implies #[trigger] rgba@[pixel_offset(
                            cw,
                            px,
                            py,
                        ) + c] == if in_rounded_box(px, py, x as int, y as int, width as int, height as int, radius as int)
                            && (py < pixel_y || (py == pixel_y && px < pixel_x + 1)) {
                            paint(c)
                        } else {
                            start[pixel_offset(cw, px, py) + c]
                        } by {
                        let q = pixel_offset(cw, px, py) + c;
                        if q == o || q == o + 1 || q == o + 2 || q == o + 3 {
                            let d = q - o;
                            lemma_offset_injective(cw, px, py, c, pixel_x as int, pixel_y as int, d);
                        } else {
                            assert(rgba@[q] == before[q]);
                        }
                    }
                }
            }
            pixel_x += 1;
        }
        pixel_y += 1;
    }
}

/// The bars of the icon: left, top, width, height and corner radius.
pub open spec fn tray_bars() -> Seq<(u32, u32, u32, u32, u32)> {
    seq![(8, 8, 48, 7, 4), (8, 19, 32, 7, 4), (8, 30, 44, 7, 4), (8, 41, 26, 7, 4), (8, 52, 20, 7, 4)]
}

/// Pixel (`px`, `py`) of the icon is black.
pub open spec fn tray_pixel_on(px: int, py: int) -> bool {
    exists|b: int|
        0 <= b < 5 && #[trigger] in_rounded_box(
            px,
            py,
            tray_bars()[b].0 as int,
            tray_bars()[b].1 as int,
            tray_bars()[b].2 as int,
            tray_bars()[b].3 as int,
            tray_bars()[b].4 as int,
        )
}

/// The icon's pixels: 64×64, four bytes each, opaque black where a bar
/// is and transparent elsewhere.
pub fn tray_icon_rgba() -> (r: Vec<u8>)
    ensures
        r@.len() == 64 * 64 * 4,
        forall|px: int, py: int, c: int|
            0 <= px < 64 && 0 <= py < 64 && 0 <= c < 4 ==> #[trigger] r@[pixel_offset(64, px, py) + c] == if tray_pixel_on(px, py) {
                paint(c)
            } else {
                0u8
            },
{
    let mut rgba: Vec<u8> = vec![0u8; 64 * 64 * 4];
    let xs: [u32; 5] = [8, 8, 8, 8, 8];
    let ys: [u32; 5] = [8, 19, 30, 41, 52];
    let ws: [u32; 5] = [48, 32, 44, 26, 20];
    let mut b: usize = 0;
    while b < 5
        invariant
            b <= 5,
            rgba@.len() == 64 * 64 * 4,
            xs@ == seq![8u32, 8, 8, 8, 8],
            ys@ == seq![8u32, 19, 30, 41, 52],
            ws@ == seq![48u32, 32, 44, 26, 20],
            forall|px: int, py: int, c: int|
                0 <= px < 64 && 0 <= py < 64 && 0 <= c < 4 ==> #[trigger] rgba@[pixel_offset(64, px, py) + c] == if exists|k: int|
                    0 <= k < b && #[trigger] in_rounded_box(
                        px,
                        py,
                        tray_bars()[k].0 as int,
                        tray_bars()[k].1 as int,
                        tray_bars()[k].2 as int,
                        tray_bars()[k].3 as int,
                        tray_bars()[k].4 as int,
                    ) {
                    paint(c)
                } else {
                    0u8
                },
        decreases 5 - b,
    {
        let ghost before = rgba@;
        fill_rounded_rect(&mut rgba, 64, xs[b], ys[b], ws[b], 7, 4);
        proof {
            assert forall|px: int, py: int, c: int|
                0 <= px < 64 && 0 <= py < 64 && 0 <= c < 4 implies #[trigger] rgba@[pixel_offset(64, px, py) + c] == if exists|k: int|
                    0 <= k < b + 1 && #[trigger] in_rounded_box(
                        px,
                        py,
                        tray_bars()[k].0 as int,
                        tray_bars()[k].1 as int,
                        tray_bars()[k].2 as int,
                        tray_bars()[k].3 as int,
                        tray_bars()[k].4 as int,
                    ) {
                    paint(c)
                } else {
                    0u8
                } by {
                assert(pixel_offset(64, px, py) + c < 64 * 64 * 4) by (nonlinear_arith)
                    requires
                        0 <= px < 64,
                        0 <= py < 64,
                        0 <= c < 4,
                ;
                let t = tray_bars()[b as int];
                assert(t == (xs@[b as int], ys@[b as int], ws@[b as int], 7u32, 4u32));
                if in_rounded_box(px, py, t.0 as int, t.1 as int, t.2 as int, t.3 as int, t.4 as int) {
                    assert(0 <= b < b + 1);
                } else {
                    if exists|k: int|
                        0 <= k < b + 1 && #[trigger] in_rounded_box(
                            px,
                            py,
                            tray_bars()[k].0 as int,
                            tray_bars()[k].1 as int,
                            tray_bars()[k].2 as int,
                            tray_bars()[k].3 as int,
                            tray_bars()[k].4 as int,
                        ) {
                        let k = choose|k: int|
                            0 <= k < b + 1 && #[trigger] in_rounded_box(
                                px,
                                py,
                                tray_bars()[k].0 as int,
                                tray_bars()[k].1 as int,
                                tray_bars()[k].2 as int,
                                tray_bars()[k].3 as int,
                                tray_bars()[k].4 as int,
                            );
                        assert(k < b);
                    }
                }
            }
        }
        b += 1;
    }
    proof {
        assert forall|px: int, py: int, c: int| 0 <= px < 64 && 0 <= py < 64 && 0 <= c < 4 implies #[trigger] rgba@[pixel_offset(64, px, py) + c]
            == if tray_pixel_on(px, py) {
            paint(c)
        } else {
            0u8
        } by {
            assert(pixel_offset(64, px, py) + c < 64 * 64 * 4) by (nonlinear_arith)
                requires
                    0 <= px < 64,
                    0 <= py < 64,
                    0 <= c < 4,
            ;
        }
    }
    rgba
}

} // verus!
