//! The pixel work behind game icons: which tile of the sprite sheet
//! `_config().icon` names, and the nearest-neighbor scaling that turns a
//! 16x16 tile into the large sizes of a macOS icon. Decoding and encoding
//! images is left to the application.

use vstd::prelude::*;

verus! {

/// The top-left corner of 1-based tile `index` in a `width` x `height`
/// sprite sheet cut into 16x16 tiles, counted row by row; `None` for
/// index `0`, a sheet smaller than one tile, or an index past the last
/// tile.
pub open spec fn tile_origin_spec(width: i32, height: i32, index: u32) -> Option<(i32, i32)> {
    let cols = width as int / 16;
    let rows = height as int / 16;
    if index < 1 || width < 16 || height < 16 || index > cols * rows {
        None
    } else {
        let z = index - 1;
        Some((((z % cols) * 16) as i32, ((z / cols) * 16) as i32))
    }
}

/// Where tile `index` (1-based, as `gfx.spr` counts) lies in a sprite
/// sheet of `width` x `height` pixels.
pub fn tile_origin(width: i32, height: i32, index: u32) -> (r: Option<(i32, i32)>)
    ensures
        r == tile_origin_spec(width, height, index),
        r matches Some((x, y)) ==> 0 <= x && x + 16 <= width && 0 <= y && y + 16 <= height,
{
    if index < 1 || width < 16 || height < 16 {
        return None;
    }
    let cols: i64 = (width / 16) as i64;
    let rows: i64 = (height / 16) as i64;
    assert(cols * rows <= 0x7fff_ffff * 0x7fff_ffff) by (nonlinear_arith)
        requires
            0 < cols <= 0x7fff_ffff,
            0 < rows <= 0x7fff_ffff,
    ;
    let total: i64 = cols * rows;
    if (index as i64) > total {
        return None;
    }
    let z: i64 = (index as i64) - 1;
    let col = z % cols;
    let row = z / cols;
    proof {
        assert(0 <= col < cols);
        assert(0 <= row) by (nonlinear_arith)
            requires
                z >= 0,
                cols > 0,
                row == z / cols,
        ;
        assert(row < rows) by (nonlinear_arith)
            requires
                0 <= z < cols * rows,
                cols > 0,
                row == z / cols,
        ;
        assert(cols * 16 <= width && rows * 16 <= height);
    }
    let x: i64 = col * 16;
    let y: i64 = row * 16;
    Some((x as i32, y as i32))
}

/// Component `c` of pixel `(x, y)` in a packed RGBA buffer `w` pixels wide.
pub open spec fn px(v: Seq<u8>, w: int, x: int, y: int, c: int) -> u8 {
    v[(y * w + x) * 4 + c]
}

proof fn lemma_earlier_pixel(w: int, xx: int, yy: int, x: int, y: int)
    requires
        0 <= xx < w,
        0 <= yy,
        0 <= x,
        yy < y || (yy == y && xx < x),
    ensures
        yy * w + xx < y * w + x,
{
    if yy < y {
        assert(yy * w + w <= y * w) by (nonlinear_arith)
            requires
                yy + 1 <= y,
                w >= 0,
        ;
    }
}

proof fn lemma_scaled_coord(a: int, n: int, d: int)
    requires
        0 <= a < d,
        n > 0,
    ensures
        0 <= a * n / d < n,
        a * n <= d * n,
{
    assert(a * n < d * n) by (nonlinear_arith)
        requires
            a < d,
            n > 0,
    ;
    assert(0 <= a * n) by (nonlinear_arith)
        requires
            a >= 0,
            n > 0,
    ;
    assert(a * n / d < n) by (nonlinear_arith)
        requires
            0 <= a * n < d * n,
            d > 0,
    ;
    assert(0 <= a * n / d) by (nonlinear_arith)
        requires
            0 <= a * n,
            d > 0,
    ;
}

/// Nearest-neighbor scaling of a packed RGBA image from `src_w` x
/// `src_h` to `dst_w` x `dst_h` pixels: destination pixel `(x, y)` is
/// source pixel `(x * src_w / dst_w, y * src_h / dst_h)`, so pixel art
/// stays crisp.
pub fn scale_nearest(src: &[u8], src_w: u32, src_h: u32, dst_w: u32, dst_h: u32) -> (dst: Vec<u8>)
    requires
        src_w > 0,
        src_h > 0,
        src@.len() >= src_w * src_h * 4,
        src_w * src_h * 4 <= u32::MAX,
        dst_w * dst_h * 4 <= u32::MAX,
        dst_w * src_w <= u32::MAX,
        dst_h * src_h <= u32::MAX,
    ensures
        dst@.len() == dst_w * dst_h * 4,
        forall|x: int, y: int, c: int| 0 <= x < dst_w && 0 <= y < dst_h && 0 <= c < 4
            ==> #[trigger] px(dst@, dst_w as int, x, y, c)
                == px(src@, src_w as int, x * src_w / dst_w as int, y * src_h / dst_h as int, c),
{
    let ghost w = dst_w as int;
    let mut dst: Vec<u8> = Vec::new();
    let mut y: u32 = 0;
    while y < dst_h
        invariant
            src_w > 0,
            src_h > 0,
            src@.len() >= src_w * src_h * 4,
            src_w * src_h * 4 <= u32::MAX,
            dst_w * src_w <= u32::MAX,
            dst_h * src_h <= u32::MAX,
            w == dst_w,
            0 <= y <= dst_h,
            dst@.len() == (y * w) * 4,
            forall|x: int, yy: int, c: int| 0 <= x < dst_w && 0 <= yy < y && 0 <= c < 4
                ==> #[trigger] px(dst@, w, x, yy, c)
                    == px(src@, src_w as int, x * src_w / dst_w as int, yy * src_h / dst_h as int, c),
        decreases dst_h - y,
    {
        proof { lemma_scaled_coord(y as int, src_h as int, dst_h as int); }
        let sy = (y * src_h) / dst_h;
        let mut x: u32 = 0;
        while x < dst_w
            invariant
                src_w > 0,
                src_h > 0,
                src@.len() >= src_w * src_h * 4,
                src_w * src_h * 4 <= u32::MAX,
                dst_w * src_w <= u32::MAX,
                w == dst_w,
                0 <= y < dst_h,
                0 <= sy < src_h,
                sy == y * src_h / dst_h as int,
                0 <= x <= dst_w,
                dst@.len() == (y * w + x) * 4,
                forall|xx: int, yy: int, c: int| 0 <= xx < dst_w && 0 <= c < 4 && (0 <= yy < y || (yy == y && 0 <= xx < x))
                    ==> #[trigger] px(dst@, w, xx, yy, c)
                        == px(src@, src_w as int, xx * src_w / dst_w as int, yy * src_h / dst_h as int, c),
            decreases dst_w - x,
        {
            proof {
                lemma_scaled_coord(x as int, src_w as int, dst_w as int);
            }
            let sx = (x * src_w) / dst_w;
            proof {
                lemma_earlier_pixel(src_w as int, sx as int, sy as int, 0, src_h as int);
                assert(sy * src_w + sx + 1 <= src_h * src_w);
                assert(src_h * src_w == src_w * src_h) by (nonlinear_arith);
            }
            let s = ((sy * src_w + sx) * 4) as usize;
            let ghost before = dst@;
            dst.push(src[s]);
            dst.push(src[s + 1]);
            dst.push(src[s + 2]);
            dst.push(src[s + 3]);
            proof {
                let d = (y * w + x) * 4;
                assert(before.len() == d);
                assert forall|xx: int, yy: int, c: int| 0 <= xx < dst_w && 0 <= c < 4 && (0 <= yy < y || (yy == y && 0 <= xx < x + 1))
                    implies #[trigger] px(dst@, w, xx, yy, c)
                        == px(src@, src_w as int, xx * src_w / dst_w as int, yy * src_h / dst_h as int, c) by {
                    if yy == y && xx == x {
                        assert(px(dst@, w, xx, yy, c) == dst@[d + c]);
                    } else {
                        lemma_earlier_pixel(w, xx, yy, x as int, y as int);
                        assert((yy * w + xx) * 4 + c < d);
                        assert(px(dst@, w, xx, yy, c) == before[(yy * w + xx) * 4 + c]);
                        assert(px(before, w, xx, yy, c) == before[(yy * w + xx) * 4 + c]);
                    }
                }
            }
            x = x + 1;
        }
        proof {
            assert((y * w + w) * 4 == ((y + 1) * w) * 4) by (nonlinear_arith);
        }
        y = y + 1;
    }
    proof {
        assert((dst_h * w) * 4 == dst_w * dst_h * 4) by (nonlinear_arith)
            requires
                w == dst_w,
        ;
    }
    dst
}

} // verus!
