use vstd::prelude::*;

use crate::dither::field;

verus! {

/// Bytes per framebuffer row (160 pixels at 4 pixels per byte).
pub const FB_STRIDE: usize = 40;

/// Bytes per asset row (8 pixels at 4 pixels per byte).
pub const TILE_STRIDE: usize = 2;

/// Rows (and pixel columns) of the framebuffer.
pub const SCREEN: i32 = 160;

/// Smallest grid coordinate (in units of 4 pixels) a tile is drawn at.
pub const MIN_TILE_COORD: i32 = -1;

/// Largest grid coordinate a tile is drawn at.
pub const MAX_TILE_COORD: i32 = 39;

/// Smallest pixel coordinate a sprite is drawn at.
pub const MIN_SPRITE_COORD: i32 = -7;

/// Largest pixel coordinate a sprite is drawn at.
pub const MAX_SPRITE_COORD: i32 = 159;

/// An 8x8 asset: a packed 2-bit colour plane and an opacity plane with the same packing.
pub struct Tile {
    pub colors: [u8; 16],
    pub opacity_mask: [u8; 16],
}

/// The framebuffer byte at `row` and byte column `col`.
pub open spec fn fb_byte(fb: Seq<u8>, row: int, col: int) -> u8 {
    fb[row * 40 + col]
}

/// Masked merge of `src` into `dst`: bits set in `mask` come from `src`.
pub open spec fn merge(dst: u8, src: u8, mask: u8) -> u8 {
    (dst & !mask) | (src & mask)
}

/// Whether a tile at grid position `(x, y)` covers framebuffer byte `(row, col)`.
pub open spec fn tile_covers(x: int, y: int, row: int, col: int) -> bool {
    &&& MIN_TILE_COORD <= x <= MAX_TILE_COORD
    &&& MIN_TILE_COORD <= y <= MAX_TILE_COORD
    &&& 0 <= row < 160
    &&& 0 <= col < 40
    &&& 0 <= col - x < 2
    &&& 0 <= row - 4 * y < 8
}

/// The byte `(row, col)` after blitting `t` at grid position `(x, y)` onto `fb`.
pub open spec fn tile_blit_byte(fb: Seq<u8>, t: Tile, x: int, y: int, row: int, col: int) -> u8 {
    if tile_covers(x, y, row, col) {
        let s = (row - 4 * y) * 2 + (col - x);
        merge(fb_byte(fb, row, col), t.colors@[s], t.opacity_mask@[s])
    } else {
        fb_byte(fb, row, col)
    }
}

/// Palette index of pixel `q` of framebuffer byte `(row, col)`, i.e. of pixel
/// `(4 * col + q, row)`.
pub open spec fn pixel(fb: Seq<u8>, row: int, col: int, q: int) -> u8 {
    field(fb_byte(fb, row, col), q)
}

/// Whether pixel `(sx, sy)` of the asset is drawn.
pub open spec fn sprite_opaque(t: Tile, sx: int, sy: int) -> bool {
    field(t.opacity_mask@[sy * 2 + sx / 4], sx % 4) != 0
}

/// Colour of pixel `(sx, sy)` of the asset.
pub open spec fn sprite_color(t: Tile, sx: int, sy: int) -> u8 {
    field(t.colors@[sy * 2 + sx / 4], sx % 4)
}

/// Whether a sprite at pixel position `(x, y)` draws screen pixel `(px, py)`.
pub open spec fn sprite_covers(t: Tile, x: int, y: int, px: int, py: int) -> bool {
    &&& MIN_SPRITE_COORD <= x <= MAX_SPRITE_COORD
    &&& MIN_SPRITE_COORD <= y <= MAX_SPRITE_COORD
    &&& 0 <= px < 160
    &&& 0 <= py < 160
    &&& 0 <= px - x < 8
    &&& 0 <= py - y < 8
    &&& sprite_opaque(t, px - x, py - y)
}

/// Pixel `(4 * col + q, row)` after drawing `t` pixel by pixel at `(x, y)` onto `fb`.
pub open spec fn sprite_blit_pixel(
    fb: Seq<u8>,
    t: Tile,
    x: int,
    y: int,
    row: int,
    col: int,
    q: int,
) -> u8 {
    if sprite_covers(t, x, y, 4 * col + q, row) {
        sprite_color(t, 4 * col + q - x, row - y)
    } else {
        pixel(fb, row, col, q)
    }
}

/// `after` is `before` with `t` blitted at grid position `(x, y)`.
pub open spec fn is_tile_blit(before: Seq<u8>, after: Seq<u8>, t: Tile, x: int, y: int) -> bool {
    &&& after.len() == 6400
    &&& forall|row: int, col: int|
        0 <= row < 160 && 0 <= col < 40 ==> #[trigger] fb_byte(after, row, col)
            == tile_blit_byte(before, t, x, y, row, col)
}

/// `after` is `before` with `t` blitted at pixel position `(x, y)`.
pub open spec fn is_sprite_blit(before: Seq<u8>, after: Seq<u8>, t: Tile, x: int, y: int) -> bool {
    &&& after.len() == 6400
    &&& x % 4 == 0 && y % 4 == 0 ==> is_tile_blit(before, after, t, x / 4, y / 4)
    &&& !(x % 4 == 0 && y % 4 == 0) ==> forall|row: int, col: int, q: int|
        0 <= row < 160 && 0 <= col < 40 && 0 <= q < 4 ==> #[trigger] pixel(after, row, col, q)
            == sprite_blit_pixel(before, t, x, y, row, col, q)
}

/// Two framebuffers that agree on every byte position are equal.
proof fn lemma_fb_ext(a: Seq<u8>, b: Seq<u8>)
    requires
        a.len() == 6400,
        b.len() == 6400,
        forall|row: int, col: int|
            0 <= row < 160 && 0 <= col < 40 ==> #[trigger] fb_byte(a, row, col) == fb_byte(b, row, col),
    ensures
        a == b,
{
    assert forall|k: int| 0 <= k < 6400 implies a[k] == b[k] by {
        assert(fb_byte(a, k / 40, k % 40) == fb_byte(b, k / 40, k % 40));
    }
    assert(a =~= b);
}

/// At a pixel position whose coordinates are both multiples of 4, drawing a
/// sprite leaves the same framebuffer as blitting the tile at the grid
/// position a quarter as large.
pub proof fn lemma_aligned_sprite_is_tile(
    before: Seq<u8>,
    by_sprite: Seq<u8>,
    by_tile: Seq<u8>,
    t: Tile,
    x: int,
    y: int,
)
    requires
        before.len() == 6400,
        x % 4 == 0,
        y % 4 == 0,
        is_sprite_blit(before, by_sprite, t, x, y),
        is_tile_blit(before, by_tile, t, x / 4, y / 4),
    ensures
        by_sprite == by_tile,
{
    lemma_fb_ext(by_sprite, by_tile);
}

/// A tile at grid column -1 changes only the first byte column, within rows
/// `[4y, 4y + 8)`, where it merges the asset's second 4-pixel column.
pub proof fn lemma_left_half_tile(before: Seq<u8>, after: Seq<u8>, t: Tile, y: int)
    requires
        before.len() == 6400,
        is_tile_blit(before, after, t, -1, y),
    ensures
        forall|row: int, col: int|
            0 <= row < 160 && 0 <= col < 40 && (col != 0 || row < 4 * y || row >= 4 * y + 8)
                ==> #[trigger] fb_byte(after, row, col) == fb_byte(before, row, col),
        -1 <= y <= 39 ==> forall|row: int|
            0 <= row < 160 && 4 * y <= row < 4 * y + 8 ==> #[trigger] fb_byte(after, row, 0) == merge(
                fb_byte(before, row, 0),
                t.colors@[(row - 4 * y) * 2 + 1],
                t.opacity_mask@[(row - 4 * y) * 2 + 1],
            ),
{
}

/// Two byte positions of the framebuffer are the same only at the same row and column.
proof fn lemma_index_distinct(r1: int, c1: int, r2: int, c2: int)
    requires
        0 <= c1 < 40,
        0 <= c2 < 40,
        r1 != r2 || c1 != c2,
    ensures
        r1 * 40 + c1 != r2 * 40 + c2,
{
    if r1 < r2 {
        assert(r1 * 40 + 40 <= r2 * 40) by (nonlinear_arith) requires r1 < r2;
    } else if r1 > r2 {
        assert(r2 * 40 + 40 <= r1 * 40) by (nonlinear_arith) requires r1 > r2;
    }
}

/// Facts on the 2-bit fields of a byte, at shift `s = 2 * q`.
proof fn lemma_fields(b: u8, c: u8, s: u8, t: u8)
    requires
        s == 0 || s == 2 || s == 4 || s == 6,
        t == 0 || t == 2 || t == 4 || t == 6,
        c < 4,
    ensures
        (b & (3u8 << s)) >> s == (b >> s) & 3u8,
        (b >> s) & 3u8 < 4,
        ((b & (3u8 << s)) != 0) == (((b >> s) & 3u8) != 0),
        ((((b & !(3u8 << s)) | (c << s)) >> s) & 3u8) == c,
        t != s ==> ((((b & !(3u8 << s)) | (c << s)) >> t) & 3u8) == (b >> t) & 3u8,
{
    assert((b & (3u8 << s)) >> s == (b >> s) & 3u8) by (bit_vector)
        requires s == 0 || s == 2 || s == 4 || s == 6;
    assert((b >> s) & 3u8 < 4) by (bit_vector);
    assert(((b & (3u8 << s)) != 0) == (((b >> s) & 3u8) != 0)) by (bit_vector)
        requires s == 0 || s == 2 || s == 4 || s == 6;
    assert(((((b & !(3u8 << s)) | (c << s)) >> s) & 3u8) == c) by (bit_vector)
        requires s == 0 || s == 2 || s == 4 || s == 6, c < 4;
    assert(t != s ==> ((((b & !(3u8 << s)) | (c << s)) >> t) & 3u8) == (b >> t) & 3u8)
        by (bit_vector)
        requires
            s == 0 || s == 2 || s == 4 || s == 6,
            t == 0 || t == 2 || t == 4 || t == 6,
            c < 4,
    ;
}

impl Tile {
    /// Blits the tile at grid position `(x, y)`, in units of 4 pixels, with a
    /// masked byte merge. Positions `-1` and `39` draw half the tile; a position
    /// outside `[-1, 39]` on either axis draws nothing.
    pub fn blit_as_tile(&self, fb: &mut Vec<u8>, x: i32, y: i32)
        requires
            old(fb)@.len() == 6400,
        ensures
            is_tile_blit(old(fb)@, final(fb)@, *self, x as int, y as int),
    {
        if x < MIN_TILE_COORD || x > MAX_TILE_COORD {
            return;
        }
        if y < MIN_TILE_COORD || y > MAX_TILE_COORD {
            return;
        }
        let ghost old_fb = fb@;
        // The framebuffer is 40 bytes wide, so a tile covers two bytes of a row,
        // or one at the extreme positions.
        let (xd0, xd1, xs0): (usize, usize, usize) = if x == MIN_TILE_COORD {
            (0, 1, 1)
        } else if x == MAX_TILE_COORD {
            (39, 40, 0)
        } else {
            (x as usize, x as usize + 2, 0)
        };
        let (yd0, yd1, ys0): (usize, usize, usize) = if y == MIN_TILE_COORD {
            (0, 4, 4)
        } else if y == MAX_TILE_COORD {
            (156, 160, 0)
        } else {
            (y as usize * 4, y as usize * 4 + 8, 0)
        };
        let mut r: usize = yd0;
        while r < yd1
            invariant
                fb@.len() == 6400,
                yd0 <= r <= yd1 <= 160,
                xd0 < xd1 <= 40,
                xs0 as int == xd0 - x,
                ys0 as int == yd0 - 4 * y,
                yd1 - yd0 + ys0 <= 8,
                xd1 - xd0 + xs0 <= 2,
                -1 <= x <= 39,
                -1 <= y <= 39,
                forall|row: int, col: int|
                    0 <= row < 160 && 0 <= col < 40 && tile_covers(x as int, y as int, row, col) ==> yd0 <= row < yd1 && xd0 <= col < xd1,
                forall|row: int, col: int|
                    0 <= row < 160 && 0 <= col < 40 ==> #[trigger] fb_byte(fb@, row, col) == if row < r {
                        tile_blit_byte(old_fb, *self, x as int, y as int, row, col)
                    } else {
                        fb_byte(old_fb, row, col)
                    },
            decreases yd1 - r,
        {
            let mut c: usize = xd0;
            while c < xd1
                invariant
                    fb@.len() == 6400,
                    yd0 <= r < yd1 <= 160,
                    xd0 <= c <= xd1 <= 40,
                    xs0 as int == xd0 - x,
                    ys0 as int == yd0 - 4 * y,
                    yd1 - yd0 + ys0 <= 8,
                    xd1 - xd0 + xs0 <= 2,
                    -1 <= x <= 39,
                    -1 <= y <= 39,
                    forall|row: int, col: int|
                        0 <= row < 160 && 0 <= col < 40 && tile_covers(x as int, y as int, row, col) ==> yd0 <= row < yd1 && xd0 <= col < xd1,
                    forall|row: int, col: int|
                        0 <= row < 160 && 0 <= col < 40 ==> #[trigger] fb_byte(fb@, row, col) == if row < r || (row == r && col < c) {
                            tile_blit_byte(old_fb, *self, x as int, y as int, row, col)
                        } else {
                            fb_byte(old_fb, row, col)
                        },
                decreases xd1 - c,
            {
                let s: usize = (r - yd0 + ys0) * TILE_STRIDE + (c - xd0 + xs0);
                let k: usize = r * FB_STRIDE + c;
                let (src_value, src_mask) = (self.colors[s], self.opacity_mask[s]);
                let ghost before = fb@;
                let v: u8 = (fb[k] & !src_mask) | (src_value & src_mask);
                fb.set(k, v);
                proof {
                    assert(tile_covers(x as int, y as int, r as int, c as int));
                    assert(s as int == (r - 4 * y) * 2 + (c - x));
                    assert(before[k as int] == fb_byte(before, r as int, c as int));
                    assert(fb_byte(before, r as int, c as int) == fb_byte(old_fb, r as int, c as int));
                    assert(v == tile_blit_byte(old_fb, *self, x as int, y as int, r as int, c as int));
                    assert forall|row: int, col: int|
                        0 <= row < 160 && 0 <= col < 40 && (row != r || col != c) implies #[trigger] fb_byte(fb@, row, col)
                            == fb_byte(before, row, col) by {
                        lemma_index_distinct(row, col, r as int, c as int);
                    }
                    assert(fb_byte(fb@, r as int, c as int) == v);
                }
                c = c + 1;
            }
            r = r + 1;
        }
    }

    /// Blits the tile at pixel position `(x, y)`. A position outside
    /// `[-7, 159]` on either axis draws nothing. Where both coordinates are
    /// multiples of 4 this is `blit_as_tile` at `(x / 4, y / 4)`; elsewhere each
    /// opaque asset pixel that lands on the screen replaces the screen pixel and
    /// every other pixel is kept.
    pub fn blit_as_sprite(&self, fb: &mut Vec<u8>, x: i32, y: i32)
        requires
            old(fb)@.len() == 6400,
        ensures
            is_sprite_blit(old(fb)@, final(fb)@, *self, x as int, y as int),
    {
        if x < MIN_SPRITE_COORD || x > MAX_SPRITE_COORD || y < MIN_SPRITE_COORD || y > MAX_SPRITE_COORD {
            return;
        }
        if x % 4 == 0 && y % 4 == 0 {
            // Both coordinates fall on byte boundaries: the cheap path draws the same.
            self.blit_as_tile(fb, x / 4, y / 4);
            return;
        }
        let ghost old_fb = fb@;
        let dst_x: i32 = if x < 0 { 0 } else { x };
        let dst_y: i32 = if y < 0 { 0 } else { y };
        let (src_x, span_size): (i32, i32) = if x < 0 {
            (-x, 8 + x)
        } else if SCREEN - x < 8 {
            (0, SCREEN - x)
        } else {
            (0, 8)
        };
        let (src_y, span_count): (i32, i32) = if y < 0 {
            (-y, 8 + y)
        } else if SCREEN - y < 8 {
            (0, SCREEN - y)
        } else {
            (0, 8)
        };
        let (dst_x, dst_y, src_x, src_y) = (dst_x as usize, dst_y as usize, src_x as usize, src_y as usize);
        let (span_size, span_count) = (span_size as usize, span_count as usize);
        let mut j: usize = 0;
        while j < span_count
            invariant
                fb@.len() == 6400,
                j <= span_count,
                dst_x as int == src_x + x,
                dst_y as int == src_y + y,
                src_x + span_size <= 8,
                src_y + span_count <= 8,
                dst_x + span_size <= 160,
                dst_y + span_count <= 160,
                x < 0 ==> dst_x == 0,
                x >= 0 ==> src_x == 0,
                y >= 0 ==> src_y == 0,
                y < 0 ==> dst_y == 0,
                dst_x + span_size == 160 || src_x + span_size == 8,
                dst_y + span_count == 160 || src_y + span_count == 8,
                MIN_SPRITE_COORD <= x <= MAX_SPRITE_COORD,
                MIN_SPRITE_COORD <= y <= MAX_SPRITE_COORD,
                forall|row: int, col: int, q: int|
                    0 <= row < 160 && 0 <= col < 40 && 0 <= q < 4 ==> #[trigger] pixel(fb@, row, col, q)
                        == if row < dst_y + j {
                        sprite_blit_pixel(old_fb, *self, x as int, y as int, row, col, q)
                    } else {
                        pixel(old_fb, row, col, q)
                    },
            decreases span_count - j,
        {
            let js = src_y + j;
            let jd = dst_y + j;
            let mut i: usize = 0;
            proof {
                assert forall|row: int, col: int, q: int|
                    0 <= row < 160 && 0 <= col < 40 && 0 <= q < 4 && row == jd && 4 * col + q
                        < dst_x implies !#[trigger] sprite_covers(*self, x as int, y as int, 4 * col + q, row) by {}
            }
            while i < span_size
                invariant
                    fb@.len() == 6400,
                    j < span_count,
                    i <= span_size,
                    js == src_y + j,
                    jd == dst_y + j,
                    dst_x as int == src_x + x,
                    dst_y as int == src_y + y,
                    src_x + span_size <= 8,
                    src_y + span_count <= 8,
                    dst_x + span_size <= 160,
                    dst_y + span_count <= 160,
                    x < 0 ==> dst_x == 0,
                x >= 0 ==> src_x == 0,
                y >= 0 ==> src_y == 0,
                    y < 0 ==> dst_y == 0,
                    dst_x + span_size == 160 || src_x + span_size == 8,
                    dst_y + span_count == 160 || src_y + span_count == 8,
                    MIN_SPRITE_COORD <= x <= MAX_SPRITE_COORD,
                    MIN_SPRITE_COORD <= y <= MAX_SPRITE_COORD,
                    forall|row: int, col: int, q: int|
                        0 <= row < 160 && 0 <= col < 40 && 0 <= q < 4 ==> #[trigger] pixel(fb@, row, col, q)
                            == if row < jd || (row == jd && 4 * col + q < dst_x + i) {
                            sprite_blit_pixel(old_fb, *self, x as int, y as int, row, col, q)
                        } else {
                            pixel(old_fb, row, col, q)
                        },
                decreases span_size - i,
            {
                let is = src_x + i;
                let id = dst_x + i;
                // Pixel by pixel, with the source and the destination each at
                // their own place within a byte.
                let real_src_idx: usize = is / 4 + js * TILE_STRIDE;
                let src_q: usize = is % 4;
                let src_shift: u8 = (2 * src_q) as u8;
                let src_mask: u8 = 3u8 << src_shift;
                let ghost cur = fb@;
                proof {
                    lemma_fields(self.opacity_mask[real_src_idx as int], 0, src_shift, 0);
                    lemma_fields(self.colors[real_src_idx as int], 0, src_shift, 0);
                    assert(is as int == id - x);
                    assert(js as int == jd - y);
                    assert(id as int == 4 * (id as int / 4) + id as int % 4);
                }
                if (self.opacity_mask[real_src_idx] & src_mask) != 0 {
                    let color_bits: u8 = (self.colors[real_src_idx] & src_mask) >> src_shift;
                    let dst_q: usize = id % 4;
                    let dst_shift: u8 = (2 * dst_q) as u8;
                    let keep: u8 = !(3u8 << dst_shift);
                    let real_dst_idx: usize = id / 4 + jd * FB_STRIDE;
                    let v: u8 = (fb[real_dst_idx] & keep) | (color_bits << dst_shift);
                    fb.set(real_dst_idx, v);
                    proof {
                        assert forall|row: int, col: int, q: int|
                            0 <= row < 160 && 0 <= col < 40 && 0 <= q < 4 implies #[trigger] pixel(fb@, row, col, q)
                                == if row == jd && 4 * col + q == id {
                                sprite_color(*self, id - x, jd - y)
                            } else {
                                pixel(cur, row, col, q)
                            } by {
                            if row != jd || col != id / 4 {
                                lemma_index_distinct(row, col, jd as int, id as int / 4);
                                assert(fb_byte(fb@, row, col) == fb_byte(cur, row, col));
                            } else {
                                assert(fb_byte(cur, row, col) == cur[real_dst_idx as int]);
                                lemma_fields(cur[real_dst_idx as int], color_bits, dst_shift, (2 * q) as u8);
                            }
                        }
                    }
                }
                i = i + 1;
            }
            proof {
                assert forall|row: int, col: int, q: int|
                    0 <= row < 160 && 0 <= col < 40 && 0 <= q < 4 && row == jd && 4 * col + q
                        >= dst_x + span_size implies !#[trigger] sprite_covers(*self, x as int, y as int, 4 * col + q, row) by {}
            }
            j = j + 1;
        }
    }
}

} // verus!