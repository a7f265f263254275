use vstd::prelude::*;

verus! {

/// Logical cells per row and per column of the intensity grid.
pub const CELLS: usize = 80;

/// Bytes per framebuffer row (160 pixels at 4 pixels per byte).
pub const ROW_BYTES: usize = 40;

/// Bytes in the whole 160x160 framebuffer.
pub const FB_BYTES: usize = 6400;

/// Highest intensity level.
pub const MAX_LEVEL: u8 = 12;

/// Whether the sub-pixel at `pos` (0 top-left, 1 top-right, 2 bottom-left,
/// 3 bottom-right) is promoted for `rem` in the table of even cells (`odd`
/// false) or of odd cells (`odd` true).
pub open spec fn promoted(odd: bool, rem: int, pos: int) -> bool {
    if rem == 1 {
        if odd { pos == 3 } else { pos == 1 }
    } else if rem == 2 {
        pos == 0 || pos == 3
    } else if rem == 3 {
        if odd { pos == 0 || pos == 1 || pos == 2 } else { pos == 0 || pos == 2 || pos == 3 }
    } else {
        false
    }
}

/// Palette index of sub-pixel `pos` in the block that stands for `level`.
pub open spec fn block_pixel(level: int, odd: bool, pos: int) -> int {
    if level >= 12 {
        3
    } else if promoted(odd, level % 4, pos) {
        level / 4 + 1
    } else {
        level / 4
    }
}

/// The four bits of one block row: left pixel in bits 0-1, right pixel in bits 2-3.
pub open spec fn block_nibble(level: int, odd: bool, bottom: bool) -> int {
    let first = if bottom { 2int } else { 0int };
    block_pixel(level, odd, first) + 4 * block_pixel(level, odd, first + 1)
}

/// The byte holding one row of two neighbouring blocks: the even cell in the
/// low nibble, the odd cell in the high nibble.
pub open spec fn pair_byte(even_level: int, odd_level: int, bottom: bool) -> int {
    block_nibble(even_level, false, bottom) + 16 * block_nibble(odd_level, true, bottom)
}

/// Number of promoted sub-pixels of a block.
pub open spec fn promoted_count(odd: bool, rem: int) -> int {
    (if promoted(odd, rem, 0) { 1int } else { 0int }) + (if promoted(odd, rem, 1) { 1int } else {
        0int
    }) + (if promoted(odd, rem, 2) { 1int } else { 0int }) + (if promoted(odd, rem, 3) {
        1int
    } else {
        0int
    })
}

/// Byte `k` of a framebuffer encoded from the 80x80 level grid `levels`.
pub open spec fn encoded_byte(levels: Seq<u8>, k: int) -> int {
    let row = k / (ROW_BYTES as int);
    let col = k % (ROW_BYTES as int);
    let cell = (row / 2) * (CELLS as int) + 2 * col;
    pair_byte(levels[cell] as int, levels[cell + 1] as int, row % 2 == 1)
}

/// Every level of the grid lies in `[0, 12]`.
pub open spec fn levels_in_range(levels: Seq<u8>) -> bool {
    forall|i: int| 0 <= i < levels.len() ==> levels[i] <= MAX_LEVEL
}

/// A block below full intensity promotes exactly `level mod 4` sub-pixels; a
/// full block promotes all four. Its four palette indices add up to `level`,
/// so their mean is `level / 4`.
pub proof fn lemma_block_brightness(level: int, odd: bool)
    requires
        0 <= level <= 12,
    ensures
        level < 12 ==> promoted_count(odd, level % 4) == level % 4,
        block_pixel(level, odd, 0) + block_pixel(level, odd, 1) + block_pixel(level, odd, 2)
            + block_pixel(level, odd, 3) == level,
{
}

/// The tables of even and odd cells choose the same sub-pixels for remainders
/// 0 and 2, and different ones for remainders 1 and 3.
pub proof fn lemma_tables_differ_on_odd_remainders()
    ensures
        forall|rem: int, pos: int|
            (rem == 0 || rem == 2) ==> promoted(false, rem, pos) == promoted(true, rem, pos),
        promoted(false, 1, 1) != promoted(true, 1, 1),
        promoted(false, 3, 1) != promoted(true, 3, 1),
{
}

/// The 2-bit field `q` (0 is the leftmost pixel) of a packed byte.
pub open spec fn field(b: u8, q: int) -> u8 {
    (b >> ((2 * q) as u8)) & 3u8
}

/// A byte built from four 2-bit values holds them in order, leftmost pixel lowest.
proof fn lemma_pack_fields(b: u8, p0: u8, p1: u8, p2: u8, p3: u8)
    requires
        p0 < 4,
        p1 < 4,
        p2 < 4,
        p3 < 4,
        b as int == p0 + 4 * p1 + 16 * p2 + 64 * p3,
    ensures
        field(b, 0) == p0,
        field(b, 1) == p1,
        field(b, 2) == p2,
        field(b, 3) == p3,
{
    assert(b == p0 + 4 * p1 + 16 * p2 + 64 * p3);
    assert((b >> 0u8) & 3u8 == p0 && (b >> 2u8) & 3u8 == p1 && (b >> 4u8) & 3u8 == p2 && (b >> 6u8)
        & 3u8 == p3) by (bit_vector)
        requires
            p0 < 4,
            p1 < 4,
            p2 < 4,
            p3 < 4,
            b == p0 + 4 * p1 + 16 * p2 + 64 * p3,
    ;
}

/// In an encoded framebuffer, pixel `(px, py)` with `px = 4 * col + q` and
/// `py = row` shows sub-pixel `2 * (py mod 2) + (px mod 2)` of the block for
/// cell `(px / 2, py / 2)`, drawn with the table of that cell's column parity.
pub proof fn lemma_encoded_pixel(levels: Seq<u8>, b: u8, row: int, col: int, q: int)
    requires
        levels.len() == CELLS * CELLS,
        levels_in_range(levels),
        0 <= row < 160,
        0 <= col < 40,
        0 <= q < 4,
        b as int == encoded_byte(levels, row * 40 + col),
    ensures
        field(b, q) as int == block_pixel(
            levels[(row / 2) * 80 + (4 * col + q) / 2] as int,
            ((4 * col + q) / 2) % 2 == 1,
            2 * (row % 2) + (4 * col + q) % 2,
        ),
{
    let k = row * 40 + col;
    assert(k / 40 == row && k % 40 == col) by (nonlinear_arith) requires k == row * 40 + col, 0 <= col < 40;
    let cell = (row / 2) * 80 + 2 * col;
    assert(0 <= row / 2 < 80);
    assert(0 <= cell && cell + 1 < 6400) by (nonlinear_arith) requires cell == (row / 2) * 80 + 2 * col, 0 <= row / 2 < 80, 0 <= col < 40;
    let l0 = levels[cell] as int;
    let l1 = levels[cell + 1] as int;
    let first = if row % 2 == 1 { 2int } else { 0int };
    lemma_pack_fields(
        b,
        block_pixel(l0, false, first) as u8,
        block_pixel(l0, false, first + 1) as u8,
        block_pixel(l1, true, first) as u8,
        block_pixel(l1, true, first + 1) as u8,
    );
    assert((4 * col + q) / 2 == 2 * col + q / 2);
    assert((4 * col + q) % 2 == q % 2);
}

/// Palette index of one sub-pixel of the block for `level` (at most 12).
pub fn sub_pixel(level: u8, odd: bool, pos: u8) -> (r: u8)
    requires
        level <= MAX_LEVEL,
        pos < 4,
    ensures
        r as int == block_pixel(level as int, odd, pos as int),
        r <= 3,
{
    if level == MAX_LEVEL {
        return 3;
    }
    let base: u8 = level / 4;
    let rem: u8 = level % 4;
    let up = if rem == 1 {
        if odd { pos == 3 } else { pos == 1 }
    } else if rem == 2 {
        pos == 0 || pos == 3
    } else if rem == 3 {
        if odd { pos == 0 || pos == 1 || pos == 2 } else { pos == 0 || pos == 2 || pos == 3 }
    } else {
        false
    };
    if up { base + 1 } else { base }
}

/// The 2x2 block for `level`, in the order top-left, top-right, bottom-left,
/// bottom-right; `odd` selects the table of odd cells.
pub fn dither_block(level: u8, odd: bool) -> (r: [u8; 4])
    requires
        level <= MAX_LEVEL,
    ensures
        forall|p: int| 0 <= p < 4 ==> #[trigger] r@[p] as int == block_pixel(level as int, odd, p),
        forall|p: int| 0 <= p < 4 ==> #[trigger] r@[p] <= 3,
{
    [sub_pixel(level, odd, 0), sub_pixel(level, odd, 1), sub_pixel(level, odd, 2), sub_pixel(level, odd, 3)]
}

/// The top and bottom framebuffer bytes covering the even cell `even_level`
/// and its odd right-hand neighbour `odd_level`.
pub fn encode_pair(even_level: u8, odd_level: u8) -> (r: (u8, u8))
    requires
        even_level <= MAX_LEVEL,
        odd_level <= MAX_LEVEL,
    ensures
        r.0 as int == pair_byte(even_level as int, odd_level as int, false),
        r.1 as int == pair_byte(even_level as int, odd_level as int, true),
{
    let a = dither_block(even_level, false);
    let b = dither_block(odd_level, true);
    let top: u8 = a[0] + 4 * a[1] + 16 * (b[0] + 4 * b[1]);
    let bottom: u8 = a[2] + 4 * a[3] + 16 * (b[2] + 4 * b[3]);
    (top, bottom)
}

/// Writes the dithered image of the 80x80 level grid `levels` (row-major)
/// into the 160x160 framebuffer: each cell becomes a 2x2 pixel block.
pub fn encode_levels(fb: &mut Vec<u8>, levels: &Vec<u8>)
    requires
        old(fb)@.len() == FB_BYTES,
        levels@.len() == CELLS * CELLS,
        levels_in_range(levels@),
    ensures
        final(fb)@.len() == FB_BYTES,
        forall|k: int| 0 <= k < FB_BYTES ==> #[trigger] final(fb)@[k] as int == encoded_byte(levels@, k),
{
    let mut v: usize = 0;
    while v < CELLS
        invariant
            v <= CELLS,
            fb@.len() == FB_BYTES,
            levels@.len() == CELLS * CELLS,
            levels_in_range(levels@),
            forall|k: int| 0 <= k < 2 * ROW_BYTES * v ==> #[trigger] fb@[k] as int == encoded_byte(levels@, k),
        decreases CELLS - v,
    {
        let mut c: usize = 0;
        while c < ROW_BYTES
            invariant
                v < CELLS,
                c <= ROW_BYTES,
                fb@.len() == FB_BYTES,
                levels@.len() == CELLS * CELLS,
                levels_in_range(levels@),
                forall|k: int| 0 <= k < 2 * ROW_BYTES * v ==> #[trigger] fb@[k] as int == encoded_byte(levels@, k),
                forall|k: int| 2 * ROW_BYTES * v <= k < 2 * ROW_BYTES * v + c ==> #[trigger] fb@[k] as int == encoded_byte(levels@, k),
                forall|k: int| 2 * ROW_BYTES * v + ROW_BYTES <= k < 2 * ROW_BYTES * v + ROW_BYTES + c ==> #[trigger] fb@[k] as int == encoded_byte(levels@, k),
            decreases ROW_BYTES - c,
        {
            let cell = v * CELLS + 2 * c;
            let (top, bottom) = encode_pair(levels[cell], levels[cell + 1]);
            let k0 = 2 * ROW_BYTES * v + c;
            let k1 = k0 + ROW_BYTES;
            proof {
                assert(k0 as int / 40 == 2 * v && k0 as int % 40 == c) by (nonlinear_arith)
                    requires k0 == 80 * v + c, c < 40;
                assert(k1 as int / 40 == 2 * v + 1 && k1 as int % 40 == c) by (nonlinear_arith)
                    requires k1 == 80 * v + 40 + c, c < 40;
                assert((2 * v + 1) / 2 == v && (2 * v) / 2 == v && (2 * v + 1) % 2 == 1 && (2 * v) % 2 == 0) by (nonlinear_arith);
            }
            fb.set(k0, top);
            fb.set(k1, bottom);
            c = c + 1;
        }
        assert forall|k: int| 0 <= k < 2 * ROW_BYTES * (v + 1) implies #[trigger] fb@[k] as int
            == encoded_byte(levels@, k) by {
            assert(c == ROW_BYTES);
            assert(k < 2 * ROW_BYTES * v + 2 * ROW_BYTES) by (nonlinear_arith)
                requires k < 2 * ROW_BYTES * (v + 1);
            if k < 2 * ROW_BYTES * v {
            } else if k < 2 * ROW_BYTES * v + ROW_BYTES {
                assert(2 * ROW_BYTES * v <= k < 2 * ROW_BYTES * v + c);
            } else {
                assert(2 * ROW_BYTES * v + ROW_BYTES <= k < 2 * ROW_BYTES * v + ROW_BYTES + c);
            }
        }
        v = v + 1;
    }
}

} // verus!
