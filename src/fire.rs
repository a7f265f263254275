use vstd::prelude::*;

use crate::dither::{encode_levels, encoded_byte, levels_in_range, CELLS, FB_BYTES, MAX_LEVEL};
use crate::random::{lfsr_next, range_i_of, range_u_of, RndGen};

verus! {

/// Width and height of the fire grid.
pub const GRID: usize = 80;

/// Number of cells in the fire grid.
pub const GRID_CELLS: usize = 6400;

/// Index of the first cell of the bottom row, the heat source.
pub const BOTTOM_START: usize = 6320;

/// Lowest level a burning cell decays to.
pub const EMBER_LEVEL: u8 = 1;

/// Chance, in percent, that a propagated cell decays by one level.
pub const DECAY_PERCENT: u16 = 45;

/// Chance, in percent, that a heat-source cell burns at the maximum level.
pub const FULL_HEAT_PERCENT: u16 = 71;

/// The fire grid advances on every this many frames.
pub const CADENCE: usize = 4;

/// A well-formed grid: 80x80 levels in `[0, 12]`, the bottom row in `[9, 12]`.
pub open spec fn grid_wf(g: Seq<u8>) -> bool {
    &&& g.len() == GRID_CELLS
    &&& forall|i: int| 0 <= i < GRID_CELLS ==> #[trigger] g[i] <= MAX_LEVEL
    &&& forall|i: int| BOTTOM_START <= i < GRID_CELLS ==> 9 <= #[trigger] g[i]
}

/// Level that a propagated cell takes from source level `src` and the percent draw `roll`.
pub open spec fn propagated(src: u8, roll: int) -> u8 {
    if src == 0 {
        0
    } else if roll < DECAY_PERCENT {
        if src > EMBER_LEVEL { (src - 1) as u8 } else { EMBER_LEVEL }
    } else {
        src
    }
}

/// Column that cell `x` of a row propagates into, from the offset draw `off` in `{-1, 0, 1}`.
pub open spec fn target_column(x: int, off: int) -> int {
    let c = x + off;
    if c < 0 {
        0
    } else if c >= GRID {
        GRID - 1
    } else {
        c
    }
}

/// Processing of cell `i` from grid `g` and register `s`: the new grid and register.
/// A cell above the bottom row draws a column offset and a percent, then writes
/// its row at the drawn column from the cell below it; a bottom cell draws a
/// percent and, unless it burns at 12, a level in `[9, 11]`.
pub open spec fn cell_step(g: Seq<u8>, s: u16, i: int) -> (Seq<u8>, u16) {
    if i < BOTTOM_START {
        let s1 = lfsr_next(s);
        let off = range_i_of(s1, -1i16, 2i16);
        let s2 = lfsr_next(s1);
        let roll = range_u_of(s2, 0, 100);
        let dst = (i / (GRID as int)) * (GRID as int) + target_column(i % (GRID as int), off);
        (g.update(dst, propagated(g[i + GRID], roll)), s2)
    } else {
        let s1 = lfsr_next(s);
        let roll = range_u_of(s1, 0, 100);
        if roll < FULL_HEAT_PERCENT {
            (g.update(i, MAX_LEVEL), s1)
        } else {
            let s2 = lfsr_next(s1);
            (g.update(i, range_u_of(s2, 9, 12) as u8), s2)
        }
    }
}

/// Grid and register after processing cells `0..n` in order.
pub open spec fn cells_done(g: Seq<u8>, s: u16, n: nat) -> (Seq<u8>, u16)
    decreases n,
{
    if n == 0 {
        (g, s)
    } else {
        let (g1, s1) = cells_done(g, s, (n - 1) as nat);
        cell_step(g1, s1, n - 1)
    }
}

/// Grid and register after one full advance.
pub open spec fn fire_round(g: Seq<u8>, s: u16) -> (Seq<u8>, u16) {
    cells_done(g, s, GRID_CELLS as nat)
}

/// Grid and register after `n` advances.
pub open spec fn fire_rounds(g: Seq<u8>, s: u16, n: nat) -> (Seq<u8>, u16)
    decreases n,
{
    if n == 0 {
        (g, s)
    } else {
        let (g1, s1) = fire_rounds(g, s, (n - 1) as nat);
        fire_round(g1, s1)
    }
}

/// Processing one cell keeps a grid well formed.
pub proof fn lemma_cell_step_wf(g: Seq<u8>, s: u16, i: int)
    requires
        grid_wf(g),
        0 <= i < GRID_CELLS,
    ensures
        grid_wf(cell_step(g, s, i).0),
{
    if i < BOTTOM_START {
        let off = range_i_of(lfsr_next(s), -1i16, 2i16);
        let x = i % (GRID as int);
        assert((i / 80) * 80 + x == i) by (nonlinear_arith) requires x == i % 80, 0 <= i;
        assert(0 <= i / 80 < 79) by (nonlinear_arith) requires 0 <= i < 6320;
        let c = target_column(x, off);
        assert((i / 80) * 80 + c < 6320) by (nonlinear_arith) requires 0 <= i / 80 < 79, 0 <= c < 80;
        assert((i / 80) * 80 + c >= 0) by (nonlinear_arith) requires 0 <= i / 80, 0 <= c;
    } else {
        let s2 = lfsr_next(lfsr_next(s));
        assert((s2 as int) % 3 < 3) by (nonlinear_arith);
    }
}

/// Processing the first `n` cells keeps a grid well formed.
pub proof fn lemma_cells_done_wf(g: Seq<u8>, s: u16, n: nat)
    requires
        grid_wf(g),
        n <= GRID_CELLS,
    ensures
        grid_wf(cells_done(g, s, n).0),
    decreases n,
{
    if n > 0 {
        lemma_cells_done_wf(g, s, (n - 1) as nat);
        let (g1, s1) = cells_done(g, s, (n - 1) as nat);
        lemma_cell_step_wf(g1, s1, n - 1);
    }
}

/// Two fields that start from the same grid and register are equal after any
/// number of advances, and every advance keeps all levels in `[0, 12]` and the
/// bottom row in `[9, 12]`.
pub proof fn lemma_fire_deterministic(g1: Seq<u8>, s1: u16, g2: Seq<u8>, s2: u16, n: nat)
    requires
        grid_wf(g1),
        g1 == g2,
        s1 == s2,
    ensures
        fire_rounds(g1, s1, n) == fire_rounds(g2, s2, n),
        grid_wf(fire_rounds(g1, s1, n).0),
    decreases n,
{
    if n > 0 {
        lemma_fire_deterministic(g1, s1, g2, s2, (n - 1) as nat);
        let (g, s) = fire_rounds(g1, s1, (n - 1) as nat);
        lemma_cells_done_wf(g, s, GRID_CELLS as nat);
    }
}

/// A fire animation on an 80x80 grid of levels, driven by its own generator.
pub struct FireField {
    grid: Vec<u8>,
    rng: RndGen,
    frame: usize,
}

impl FireField {
    /// The grid, row-major.
    pub closed spec fn cells(&self) -> Seq<u8> {
        self.grid@
    }

    /// The generator's register.
    pub closed spec fn seed(&self) -> u16 {
        self.rng@
    }

    /// Frames counted so far.
    pub closed spec fn frames(&self) -> usize {
        self.frame
    }

    pub open spec fn wf(&self) -> bool {
        grid_wf(self.cells()) && self.seed() != 0
    }

    /// A cold grid over a burning bottom row, with the generator seeded by `seed`.
    pub fn new(seed: u16) -> (r: Self)
        requires
            seed != 0,
        ensures
            r.wf(),
            r.seed() == seed,
            r.frames() == 0,
            forall|i: int| 0 <= i < BOTTOM_START ==> #[trigger] r.cells()[i] == 0,
            forall|i: int| BOTTOM_START <= i < GRID_CELLS ==> #[trigger] r.cells()[i] == MAX_LEVEL,
    {
        let mut grid: Vec<u8> = Vec::new();
        let mut i: usize = 0;
        while i < GRID_CELLS
            invariant
                i <= GRID_CELLS,
                grid@.len() == i,
                forall|j: int| 0 <= j < i && j < BOTTOM_START ==> #[trigger] grid@[j] == 0,
                forall|j: int| BOTTOM_START <= j < i ==> #[trigger] grid@[j] == MAX_LEVEL,
            decreases GRID_CELLS - i,
        {
            grid.push(if i < BOTTOM_START { 0 } else { MAX_LEVEL });
            i = i + 1;
        }
        FireField { grid, rng: RndGen::with_seed(seed), frame: 0 }
    }

    /// Level of cell `(u, v)`: a direct lookup.
    pub fn sample(&self, u: usize, v: usize) -> (r: u8)
        requires
            self.wf(),
            u < GRID,
            v < GRID,
        ensures
            r == self.cells()[v * GRID + u],
            r <= MAX_LEVEL,
    {
        self.grid[v * GRID + u]
    }

    /// One propagation pass over the whole grid.
    pub fn advance(&mut self)
        requires
            old(self).wf(),
        ensures
            final(self).wf(),
            (final(self).cells(), final(self).seed()) == fire_round(old(self).cells(), old(self).seed()),
            final(self).frames() == old(self).frames(),
    {
        let ghost g0 = self.grid@;
        let ghost s0 = self.rng@;
        let ghost f0 = self.frame;
        let mut i: usize = 0;
        while i < GRID_CELLS
            invariant
                i <= GRID_CELLS,
                grid_wf(g0),
                (self.grid@, self.rng@) == cells_done(g0, s0, i as nat),
                grid_wf(self.grid@),
                self.rng.wf(),
                self.frame == f0,
            decreases GRID_CELLS - i,
        {
            proof {
                lemma_cell_step_wf(self.grid@, self.rng@, i as int);
            }
            if i < BOTTOM_START {
                let x = i % GRID;
                let off = self.rng.gen_range_i(-1, 2);
                let roll = self.rng.gen_range(0, 100);
                let c: i32 = x as i32 + off as i32;
                let col: usize = if c < 0 { 0 } else if c >= GRID as i32 { GRID - 1 } else { c as usize };
                let src = self.grid[i + GRID];
                let level = if src == 0 {
                    0
                } else if roll < DECAY_PERCENT {
                    if src > EMBER_LEVEL { src - 1 } else { EMBER_LEVEL }
                } else {
                    src
                };
                proof {
                    assert((i / 80) * 80 + col < 6320) by (nonlinear_arith) requires i < 6320, col < 80;
                }
                self.grid.set((i / GRID) * GRID + col, level);
            } else {
                let roll = self.rng.gen_range(0, 100);
                let level = if roll < FULL_HEAT_PERCENT {
                    MAX_LEVEL
                } else {
                    self.rng.gen_range(9, 12) as u8
                };
                self.grid.set(i, level);
            }
            i = i + 1;
        }
    }

    /// Counts a frame and advances the grid on every fourth one.
    pub fn update(&mut self)
        requires
            old(self).wf(),
        ensures
            final(self).wf(),
            final(self).frames() == if old(self).frames() == usize::MAX {
                0
            } else {
                (old(self).frames() + 1) as usize
            },
            final(self).frames() % CADENCE == 0 ==> (final(self).cells(), final(self).seed())
                == fire_round(old(self).cells(), old(self).seed()),
            final(self).frames() % CADENCE != 0 ==> final(self).cells() == old(self).cells()
                && final(self).seed() == old(self).seed(),
    {
        self.frame = self.frame.wrapping_add(1);
        if self.frame % CADENCE == 0 {
            self.advance();
        }
    }

    /// Writes the dithered image of the grid into the 160x160 framebuffer.
    pub fn render(&self, fb: &mut Vec<u8>)
        requires
            self.wf(),
            old(fb)@.len() == FB_BYTES,
        ensures
            final(fb)@.len() == FB_BYTES,
            forall|k: int| 0 <= k < FB_BYTES ==> #[trigger] final(fb)@[k] as int == encoded_byte(self.cells(), k),
    {
        encode_levels(fb, &self.grid);
    }
}

} // verus!
