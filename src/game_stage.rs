use vstd::prelude::*;

verus! {

/// Frame state of the procedural pattern effect.
pub struct GameStage {
    current_frame: usize,
}

impl GameStage {
    /// Frames counted so far.
    pub closed spec fn frames(&self) -> usize {
        self.current_frame
    }

    pub fn new() -> (r: Self)
        ensures
            r.frames() == 0,
    {
        GameStage { current_frame: 0 }
    }

    /// The palette the host installs once at start-up: four packed 24-bit RGB
    /// values, darkest first.
    pub fn start(&mut self) -> (r: [u32; 4])
        ensures
            r@ == seq![0x232e45u32, 0x3c5d75u32, 0x5eb2a0u32, 0xffd7b9u32],
            final(self).frames() == old(self).frames(),
    {
        [0x232e45, 0x3c5d75, 0x5eb2a0, 0xffd7b9]
    }

    /// Counts one frame.
    pub fn update(&mut self)
        ensures
            final(self).frames() == if old(self).frames() == usize::MAX {
                0
            } else {
                (old(self).frames() + 1) as usize
            },
    {
        self.current_frame = self.current_frame.wrapping_add(1);
    }

    /// The frame counter, which drives the pattern's time.
    pub fn current_frame(&self) -> (r: usize)
        ensures
            r == self.frames(),
    {
        self.current_frame
    }
}

} // verus!
