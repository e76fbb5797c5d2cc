//! The framebuffer: a fixed 64x32 grid of one-bit pixels. Pixels are only
//! ever toggled (XORed) or cleared in bulk, never directly overwritten.

use vstd::prelude::*;

verus! {

/// The monochrome pixel grid, 32 rows of 64 pixels, row-major.
pub struct Screen {
    /// The pixel rows; every pixel is 0 or 1.
    pub vram: Vec<Vec<u8>>,
}

/// Shape and pixel invariant of a framebuffer grid: 32 rows of 64 pixels,
/// each pixel 0 or 1.
pub open spec fn grid_wf(g: Seq<Seq<u8>>) -> bool {
    &&& g.len() == 32
    &&& forall|r: int| 0 <= r < 32 ==> (#[trigger] g[r]).len() == 64
    &&& forall|r: int, c: int| 0 <= r < 32 && 0 <= c < 64 ==> #[trigger] g[r][c] <= 1
}

/// The all-clear grid.
pub open spec fn blank_grid() -> Seq<Seq<u8>> {
    Seq::new(32, |r: int| Seq::new(64, |c: int| 0u8))
}

/// Builds the all-clear pixel rows.
fn blank_vram() -> (r: Vec<Vec<u8>>)
    ensures
        r.deep_view() == blank_grid(),
{
    let mut vram: Vec<Vec<u8>> = Vec::new();
    while vram.len() < 32
        invariant
            vram@.len() <= 32,
            forall|i: int|
                0 <= i < vram@.len() ==> (#[trigger] vram@[i]).deep_view() == Seq::new(
                    64,
                    |c: int| 0u8,
                ),
        decreases 32 - vram.len(),
    {
        let mut row: Vec<u8> = Vec::new();
        while row.len() < 64
            invariant
                row@.len() <= 64,
                forall|c: int| 0 <= c < row@.len() ==> #[trigger] row@[c] == 0u8,
            decreases 64 - row.len(),
        {
            row.push(0u8);
        }
        proof {
            assert(row.deep_view() =~= Seq::new(64, |c: int| 0u8));
        }
        vram.push(row);
    }
    proof {
        assert(vram.deep_view() =~~= blank_grid());
    }
    vram
}

impl Screen {
    /// The grid as a mathematical sequence of rows.
    pub open spec fn grid(&self) -> Seq<Seq<u8>> {
        self.vram.deep_view()
    }

    /// Well-formedness: the grid has its fixed shape and one-bit pixels.
    pub open spec fn wf(&self) -> bool {
        grid_wf(self.grid())
    }

    /// A screen with every pixel clear.
    pub fn new() -> (r: Self)
        ensures
            r.grid() == blank_grid(),
            r.wf(),
    {
        let vram = blank_vram();

        Self { vram }
    }

    /// Sets every pixel to 0.
    pub fn clear(&mut self)
        ensures
            final(self).grid() == blank_grid(),
            final(self).wf(),
    {
        self.vram = blank_vram();
    }

    /// Replaces the whole grid.
    pub fn set_vram(&mut self, vram: Vec<Vec<u8>>)
        requires
            grid_wf(vram.deep_view()),
        ensures
            final(self).grid() == vram.deep_view(),
            final(self).wf(),
    {
        self.vram = vram;
    }

    /// The whole grid, read-only: the snapshot the rendering collaborator
    /// consumes.
    pub fn vram(&self) -> (r: &Vec<Vec<u8>>)
        ensures
            r.deep_view() == self.grid(),
    {
        &self.vram
    }

    /// XORs pixel (x, y) with `v`, so a set bit toggles it and a clear bit
    /// leaves it as it was.
    pub fn set_xy(&mut self, x: usize, y: usize, v: u8)
        requires
            old(self).wf(),
            x < 64,
            y < 32,
            v <= 1,
        ensures
            final(self).wf(),
            final(self).grid() == old(self).grid().update(
                y as int,
                old(self).grid()[y as int].update(
                    x as int,
                    old(self).grid()[y as int][x as int] ^ v,
                ),
            ),
    {
        proof {
            assert(self.vram@[y as int].deep_view() == self.grid()[y as int]);
        }
        let p = self.vram[y][x];
        proof {
            let p0 = p;
            let v0 = v;
            assert(p0 <= 1 && v0 <= 1 ==> (p0 ^ v0) <= 1) by (bit_vector);
        }
        self.vram[y][x] = p ^ v;
        proof {
            assert(self.vram@[y as int].deep_view() =~= old(self).grid()[y as int].update(
                x as int,
                old(self).grid()[y as int][x as int] ^ v,
            ));
            assert(self.grid() =~~= old(self).grid().update(
                y as int,
                old(self).grid()[y as int].update(
                    x as int,
                    old(self).grid()[y as int][x as int] ^ v,
                ),
            ));
        }
    }
}

} // verus!
