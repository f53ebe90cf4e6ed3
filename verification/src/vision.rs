//! The visibility engine: recomputes the currently-visible set from an
//! origin each turn and accumulates it into a monotonic "ever discovered"
//! memory grid.

use vstd::prelude::*;
use crate::geom::Coord;
use crate::geom::Size;
use crate::world::World;

verus! {

/// Radius of the player's field of view.
pub const VISION_RANGE: u32 = 8;

/// Per-cell visibility state: the transient this-frame flag and the
/// one-way discovered flag.
#[derive(Clone, Copy, Debug, PartialEq, Eq, Structural)]
pub struct VisibilityCell {
    pub visible: bool,
    pub discovered: bool,
}

impl VisibilityCell {
    pub fn is_visible(&self) -> (r: bool)
        ensures
            r == self.visible,
    {
        self.visible
    }

    pub fn is_discovered(&self) -> (r: bool)
        ensures
            r == self.discovered,
    {
        self.discovered
    }
}

/// The per-level visibility memory, sized to the level grid.
pub struct VisibleArea {
    pub size: Size,
    pub cells: Vec<VisibilityCell>,
}

impl VisibleArea {
    pub open spec fn wf(self) -> bool {
        &&& self.size.wf()
        &&& self.cells@.len() == self.size.area()
    }

    /// A fresh memory: nothing visible, nothing discovered.
    pub fn new(size: Size) -> (r: VisibleArea)
        requires
            size.wf(),
        ensures
            r.wf(),
            r.size == size,
            forall|i: int|
                0 <= i < r.cells@.len() ==> (#[trigger] r.cells@[i]) == (VisibilityCell {
                    visible: false,
                    discovered: false,
                }),
    {
        let count = size.cell_count();
        let mut cells: Vec<VisibilityCell> = Vec::new();
        let mut i: usize = 0;
        while i < count
            invariant
                i <= count,
                cells@.len() == i,
                forall|k: int|
                    0 <= k < i ==> (#[trigger] cells@[k]) == (VisibilityCell {
                        visible: false,
                        discovered: false,
                    }),
            decreases count - i,
        {
            cells.push(VisibilityCell { visible: false, discovered: false });
            i += 1;
        }
        VisibleArea { size, cells }
    }

    /// Recomputes the currently-visible flag of every cell from `origin`
    /// over the world's walls, and unions the result into the discovered
    /// flags. Discovery is monotonic: a discovered cell stays discovered
    /// after every later update, whatever the origin.
    pub fn update(&mut self, origin: Coord, world: &World)
        requires
            old(self).wf(),
            world@.wf(),
            old(self).size == world@.size,
            world@.size.contains(origin),
        ensures
            final(self).wf(),
            final(self).size == old(self).size,
            final(self).cells@.len() == old(self).cells@.len(),
            forall|i: int|
                0 <= i < final(self).cells@.len() ==> (#[trigger] final(self).cells@[i]).visible
                    == world@.sees(
                    origin,
                    old(self).size.coord_of_index(i),
                    VISION_RANGE as int,
                ),
            forall|i: int|
                0 <= i < final(self).cells@.len() ==> (#[trigger] final(self).cells@[i]).discovered
                    == (old(self).cells@[i].discovered || final(self).cells@[i].visible),
            forall|i: int|
                0 <= i < final(self).cells@.len() && old(self).cells@[i].discovered
                    ==> (#[trigger] final(self).cells@[i]).discovered,
    {
        let count = self.size.cell_count();
        let width = self.size.width;
        let mut i: usize = 0;
        while i < count
            invariant
                self.wf(),
                self.size == old(self).size,
                world@.wf(),
                self.size == world@.size,
                world@.size.contains(origin),
                width == self.size.width,
                count == self.size.area(),
                i <= count,
                self.cells@.len() == count,
                forall|k: int|
                    i <= k < count ==> (#[trigger] self.cells@[k]) == old(self).cells@[k],
                forall|k: int|
                    0 <= k < i ==> (#[trigger] self.cells@[k]).visible == world@.sees(
                        origin,
                        self.size.coord_of_index(k),
                        VISION_RANGE as int,
                    ),
                forall|k: int|
                    0 <= k < i ==> (#[trigger] self.cells@[k]).discovered == (
                    old(self).cells@[k].discovered || self.cells@[k].visible),
            decreases count - i,
        {
            let x = (i as u64 % width as u64) as u32;
            let y = (i as u64 / width as u64) as u32;
            let c = Coord { x: x as i32, y: y as i32 };
            proof {
                self.size.lemma_coord_of_index_bounds(i as int);
                let w = width as int;
                let h = self.size.height as int;
                assert(0 <= (i as int) % w < w) by (nonlinear_arith)
                    requires
                        w > 0,
                ;
                assert(0 <= (i as int) / w < h) by (nonlinear_arith)
                    requires
                        w > 0,
                        0 <= i as int,
                        (i as int) < w * h,
                ;
                assert(c == self.size.coord_of_index(i as int));
            }
            let visible = world.can_see(origin, c, VISION_RANGE);
            let discovered = self.cells[i].discovered || visible;
            let cell = &mut self.cells[i];
            cell.visible = visible;
            cell.discovered = discovered;
            i += 1;
        }
    }

    /// A snapshot of the flag pairs, in grid-scan order.
    pub fn iter(&self) -> (r: Vec<VisibilityCell>)
        ensures
            r@ == self.cells@,
    {
        let mut out: Vec<VisibilityCell> = Vec::new();
        let n = self.cells.len();
        let mut i: usize = 0;
        while i < n
            invariant
                i <= n,
                n == self.cells@.len(),
                out@ == self.cells@.take(i as int),
            decreases n - i,
        {
            out.push(self.cells[i]);
            proof {
                assert(out@ =~= self.cells@.take(i as int + 1));
            }
            i += 1;
        }
        proof {
            assert(self.cells@.take(n as int) =~= self.cells@);
        }
        out
    }

    /// The flag pair of the in-bounds cell `c`.
    pub fn get(&self, c: Coord) -> (r: VisibilityCell)
        requires
            self.wf(),
            self.size.contains(c),
        ensures
            r == self.cells@[self.size.index_of(c)],
    {
        proof {
            self.size.lemma_index_of_bounds(c);
        }
        let ci = self.size.index(c);
        self.cells[ci]
    }
}

} // verus!
