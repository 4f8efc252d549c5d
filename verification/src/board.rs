//! The cellular-automaton board: a `width * height` grid of alive/dead
//! cells with the standard birth/survival update rule, bounds-safe reads,
//! and reseeding from a random source.

use vstd::prelude::*;

use crate::diff_count;
use crate::index_of;

verus! {

/// Numerator of the fixed reseed probability: a reseeded cell is alive
/// with probability `ALIVE_NUMERATOR / ALIVE_DENOMINATOR` (15%).
pub const ALIVE_NUMERATOR: u32 = 3;

/// Denominator of the fixed reseed probability.
pub const ALIVE_DENOMINATOR: u32 = 20;

/// A grid of cells, stored row-major: cell (x, y) lives at index
/// `y * width + x`.
pub struct Board {
    pub width: u32,
    pub height: u32,
    pub cells: Vec<bool>,
}

/// 1 for an alive cell, 0 for a dead one; lets a neighbour count be a sum.
pub open spec fn alive_as_count(b: bool) -> int {
    if b {
        1
    } else {
        0
    }
}

impl Board {
    /// Number of cells in the grid.
    pub open spec fn area(self) -> int {
        self.width * self.height
    }

    /// The storage invariant: one cell per grid position, and an area small
    /// enough that every index fits the grid index type.
    pub open spec fn well_formed(self) -> bool {
        &&& self.cells@.len() == self.area()
        &&& self.area() <= u32::MAX
    }

    /// The alive/dead state of the cell at (x, y); every coordinate outside
    /// the grid (negative or past an edge) reads as dead.
    pub open spec fn cell_at(self, x: int, y: int) -> bool {
        &&& 0 <= x < self.width
        &&& 0 <= y < self.height
        &&& self.cells@[index_of(self.width as int, x, y)]
    }

    /// Number of alive cells among the up-to-8 neighbours of (x, y);
    /// neighbours outside the grid contribute nothing.
    pub open spec fn neighbour_count(self, x: int, y: int) -> int {
        alive_as_count(self.cell_at(x - 1, y - 1)) + alive_as_count(self.cell_at(x, y - 1))
            + alive_as_count(self.cell_at(x + 1, y - 1)) + alive_as_count(self.cell_at(x - 1, y))
            + alive_as_count(self.cell_at(x + 1, y)) + alive_as_count(self.cell_at(x - 1, y + 1))
            + alive_as_count(self.cell_at(x, y + 1)) + alive_as_count(self.cell_at(x + 1, y + 1))
    }

    /// The birth/survival rule: an alive cell survives with 2 or 3 alive
    /// neighbours, a dead cell is born with exactly 3; everything else dies
    /// or stays dead.
    pub open spec fn next_cell(self, x: int, y: int) -> bool {
        if self.cell_at(x, y) {
            self.neighbour_count(x, y) == 2 || self.neighbour_count(x, y) == 3
        } else {
            self.neighbour_count(x, y) == 3
        }
    }

    /// The whole next generation, computed synchronously from the current
    /// cells, as a row-major sequence.
    pub open spec fn next_gen(self) -> Seq<bool> {
        Seq::new(
            self.area() as nat,
            |i: int| self.next_cell(i % (self.width as int), i / (self.width as int)),
        )
    }

    /// Allocates a board of `width * height` dead cells.
    pub fn new(width: u32, height: u32) -> (b: Board)
        requires
            width * height <= u32::MAX,
        ensures
            b.width == width,
            b.height == height,
            b.well_formed(),
            forall|i: int| 0 <= i < b.cells@.len() ==> !b.cells@[i],
    {
        let count: usize = (width * height) as usize;
        Board { width, height, cells: dead_cells(count) }
    }

    /// Bounds-checked read: dead for any coordinate outside the grid.
    pub fn get_cell(&self, x: u32, y: u32) -> (alive: bool)
        requires
            self.well_formed(),
        ensures
            alive == self.cell_at(x as int, y as int),
            x >= self.width || y >= self.height ==> !alive,
    {
        if x >= self.width || y >= self.height {
            return false;
        }
        proof {
            lemma_index_in_area(self.width as int, self.height as int, x as int, y as int);
        }
        self.cells[get_index(self.width, x, y)]
    }

    /// Unchecked write at the computed index; the caller supplies in-bounds
    /// coordinates.
    pub fn set_cell(&mut self, x: u32, y: u32, alive: bool)
        requires
            old(self).well_formed(),
            x < old(self).width,
            y < old(self).height,
        ensures
            final(self).width == old(self).width,
            final(self).height == old(self).height,
            final(self).well_formed(),
            final(self).cells@ == old(self).cells@.update(
                index_of(old(self).width as int, x as int, y as int),
                alive,
            ),
    {
        proof {
            lemma_index_in_area(self.width as int, self.height as int, x as int, y as int);
        }
        let i: usize = get_index(self.width, x, y);
        self.cells.set(i, alive);
    }

    /// Sums the alive cells over the 3x3 window centred on (x, y), excluding
    /// the centre; relies on `get_cell`'s dead default at the grid edges.
    pub fn get_neighbours(&self, x: u32, y: u32) -> (count: u32)
        requires
            self.well_formed(),
        ensures
            count == self.neighbour_count(x as int, y as int),
            count <= 8,
    {
        let mut count: u32 = 0;
        if x > 0 && y > 0 && self.get_cell(x - 1, y - 1) {
            count += 1;
        }
        if y > 0 && self.get_cell(x, y - 1) {
            count += 1;
        }
        if x < u32::MAX && y > 0 && self.get_cell(x + 1, y - 1) {
            count += 1;
        }
        if x > 0 && self.get_cell(x - 1, y) {
            count += 1;
        }
        if x < u32::MAX && self.get_cell(x + 1, y) {
            count += 1;
        }
        if x > 0 && y < u32::MAX && self.get_cell(x - 1, y + 1) {
            count += 1;
        }
        if y < u32::MAX && self.get_cell(x, y + 1) {
            count += 1;
        }
        if x < u32::MAX && y < u32::MAX && self.get_cell(x + 1, y + 1) {
            count += 1;
        }
        count
    }

    /// Advances the board one generation, synchronously: the new state of
    /// every cell is computed from the prior generation alone, into a fresh
    /// scratch store that then replaces the old one. Returns the number of
    /// cells whose alive/dead status changed.
    pub fn tick(&mut self) -> (updated: u32)
        requires
            old(self).well_formed(),
        ensures
            final(self).width == old(self).width,
            final(self).height == old(self).height,
            final(self).well_formed(),
            final(self).cells@ == old(self).next_gen(),
            updated == diff_count(old(self).cells@, final(self).cells@, old(self).area()),
    {
        let w: u32 = self.width;
        let len: usize = self.cells.len();
        let mut next: Vec<bool> = dead_cells(len);
        let mut updated: u32 = 0;
        let mut i: usize = 0;
        while i < len
            invariant
                self.well_formed(),
                w == self.width,
                len == self.cells@.len(),
                i <= len,
                next@.len() == len,
                forall|j: int| 0 <= j < i ==> next@[j] == self.next_gen()[j],
                updated == diff_count(self.cells@, self.next_gen(), i as int),
                updated <= i,
            decreases len - i,
        {
            proof {
                assert(w > 0) by (nonlinear_arith)
                    requires
                        (w as int) * (self.height as int) > 0,
                ;
                lemma_index_to_coords(i as int, w as int, self.height as int);
            }
            let iu: u32 = i as u32;
            let x: u32 = iu % w;
            let y: u32 = iu / w;
            let alive: bool = self.cells[i];
            let neighbours: u32 = self.get_neighbours(x, y);
            let next_state: bool = if alive {
                neighbours == 2 || neighbours == 3
            } else {
                neighbours == 3
            };
            proof {
                assert(index_of(w as int, x as int, y as int) == i);
                assert(self.cell_at(x as int, y as int) == alive);
                assert(next_state == self.next_gen()[i as int]);
            }
            next.set(i, next_state);
            if next_state != alive {
                updated += 1;
            }
            i += 1;
        }
        proof {
            assert(next@ =~= self.next_gen());
        }
        self.cells = next;
        updated
    }

    /// Overwrites every cell in place with an independent random draw:
    /// alive with the fixed probability `ALIVE_NUMERATOR / ALIVE_DENOMINATOR`.
    /// The grid's dimensions and storage shape are kept; nothing can be said
    /// of the resulting contents.
    pub fn randomize_cells(&mut self)
        requires
            old(self).well_formed(),
        ensures
            final(self).width == old(self).width,
            final(self).height == old(self).height,
            final(self).well_formed(),
    {
        let w: u32 = self.width;
        let h: u32 = self.height;
        let mut x: u32 = 0;
        while x < w
            invariant
                self.well_formed(),
                self.width == w,
                self.height == h,
                x <= w,
            decreases w - x,
        {
            let mut y: u32 = 0;
            while y < h
                invariant
                    self.well_formed(),
                    self.width == w,
                    self.height == h,
                    x < w,
                    y <= h,
                decreases h - y,
            {
                let alive: bool = crate::rng::random_bool_ratio(ALIVE_NUMERATOR, ALIVE_DENOMINATOR);
                self.set_cell(x, y, alive);
                y += 1;
            }
            x += 1;
        }
    }

    /// The sole resize entry point: replaces the dimensions, reallocates the
    /// cells all-dead at the new size, then immediately randomizes. All prior
    /// cell content is discarded; only the new dimensions and the storage
    /// shape are guaranteed.
    pub fn set_size(&mut self, w: u32, h: u32)
        requires
            w * h <= u32::MAX,
        ensures
            final(self).width == w,
            final(self).height == h,
            final(self).well_formed(),
    {
        self.width = w;
        self.height = h;
        self.cells = dead_cells((w * h) as usize);
        self.randomize_cells();
    }
}

/// Row-major index of (x, y) in a grid `w` wide, as the storage index type.
pub fn get_index(w: u32, x: u32, y: u32) -> (i: usize)
    requires
        y * w + x <= u32::MAX,
    ensures
        i == index_of(w as int, x as int, y as int),
{
    (y * w + x) as usize
}

/// Determinism of the update rule: the next generation and the changed-cell
/// count are pure functions of the prior generation. Two boards that agree
/// on dimensions and cell contents — two runs from the same snapshot —
/// produce identical next-generation contents and identical counts.
pub proof fn lemma_tick_deterministic(a: Board, b: Board)
    requires
        a.width == b.width,
        a.height == b.height,
        a.cells@ == b.cells@,
    ensures
        a.next_gen() == b.next_gen(),
        diff_count(a.cells@, a.next_gen(), a.area()) == diff_count(
            b.cells@,
            b.next_gen(),
            b.area(),
        ),
{
    assert forall|x: int, y: int| a.next_cell(x, y) == b.next_cell(x, y) by {
        assert(a.cell_at(x - 1, y - 1) == b.cell_at(x - 1, y - 1));
        assert(a.neighbour_count(x, y) == b.neighbour_count(x, y));
    }
    assert(a.next_gen() =~= b.next_gen());
}

/// A fresh all-dead cell store of the given length.
fn dead_cells(count: usize) -> (v: Vec<bool>)
    ensures
        v@.len() == count,
        forall|i: int| 0 <= i < count ==> !v@[i],
{
    let mut v: Vec<bool> = Vec::new();
    let mut i: usize = 0;
    while i < count
        invariant
            i <= count,
            v@.len() == i,
            forall|j: int| 0 <= j < i ==> !v@[j],
        decreases count - i,
    {
        v.push(false);
        i += 1;
    }
    v
}

/// In-bounds coordinates give an index inside the grid's area.
pub proof fn lemma_index_in_area(w: int, h: int, x: int, y: int)
    by (nonlinear_arith)
    requires
        0 <= x < w,
        0 <= y < h,
    ensures
        0 <= index_of(w, x, y) < w * h,
{
}

/// An index inside the grid's area decomposes into in-bounds coordinates:
/// column `i % w`, row `i / w`, and back again.
pub proof fn lemma_index_to_coords(i: int, w: int, h: int)
    by (nonlinear_arith)
    requires
        0 < w,
        0 <= i < w * h,
    ensures
        0 <= i % w < w,
        0 <= i / w < h,
        index_of(w, i % w, i / w) == i,
{
}

/// Coordinates survive the round trip through the row-major index.
pub proof fn lemma_coords_round_trip(x: int, y: int, w: int)
    by (nonlinear_arith)
    requires
        0 <= x < w,
        0 <= y,
    ensures
        index_of(w, x, y) % w == x,
        index_of(w, x, y) / w == y,
{
}

} // verus!
