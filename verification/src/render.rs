//! Double-buffered rendering: builds the back buffer from the board,
//! diffs it against the front buffer, and reports exactly the cells whose
//! glyph changed; also the stagnation/reseed policy of the frame cycle.

use vstd::prelude::*;

use crate::board::Board;
use crate::board::lemma_index_in_area;
use crate::board::lemma_index_to_coords;
use crate::board::lemma_coords_round_trip;
use crate::diff_count;
use crate::index_of;

verus! {

/// One terminal write: the cell at (x, y) now shows the alive or the dead
/// glyph.
#[derive(Clone, Copy, PartialEq, Eq, Structural, Debug)]
pub struct CellWrite {
    pub x: u32,
    pub y: u32,
    pub alive: bool,
}

/// Every listed write names an in-bounds cell whose glyph really changed
/// from `front0` to `back`, and carries the new glyph.
pub open spec fn writes_sound(
    writes: Seq<CellWrite>,
    front0: Seq<bool>,
    back: Seq<bool>,
    width: int,
    height: int,
) -> bool {
    forall|k: int|
        0 <= k < writes.len() ==> write_entry_ok(#[trigger] writes[k], front0, back, width, height)
}

/// What one emitted write must say of the two buffers.
pub open spec fn write_entry_ok(
    wr: CellWrite,
    front0: Seq<bool>,
    back: Seq<bool>,
    width: int,
    height: int,
) -> bool {
    &&& (wr.x as int) < width
    &&& (wr.y as int) < height
    &&& front0[index_of(width, wr.x as int, wr.y as int)] != back[index_of(
        width,
        wr.x as int,
        wr.y as int,
    )]
    &&& wr.alive == back[index_of(width, wr.x as int, wr.y as int)]
}

/// Every in-bounds cell whose glyph differs between the two buffers is
/// listed, with the new glyph.
pub open spec fn writes_complete(
    writes: Seq<CellWrite>,
    front0: Seq<bool>,
    back: Seq<bool>,
    width: int,
    height: int,
) -> bool {
    forall|x: int, y: int|
        0 <= x < width && 0 <= y < height && front0[#[trigger] index_of(width, x, y)] != back[
            index_of(width, x, y)
        ] ==> exists|k: int|
            0 <= k < writes.len() && (#[trigger] writes[k]) == (CellWrite {
                x: x as u32,
                y: y as u32,
                alive: back[index_of(width, x, y)],
            })
}

/// Builds the back buffer for the generation about to be shown: one glyph
/// per cell, alive exactly where the board's cell is alive.
pub fn build_back_buffer(board: &Board) -> (back: Vec<bool>)
    requires
        board.well_formed(),
    ensures
        back@.len() == board.area(),
        back@ == board.cells@,
        forall|x: int, y: int|
            0 <= x < board.width && 0 <= y < board.height ==> back@[#[trigger] index_of(
                board.width as int,
                x,
                y,
            )] == board.cell_at(x, y),
{
    let len: usize = board.cells.len();
    let mut back: Vec<bool> = Vec::new();
    let mut i: usize = 0;
    while i < len
        invariant
            board.well_formed(),
            len == board.cells@.len(),
            i <= len,
            back@.len() == i,
            forall|j: int| 0 <= j < i ==> back@[j] == board.cells@[j],
        decreases len - i,
    {
        proof {
            assert(board.width > 0) by (nonlinear_arith)
                requires
                    (board.width as int) * (board.height as int) > 0,
            ;
            lemma_index_to_coords(i as int, board.width as int, board.height as int);
        }
        let iu: u32 = i as u32;
        let x: u32 = iu % board.width;
        let y: u32 = iu / board.width;
        back.push(board.get_cell(x, y));
        i += 1;
    }
    proof {
        assert(back@ =~= board.cells@);
        assert forall|x: int, y: int|
            0 <= x < board.width && 0 <= y < board.height implies back@[#[trigger] index_of(
            board.width as int,
            x,
            y,
        )] == board.cell_at(x, y) by {
            lemma_index_in_area(board.width as int, board.height as int, x, y);
        }
    }
    back
}

/// The stagnation test: a generation counts as stagnant when fewer than
/// one percent of the cells (rounding down) changed state.
pub fn needs_reseed(width: u32, height: u32, updates: u32) -> (r: bool)
    requires
        width * height <= u32::MAX,
    ensures
        r == (updates < width * height / 100),
{
    width * height / 100 > updates
}

/// Diffs the back buffer against the front buffer: emits one write for
/// exactly each cell whose glyph differs, copies the new glyphs into the
/// front buffer, and touches nothing else.
pub fn diff_frame(front: &mut Vec<bool>, back: &Vec<bool>, width: u32, height: u32) -> (writes:
    Vec<CellWrite>)
    requires
        old(front)@.len() == width * height,
        back@.len() == width * height,
        width * height <= u32::MAX,
    ensures
        final(front)@ == back@,
        writes_sound(writes@, old(front)@, back@, width as int, height as int),
        writes_complete(writes@, old(front)@, back@, width as int, height as int),
        writes@.len() == diff_count(old(front)@, back@, (width * height) as int),
{
    let len: usize = front.len();
    let mut writes: Vec<CellWrite> = Vec::new();
    let mut i: usize = 0;
    while i < len
        invariant
            len == (width * height) as int,
            width * height <= u32::MAX,
            front@.len() == len,
            back@.len() == len,
            i <= len,
            forall|j: int| 0 <= j < i ==> front@[j] == back@[j],
            forall|j: int| i <= j < len ==> front@[j] == old(front)@[j],
            writes_sound(writes@, old(front)@, back@, width as int, height as int),
            forall|x: int, y: int|
                0 <= x < width && 0 <= y < height && index_of(width as int, x, y) < i && old(
                    front,
                )@[#[trigger] index_of(width as int, x, y)] != back@[index_of(width as int, x, y)]
                    ==> exists|k: int|
                    0 <= k < writes@.len() && (#[trigger] writes@[k]) == (CellWrite {
                        x: x as u32,
                        y: y as u32,
                        alive: back@[index_of(width as int, x, y)],
                    }),
            writes@.len() == diff_count(old(front)@, back@, i as int),
        decreases len - i,
    {
        proof {
            assert(width > 0) by (nonlinear_arith)
                requires
                    (width as int) * (height as int) > 0,
            ;
            lemma_index_to_coords(i as int, width as int, height as int);
        }
        let iu: u32 = i as u32;
        let x: u32 = iu % width;
        let y: u32 = iu / width;
        let fi: bool = front[i];
        let bi: bool = back[i];
        if fi != bi {
            let ghost writes0 = writes@;
            writes.push(CellWrite { x, y, alive: bi });
            front.set(i, bi);
            proof {
                let e = CellWrite { x, y, alive: bi };
                assert(writes@ == writes0.push(e));
                assert(writes@[writes0.len() as int] == e);
                assert(x as int == (i as int) % (width as int));
                assert(y as int == (i as int) / (width as int));
                assert(index_of(width as int, x as int, y as int) == i as int);
                assert(write_entry_ok(e, old(front)@, back@, width as int, height as int));
                assert forall|k: int| 0 <= k < writes@.len() implies write_entry_ok(
                    #[trigger] writes@[k],
                    old(front)@,
                    back@,
                    width as int,
                    height as int,
                ) by {
                    if k < writes0.len() {
                        assert(writes@[k] == writes0[k]);
                        assert(write_entry_ok(
                            writes0[k],
                            old(front)@,
                            back@,
                            width as int,
                            height as int,
                        ));
                    } else {
                        assert(writes@[k] == e);
                    }
                }
                assert forall|x2: int, y2: int|
                    0 <= x2 < width && 0 <= y2 < height && index_of(width as int, x2, y2) < i + 1
                        && old(front)@[#[trigger] index_of(width as int, x2, y2)] != back@[index_of(
                        width as int,
                        x2,
                        y2,
                    )] implies exists|k: int|
                    0 <= k < writes@.len() && (#[trigger] writes@[k]) == (CellWrite {
                        x: x2 as u32,
                        y: y2 as u32,
                        alive: back@[index_of(width as int, x2, y2)],
                    }) by {
                    if index_of(width as int, x2, y2) < i {
                        let k0 = choose|k: int|
                            0 <= k < writes0.len() && writes0[k] == (CellWrite {
                                x: x2 as u32,
                                y: y2 as u32,
                                alive: back@[index_of(width as int, x2, y2)],
                            });
                        assert(writes@[k0] == writes0[k0]);
                    } else {
                        lemma_coords_round_trip(x2, y2, width as int);
                        assert(x2 == i as int % (width as int) && y2 == i as int / (width as int));
                        assert(writes@[writes0.len() as int] == (CellWrite {
                            x: x2 as u32,
                            y: y2 as u32,
                            alive: back@[index_of(width as int, x2, y2)],
                        }));
                    }
                }
            }
        } else {
            proof {
                assert forall|x2: int, y2: int|
                    0 <= x2 < width && 0 <= y2 < height && index_of(width as int, x2, y2) < i + 1
                        && old(front)@[#[trigger] index_of(width as int, x2, y2)] != back@[index_of(
                        width as int,
                        x2,
                        y2,
                    )] implies index_of(width as int, x2, y2) < i by {
                    if index_of(width as int, x2, y2) == i {
                        lemma_coords_round_trip(x2, y2, width as int);
                    }
                }
            }
        }
        i += 1;
    }
    proof {
        assert(front@ =~= back@);
        assert forall|x: int, y: int|
            0 <= x < width && 0 <= y < height implies index_of(width as int, x, y) < len by {
            lemma_index_in_area(width as int, height as int, x, y);
        }
    }
    writes
}

/// What one frame of the cycle did: how many cells the generation changed,
/// whether the stagnation policy reseeded the board afterwards, and the
/// terminal writes the diff produced.
pub struct FrameOutcome {
    pub updates: u32,
    pub reseeded: bool,
    pub writes: Vec<CellWrite>,
}

/// One frame of the render cycle, after any resize has been handled:
/// advances the board a generation, reseeds it when the change count is
/// stagnant (strictly below one percent of the cells, rounding down), builds
/// the back buffer from the resulting board, and diffs it against the front
/// buffer. The front buffer ends as the new screen content; the returned
/// writes are exactly the cells whose glyph changed.
pub fn advance_frame(board: &mut Board, front: &mut Vec<bool>) -> (out: FrameOutcome)
    requires
        old(board).well_formed(),
        old(front)@.len() == old(board).area(),
    ensures
        final(board).width == old(board).width,
        final(board).height == old(board).height,
        final(board).well_formed(),
        out.updates == diff_count(old(board).cells@, old(board).next_gen(), old(board).area()),
        out.reseeded == (out.updates < old(board).width * old(board).height / 100),
        !out.reseeded ==> final(board).cells@ == old(board).next_gen(),
        final(front)@ == final(board).cells@,
        writes_sound(
            out.writes@,
            old(front)@,
            final(board).cells@,
            old(board).width as int,
            old(board).height as int,
        ),
        writes_complete(
            out.writes@,
            old(front)@,
            final(board).cells@,
            old(board).width as int,
            old(board).height as int,
        ),
        out.writes@.len() == diff_count(old(front)@, final(board).cells@, old(board).area()),
{
    let updates: u32 = board.tick();
    let reseeded: bool = needs_reseed(board.width, board.height, updates);
    if reseeded {
        board.randomize_cells();
    }
    let back: Vec<bool> = build_back_buffer(board);
    let writes: Vec<CellWrite> = diff_frame(front, &back, board.width, board.height);
    FrameOutcome { updates, reseeded, writes }
}

/// The resize branch of the cycle: when the polled terminal dimensions
/// differ from the board's, the board is rebuilt at the new size (discarding
/// all prior content and randomizing) and the front buffer is reallocated
/// all-dead, so the next diff redraws every alive cell. Reports whether a
/// resize happened, in which case the screen must be cleared.
pub fn apply_resize(board: &mut Board, front: &mut Vec<bool>, w: u32, h: u32) -> (resized: bool)
    requires
        old(board).well_formed(),
        w * h <= u32::MAX,
    ensures
        resized == (w != old(board).width || h != old(board).height),
        final(board).well_formed(),
        resized ==> final(board).width == w && final(board).height == h && final(front)@
            == Seq::new((w * h) as nat, |i: int| false),
        !resized ==> *final(board) == *old(board) && final(front)@ == old(front)@,
{
    if w != board.width || h != board.height {
        board.set_size(w, h);
        let mut fresh: Vec<bool> = Vec::new();
        let count: usize = (w * h) as usize;
        let mut i: usize = 0;
        while i < count
            invariant
                i <= count,
                fresh@.len() == i,
                forall|j: int| 0 <= j < i ==> !fresh@[j],
            decreases count - i,
        {
            fresh.push(false);
            i += 1;
        }
        proof {
            assert(fresh@ =~= Seq::new((w * h) as nat, |i: int| false));
        }
        *front = fresh;
        true
    } else {
        false
    }
}

} // verus!
