//! Core of a terminal Game of Life animator: the cellular-automaton board,
//! its synchronous update rule, and the double-buffered render diff that
//! restricts terminal writes to the cells whose appearance changed.

use vstd::prelude::*;

pub mod board;
pub mod render;
mod rng;

verus! {

/// Row-major index of the cell at column `x`, row `y` in a grid `width` wide.
pub open spec fn index_of(width: int, x: int, y: int) -> int {
    y * width + x
}

/// Number of positions `i < n` at which `a` and `b` disagree.
pub open spec fn diff_count(a: Seq<bool>, b: Seq<bool>, n: int) -> int
    decreases n,
{
    if n <= 0 {
        0
    } else {
        diff_count(a, b, n - 1) + if a[n - 1] != b[n - 1] {
            1int
        } else {
            0int
        }
    }
}

} // verus!
