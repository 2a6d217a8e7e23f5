//! Rectangular-grid geometry: row-major indexing and the neighbor relation.

use vstd::prelude::*;

verus! {

/// Row of index `i` on a board `width` cells wide, in row-major order.
pub open spec fn row_of(i: int, width: int) -> int {
    i / width
}

/// Column of index `i` on a board `width` cells wide, in row-major order.
pub open spec fn col_of(i: int, width: int) -> int {
    i % width
}

/// True when `j` is one of the up-to-eight compass neighbors of `i` on a
/// `width × height` board: both indices are on the board, they differ, and
/// their rows and columns each differ by at most one. No wraparound.
pub open spec fn is_neighbor(i: int, j: int, width: int, height: int) -> bool {
    &&& 0 <= i < width * height
    &&& 0 <= j < width * height
    &&& i != j
    &&& -1 <= row_of(j, width) - row_of(i, width) <= 1
    &&& -1 <= col_of(j, width) - col_of(i, width) <= 1
}

/// How many neighbors index `i` has: one for each of the eight compass
/// directions that stays on the board.
pub open spec fn neighbor_count(i: int, width: int, height: int) -> int {
    let l = col_of(i, width) > 0;
    let r = col_of(i, width) < width - 1;
    let u = row_of(i, width) > 0;
    let d = row_of(i, width) < height - 1;
    (if u && l {
        1int
    } else {
        0int
    }) + (if u {
        1int
    } else {
        0int
    }) + (if u && r {
        1int
    } else {
        0int
    }) + (if l {
        1int
    } else {
        0int
    }) + (if r {
        1int
    } else {
        0int
    }) + (if d && l {
        1int
    } else {
        0int
    }) + (if d {
        1int
    } else {
        0int
    }) + (if d && r {
        1int
    } else {
        0int
    })
}

/// True when `i` sits in a corner of the board.
pub open spec fn is_corner(i: int, width: int, height: int) -> bool {
    &&& (col_of(i, width) == 0 || col_of(i, width) == width - 1)
    &&& (row_of(i, width) == 0 || row_of(i, width) == height - 1)
}

/// True when `i` sits on the rim of the board but not in a corner.
pub open spec fn is_edge(i: int, width: int, height: int) -> bool {
    &&& (col_of(i, width) == 0 || col_of(i, width) == width - 1 || row_of(i, width) == 0 || row_of(
        i,
        width,
    ) == height - 1)
    &&& !is_corner(i, width, height)
}

/// True when `i` touches no rim of the board.
pub open spec fn is_interior(i: int, width: int, height: int) -> bool {
    &&& 0 < col_of(i, width) < width - 1
    &&& 0 < row_of(i, width) < height - 1
}

/// Adjacency correctness: on a board with at least two rows and two columns,
/// a corner cell has exactly 3 neighbors, a non-corner edge cell exactly 5,
/// and an interior cell exactly 8.
pub proof fn lemma_neighbor_count_classes(i: int, width: int, height: int)
    requires
        width >= 2,
        height >= 2,
        0 <= i < width * height,
    ensures
        is_corner(i, width, height) ==> neighbor_count(i, width, height) == 3,
        is_edge(i, width, height) ==> neighbor_count(i, width, height) == 5,
        is_interior(i, width, height) ==> neighbor_count(i, width, height) == 8,
{
    lemma_row_col_bounds(i, width, height, row_of(i, width), col_of(i, width));
}

/// The neighbor relation is symmetric.
pub proof fn lemma_is_neighbor_symmetric(i: int, j: int, width: int, height: int)
    ensures
        is_neighbor(i, j, width, height) == is_neighbor(j, i, width, height),
{
}

/// The indices of the up-to-eight neighbors of `idx`, in increasing order:
/// a corner cell has 3 of them, a non-corner edge cell 5, an interior cell 8.
#[verifier::rlimit(60)]
pub fn get_around_idxs(idx: usize, width: usize, height: usize) -> (res: Vec<usize>)
    requires
        width >= 1,
        height >= 1,
        width * height <= usize::MAX,
        idx < width * height,
    ensures
        res@.no_duplicates(),
        forall|k: int| 0 <= k < res@.len() ==> is_neighbor(
            idx as int,
            #[trigger] res@[k] as int,
            width as int,
            height as int,
        ),
        forall|j: int| is_neighbor(idx as int, j, width as int, height as int) ==> res@.contains(
            j as usize,
        ),
        res@.len() == neighbor_count(idx as int, width as int, height as int),
{
    broadcast use vstd::seq_lib::lemma_seq_contains_after_push;

    let r: usize = idx / width;
    let c: usize = idx % width;
    proof {
        lemma_row_col_bounds(idx as int, width as int, height as int, r as int, c as int);
        lemma_row_offsets(width as int, r as int);
    }
    let go_left = c > 0;
    let go_right = c + 1 < width;
    let go_up = r > 0;
    let go_down = r + 1 < height;

    let mut res: Vec<usize> = Vec::new();
    if go_up {
        if go_left {
            proof {
                lemma_cell_index(width as int, height as int, r as int - 1, c as int - 1);
            }
            res.push(idx - width - 1);
        }
        proof {
            lemma_cell_index(width as int, height as int, r as int - 1, c as int);
        }
        res.push(idx - width);
        if go_right {
            proof {
                lemma_cell_index(width as int, height as int, r as int - 1, c as int + 1);
            }
            res.push(idx - width + 1);
        }
    }
    if go_left {
        proof {
            lemma_cell_index(width as int, height as int, r as int, c as int - 1);
        }
        res.push(idx - 1);
    }
    if go_right {
        proof {
            lemma_cell_index(width as int, height as int, r as int, c as int + 1);
        }
        res.push(idx + 1);
    }
    if go_down {
        if go_left {
            proof {
                lemma_cell_index(width as int, height as int, r as int + 1, c as int - 1);
            }
            res.push(idx + width - 1);
        }
        proof {
            lemma_cell_index(width as int, height as int, r as int + 1, c as int);
        }
        res.push(idx + width);
        if go_right {
            proof {
                lemma_cell_index(width as int, height as int, r as int + 1, c as int + 1);
            }
            res.push(idx + width + 1);
        }
    }
    proof {
        assert forall|j: int| is_neighbor(idx as int, j, width as int, height as int) implies res@
            .contains(j as usize) by {
            let rj = row_of(j, width as int);
            let cj = col_of(j, width as int);
            lemma_row_col_bounds(j, width as int, height as int, rj, cj);
        }
    }
    res
}

/// Bounds of the row and the column of an index that lies on the board,
/// and the row-major decomposition `i == r * width + c`.
pub proof fn lemma_row_col_bounds(i: int, width: int, height: int, r: int, c: int)
    requires
        width >= 1,
        height >= 1,
        0 <= i < width * height,
        r == row_of(i, width),
        c == col_of(i, width),
    ensures
        i == r * width + c,
        0 <= c < width,
        0 <= r < height,
{
    vstd::arithmetic::div_mod::lemma_fundamental_div_mod(i, width);
    assert(0 <= c < width) by {
        vstd::arithmetic::div_mod::lemma_mod_bound(i, width);
    }
    assert(i == r * width + c) by (nonlinear_arith)
        requires
            i == width * r + c,
    ;
    assert(0 <= r < height) by (nonlinear_arith)
        requires
            i == r * width + c,
            0 <= c < width,
            0 <= i < width * height,
            width >= 1,
    ;
}

/// Stepping one row up or down moves the row-major index by `width`.
proof fn lemma_row_offsets(width: int, r: int)
    ensures
        (r - 1) * width == r * width - width,
        (r + 1) * width == r * width + width,
{
    assert((r - 1) * width == r * width - width && (r + 1) * width == r * width + width)
        by (nonlinear_arith);
}

/// The index of the cell at row `r2`, column `c2` lies on the board, and its
/// row and column are recovered by `row_of` and `col_of`.
pub proof fn lemma_cell_index(width: int, height: int, r2: int, c2: int)
    requires
        width >= 1,
        height >= 1,
        0 <= r2 < height,
        0 <= c2 < width,
    ensures
        0 <= r2 * width + c2 < width * height,
        row_of(r2 * width + c2, width) == r2,
        col_of(r2 * width + c2, width) == c2,
{
    assert(0 <= r2 * width + c2 < width * height) by (nonlinear_arith)
        requires
            width >= 1,
            height >= 1,
            0 <= r2 < height,
            0 <= c2 < width,
    ;
    vstd::arithmetic::div_mod::lemma_fundamental_div_mod_converse(
        r2 * width + c2,
        width,
        r2,
        c2,
    );
}

} // verus!
