//! The game state, the cascading reveal engine, and the command machine.

use vstd::prelude::*;

use crate::board::{
    count_bombs, count_flagged, count_idx, count_not_clicked, lemma_count_idx_agree,
    lemma_count_idx_all, lemma_count_idx_at_least_one, lemma_count_idx_bounds,
    lemma_count_idx_missing_one, lemma_count_idx_none, lemma_count_idx_update, GameStatus, Square,
    SquareStatus,
};
use crate::grid::{
    col_of, get_around_idxs, is_neighbor, lemma_cell_index, lemma_is_neighbor_symmetric,
    lemma_row_col_bounds, row_of,
};
use crate::shuffle::shuffle_indices;

verus! {

/// The one construction-time error: the mine ratio is not in `[0, 1)`.
/// No valid game can be built from such a configuration.
#[derive(Copy, Clone, PartialEq, Eq, Structural, Debug)]
pub struct ConfigurationError;

/// Number of cells of `board` that are neighbors of `i` and hold a mine:
/// what the adjacent-mine count of cell `i` must be.
pub open spec fn count_mine_neighbors(board: Seq<Square>, i: int, width: int, height: int) -> int {
    count_idx(board, |j: int, sq: Square| is_neighbor(i, j, width, height) && sq.bomb)
}

/// An abstract player command, interpreted by [`Game::apply_command`].
#[derive(Copy, Clone, PartialEq, Eq, Structural, Debug)]
pub enum Command {
    /// Move the cursor one row up.
    MoveUp,
    /// Move the cursor one row down.
    MoveDown,
    /// Move the cursor one column left.
    MoveLeft,
    /// Move the cursor one column right.
    MoveRight,
    /// Flag or unflag the cell under the cursor.
    ToggleFlag,
    /// Reveal at the cursor (or unflag a flagged cell there).
    RevealAtCursor,
    /// Give up and end the game.
    Quit,
}

/// Mathematical view of a [`Game`].
#[verifier::ext_equal]
pub struct GameView {
    /// The cells, in row-major order.
    pub board: Seq<Square>,
    /// Number of columns.
    pub width: int,
    /// Number of rows.
    pub height: int,
    /// Index of the cell under the cursor.
    pub pos: int,
    /// Overall status.
    pub game_status: GameStatus,
    /// Flags the player may still place.
    pub flags_remaining: int,
    /// Cells not yet revealed.
    pub squares_remaining: int,
    /// How many mines the board was built for.
    pub bomb_num: int,
}

/// The whole state of one game; mutated only through its own methods.
pub struct Game {
    /// The cells, in row-major order.
    pub board: Vec<Square>,
    /// Number of columns.
    pub width: usize,
    /// Number of rows.
    pub height: usize,
    /// Index of the cell under the cursor.
    pub pos: usize,
    /// Overall status; everything but `Playing` is terminal.
    pub game_status: GameStatus,
    /// Flags the player may still place.
    pub flags_remaining: u64,
    /// Cells not yet revealed.
    pub squares_remaining: usize,
    /// How many mines the board was built for.
    pub bomb_num: usize,
}

impl View for Game {
    type V = GameView;

    open spec fn view(&self) -> GameView {
        GameView {
            board: self.board@,
            width: self.width as int,
            height: self.height as int,
            pos: self.pos as int,
            game_status: self.game_status,
            flags_remaining: self.flags_remaining as int,
            squares_remaining: self.squares_remaining as int,
            bomb_num: self.bomb_num as int,
        }
    }
}

/// The invariant every game satisfies after construction: the board has
/// `width × height` cells, the cursor is on the board, the hidden-cell
/// counter matches the board, and the flag budget never outruns the mines.
pub open spec fn inv(v: GameView) -> bool {
    &&& v.width >= 1
    &&& v.height >= 1
    &&& v.board.len() == v.width * v.height
    &&& 0 <= v.pos < v.board.len()
    &&& 0 <= v.bomb_num <= v.board.len()
    &&& 0 <= v.flags_remaining
    &&& v.squares_remaining == count_not_clicked(v.board)
    &&& v.flags_remaining + count_flagged(v.board) <= v.bomb_num
}

/// `post` differs from `pre` only by revealing cells: mines and counts are
/// untouched, and a cell's state either stays or becomes `Clicked`.
pub open spec fn statuses_monotone(pre: Seq<Square>, post: Seq<Square>) -> bool {
    &&& post.len() == pre.len()
    &&& forall|i: int|
        0 <= i < pre.len() ==> {
            &&& (#[trigger] post[i]).bomb == pre[i].bomb
            &&& post[i].bomb_number == pre[i].bomb_number
            &&& (post[i].status == pre[i].status || (pre[i].status != SquareStatus::Clicked
                && post[i].status == SquareStatus::Clicked))
        }
}

/// `s` contains everything a cascade starting inside `s` can reach on `pre`:
/// with every unrevealed zero-count cell of `s` it also holds that cell's
/// neighbors.
pub open spec fn cascade_closed(pre: Seq<Square>, s: Set<int>, width: int, height: int) -> bool {
    forall|i: int, j: int|
        s.contains(i) && 0 <= i < pre.len() && pre[i].status != SquareStatus::Clicked
            && pre[i].bomb_number == 0 && #[trigger] is_neighbor(i, j, width, height)
            ==> s.contains(j)
}

/// Every cell that `post` reveals beyond `pre` lies in `s`.
pub open spec fn newly_clicked_in(pre: Seq<Square>, post: Seq<Square>, s: Set<int>) -> bool {
    forall|i: int|
        0 <= i < pre.len() && pre[i].status != SquareStatus::Clicked && (#[trigger] post[i]).status
            == SquareStatus::Clicked ==> s.contains(i)
}

/// What one cascading reveal starting at `start` does to the board: it only
/// reveals (monotone), it reveals `start`, it reveals nothing when `start`
/// was already revealed, every newly revealed zero-count cell drags all its
/// neighbors along (completeness), and it stays inside every cascade-closed
/// set around `start` (soundness). Together these clauses pin the revealed
/// region down to exactly the cascade region of `start`.
pub open spec fn reveal_relates(
    pre: Seq<Square>,
    post: Seq<Square>,
    start: int,
    width: int,
    height: int,
) -> bool {
    &&& statuses_monotone(pre, post)
    &&& 0 <= start < pre.len()
    &&& post[start].status == SquareStatus::Clicked
    &&& pre[start].status == SquareStatus::Clicked ==> post == pre
    &&& forall|i: int, j: int|
        0 <= i < pre.len() && pre[i].status != SquareStatus::Clicked && post[i].status
            == SquareStatus::Clicked && post[i].bomb_number == 0 && #[trigger] is_neighbor(
            i,
            j,
            width,
            height,
        ) ==> post[j].status == SquareStatus::Clicked
    &&& forall|s: Set<int>|
        s.contains(start) && #[trigger] cascade_closed(pre, s, width, height) ==> newly_clicked_in(
            pre,
            post,
            s,
        )
}

/// Where the cursor lands after a movement command: one step in that
/// direction, or unchanged when the step would cross the board's rim.
pub open spec fn move_pos(v: GameView, cmd: Command) -> int {
    match cmd {
        Command::MoveLeft => if col_of(v.pos, v.width) > 0 {
            v.pos - 1
        } else {
            v.pos
        },
        Command::MoveRight => if col_of(v.pos, v.width) < v.width - 1 {
            v.pos + 1
        } else {
            v.pos
        },
        Command::MoveUp => if v.pos >= v.width {
            v.pos - v.width
        } else {
            v.pos
        },
        Command::MoveDown => if v.pos + v.width < v.board.len() {
            v.pos + v.width
        } else {
            v.pos
        },
        _ => v.pos,
    }
}

/// The game after a flag toggle at the cursor: a flagged cell goes back to
/// hidden and returns its flag to the budget; a hidden cell is flagged if
/// the budget allows; a revealed cell, or an empty budget over a hidden
/// cell, changes nothing.
pub open spec fn toggle_flag_step(v: GameView) -> GameView {
    let sq = v.board[v.pos];
    if sq.status == SquareStatus::Flagged {
        GameView {
            board: v.board.update(v.pos, Square { status: SquareStatus::Unmodified, ..sq }),
            flags_remaining: v.flags_remaining + 1,
            ..v
        }
    } else if sq.status == SquareStatus::Unmodified && v.flags_remaining > 0 {
        GameView {
            board: v.board.update(v.pos, Square { status: SquareStatus::Flagged, ..sq }),
            flags_remaining: v.flags_remaining - 1,
            ..v
        }
    } else {
        v
    }
}

/// The status checks that close every RevealAtCursor command: a mine under
/// the cursor loses (overriding a simultaneous win), a hidden-cell count
/// down at the mine count wins, anything else keeps playing.
pub open spec fn status_after_reveal(
    board: Seq<Square>,
    pos: int,
    squares_remaining: int,
    bomb_num: int,
) -> GameStatus {
    if board[pos].bomb {
        GameStatus::Lost
    } else if squares_remaining == bomb_num {
        GameStatus::Won
    } else {
        GameStatus::Playing
    }
}

/// What RevealAtCursor does: on a flagged cell it only unflags (returning
/// the flag to the budget); on a revealed cell it reveals nothing; on a
/// hidden cell it runs the cascading reveal. The win and loss checks of
/// `status_after_reveal` close the command in every case.
pub open spec fn reveal_step(pre: GameView, post: GameView) -> bool {
    let sq = pre.board[pre.pos];
    if sq.status == SquareStatus::Flagged {
        let mid = GameView {
            board: pre.board.update(pre.pos, Square { status: SquareStatus::Unmodified, ..sq }),
            flags_remaining: pre.flags_remaining + 1,
            ..pre
        };
        post == GameView {
            game_status: status_after_reveal(
                mid.board,
                pre.pos,
                pre.squares_remaining,
                pre.bomb_num,
            ),
            ..mid
        }
    } else if sq.status == SquareStatus::Clicked {
        post == GameView {
            game_status: status_after_reveal(
                pre.board,
                pre.pos,
                pre.squares_remaining,
                pre.bomb_num,
            ),
            ..pre
        }
    } else {
        &&& post.width == pre.width
        &&& post.height == pre.height
        &&& post.pos == pre.pos
        &&& post.flags_remaining == pre.flags_remaining
        &&& post.bomb_num == pre.bomb_num
        &&& reveal_relates(pre.board, post.board, pre.pos, pre.width, pre.height)
        &&& post.squares_remaining == count_not_clicked(post.board)
        &&& post.game_status == status_after_reveal(
            post.board,
            pre.pos,
            post.squares_remaining,
            pre.bomb_num,
        )
    }
}

/// The full transition relation of the command machine: what one command
/// does to the game. Terminal states accept no command; every no-op case
/// (boundary moves, flagging a revealed cell, an exhausted flag budget)
/// leaves the game exactly as it was.
pub open spec fn step(pre: GameView, cmd: Command, post: GameView) -> bool {
    if pre.game_status != GameStatus::Playing {
        post == pre
    } else {
        match cmd {
            Command::Quit => post == (GameView { game_status: GameStatus::Quit, ..pre }),
            Command::MoveUp | Command::MoveDown | Command::MoveLeft | Command::MoveRight => post
                == (GameView { pos: move_pos(pre, cmd), ..pre }),
            Command::ToggleFlag => post == toggle_flag_step(pre),
            Command::RevealAtCursor => reveal_step(pre, post),
        }
    }
}

/// If a sequence contains `x`, then after dropping its last element it still
/// contains `x`, unless `x` was that last element.
proof fn lemma_pop_contains(s: Seq<usize>, x: usize)
    requires
        s.len() > 0,
        s.contains(x),
    ensures
        x == s[s.len() - 1] || s.subrange(0, s.len() - 1).contains(x),
{
    let k = choose|k: int| 0 <= k < s.len() && s[k] == x;
    if k < s.len() - 1 {
        assert(s.subrange(0, s.len() - 1)[k] == x);
    }
}

impl Game {
    /// The game invariant, stated over the view.
    pub open spec fn wf(&self) -> bool {
        inv(self@)
    }

    /// A fresh game: every cell hidden and mine-free, the cursor in the
    /// top-left corner, a flag budget of `bomb_num`, nothing revealed.
    /// Mines are placed afterwards, once, by [`Game::place_mines`].
    pub fn new(width: usize, height: usize, bomb_num: usize) -> (g: Game)
        requires
            width >= 1,
            height >= 1,
            width * height <= usize::MAX,
            bomb_num <= width * height,
        ensures
            g.wf(),
            g@.width == width as int,
            g@.height == height as int,
            g@.pos == 0,
            g@.game_status == GameStatus::Playing,
            g@.flags_remaining == bomb_num as int,
            g@.bomb_num == bomb_num as int,
            g@.squares_remaining == width as int * height as int,
            forall|i: int|
                0 <= i < g@.board.len() ==> g@.board[i] == (Square {
                    bomb: false,
                    bomb_number: 0,
                    status: SquareStatus::Unmodified,
                }),
    {
        proof {
            assert(width * height >= 1) by (nonlinear_arith)
                requires
                    width >= 1,
                    height >= 1,
            ;
        }
        let size = width * height;
        let mut board: Vec<Square> = Vec::new();
        let mut k: usize = 0;
        while k < size
            invariant
                k <= size,
                board@.len() == k,
                forall|i: int|
                    0 <= i < k ==> board@[i] == (Square {
                        bomb: false,
                        bomb_number: 0,
                        status: SquareStatus::Unmodified,
                    }),
            decreases size - k,
        {
            board.push(Square { bomb: false, bomb_number: 0, status: SquareStatus::Unmodified });
            k = k + 1;
        }
        proof {
            lemma_count_idx_all(
                board@,
                |j: int, sq: Square| sq.status != SquareStatus::Clicked,
            );
            lemma_count_idx_none(
                board@,
                |j: int, sq: Square| sq.status == SquareStatus::Flagged,
            );
        }
        Game {
            board,
            width,
            height,
            pos: 0,
            game_status: GameStatus::Playing,
            flags_remaining: bomb_num as u64,
            squares_remaining: size,
            bomb_num,
        }
    }

    /// Place the mines of a fresh board: mark each index of `mine_idxs` as
    /// a mine, and give every cell as its adjacent-mine count the number of
    /// its neighbors that are mines (mine cells get a count as well). Runs
    /// once per game, right after [`Game::new`]; the mines are immutable
    /// afterwards.
    #[verifier::loop_isolation(false)]
    pub fn place_mines(&mut self, mine_idxs: &Vec<usize>)
        requires
            old(self).wf(),
            forall|i: int|
                0 <= i < old(self)@.board.len() ==> old(self)@.board[i] == (Square {
                    bomb: false,
                    bomb_number: 0,
                    status: SquareStatus::Unmodified,
                }),
            mine_idxs@.no_duplicates(),
            forall|k: int|
                0 <= k < mine_idxs@.len() ==> (#[trigger] mine_idxs@[k]) < old(self)@.board.len(),
            mine_idxs@.len() == old(self)@.bomb_num,
        ensures
            final(self).wf(),
            final(self)@.width == old(self)@.width,
            final(self)@.height == old(self)@.height,
            final(self)@.pos == old(self)@.pos,
            final(self)@.game_status == old(self)@.game_status,
            final(self)@.flags_remaining == old(self)@.flags_remaining,
            final(self)@.bomb_num == old(self)@.bomb_num,
            final(self)@.squares_remaining == old(self)@.squares_remaining,
            final(self)@.board.len() == old(self)@.board.len(),
            forall|i: int|
                0 <= i < final(self)@.board.len() ==> (#[trigger] final(self)@.board[i]).status
                    == SquareStatus::Unmodified,
            forall|i: int|
                0 <= i < final(self)@.board.len() ==> ((#[trigger] final(self)@.board[i]).bomb
                    <==> mine_idxs@.contains(i as usize)),
            forall|i: int|
                0 <= i < final(self)@.board.len() ==> (#[trigger] final(self)@.board[i]).bomb_number
                    == count_mine_neighbors(
                    final(self)@.board,
                    i,
                    old(self)@.width,
                    old(self)@.height,
                ),
            count_bombs(final(self)@.board) == mine_idxs@.len(),
    {
        broadcast use vstd::seq_lib::lemma_seq_contains_after_push;

        let ghost b_init = old(self)@.board;
        let ghost w = old(self)@.width;
        let ghost h = old(self)@.height;
        proof {
            assert(b_init.len() <= usize::MAX) by {
                assert(old(self).board.len() == b_init.len());
            }
            assert forall|i: int| 0 <= i < b_init.len() implies count_mine_neighbors(
                b_init,
                i,
                w,
                h,
            ) == 0 by {
                lemma_count_idx_none(
                    b_init,
                    |j: int, sq: Square| is_neighbor(i, j, w, h) && sq.bomb,
                );
            }
            lemma_count_idx_none(b_init, |j: int, sq: Square| sq.bomb);
        }
        let mut k: usize = 0;
        while k < mine_idxs.len()
            invariant
                k <= mine_idxs@.len(),
                self.wf(),
                self@.width == w,
                self@.height == h,
                self@.pos == old(self)@.pos,
                self@.game_status == old(self)@.game_status,
                self@.flags_remaining == old(self)@.flags_remaining,
                self@.bomb_num == old(self)@.bomb_num,
                self@.squares_remaining == old(self)@.squares_remaining,
                self@.board.len() == b_init.len(),
                forall|i: int|
                    0 <= i < self@.board.len() ==> (#[trigger] self@.board[i]).status
                        == SquareStatus::Unmodified,
                forall|i: int|
                    0 <= i < self@.board.len() ==> ((#[trigger] self@.board[i]).bomb
                        <==> mine_idxs@.take(k as int).contains(i as usize)),
                forall|i: int|
                    0 <= i < self@.board.len() ==> (#[trigger] self@.board[i]).bomb_number
                        == count_mine_neighbors(self@.board, i, w, h),
                count_bombs(self@.board) == k as int,
            decreases mine_idxs@.len() - k,
        {
            let m = mine_idxs[k];
            let ghost b0 = self@.board;
            proof {
                if mine_idxs@.take(k as int).contains(m) {
                    let k2 = choose|k2: int|
                        0 <= k2 < k && mine_idxs@.take(k as int)[k2] == m;
                    assert(mine_idxs@[k2] == mine_idxs@[k as int]);
                }
            }
            let mut sq = self.board[m];
            sq.bomb = true;
            self.board.set(m, sq);
            let ghost b1 = self@.board;
            proof {
                lemma_count_idx_update(b0, |j: int, sq: Square| sq.bomb, m as int, sq);
                lemma_count_idx_update(
                    b0,
                    |j: int, sq: Square| sq.status != SquareStatus::Clicked,
                    m as int,
                    sq,
                );
                lemma_count_idx_update(
                    b0,
                    |j: int, sq: Square| sq.status == SquareStatus::Flagged,
                    m as int,
                    sq,
                );
                assert forall|i: int| 0 <= i < b1.len() implies count_mine_neighbors(b1, i, w, h)
                    == count_mine_neighbors(b0, i, w, h) + (if is_neighbor(i, m as int, w, h) {
                    1int
                } else {
                    0int
                }) by {
                    lemma_count_idx_update(
                        b0,
                        |j: int, sq: Square| is_neighbor(i, j, w, h) && sq.bomb,
                        m as int,
                        sq,
                    );
                }
            }
            let around = get_around_idxs(m, self.width, self.height);
            let mut t: usize = 0;
            while t < around.len()
                invariant
                    t <= around@.len(),
                    self@.width == w,
                    self@.height == h,
                    self@.pos == old(self)@.pos,
                    self@.game_status == old(self)@.game_status,
                    self@.flags_remaining == old(self)@.flags_remaining,
                    self@.bomb_num == old(self)@.bomb_num,
                    self@.squares_remaining == old(self)@.squares_remaining,
                    self@.board.len() == b1.len(),
                    forall|i: int|
                        0 <= i < self@.board.len() ==> (#[trigger] self@.board[i]).bomb
                            == b1[i].bomb,
                    forall|i: int|
                        0 <= i < self@.board.len() ==> (#[trigger] self@.board[i]).status
                            == b1[i].status,
                    forall|i: int|
                        0 <= i < self@.board.len() ==> (#[trigger] self@.board[i]).bomb_number
                            == b1[i].bomb_number + (if around@.take(t as int).contains(i as usize) {
                            1int
                        } else {
                            0int
                        }),
                decreases around@.len() - t,
            {
                let x = around[t];
                proof {
                    assert(is_neighbor(m as int, x as int, w, h));
                    if around@.take(t as int).contains(x) {
                        let t2 = choose|t2: int| 0 <= t2 < t && around@.take(t as int)[t2] == x;
                        assert(around@[t2] == around@[t as int]);
                    }
                    lemma_is_neighbor_symmetric(x as int, m as int, w, h);
                    lemma_count_idx_missing_one(
                        b1,
                        |j: int, sq: Square| is_neighbor(x as int, j, w, h) && sq.bomb,
                        x as int,
                    );
                    lemma_count_idx_update(
                        b0,
                        |j: int, sq: Square| is_neighbor(x as int, j, w, h) && sq.bomb,
                        m as int,
                        sq,
                    );
                    assert(b0[x as int].bomb_number == count_mine_neighbors(b0, x as int, w, h));
                    assert(self@.board[x as int].bomb_number == b1[x as int].bomb_number);
                    assert(b1[x as int].bomb_number <= count_mine_neighbors(b1, x as int, w, h));
                    assert(self@.board[x as int].bomb_number + 1 <= b1.len());
                }
                let mut sq2 = self.board[x];
                sq2.bomb_number = sq2.bomb_number + 1;
                self.board.set(x, sq2);
                proof {
                    assert(around@.take(t as int + 1) =~= around@.take(t as int).push(x));
                }
                t = t + 1;
            }
            proof {
                assert(around@.take(around@.len() as int) =~= around@);
                assert(mine_idxs@.take(k as int + 1) =~= mine_idxs@.take(k as int).push(m));
                let bf = self@.board;
                lemma_count_idx_agree(b1, bf, |j: int, sq: Square| sq.bomb);
                lemma_count_idx_agree(
                    b1,
                    bf,
                    |j: int, sq: Square| sq.status != SquareStatus::Clicked,
                );
                lemma_count_idx_agree(
                    b1,
                    bf,
                    |j: int, sq: Square| sq.status == SquareStatus::Flagged,
                );
                lemma_count_idx_agree(b0, b1, |j: int, sq: Square| sq.status != SquareStatus::Clicked);
                lemma_count_idx_agree(b0, b1, |j: int, sq: Square| sq.status == SquareStatus::Flagged);
                assert forall|i: int| 0 <= i < bf.len() implies (#[trigger] bf[i]).bomb_number
                    == count_mine_neighbors(bf, i, w, h) by {
                    lemma_count_idx_agree(
                        b1,
                        bf,
                        |j: int, sq: Square| is_neighbor(i, j, w, h) && sq.bomb,
                    );
                    lemma_count_idx_update(
                        b0,
                        |j: int, sq: Square| is_neighbor(i, j, w, h) && sq.bomb,
                        m as int,
                        sq,
                    );
                    lemma_is_neighbor_symmetric(i, m as int, w, h);
                    if around@.contains(i as usize) {
                        let kk = choose|kk: int|
                            0 <= kk < around@.len() && around@[kk] == i as usize;
                        assert(is_neighbor(m as int, around@[kk] as int, w, h));
                    }
                    if is_neighbor(m as int, i, w, h) {
                        assert(around@.contains(i as usize));
                    }
                    assert((around@.contains(i as usize)) == is_neighbor(i, m as int, w, h));
                }
            }
            k = k + 1;
        }
        proof {
            assert(mine_idxs@.take(mine_idxs@.len() as int) =~= mine_idxs@);
        }
    }

    /// Build a playable game: compute `mine_count` as the floor of
    /// `width * height * ratio` with the mine ratio given as the fraction
    /// `ratio_num / ratio_den`, and draw that many distinct mine positions
    /// uniformly at random (by shuffling all cell indices and taking a
    /// prefix). Rejects any ratio outside `[0, 1)`.
    pub fn generate(width: usize, height: usize, ratio_num: u64, ratio_den: u64) -> (r: Result<
        Game,
        ConfigurationError,
    >)
        requires
            width >= 1,
            height >= 1,
            width * height <= usize::MAX,
        ensures
            (r is Ok) <==> (ratio_den > 0 && ratio_num < ratio_den),
            r is Ok ==> {
                let g = r->Ok_0;
                &&& g.wf()
                &&& g@.width == width as int
                &&& g@.height == height as int
                &&& g@.pos == 0
                &&& g@.game_status == GameStatus::Playing
                &&& g@.bomb_num == (width as int * height as int * ratio_num as int)
                    / ratio_den as int
                &&& g@.flags_remaining == g@.bomb_num
                &&& g@.squares_remaining == width as int * height as int
                &&& g@.board.len() == width as int * height as int
                &&& count_bombs(g@.board) == g@.bomb_num
                &&& forall|i: int|
                    0 <= i < g@.board.len() ==> (#[trigger] g@.board[i]).status
                        == SquareStatus::Unmodified
                &&& forall|i: int|
                    0 <= i < g@.board.len() ==> (#[trigger] g@.board[i]).bomb_number
                        == count_mine_neighbors(g@.board, i, width as int, height as int)
            },
    {
        broadcast use vstd::seq_lib::group_to_multiset_ensures;

        if ratio_den == 0 || ratio_num >= ratio_den {
            return Err(ConfigurationError);
        }
        proof {
            assert(width * height >= 1) by (nonlinear_arith)
                requires
                    width >= 1,
                    height >= 1,
            ;
        }
        let size = width * height;
        proof {
            vstd::arithmetic::mul::lemma_mul_upper_bound(
                size as int,
                u64::MAX as int,
                ratio_num as int,
                u64::MAX as int,
            );
            assert((size as int) * (ratio_num as int) < (ratio_den as int) * (size as int))
                by (nonlinear_arith)
                requires
                    ratio_num < ratio_den,
                    size >= 1,
            ;
            vstd::arithmetic::div_mod::lemma_multiply_divide_lt(
                size as int * ratio_num as int,
                ratio_den as int,
                size as int,
            );
        }
        let mine_count_wide = (size as u128) * (ratio_num as u128) / (ratio_den as u128);
        let mine_count = mine_count_wide as usize;

        let mut g = Game::new(width, height, mine_count);

        let mut idxs: Vec<usize> = Vec::new();
        let mut n: usize = 0;
        while n < size
            invariant
                n <= size,
                idxs@.len() == n,
                forall|t: int| 0 <= t < n ==> idxs@[t] == t as usize,
            decreases size - n,
        {
            idxs.push(n);
            n = n + 1;
        }
        let ghost id = idxs@;
        shuffle_indices(&mut idxs);
        proof {
            assert(id.no_duplicates());
            id.lemma_multiset_has_no_duplicates();
            idxs@.lemma_multiset_has_no_duplicates_conv();
            assert forall|t: int| 0 <= t < idxs@.len() implies (#[trigger] idxs@[t]) < size by {
                assert(idxs@.contains(idxs@[t]));
                assert(id.to_multiset().count(idxs@[t]) > 0);
                assert(id.contains(idxs@[t]));
                let u = choose|u: int| 0 <= u < id.len() && id[u] == idxs@[t];
            }
        }
        idxs.truncate(mine_count);
        proof {
            assert(idxs@.no_duplicates());
        }
        g.place_mines(&idxs);
        Ok(g)
    }

    /// Cascading reveal ("flood fill") from `idx`, with an explicit worklist
    /// rather than call recursion: reveal the popped cell unless it is
    /// already revealed, and when its adjacent-mine count is zero push all
    /// its neighbors. Mine cells and flagged cells reached by the cascade
    /// are revealed like any other; the skip of already revealed cells
    /// bounds the work and makes a second run a no-op.
    #[verifier::loop_isolation(false)]
    pub fn click_zeros(&mut self, idx: usize)
        requires
            old(self).wf(),
            idx < old(self)@.board.len(),
        ensures
            final(self).wf(),
            final(self)@.width == old(self)@.width,
            final(self)@.height == old(self)@.height,
            final(self)@.pos == old(self)@.pos,
            final(self)@.game_status == old(self)@.game_status,
            final(self)@.flags_remaining == old(self)@.flags_remaining,
            final(self)@.bomb_num == old(self)@.bomb_num,
            reveal_relates(
                old(self)@.board,
                final(self)@.board,
                idx as int,
                old(self)@.width,
                old(self)@.height,
            ),
    {
        broadcast use vstd::seq_lib::lemma_seq_contains_after_push;
        broadcast use vstd::std_specs::vec::group_vec_axioms;

        let ghost pre = old(self)@.board;
        let ghost w = old(self)@.width;
        let ghost h = old(self)@.height;
        proof {
            assert(pre.len() <= usize::MAX) by {
                assert(old(self).board.len() == pre.len());
            }
        }
        if self.board[idx].status == SquareStatus::Clicked {
            return ;
        }
        let mut worklist: Vec<usize> = Vec::new();
        worklist.push(idx);
        while worklist.len() > 0
            invariant
                self.wf(),
                self@.width == old(self)@.width,
                self@.height == old(self)@.height,
                self@.pos == old(self)@.pos,
                self@.game_status == old(self)@.game_status,
                self@.flags_remaining == old(self)@.flags_remaining,
                self@.bomb_num == old(self)@.bomb_num,
                statuses_monotone(pre, self@.board),
                forall|k: int|
                    0 <= k < worklist@.len() ==> (#[trigger] worklist@[k]) < self@.board.len(),
                // the start is revealed or still waiting in the worklist
                self@.board[idx as int].status == SquareStatus::Clicked || worklist@.contains(idx),
                // completeness so far: a newly revealed zero cell has every
                // neighbor revealed or waiting in the worklist
                forall|i: int, j: int|
                    0 <= i < pre.len() && pre[i].status != SquareStatus::Clicked
                        && self@.board[i].status == SquareStatus::Clicked
                        && self@.board[i].bomb_number == 0 && #[trigger] is_neighbor(i, j, w, h)
                        ==> self@.board[j].status == SquareStatus::Clicked || worklist@.contains(
                        j as usize,
                    ),
                // soundness so far: the worklist and everything newly revealed
                // stay inside every cascade-closed set around the start
                forall|s: Set<int>|
                    s.contains(idx as int) && #[trigger] cascade_closed(pre, s, w, h) ==> {
                        &&& forall|k: int|
                            0 <= k < worklist@.len() ==> s.contains(#[trigger] worklist@[k] as int)
                        &&& newly_clicked_in(pre, self@.board, s)
                    },
            decreases count_not_clicked(self@.board), worklist@.len(),
        {
            let ghost wl_before = worklist@;
            let i = worklist.pop().unwrap();
            proof {
                assert forall|s: Set<int>|
                    s.contains(idx as int) && #[trigger] cascade_closed(pre, s, w, h) implies s
                    .contains(i as int) by {
                    assert(s.contains(wl_before[wl_before.len() - 1] as int));
                }
                lemma_count_idx_bounds(
                    self@.board,
                    |j: int, sq: Square| sq.status != SquareStatus::Clicked,
                );
            }
            if self.board[i].status != SquareStatus::Clicked {
                let ghost b0 = self@.board;
                let mut sq = self.board[i];
                sq.status = SquareStatus::Clicked;
                self.board.set(i, sq);
                proof {
                    lemma_count_idx_update(
                        b0,
                        |j: int, sq: Square| sq.status != SquareStatus::Clicked,
                        i as int,
                        sq,
                    );
                    lemma_count_idx_update(
                        b0,
                        |j: int, sq: Square| sq.status == SquareStatus::Flagged,
                        i as int,
                        sq,
                    );
                    lemma_count_idx_at_least_one(
                        b0,
                        |j: int, sq: Square| sq.status != SquareStatus::Clicked,
                        i as int,
                    );
                }
                self.squares_remaining = self.squares_remaining - 1;
                proof {
                    assert forall|s: Set<int>|
                        s.contains(idx as int) && #[trigger] cascade_closed(pre, s, w, h)
                        implies newly_clicked_in(pre, self@.board, s) by {
                        assert(s.contains(i as int));
                        assert(newly_clicked_in(pre, b0, s));
                        assert forall|i3: int|
                            0 <= i3 < pre.len() && pre[i3].status != SquareStatus::Clicked && (
                            #[trigger] self@.board[i3]).status == SquareStatus::Clicked implies s
                            .contains(i3) by {
                            if i3 != i as int {
                                assert(b0[i3] == self@.board[i3]);
                            }
                        }
                    }
                }
                if sq.bomb_number == 0 {
                    let around = get_around_idxs(i, self.width, self.height);
                    let ghost wl0 = worklist@;
                    let mut t: usize = 0;
                    while t < around.len()
                        invariant
                            t <= around@.len(),
                            forall|k: int|
                                0 <= k < worklist@.len() ==> (#[trigger] worklist@[k])
                                    < self@.board.len(),
                            forall|x: usize| wl0.contains(x) ==> worklist@.contains(x),
                            forall|x: usize|
                                around@.take(t as int).contains(x) ==> worklist@.contains(x),
                            forall|s: Set<int>|
                                s.contains(idx as int) && #[trigger] cascade_closed(pre, s, w, h)
                                    ==> forall|k: int|
                                    0 <= k < worklist@.len() ==> s.contains(
                                        #[trigger] worklist@[k] as int,
                                    ),
                        decreases around@.len() - t,
                    {
                        let n = around[t];
                        proof {
                            assert(is_neighbor(i as int, n as int, w, h));
                            assert forall|s: Set<int>|
                                s.contains(idx as int) && #[trigger] cascade_closed(pre, s, w, h)
                                implies s.contains(n as int) by {
                                assert(s.contains(i as int));
                                assert(pre[i as int].status != SquareStatus::Clicked);
                                assert(pre[i as int].bomb_number == 0);
                            }
                        }
                        worklist.push(n);
                        proof {
                            assert(around@.take(t as int + 1) =~= around@.take(t as int).push(n));
                        }
                        t = t + 1;
                    }
                    proof {
                        assert(around@.take(around@.len() as int) =~= around@);
                        // completeness is restored: the just revealed zero
                        // cell has all its neighbors in the worklist, and a
                        // witness that pointed at the popped element now
                        // points at a revealed cell
                        assert forall|i2: int, j: int|
                            0 <= i2 < pre.len() && pre[i2].status != SquareStatus::Clicked
                                && self@.board[i2].status == SquareStatus::Clicked
                                && self@.board[i2].bomb_number == 0 && #[trigger] is_neighbor(
                                i2,
                                j,
                                w,
                                h,
                            ) implies self@.board[j].status == SquareStatus::Clicked
                            || worklist@.contains(j as usize) by {
                            if i2 == i as int {
                                assert(around@.contains(j as usize));
                            } else {
                                assert(b0[i2] == self@.board[i2]);
                                if b0[j].status != SquareStatus::Clicked && wl_before.contains(
                                    j as usize,
                                ) {
                                    lemma_pop_contains(wl_before, j as usize);
                                    if j as usize == wl_before[wl_before.len() - 1] {
                                        assert(j == i as int);
                                    } else {
                                        assert(wl0.contains(j as usize));
                                    }
                                }
                            }
                        }
                    }
                } else {
                    proof {
                        // the revealed cell has a positive count, so only
                        // witnesses pointing at the popped element move
                        assert forall|i2: int, j: int|
                            0 <= i2 < pre.len() && pre[i2].status != SquareStatus::Clicked
                                && self@.board[i2].status == SquareStatus::Clicked
                                && self@.board[i2].bomb_number == 0 && #[trigger] is_neighbor(
                                i2,
                                j,
                                w,
                                h,
                            ) implies self@.board[j].status == SquareStatus::Clicked
                            || worklist@.contains(j as usize) by {
                            assert(i2 != i as int);
                            assert(b0[i2] == self@.board[i2]);
                            if b0[j].status != SquareStatus::Clicked && wl_before.contains(
                                j as usize,
                            ) {
                                lemma_pop_contains(wl_before, j as usize);
                            }
                        }
                    }
                }
                proof {
                    if self@.board[idx as int].status != SquareStatus::Clicked && wl_before
                        .contains(idx) {
                        lemma_pop_contains(wl_before, idx);
                    }
                }
            } else {
                proof {
                    assert forall|i2: int, j: int|
                        0 <= i2 < pre.len() && pre[i2].status != SquareStatus::Clicked
                            && self@.board[i2].status == SquareStatus::Clicked
                            && self@.board[i2].bomb_number == 0 && #[trigger] is_neighbor(
                            i2,
                            j,
                            w,
                            h,
                        ) implies self@.board[j].status == SquareStatus::Clicked
                        || worklist@.contains(j as usize) by {
                        assert(0 <= j < pre.len());
                        if self@.board[j].status != SquareStatus::Clicked && wl_before.contains(
                            j as usize,
                        ) {
                            lemma_pop_contains(wl_before, j as usize);
                        }
                    }
                    if self@.board[idx as int].status != SquareStatus::Clicked && wl_before
                        .contains(idx) {
                        lemma_pop_contains(wl_before, idx);
                    }
                }
            }
        }
    }

    /// Interpret one player command against the game: movement, flagging,
    /// revealing (with its cascade and the win/loss checks), or quitting.
    /// The transition relation [`step`] states exactly what happens; once
    /// the status is terminal every command leaves the game unchanged.
    pub fn apply_command(&mut self, cmd: Command)
        requires
            old(self).wf(),
        ensures
            final(self).wf(),
            step(old(self)@, cmd, final(self)@),
    {
        broadcast use vstd::std_specs::vec::group_vec_axioms;

        if self.game_status != GameStatus::Playing {
            return ;
        }
        proof {
            assert(self@.board.len() <= usize::MAX) by {
                assert(self.board.len() == self@.board.len());
            }
        }
        match cmd {
            Command::Quit => {
                self.game_status = GameStatus::Quit;
                proof {
                    assert(self@ =~= (GameView { game_status: GameStatus::Quit, ..old(self)@ }));
                }
            },
            Command::MoveLeft => {
                if self.pos % self.width > 0 {
                    self.pos = self.pos - 1;
                }
                proof {
                    assert(self@ =~= (GameView {
                        pos: move_pos(old(self)@, cmd),
                        ..old(self)@
                    }));
                }
            },
            Command::MoveRight => {
                proof {
                    lemma_row_col_bounds(
                        self@.pos,
                        self@.width,
                        self@.height,
                        row_of(self@.pos, self@.width),
                        col_of(self@.pos, self@.width),
                    );
                    if col_of(self@.pos, self@.width) < self@.width - 1 {
                        lemma_cell_index(
                            self@.width,
                            self@.height,
                            row_of(self@.pos, self@.width),
                            col_of(self@.pos, self@.width) + 1,
                        );
                    }
                }
                if self.pos % self.width < self.width - 1 {
                    self.pos = self.pos + 1;
                }
                proof {
                    assert(self@ =~= (GameView {
                        pos: move_pos(old(self)@, cmd),
                        ..old(self)@
                    }));
                }
            },
            Command::MoveUp => {
                if self.pos >= self.width {
                    self.pos = self.pos - self.width;
                }
                proof {
                    assert(self@ =~= (GameView {
                        pos: move_pos(old(self)@, cmd),
                        ..old(self)@
                    }));
                }
            },
            Command::MoveDown => {
                if self.width < self.board.len() - self.pos {
                    self.pos = self.pos + self.width;
                }
                proof {
                    assert(self@ =~= (GameView {
                        pos: move_pos(old(self)@, cmd),
                        ..old(self)@
                    }));
                }
            },
            Command::ToggleFlag => {
                let p = self.pos;
                if self.board[p].status == SquareStatus::Flagged {
                    let ghost b0 = self@.board;
                    let mut sq = self.board[p];
                    sq.status = SquareStatus::Unmodified;
                    self.board.set(p, sq);
                    proof {
                        lemma_count_idx_update(
                            b0,
                            |j: int, sq: Square| sq.status != SquareStatus::Clicked,
                            p as int,
                            sq,
                        );
                        lemma_count_idx_update(
                            b0,
                            |j: int, sq: Square| sq.status == SquareStatus::Flagged,
                            p as int,
                            sq,
                        );
                        lemma_count_idx_at_least_one(
                            b0,
                            |j: int, sq: Square| sq.status == SquareStatus::Flagged,
                            p as int,
                        );
                    }
                    self.flags_remaining = self.flags_remaining + 1;
                    proof {
                        assert(self@ =~= toggle_flag_step(old(self)@));
                    }
                } else if self.board[p].status == SquareStatus::Unmodified && self.flags_remaining
                    > 0 {
                    let ghost b0 = self@.board;
                    let mut sq = self.board[p];
                    sq.status = SquareStatus::Flagged;
                    self.board.set(p, sq);
                    proof {
                        lemma_count_idx_update(
                            b0,
                            |j: int, sq: Square| sq.status != SquareStatus::Clicked,
                            p as int,
                            sq,
                        );
                        lemma_count_idx_update(
                            b0,
                            |j: int, sq: Square| sq.status == SquareStatus::Flagged,
                            p as int,
                            sq,
                        );
                    }
                    self.flags_remaining = self.flags_remaining - 1;
                    proof {
                        assert(self@ =~= toggle_flag_step(old(self)@));
                    }
                } else {
                    proof {
                        assert(self@ =~= toggle_flag_step(old(self)@));
                    }
                }
            },
            Command::RevealAtCursor => {
                let p = self.pos;
                if self.board[p].status != SquareStatus::Clicked {
                    if self.board[p].status == SquareStatus::Flagged {
                        let ghost b0 = self@.board;
                        let mut sq = self.board[p];
                        sq.status = SquareStatus::Unmodified;
                        self.board.set(p, sq);
                        proof {
                            lemma_count_idx_update(
                                b0,
                                |j: int, sq: Square| sq.status != SquareStatus::Clicked,
                                p as int,
                                sq,
                            );
                            lemma_count_idx_update(
                                b0,
                                |j: int, sq: Square| sq.status == SquareStatus::Flagged,
                                p as int,
                                sq,
                            );
                            lemma_count_idx_at_least_one(
                                b0,
                                |j: int, sq: Square| sq.status == SquareStatus::Flagged,
                                p as int,
                            );
                        }
                        self.flags_remaining = self.flags_remaining + 1;
                    } else {
                        self.click_zeros(p);
                    }
                }
                if self.squares_remaining == self.bomb_num {
                    self.game_status = GameStatus::Won;
                }
                if self.board[p].bomb {
                    self.game_status = GameStatus::Lost;
                }
                proof {
                    let pre = old(self)@;
                    let sq0 = pre.board[pre.pos];
                    if sq0.status == SquareStatus::Flagged {
                        let mid = GameView {
                            board: pre.board.update(
                                pre.pos,
                                Square { status: SquareStatus::Unmodified, ..sq0 },
                            ),
                            flags_remaining: pre.flags_remaining + 1,
                            ..pre
                        };
                        assert(self@ =~= (GameView {
                            game_status: status_after_reveal(
                                mid.board,
                                pre.pos,
                                pre.squares_remaining,
                                pre.bomb_num,
                            ),
                            ..mid
                        }));
                    } else if sq0.status == SquareStatus::Clicked {
                        assert(self@ =~= (GameView {
                            game_status: status_after_reveal(
                                pre.board,
                                pre.pos,
                                pre.squares_remaining,
                                pre.bomb_num,
                            ),
                            ..pre
                        }));
                    }
                }
            },
        }
    }
}

/// Flag budget conservation: one ToggleFlag command keeps
/// `flags_remaining + (number of flagged cells)` unchanged, so along any
/// sequence of ToggleFlag commands it stays equal to the mine count it
/// started at.
pub proof fn lemma_toggle_flag_budget(pre: GameView, post: GameView, mine_count: int)
    requires
        inv(pre),
        step(pre, Command::ToggleFlag, post),
        pre.flags_remaining + count_flagged(pre.board) == mine_count,
    ensures
        post.flags_remaining + count_flagged(post.board) == mine_count,
{
    if pre.game_status == GameStatus::Playing {
        let sq = pre.board[pre.pos];
        if sq.status == SquareStatus::Flagged {
            lemma_count_idx_update(
                pre.board,
                |j: int, sq: Square| sq.status == SquareStatus::Flagged,
                pre.pos,
                Square { status: SquareStatus::Unmodified, ..sq },
            );
        } else if sq.status == SquareStatus::Unmodified && pre.flags_remaining > 0 {
            lemma_count_idx_update(
                pre.board,
                |j: int, sq: Square| sq.status == SquareStatus::Flagged,
                pre.pos,
                Square { status: SquareStatus::Flagged, ..sq },
            );
        }
    }
}

/// Flag round-trip: toggling the flag twice on a hidden cell restores the
/// whole game, its board and flag budget included, whether or not the
/// budget allowed the first toggle to place a flag.
pub proof fn lemma_toggle_flag_round_trip(pre: GameView, mid: GameView, post: GameView)
    requires
        inv(pre),
        pre.game_status == GameStatus::Playing,
        pre.board[pre.pos].status == SquareStatus::Unmodified,
        step(pre, Command::ToggleFlag, mid),
        step(mid, Command::ToggleFlag, post),
    ensures
        post == pre,
{
    if pre.flags_remaining > 0 {
        let sq = pre.board[pre.pos];
        assert(mid.board[pre.pos] == (Square { status: SquareStatus::Flagged, ..sq }));
        assert(post.board =~= pre.board);
        assert(post =~= pre);
    } else {
        assert(mid =~= pre);
        assert(post =~= pre);
    }
}

/// Reveal idempotence at the command level: RevealAtCursor on an already
/// revealed cell changes nothing, as long as that cell is not a mine and
/// the board is not at the winning threshold (on a revealed mine the
/// unconditional loss check still fires, and at the threshold the win
/// check does).
pub proof fn lemma_reveal_idempotent(pre: GameView, post: GameView)
    requires
        inv(pre),
        pre.game_status == GameStatus::Playing,
        pre.board[pre.pos].status == SquareStatus::Clicked,
        !pre.board[pre.pos].bomb,
        pre.squares_remaining != pre.bomb_num,
        step(pre, Command::RevealAtCursor, post),
    ensures
        post == pre,
{
    assert(post =~= pre);
}

/// Win threshold: when a reveal command on a mine-free cursor cell brings
/// the hidden-cell count down to exactly the mine count, the game is won.
pub proof fn lemma_win_threshold(pre: GameView, post: GameView)
    requires
        inv(pre),
        pre.game_status == GameStatus::Playing,
        !pre.board[pre.pos].bomb,
        step(pre, Command::RevealAtCursor, post),
        post.squares_remaining == post.bomb_num,
    ensures
        post.game_status == GameStatus::Won,
{
}

/// Loss precedence: a reveal command with a mine under the cursor always
/// ends the game lost, whatever else the command did.
pub proof fn lemma_loss_on_mine(pre: GameView, post: GameView)
    requires
        inv(pre),
        pre.game_status == GameStatus::Playing,
        pre.board[pre.pos].bomb,
        step(pre, Command::RevealAtCursor, post),
    ensures
        post.game_status == GameStatus::Lost,
{
}

/// Boundary moves: MoveLeft with the cursor in column 0, and MoveUp with
/// the cursor in row 0, leave the cursor (and the whole game) unchanged.
pub proof fn lemma_boundary_moves(pre: GameView, post_left: GameView, post_up: GameView)
    requires
        inv(pre),
        pre.game_status == GameStatus::Playing,
        step(pre, Command::MoveLeft, post_left),
        step(pre, Command::MoveUp, post_up),
    ensures
        col_of(pre.pos, pre.width) == 0 ==> post_left == pre,
        row_of(pre.pos, pre.width) == 0 ==> post_up == pre,
{
    lemma_row_col_bounds(
        pre.pos,
        pre.width,
        pre.height,
        row_of(pre.pos, pre.width),
        col_of(pre.pos, pre.width),
    );
    if col_of(pre.pos, pre.width) == 0 {
        assert(post_left =~= pre);
    }
    if row_of(pre.pos, pre.width) == 0 {
        assert(pre.pos < pre.width);
        assert(post_up =~= pre);
    }
}

} // verus!
