//! Board cells and the counting machinery used by the game invariants.

use vstd::prelude::*;

verus! {

/// Visibility state of one cell.
#[derive(Copy, Clone, PartialEq, Eq, Structural, Debug)]
pub enum SquareStatus {
    /// Not yet revealed and not flagged.
    Unmodified,
    /// Marked with a flag by the player.
    Flagged,
    /// Revealed.
    Clicked,
}

/// One grid position: mine flag, adjacent-mine count, visibility state.
#[derive(Copy, Clone, PartialEq, Eq, Structural, Debug)]
pub struct Square {
    /// True when this cell holds a mine.
    pub bomb: bool,
    /// How many of the up-to-eight neighboring cells hold a mine.
    pub bomb_number: usize,
    /// Visibility state.
    pub status: SquareStatus,
}

/// Overall game status; everything but `Playing` is terminal.
#[derive(Copy, Clone, PartialEq, Eq, Structural, Debug)]
pub enum GameStatus {
    /// The game accepts commands.
    Playing,
    /// The player quit.
    Quit,
    /// Every non-mine cell was revealed.
    Won,
    /// A mine was revealed under the cursor.
    Lost,
}

/// Number of positions `j` of `s` for which `p(j, s[j])` holds.
pub open spec fn count_idx(s: Seq<Square>, p: spec_fn(int, Square) -> bool) -> int
    decreases s.len(),
{
    if s.len() == 0 {
        0
    } else {
        count_idx(s.drop_last(), p) + if p(s.len() - 1, s.last()) {
            1int
        } else {
            0int
        }
    }
}

/// Number of cells of `s` whose state is not `Clicked` (the hidden cells).
pub open spec fn count_not_clicked(s: Seq<Square>) -> int {
    count_idx(s, |j: int, sq: Square| sq.status != SquareStatus::Clicked)
}

/// Number of cells of `s` whose state is `Flagged`.
pub open spec fn count_flagged(s: Seq<Square>) -> int {
    count_idx(s, |j: int, sq: Square| sq.status == SquareStatus::Flagged)
}

/// Number of cells of `s` that hold a mine.
pub open spec fn count_bombs(s: Seq<Square>) -> int {
    count_idx(s, |j: int, sq: Square| sq.bomb)
}

/// `count_idx` is bounded by the length of the sequence.
pub proof fn lemma_count_idx_bounds(s: Seq<Square>, p: spec_fn(int, Square) -> bool)
    ensures
        0 <= count_idx(s, p) <= s.len(),
    decreases s.len(),
{
    if s.len() > 0 {
        lemma_count_idx_bounds(s.drop_last(), p);
    }
}

/// Updating one position changes `count_idx` exactly by the change of the
/// predicate at that position.
pub proof fn lemma_count_idx_update(
    s: Seq<Square>,
    p: spec_fn(int, Square) -> bool,
    i: int,
    v: Square,
)
    requires
        0 <= i < s.len(),
    ensures
        count_idx(s.update(i, v), p) == count_idx(s, p) - (if p(i, s[i]) {
            1int
        } else {
            0int
        }) + (if p(i, v) {
            1int
        } else {
            0int
        }),
    decreases s.len(),
{
    let t = s.update(i, v);
    assert(t.len() == s.len());
    if i == s.len() - 1 {
        assert(t.drop_last() =~= s.drop_last());
        assert(t.last() == v);
    } else {
        assert(t.drop_last() =~= s.drop_last().update(i, v));
        assert(t.last() == s.last());
        lemma_count_idx_update(s.drop_last(), p, i, v);
        assert(s.drop_last()[i] == s[i]);
    }
}

/// If the predicate holds somewhere, the count is at least one.
pub proof fn lemma_count_idx_at_least_one(s: Seq<Square>, p: spec_fn(int, Square) -> bool, i: int)
    requires
        0 <= i < s.len(),
        p(i, s[i]),
    ensures
        count_idx(s, p) >= 1,
    decreases s.len(),
{
    if i == s.len() - 1 {
        lemma_count_idx_bounds(s.drop_last(), p);
    } else {
        assert(s.drop_last()[i] == s[i]);
        lemma_count_idx_at_least_one(s.drop_last(), p, i);
    }
}

/// If the predicate holds everywhere, the count is the whole length.
pub proof fn lemma_count_idx_all(s: Seq<Square>, p: spec_fn(int, Square) -> bool)
    requires
        forall|j: int| 0 <= j < s.len() ==> p(j, #[trigger] s[j]),
    ensures
        count_idx(s, p) == s.len(),
    decreases s.len(),
{
    if s.len() > 0 {
        assert(forall|j: int| 0 <= j < s.len() - 1 ==> s.drop_last()[j] == s[j]);
        lemma_count_idx_all(s.drop_last(), p);
    }
}

/// If the predicate holds nowhere, the count is zero.
pub proof fn lemma_count_idx_none(s: Seq<Square>, p: spec_fn(int, Square) -> bool)
    requires
        forall|j: int| 0 <= j < s.len() ==> !p(j, #[trigger] s[j]),
    ensures
        count_idx(s, p) == 0,
    decreases s.len(),
{
    if s.len() > 0 {
        assert(forall|j: int| 0 <= j < s.len() - 1 ==> s.drop_last()[j] == s[j]);
        lemma_count_idx_none(s.drop_last(), p);
    }
}

/// If the predicate fails somewhere, the count misses the length by at
/// least one.
pub proof fn lemma_count_idx_missing_one(s: Seq<Square>, p: spec_fn(int, Square) -> bool, i: int)
    requires
        0 <= i < s.len(),
        !p(i, s[i]),
    ensures
        count_idx(s, p) <= s.len() - 1,
    decreases s.len(),
{
    if i == s.len() - 1 {
        lemma_count_idx_bounds(s.drop_last(), p);
    } else {
        assert(s.drop_last()[i] == s[i]);
        lemma_count_idx_missing_one(s.drop_last(), p, i);
    }
}

/// Two sequences that agree pointwise on the predicate have the same count.
pub proof fn lemma_count_idx_agree(s1: Seq<Square>, s2: Seq<Square>, p: spec_fn(int, Square) -> bool)
    requires
        s1.len() == s2.len(),
        forall|j: int| 0 <= j < s1.len() ==> p(j, s1[j]) == p(j, s2[j]),
    ensures
        count_idx(s1, p) == count_idx(s2, p),
    decreases s1.len(),
{
    if s1.len() > 0 {
        assert(forall|j: int| 0 <= j < s1.len() - 1 ==> s1.drop_last()[j] == s1[j]);
        assert(forall|j: int| 0 <= j < s2.len() - 1 ==> s2.drop_last()[j] == s2[j]);
        lemma_count_idx_agree(s1.drop_last(), s2.drop_last(), p);
        assert(p(s1.len() - 1, s1.last()) == p(s2.len() - 1, s2.last()));
    }
}

} // verus!
