use minesweeper::board::{GameStatus, SquareStatus};
use minesweeper::game::{Command, Game};
use minesweeper::grid::get_around_idxs;

fn flagged_count(g: &Game) -> u64 {
    let mut n: u64 = 0;
    for sq in g.board.iter() {
        if sq.status == SquareStatus::Flagged {
            n += 1;
        }
    }
    n
}

fn mine_count(g: &Game) -> usize {
    let mut n: usize = 0;
    for sq in g.board.iter() {
        if sq.bomb {
            n += 1;
        }
    }
    n
}

#[test]
fn neighbors_of_corner_cell() {
    // 3x3 board, top-left corner
    let mut res = get_around_idxs(0, 3, 3);
    res.sort();
    assert_eq!(res, vec![1, 3, 4]);
}

#[test]
fn neighbors_of_edge_cell() {
    // 3x3 board, top edge
    let mut res = get_around_idxs(1, 3, 3);
    res.sort();
    assert_eq!(res, vec![0, 2, 3, 4, 5]);
}

#[test]
fn neighbors_of_interior_cell() {
    // 3x3 board, center
    let mut res = get_around_idxs(4, 3, 3);
    res.sort();
    assert_eq!(res, vec![0, 1, 2, 3, 5, 6, 7, 8]);
}

#[test]
fn neighbors_on_single_row_board() {
    let mut res = get_around_idxs(1, 3, 1);
    res.sort();
    assert_eq!(res, vec![0, 2]);
    assert_eq!(get_around_idxs(0, 3, 1), vec![1]);
}

#[test]
fn neighbors_never_contain_self_or_duplicates() {
    for idx in 0..20 {
        let res = get_around_idxs(idx, 5, 4);
        for (a, &v) in res.iter().enumerate() {
            assert_ne!(v, idx);
            assert!(v < 20);
            for &w in res.iter().skip(a + 1) {
                assert_ne!(v, w);
            }
        }
    }
}

#[test]
fn new_game_is_blank() {
    let g = Game::new(4, 3, 5);
    assert_eq!(g.board.len(), 12);
    assert_eq!(g.pos, 0);
    assert_eq!(g.game_status, GameStatus::Playing);
    assert_eq!(g.flags_remaining, 5);
    assert_eq!(g.squares_remaining, 12);
    for sq in g.board.iter() {
        assert!(!sq.bomb);
        assert_eq!(sq.bomb_number, 0);
        assert_eq!(sq.status, SquareStatus::Unmodified);
    }
}

#[test]
fn place_mines_sets_counts() {
    // 2x2 board with one mine in the top-left corner
    let mut g = Game::new(2, 2, 1);
    g.place_mines(&vec![0]);
    assert!(g.board[0].bomb);
    assert!(!g.board[1].bomb);
    assert!(!g.board[2].bomb);
    assert!(!g.board[3].bomb);
    assert_eq!(g.board[0].bomb_number, 0);
    assert_eq!(g.board[1].bomb_number, 1);
    assert_eq!(g.board[2].bomb_number, 1);
    assert_eq!(g.board[3].bomb_number, 1);
}

#[test]
fn place_mines_counts_mines_as_neighbors_too() {
    // 3x1 board with mines at both ends: the middle cell counts 2; each
    // end cell neighbors only the (mine-free) middle, so it counts 0
    let mut g = Game::new(3, 1, 2);
    g.place_mines(&vec![0, 2]);
    assert_eq!(g.board[0].bomb_number, 0);
    assert_eq!(g.board[1].bomb_number, 2);
    assert_eq!(g.board[2].bomb_number, 0);
}

#[test]
fn generate_mine_count_is_exact() {
    // floor(20*20 * 15/100) = 60
    let g = Game::generate(20, 20, 15, 100).unwrap();
    assert_eq!(mine_count(&g), 60);
    assert_eq!(g.bomb_num, 60);
    assert_eq!(g.flags_remaining, 60);
    assert_eq!(g.squares_remaining, 400);
    assert_eq!(g.game_status, GameStatus::Playing);
}

#[test]
fn generate_zero_ratio_gives_no_mines() {
    let g = Game::generate(5, 5, 0, 1).unwrap();
    assert_eq!(mine_count(&g), 0);
    assert_eq!(g.bomb_num, 0);
}

#[test]
fn generate_rejects_ratio_of_one_or_more() {
    assert!(Game::generate(3, 3, 5, 5).is_err());
    assert!(Game::generate(3, 3, 7, 5).is_err());
}

#[test]
fn generate_rejects_zero_denominator() {
    assert!(Game::generate(3, 3, 1, 0).is_err());
}

#[test]
fn flag_budget_is_conserved_along_toggles() {
    let mut g = Game::new(3, 3, 2);
    g.place_mines(&vec![4, 8]);
    let commands = [
        Command::ToggleFlag,
        Command::MoveRight,
        Command::ToggleFlag,
        Command::MoveRight,
        Command::ToggleFlag,  // budget exhausted: no-op
        Command::MoveLeft,
        Command::ToggleFlag,  // unflag
        Command::ToggleFlag,  // flag again
    ];
    for cmd in commands {
        g.apply_command(cmd);
        assert_eq!(g.flags_remaining + flagged_count(&g), 2);
    }
}

#[test]
fn flag_toggle_round_trip_restores_state() {
    let mut g = Game::new(3, 3, 3);
    g.place_mines(&vec![0, 4, 7]);
    g.apply_command(Command::MoveRight);
    let flags_before = g.flags_remaining;
    g.apply_command(Command::ToggleFlag);
    assert_eq!(g.board[1].status, SquareStatus::Flagged);
    assert_eq!(g.flags_remaining, flags_before - 1);
    g.apply_command(Command::ToggleFlag);
    assert_eq!(g.board[1].status, SquareStatus::Unmodified);
    assert_eq!(g.flags_remaining, flags_before);
}

#[test]
fn flag_on_revealed_cell_is_a_no_op() {
    let mut g = Game::new(2, 2, 1);
    g.place_mines(&vec![3]);
    g.apply_command(Command::RevealAtCursor);
    assert_eq!(g.board[0].status, SquareStatus::Clicked);
    let flags_before = g.flags_remaining;
    g.apply_command(Command::ToggleFlag);
    assert_eq!(g.board[0].status, SquareStatus::Clicked);
    assert_eq!(g.flags_remaining, flags_before);
}

#[test]
fn flag_with_empty_budget_is_a_no_op() {
    let mut g = Game::new(2, 2, 0);
    g.place_mines(&vec![]);
    g.apply_command(Command::ToggleFlag);
    assert_eq!(g.board[0].status, SquareStatus::Unmodified);
    assert_eq!(g.flags_remaining, 0);
}

#[test]
fn reveal_is_idempotent() {
    // 2x3 board, a mine far from the cursor; reveal the same cell twice:
    // the second command changes nothing
    let mut g = Game::new(2, 3, 1);
    g.place_mines(&vec![5]);
    g.apply_command(Command::RevealAtCursor);
    let board_after: Vec<_> = g.board.iter().map(|s| s.status).collect();
    let squares_after = g.squares_remaining;
    let status_after = g.game_status;
    g.apply_command(Command::RevealAtCursor);
    let board_again: Vec<_> = g.board.iter().map(|s| s.status).collect();
    assert_eq!(board_again, board_after);
    assert_eq!(g.squares_remaining, squares_after);
    assert_eq!(g.game_status, status_after);
}

#[test]
fn click_zeros_twice_changes_nothing() {
    let mut g = Game::new(3, 3, 1);
    g.place_mines(&vec![8]);
    g.click_zeros(1);
    let board_after: Vec<_> = g.board.iter().map(|s| s.status).collect();
    let squares_after = g.squares_remaining;
    g.click_zeros(1);
    let board_again: Vec<_> = g.board.iter().map(|s| s.status).collect();
    assert_eq!(board_again, board_after);
    assert_eq!(g.squares_remaining, squares_after);
}

#[test]
fn cascade_reveals_whole_mine_free_row() {
    // 3x1 board without mines: one reveal at index 0 cascades to all three
    let mut g = Game::new(3, 1, 0);
    g.place_mines(&vec![]);
    g.apply_command(Command::RevealAtCursor);
    assert_eq!(g.board[0].status, SquareStatus::Clicked);
    assert_eq!(g.board[1].status, SquareStatus::Clicked);
    assert_eq!(g.board[2].status, SquareStatus::Clicked);
    assert_eq!(g.squares_remaining, 0);
    assert_eq!(g.game_status, GameStatus::Won);
}

#[test]
fn cascade_stops_at_numbered_cells() {
    // 3x3 board, mine in the bottom-right corner: revealing the top-left
    // corner cascades through the zero region but leaves the mine hidden
    let mut g = Game::new(3, 3, 1);
    g.place_mines(&vec![8]);
    g.apply_command(Command::RevealAtCursor);
    assert_eq!(g.board[8].status, SquareStatus::Unmodified);
    for i in 0..8 {
        assert_eq!(g.board[i].status, SquareStatus::Clicked);
    }
    assert_eq!(g.squares_remaining, 1);
    assert_eq!(g.game_status, GameStatus::Won);
}

#[test]
fn revealing_a_mine_loses() {
    // 2x2 board with the mine forced at index 0: its own count is 0, the
    // others count 1; revealing index 0 cascades and loses
    let mut g = Game::new(2, 2, 1);
    g.place_mines(&vec![0]);
    assert_eq!(g.board[0].bomb_number, 0);
    assert_eq!(g.board[1].bomb_number, 1);
    assert_eq!(g.board[2].bomb_number, 1);
    assert_eq!(g.board[3].bomb_number, 1);
    g.apply_command(Command::RevealAtCursor);
    assert_eq!(g.game_status, GameStatus::Lost);
    assert_eq!(g.board[0].status, SquareStatus::Clicked);
}

#[test]
fn boundary_moves_do_not_wrap() {
    let mut g = Game::new(3, 3, 0);
    g.place_mines(&vec![]);
    g.apply_command(Command::MoveLeft);
    assert_eq!(g.pos, 0);
    g.apply_command(Command::MoveUp);
    assert_eq!(g.pos, 0);
    g.apply_command(Command::MoveRight);
    assert_eq!(g.pos, 1);
    g.apply_command(Command::MoveDown);
    assert_eq!(g.pos, 4);
    g.apply_command(Command::MoveDown);
    assert_eq!(g.pos, 7);
    g.apply_command(Command::MoveDown);
    assert_eq!(g.pos, 7);
    g.apply_command(Command::MoveRight);
    g.apply_command(Command::MoveRight);
    assert_eq!(g.pos, 8);
}

#[test]
fn win_threshold_with_two_mines() {
    // 2x2 board, mines at 2 and 3: cells 0 and 1 both count 2, so reveals
    // do not cascade; revealing both non-mine cells wins
    let mut g = Game::new(2, 2, 2);
    g.place_mines(&vec![2, 3]);
    g.apply_command(Command::RevealAtCursor);
    assert_eq!(g.game_status, GameStatus::Playing);
    assert_eq!(g.squares_remaining, 3);
    g.apply_command(Command::MoveRight);
    g.apply_command(Command::RevealAtCursor);
    assert_eq!(g.squares_remaining, 2);
    assert_eq!(g.game_status, GameStatus::Won);
}

#[test]
fn reveal_on_flagged_cell_only_unflags() {
    let mut g = Game::new(2, 2, 1);
    g.place_mines(&vec![3]);
    g.apply_command(Command::ToggleFlag);
    assert_eq!(g.board[0].status, SquareStatus::Flagged);
    assert_eq!(g.flags_remaining, 0);
    g.apply_command(Command::RevealAtCursor);
    // the flag comes back off and nothing is revealed
    assert_eq!(g.board[0].status, SquareStatus::Unmodified);
    assert_eq!(g.flags_remaining, 1);
    assert_eq!(g.game_status, GameStatus::Playing);
    assert_eq!(g.squares_remaining, 4);
}

#[test]
fn reveal_on_flagged_mine_unflags_and_loses() {
    // the loss check runs unconditionally at the end of RevealAtCursor:
    // pressing reveal on a flagged mine removes the flag and still loses
    let mut g = Game::new(2, 2, 1);
    g.place_mines(&vec![0]);
    g.apply_command(Command::ToggleFlag);
    g.apply_command(Command::RevealAtCursor);
    assert_eq!(g.board[0].status, SquareStatus::Unmodified);
    assert_eq!(g.flags_remaining, 1);
    assert_eq!(g.game_status, GameStatus::Lost);
}

#[test]
fn cascade_reveals_flagged_cells_and_consumes_the_flag() {
    // 4x1 board, mine at the far end: flag the cell next to the cursor,
    // then reveal; the cascade reveals the flagged cell without returning
    // its flag to the budget
    let mut g = Game::new(4, 1, 1);
    g.place_mines(&vec![3]);
    g.apply_command(Command::MoveRight);
    g.apply_command(Command::ToggleFlag);
    assert_eq!(g.board[1].status, SquareStatus::Flagged);
    assert_eq!(g.flags_remaining, 0);
    g.apply_command(Command::MoveLeft);
    g.apply_command(Command::RevealAtCursor);
    assert_eq!(g.board[1].status, SquareStatus::Clicked);
    assert_eq!(g.board[3].status, SquareStatus::Unmodified);
    assert_eq!(g.flags_remaining, 0);
}

#[test]
fn quit_is_terminal() {
    let mut g = Game::new(2, 2, 0);
    g.place_mines(&vec![]);
    g.apply_command(Command::Quit);
    assert_eq!(g.game_status, GameStatus::Quit);
    // once terminal, commands change nothing
    g.apply_command(Command::MoveRight);
    assert_eq!(g.pos, 0);
    g.apply_command(Command::RevealAtCursor);
    assert_eq!(g.board[0].status, SquareStatus::Unmodified);
    assert_eq!(g.game_status, GameStatus::Quit);
}

#[test]
fn generate_boards_are_playable() {
    // whatever positions the shuffle picked, the structure holds
    let g = Game::generate(6, 5, 1, 3).unwrap();
    assert_eq!(g.board.len(), 30);
    assert_eq!(g.bomb_num, 10);
    assert_eq!(mine_count(&g), 10);
    for (i, sq) in g.board.iter().enumerate() {
        assert_eq!(sq.status, SquareStatus::Unmodified);
        let mut expected: usize = 0;
        for n in get_around_idxs(i, 6, 5) {
            if g.board[n].bomb {
                expected += 1;
            }
        }
        assert_eq!(sq.bomb_number, expected);
    }
}
