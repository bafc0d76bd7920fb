use hexmove::board::Board;
use hexmove::game::{player_movement, GameState, Selection, Unit};
use hexmove::hex::HexPos;

fn hex(q: i32, r: i32) -> HexPos {
    HexPos { q, r }
}

fn player_at(q: i32, r: i32) -> Unit {
    Unit { pos: hex(q, r), player: true, movable: true }
}

#[test]
fn square_board_holds_exactly_the_square() {
    let b = Board::square(2);
    assert_eq!(b.tiles().len(), 25);
    for q in -4..=4 {
        for r in -4..=4 {
            let inside = (-2..=2).contains(&q) && (-2..=2).contains(&r);
            assert_eq!(b.contains(hex(q, r)), inside);
        }
    }
}

#[test]
fn empty_and_single_tile_boards() {
    let b = Board::square(0);
    assert_eq!(b.tiles(), &vec![hex(0, 0)]);
    assert!(b.contains(hex(0, 0)));
    assert!(!b.contains(hex(1, 0)));
}

#[test]
fn new_game_starts_at_origin() {
    let g = GameState::new();
    assert_eq!(g.selection.pos, None);
    assert_eq!(g.units, vec![player_at(0, 0)]);
    assert_eq!(g.player_positions(), vec![hex(0, 0)]);
    assert_eq!(g.board.tiles().len(), 25);
}

#[test]
fn legal_move_scenario() {
    let mut g = GameState::new();
    g.selection.select(hex(2, -1));
    player_movement(&mut g.selection, &g.board, &mut g.units);
    assert_eq!(g.units[0].pos, hex(2, -1));
    assert_eq!(g.selection.pos, None);
}

#[test]
fn out_of_board_scenario() {
    let mut g = GameState::new();
    g.selection.select(hex(5, 5));
    player_movement(&mut g.selection, &g.board, &mut g.units);
    assert_eq!(g.units[0].pos, hex(0, 0));
    assert_eq!(g.selection.pos, None);
}

#[test]
fn illegal_target_rejected() {
    let board = Board::square(2);
    let mut sel = Selection::new();
    let mut units = vec![player_at(1, 1)];
    sel.select(hex(-3, 0));
    player_movement(&mut sel, &board, &mut units);
    assert_eq!(units, vec![player_at(1, 1)]);
    assert_eq!(sel.pos, None);
}

#[test]
fn selection_consumed_once() {
    let board = Board::square(2);
    let mut sel = Selection::new();
    let mut units = vec![player_at(0, 0)];
    sel.select(hex(1, -2));
    player_movement(&mut sel, &board, &mut units);
    assert_eq!(sel.pos, None);
    assert_eq!(units, vec![player_at(1, -2)]);
    player_movement(&mut sel, &board, &mut units);
    assert_eq!(sel.pos, None);
    assert_eq!(units, vec![player_at(1, -2)]);
}

#[test]
fn only_movable_units_move() {
    let board = Board::square(2);
    let mut sel = Selection { pos: Some(hex(-2, 2)) };
    let rock = Unit { pos: hex(1, 0), player: false, movable: false };
    let follower = Unit { pos: hex(0, 1), player: false, movable: true };
    let mut units = vec![player_at(0, 0), rock, follower];
    player_movement(&mut sel, &board, &mut units);
    assert_eq!(
        units,
        vec![
            player_at(-2, 2),
            rock,
            Unit { pos: hex(-2, 2), player: false, movable: true },
        ]
    );
}

#[test]
fn no_units_is_fine() {
    let board = Board::square(1);
    let mut sel = Selection { pos: Some(hex(1, 1)) };
    let mut units: Vec<Unit> = Vec::new();
    player_movement(&mut sel, &board, &mut units);
    assert!(units.is_empty());
    assert_eq!(sel.pos, None);
}

#[test]
fn later_click_replaces_earlier() {
    let mut sel = Selection::new();
    sel.select(hex(1, 0));
    sel.select(hex(0, 1));
    assert_eq!(sel.pos, Some(hex(0, 1)));
}

#[test]
fn tick_applies_click_then_resolves() {
    let mut g = GameState::new();
    g.tick(Some(hex(-1, 2)));
    assert_eq!(g.player_positions(), vec![hex(-1, 2)]);
    assert_eq!(g.selection.pos, None);
    g.tick(None);
    assert_eq!(g.player_positions(), vec![hex(-1, 2)]);
    g.tick(Some(hex(3, 0)));
    assert_eq!(g.player_positions(), vec![hex(-1, 2)]);
    // a pending selection is resolved on a frame without a click
    g.selection.select(hex(0, -2));
    g.tick(None);
    assert_eq!(g.player_positions(), vec![hex(0, -2)]);
}

#[test]
fn player_positions_skip_other_units() {
    let mut g = GameState::new();
    g.units.push(Unit { pos: hex(2, 2), player: false, movable: true });
    g.units.push(player_at(-1, -1));
    assert_eq!(g.player_positions(), vec![hex(0, 0), hex(-1, -1)]);
}
