use vstd::prelude::*;
use crate::board::{square_tiles, Board};
use crate::hex::HexPos;

verus! {

/// A piece on the board: its position and its two tags.
#[derive(Clone, Copy, Debug, PartialEq, Eq, Structural)]
pub struct Unit {
    pub pos: HexPos,
    /// The unit is the one the player controls.
    pub player: bool,
    /// The movement step may relocate the unit.
    pub movable: bool,
}

/// The target of the most recent click, not yet resolved.
#[derive(Clone, Copy, Debug, PartialEq, Eq, Structural)]
pub struct Selection {
    pub pos: Option<HexPos>,
}

impl Selection {
    /// A selection with nothing pending.
    pub fn new() -> (s: Selection)
        ensures
            s.pos is None,
    {
        Selection { pos: None }
    }

    /// Records `h` as the pending target, replacing any earlier one.
    pub fn select(&mut self, h: HexPos)
        ensures
            final(self).pos == Some(h),
    {
        self.pos = Some(h);
    }
}

/// The unit after a move to `target`: relocated if movable, else unchanged.
pub open spec fn moved(u: Unit, target: HexPos) -> Unit {
    if u.movable {
        Unit { pos: target, player: u.player, movable: u.movable }
    } else {
        u
    }
}

/// The units after one resolution of `pending` against the tiles `board`.
/// A pending target that is an available tile relocates every movable
/// unit; no target, or one off the board, changes nothing.
pub open spec fn resolve(pending: Option<HexPos>, board: Set<HexPos>, units: Seq<Unit>) -> Seq<Unit> {
    match pending {
        Some(t) => if board.contains(t) {
            units.map_values(|u: Unit| moved(u, t))
        } else {
            units
        },
        None => units,
    }
}

/// One movement step on the pending target and the units: the target is
/// always consumed.
pub open spec fn step(pending: Option<HexPos>, board: Set<HexPos>, units: Seq<Unit>) -> (Option<HexPos>, Seq<Unit>) {
    (None, resolve(pending, board, units))
}

/// A second movement step right after a first one changes nothing: the
/// first consumed the selection, and the second finds none.
pub proof fn lemma_step_idempotent(pending: Option<HexPos>, board: Set<HexPos>, units: Seq<Unit>)
    ensures
        ({
            let (p1, u1) = step(pending, board, units);
            step(p1, board, u1) == (p1, u1)
        }),
{
}

/// A pending target off the board moves nothing and is discarded.
pub proof fn lemma_illegal_target_rejected(t: HexPos, board: Set<HexPos>, units: Seq<Unit>)
    requires
        !board.contains(t),
    ensures
        step(Some(t), board, units) == (None::<HexPos>, units),
{
}

/// Consumes the pending target, if any; when it is an available tile of
/// `map`, every movable unit moves onto it.
pub fn player_movement(selected: &mut Selection, map: &Board, units: &mut Vec<Unit>)
    ensures
        final(selected).pos is None,
        final(units)@ == resolve(old(selected).pos, map@, old(units)@),
{
    let pending = selected.pos.take();
    if let Some(target) = pending {
        if map.contains(target) {
            let mut i: usize = 0;
            while i < units.len()
                invariant
                    i <= units@.len(),
                    units@.len() == old(units)@.len(),
                    forall|j: int| 0 <= j < i ==> #[trigger] units@[j] == moved(old(units)@[j], target),
                    forall|j: int| i <= j < units@.len() ==> #[trigger] units@[j] == old(units)@[j],
                decreases units@.len() - i,
            {
                let u = units[i];
                if u.movable {
                    units.set(i, Unit { pos: target, player: u.player, movable: u.movable });
                }
                i = i + 1;
            }
            proof {
                assert(units@ =~= old(units)@.map_values(|u: Unit| moved(u, target)));
            }
        }
    }
}

/// The positions of the player's units, in order.
pub open spec fn player_positions(units: Seq<Unit>) -> Seq<HexPos>
    decreases units.len(),
{
    if units.len() == 0 {
        Seq::empty()
    } else {
        let rest = player_positions(units.drop_last());
        let u = units.last();
        if u.player {
            rest.push(u.pos)
        } else {
            rest
        }
    }
}

/// The radius of the board a new game starts on.
pub const START_RADIUS: i32 = 2;

/// A whole game: the board, the pending selection and the units.
pub struct GameState {
    pub board: Board,
    pub selection: Selection,
    pub units: Vec<Unit>,
}

impl GameState {
    /// A new game: the square board of radius `START_RADIUS`, nothing
    /// selected, and the player's movable unit at the origin.
    pub fn new() -> (g: GameState)
        ensures
            g.board@ == square_tiles(START_RADIUS as int),
            g.selection.pos is None,
            g.units@ == seq![Unit { pos: HexPos { q: 0, r: 0 }, player: true, movable: true }],
    {
        let board = Board::square(START_RADIUS);
        let mut units: Vec<Unit> = Vec::new();
        units.push(Unit { pos: HexPos { q: 0, r: 0 }, player: true, movable: true });
        GameState { board, selection: Selection::new(), units }
    }

    /// One frame: a click, if any, becomes the pending target, then the
    /// movement step resolves it.
    pub fn tick(&mut self, click: Option<HexPos>)
        ensures
            final(self).board@ == old(self).board@,
            final(self).selection.pos is None,
            final(self).units@ == resolve(
                if click is Some { click } else { old(self).selection.pos },
                old(self).board@,
                old(self).units@,
            ),
    {
        if let Some(h) = click {
            self.selection.select(h);
        }
        player_movement(&mut self.selection, &self.board, &mut self.units);
    }

    /// The positions of the player's units, for drawing.
    pub fn player_positions(&self) -> (v: Vec<HexPos>)
        ensures
            v@ == player_positions(self.units@),
    {
        let mut v: Vec<HexPos> = Vec::new();
        let mut i: usize = 0;
        while i < self.units.len()
            invariant
                i <= self.units@.len(),
                v@ == player_positions(self.units@.take(i as int)),
            decreases self.units@.len() - i,
        {
            let u = self.units[i];
            proof {
                assert(self.units@.take(i + 1).drop_last() =~= self.units@.take(i as int));
            }
            if u.player {
                v.push(u.pos);
            }
            i = i + 1;
        }
        proof {
            assert(self.units@.take(i as int) =~= self.units@);
        }
        v
    }
}

} // verus!
