//! The principal variation of an answer.
use vstd::prelude::*;

use crate::board::{
    action_index, apply_move, generate_legal_moves, is_legal, legal_moves, placed, Placement,
    Position,
};
use crate::board_laws::{a_line_has_at_most_sixteen_moves, legal_moves_are_the_legal_moves};
use crate::schema::MAX_LINE;

verus! {

/// Whether the moves can be played one after the other, each legal on the board
/// that the moves before it leave.
pub open spec fn replays(planes: Seq<u16>, line: Seq<Placement>) -> bool
    decreases line.len(),
{
    line.len() == 0 || is_legal(planes, line[0]) && replays(
        placed(planes, line[0]),
        line.drop_first(),
    )
}

/// The action indices of a line.
pub open spec fn actions(line: Seq<Placement>) -> Seq<u8> {
    line.map_values(|m: Placement| m.action() as u8)
}

/// The principal variation of an answer. There is none unless the line starts
/// with the selected move, is not longer than `MAX_LINE`, and can be played.
pub open spec fn replayable(planes: Seq<u16>, line: Seq<Placement>, selected: u8) -> Option<
    Seq<u8>,
> {
    if line.len() > 0 && line[0].action() == selected && line.len() <= MAX_LINE && replays(
        planes,
        line,
    ) {
        Some(actions(line))
    } else {
        None
    }
}

fn is_listed(moves: &Vec<Placement>, m: &Placement) -> (res: bool)
    ensures
        res == moves@.contains(*m),
{
    let mut i: usize = 0;
    while i < moves.len()
        invariant
            i <= moves@.len(),
            forall|j: int| 0 <= j < i ==> moves@[j] != *m,
        decreases moves@.len() - i,
    {
        if moves[i] == *m {
            return true;
        }
        i += 1;
    }
    false
}

/// Writes a list of moves as action indices.
pub(crate) fn action_indices(moves: &[Placement]) -> (res: Vec<u8>)
    requires
        forall|i: int| 0 <= i < moves@.len() ==> (#[trigger] moves@[i]).action() <= u8::MAX,
    ensures
        res@ == actions(moves@),
{
    let mut res: Vec<u8> = Vec::new();
    let mut i: usize = 0;
    while i < moves.len()
        invariant
            i <= moves@.len(),
            forall|j: int| 0 <= j < moves@.len() ==> (#[trigger] moves@[j]).action() <= u8::MAX,
            res@ == actions(moves@.take(i as int)),
        decreases moves@.len() - i,
    {
        res.push(action_index(&moves[i]));
        assert(actions(moves@.take(i + 1)) =~= actions(moves@.take(i as int)).push(
            moves@[i as int].action() as u8,
        ));
        i += 1;
    }
    assert(moves@.take(moves@.len() as int) =~= moves@);
    res
}

/// The line as action indices, only if it starts at the selected move and
/// replays legally from the position. Never empty: an unusable line is left
/// out.
pub fn replayable_pv(position: &Position, pv: &[Placement], selected: u8) -> (res: Option<Vec<u8>>)
    requires
        pv@.len() > 0 ==> pv@[0].action() <= u8::MAX,
    ensures
        match res {
            Some(line) => replayable(position@, pv@, selected) == Some(line@),
            None => replayable(position@, pv@, selected) is None,
        },
{
    if pv.len() == 0 || action_index(&pv[0]) != selected || pv.len() > MAX_LINE {
        return None;
    }
    let mut board = *position;
    let mut i: usize = 0;
    assert(pv@.skip(0) =~= pv@);
    while i < pv.len()
        invariant
            i <= pv@.len(),
            0 < pv@.len() <= MAX_LINE,
            pv@[0].action() == selected,
            replays(position@, pv@) == replays(board@, pv@.skip(i as int)),
            forall|j: int| 0 <= j < i ==> (#[trigger] pv@[j]).well_formed(),
        decreases pv@.len() - i,
    {
        let m = pv[i];
        proof {
            legal_moves_are_the_legal_moves(board@);
            assert(pv@.skip(i as int)[0] == m);
            assert(pv@.skip(i as int).drop_first() =~= pv@.skip(i + 1));
            assert(legal_moves(board@).contains(m) <==> is_legal(board@, m));
        }
        if !is_listed(&generate_legal_moves(&board), &m) {
            return None;
        }
        board = apply_move(&board, &m);
        i += 1;
    }
    Some(action_indices(pv))
}

/// The board after the first `n` moves of a line.
pub open spec fn board_after(planes: Seq<u16>, line: Seq<Placement>, n: nat) -> Seq<u16>
    decreases n,
{
    if n == 0 || line.len() == 0 {
        planes
    } else {
        board_after(placed(planes, line[0]), line.drop_first(), (n - 1) as nat)
    }
}

proof fn lemma_each_move_legal(planes: Seq<u16>, line: Seq<Placement>, i: nat)
    requires
        replays(planes, line),
        i < line.len(),
    ensures
        is_legal(board_after(planes, line, i), line[i as int]),
    decreases i,
{
    if i > 0 {
        lemma_each_move_legal(placed(planes, line[0]), line.drop_first(), (i - 1) as nat);
        assert(line.drop_first()[i - 1] == line[i as int]);
    }
}

/// A principal variation is never empty, starts with the selected move, and
/// every move of it is legal on the board that the moves before it leave. It is
/// left out only where the engine's line does not start with the selected move
/// or cannot be played.
pub proof fn a_principal_variation_replays_from_the_position(
    planes: Seq<u16>,
    line: Seq<Placement>,
    selected: u8,
)
    requires
        planes.len() == 8,
    ensures
        replayable(planes, line, selected) is Some <==> line.len() > 0 && line[0].action()
            == selected && replays(planes, line),
        replayable(planes, line, selected) is Some <==> line.len() > 0 && line[0].action()
            == selected && forall|i: int|
            0 <= i < line.len() ==> is_legal(
                board_after(planes, line, i as nat),
                #[trigger] line[i],
            ),
        replayable(planes, line, selected) matches Some(pv) ==> {
            &&& 1 <= pv.len() <= 16
            &&& pv.len() == line.len()
            &&& pv[0] == selected
            &&& forall|i: int|
                0 <= i < pv.len() ==> #[trigger] pv[i] == line[i].action() && is_legal(
                    board_after(planes, line, i as nat),
                    line[i],
                )
        },
{
    replaying_is_playing_each_move(planes, line);
    if replays(planes, line) {
        a_line_has_at_most_sixteen_moves(planes, line);
        assert forall|i: int| 0 <= i < line.len() implies is_legal(
            board_after(planes, line, i as nat),
            #[trigger] line[i],
        ) by {
            lemma_each_move_legal(planes, line, i as nat);
        }
        assert forall|i: int| 0 <= i < line.len() implies #[trigger] actions(line)[i]
            == line[i].action() && is_legal(board_after(planes, line, i as nat), line[i]) by {
            assert(is_legal(board_after(planes, line, i as nat), line[i]));
        }
    }
}

/// A line can be played exactly where each of its moves is legal on the board that
/// the moves before it leave.
pub proof fn replaying_is_playing_each_move(planes: Seq<u16>, line: Seq<Placement>)
    ensures
        replays(planes, line) <==> forall|i: int|
            0 <= i < line.len() ==> is_legal(
                board_after(planes, line, i as nat),
                #[trigger] line[i],
            ),
    decreases line.len(),
{
    if line.len() > 0 {
        let next = placed(planes, line[0]);
        let rest = line.drop_first();
        replaying_is_playing_each_move(next, rest);
        if replays(planes, line) {
            assert forall|i: int| 0 <= i < line.len() implies is_legal(
                board_after(planes, line, i as nat),
                #[trigger] line[i],
            ) by {
                lemma_each_move_legal(planes, line, i as nat);
            }
        }
        if forall|i: int|
            0 <= i < line.len() ==> is_legal(
                board_after(planes, line, i as nat),
                #[trigger] line[i],
            ) {
            assert(is_legal(board_after(planes, line, 0), line[0]));
            assert forall|i: int| 0 <= i < rest.len() implies is_legal(
                board_after(next, rest, i as nat),
                #[trigger] rest[i],
            ) by {
                assert(rest[i] == line[i + 1]);
                assert(is_legal(board_after(planes, line, (i + 1) as nat), line[i + 1]));
            }
        }
    }
}

/// The board after no move is the board, and after one move more it is that board
/// with the move on it.
pub proof fn the_board_goes_on_move_by_move(planes: Seq<u16>, line: Seq<Placement>, n: nat)
    requires
        n < line.len(),
    ensures
        board_after(planes, line, 0) == planes,
        board_after(planes, line, n + 1) == placed(board_after(planes, line, n), line[n as int]),
    decreases n,
{
    let next = placed(planes, line[0]);
    let rest = line.drop_first();
    if n == 0 {
        assert(board_after(planes, line, 1) == board_after(next, rest, 0));
    } else {
        the_board_goes_on_move_by_move(next, rest, (n - 1) as nat);
        assert(rest[n - 1] == line[n as int]);
    }
}

} // verus!
