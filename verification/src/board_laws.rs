//! What holds of every board and every legal move.
use vstd::prelude::*;

use crate::board::{
    count_below, has_piece, is_legal, is_qfen, legal_moves, move_of, mover, no_overlap, occupied,
    piece_letter, placeable, placed, plane_below, qfen_planes, square_text, Placement,
};
use crate::lemmas::{lemma_filter_members, lemma_filter_pairwise, pairwise};
use crate::line::replays;

verus! {

/// An action index determines shape and square, and every move on the board has
/// an index below 64.
pub proof fn action_index_is_a_bijection(m: Placement)
    requires
        m.well_formed(),
    ensures
        0 <= m.action() < 64,
        move_of(m.player, m.action()) == m,
{
}

/// Every index below 64 is the action index of a move of either player.
pub proof fn every_action_index_has_a_move(player: u8, action: int)
    requires
        player <= 1,
        0 <= action < 64,
    ensures
        move_of(player, action).well_formed(),
        move_of(player, action).action() == action,
{
}

/// All 64 moves of a player by ascending action index.
spec fn all_moves(player: u8) -> Seq<Placement> {
    Seq::new(64, |action: int| move_of(player, action))
}

/// A list of moves by strictly ascending action index.
pub open spec fn ascending(moves: Seq<Placement>) -> bool {
    forall|i: int, j: int|
        0 <= i < j < moves.len() ==> (#[trigger] moves[i]).action() < (
        #[trigger] moves[j]).action()
}

/// The list of legal moves holds exactly the legal moves, each once, by
/// ascending action index.
pub proof fn legal_moves_are_the_legal_moves(planes: Seq<u16>)
    ensures
        forall|m: Placement| #[trigger] legal_moves(planes).contains(m) <==> is_legal(planes, m),
        ascending(legal_moves(planes)),
{
    match mover(planes) {
        Some(player) => {
            let all = all_moves(player);
            let pred = |m: Placement| placeable(planes, m);
            let before = |a: Placement, b: Placement| a.action() < b.action();
            assert(pairwise(all, before));
            lemma_filter_pairwise(all, pred, before);
            lemma_filter_members(all, pred);
            assert(legal_moves(planes) == all.filter(pred));
            assert forall|i: int, j: int| 0 <= i < j < legal_moves(planes).len() implies (
            #[trigger] legal_moves(planes)[i]).action() < (#[trigger] legal_moves(
                planes,
            )[j]).action() by {
                assert(before(legal_moves(planes)[i], legal_moves(planes)[j]));
            }
            assert forall|m: Placement| #[trigger] legal_moves(planes).contains(m) <==> is_legal(
                planes,
                m,
            ) by {
                if is_legal(planes, m) {
                    assert(all[m.action()] == m);
                    assert(all.contains(m));
                }
                if all.contains(m) {
                    let action = choose|action: int| 0 <= action < 64 && all[action] == m;
                    assert(m == move_of(player, action));
                }
            }
        },
        None => {},
    }
}

proof fn lemma_set_bit(x: u16, j: u16, q: u16)
    by (bit_vector)
    requires
        j < 16,
        q < 16,
    ensures
        ((x | (1u16 << j)) >> q) & 1u16 == 1u16 <==> (x >> q) & 1u16 == 1u16 || q == j,
        ((x | 0u16) >> q) & 1u16 == (x >> q) & 1u16,
        (0u16 >> q) & 1u16 == 0u16,
{
}

proof fn lemma_plane_below(text: Seq<char>, plane: int, n: nat, square: int)
    requires
        n <= 16,
        0 <= square < 16,
    ensures
        (plane_below(text, plane, n) >> (square as u16)) & 1u16 == 1u16 <==> square < n
            && square_text(text, square) == piece_letter(plane),
    decreases n,
{
    if n == 0 {
        lemma_set_bit(0, 0, square as u16);
    } else {
        lemma_plane_below(text, plane, (n - 1) as nat, square);
        lemma_set_bit(
            plane_below(text, plane, (n - 1) as nat),
            (n - 1) as u16,
            square as u16,
        );
    }
}

/// A board read from QFEN has a piece exactly where the text has its letter, and
/// no square with two pieces.
pub proof fn qfen_puts_each_letter_on_its_square(text: Seq<char>)
    requires
        is_qfen(text),
    ensures
        qfen_planes(text).len() == 8,
        forall|plane: int, square: int|
            0 <= plane < 8 && 0 <= square < 16 ==> (#[trigger] has_piece(
                qfen_planes(text),
                plane,
                square,
            ) <==> square_text(text, square) == piece_letter(plane)),
        no_overlap(qfen_planes(text)),
{
    assert forall|plane: int, square: int| 0 <= plane < 8 && 0 <= square < 16 implies (
    #[trigger] has_piece(qfen_planes(text), plane, square) <==> square_text(text, square)
        == piece_letter(plane)) by {
        lemma_plane_below(text, plane, 16, square);
    }
}

/// A move adds its own piece to the board and nothing else.
pub proof fn a_move_adds_its_piece(planes: Seq<u16>, m: Placement)
    requires
        planes.len() == 8,
        m.well_formed(),
    ensures
        placed(planes, m).len() == 8,
        forall|plane: int, square: int|
            0 <= plane < 8 && 0 <= square < 16 ==> (#[trigger] has_piece(
                placed(planes, m),
                plane,
                square,
            ) <==> has_piece(planes, plane, square) || plane == m.plane() && square == m.position),
{
    assert forall|plane: int, square: int| 0 <= plane < 8 && 0 <= square < 16 implies (
    #[trigger] has_piece(placed(planes, m), plane, square) <==> has_piece(planes, plane, square)
        || plane == m.plane() && square == m.position) by {
        lemma_set_bit(planes[m.plane()], m.position as u16, square as u16);
    }
}

proof fn lemma_count_after(planes: Seq<u16>, m: Placement, plane: int, n: nat)
    requires
        planes.len() == 8,
        m.well_formed(),
        !has_piece(planes, m.plane(), m.position as int),
        0 <= plane < 8,
        n <= 16,
    ensures
        count_below(placed(planes, m), plane, n) == count_below(planes, plane, n) + if plane
            == m.plane() && m.position < n {
            1int
        } else {
            0int
        },
    decreases n,
{
    if n > 0 {
        lemma_count_after(planes, m, plane, (n - 1) as nat);
        a_move_adds_its_piece(planes, m);
        assert(has_piece(placed(planes, m), plane, n - 1) <==> has_piece(planes, plane, n - 1)
            || plane == m.plane() && n - 1 == m.position);
    }
}

/// After a legal move the other player is to move, the square of the move is
/// taken, and no square has two pieces that had none before.
pub proof fn a_legal_move_passes_the_turn(planes: Seq<u16>, m: Placement)
    requires
        planes.len() == 8,
        is_legal(planes, m),
    ensures
        mover(placed(planes, m)) == Some((1 - m.player) as u8),
        forall|square: int|
            0 <= square < 16 ==> (#[trigger] occupied(placed(planes, m), square) <==> occupied(
                planes,
                square,
            ) || square == m.position),
        no_overlap(planes) ==> no_overlap(placed(planes, m)),
{
    let next = placed(planes, m);
    a_move_adds_its_piece(planes, m);
    if has_piece(planes, m.plane(), m.position as int) {
        assert(occupied(planes, m.position as int));
    }
    lemma_count_after(planes, m, 0, 16);
    lemma_count_after(planes, m, 1, 16);
    lemma_count_after(planes, m, 2, 16);
    lemma_count_after(planes, m, 3, 16);
    lemma_count_after(planes, m, 4, 16);
    lemma_count_after(planes, m, 5, 16);
    lemma_count_after(planes, m, 6, 16);
    lemma_count_after(planes, m, 7, 16);
    assert forall|square: int| 0 <= square < 16 implies (#[trigger] occupied(next, square)
        <==> occupied(planes, square) || square == m.position) by {
        if occupied(planes, square) {
            let plane = choose|plane: int|
                0 <= plane < 8 && #[trigger] has_piece(planes, plane, square);
            assert(has_piece(next, plane, square));
        }
        if square == m.position {
            assert(has_piece(next, m.plane(), square));
        }
        if occupied(next, square) {
            let plane = choose|plane: int|
                0 <= plane < 8 && #[trigger] has_piece(next, plane, square);
            assert(has_piece(planes, plane, square) || plane == m.plane() && square == m.position);
        }
    }
    if no_overlap(planes) {
        assert forall|a: int, b: int, square: int|
            0 <= a < 8 && 0 <= b < 8 && 0 <= square < 16 && #[trigger] has_piece(next, a, square)
                && #[trigger] has_piece(next, b, square) implies a == b by {
            if has_piece(planes, a, square) || has_piece(planes, b, square) {
                assert(occupied(planes, square));
                assert(square != m.position);
                assert(has_piece(planes, a, square) && has_piece(planes, b, square));
            }
        }
    }
}

/// How many of the first `n` squares are taken.
spec fn taken_below(planes: Seq<u16>, n: nat) -> nat
    decreases n,
{
    if n == 0 {
        0
    } else {
        taken_below(planes, (n - 1) as nat) + if occupied(planes, n - 1) {
            1nat
        } else {
            0nat
        }
    }
}

proof fn lemma_taken_after(planes: Seq<u16>, m: Placement, n: nat)
    requires
        planes.len() == 8,
        is_legal(planes, m),
        n <= 16,
    ensures
        taken_below(placed(planes, m), n) == taken_below(planes, n) + if m.position < n {
            1int
        } else {
            0int
        },
    decreases n,
{
    if n > 0 {
        lemma_taken_after(planes, m, (n - 1) as nat);
        a_legal_move_passes_the_turn(planes, m);
        assert(occupied(placed(planes, m), n - 1) <==> occupied(planes, n - 1) || n - 1
            == m.position);
    }
}

proof fn lemma_taken_bound(planes: Seq<u16>, n: nat)
    ensures
        taken_below(planes, n) <= n,
    decreases n,
{
    if n > 0 {
        lemma_taken_bound(planes, (n - 1) as nat);
    }
}

proof fn lemma_line_fits(planes: Seq<u16>, line: Seq<Placement>)
    requires
        planes.len() == 8,
        replays(planes, line),
    ensures
        line.len() + taken_below(planes, 16) <= 16,
    decreases line.len(),
{
    lemma_taken_bound(planes, 16);
    if line.len() > 0 {
        let next = placed(planes, line[0]);
        lemma_taken_after(planes, line[0], 16);
        a_move_adds_its_piece(planes, line[0]);
        lemma_line_fits(next, line.drop_first());
    }
}

/// Every line that can be played ends within sixteen moves, since each move
/// takes an empty square.
pub proof fn a_line_has_at_most_sixteen_moves(planes: Seq<u16>, line: Seq<Placement>)
    requires
        planes.len() == 8,
        replays(planes, line),
    ensures
        line.len() <= 16,
{
    lemma_line_fits(planes, line);
}

} // verus!
