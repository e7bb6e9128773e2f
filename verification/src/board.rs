//! The board, the rules of placement, and the calls that `quantik-core` answers
//! about them.
use vstd::prelude::*;

verus! {

/// One placement: `player` puts `shape` on the square `position`.
#[derive(Clone, Copy, Debug, PartialEq, Eq, Structural)]
pub struct Placement {
    pub player: u8,
    pub shape: u8,
    pub position: u8,
}

impl Placement {
    /// The move of a player with a shape to a square.
    pub fn new(player: u8, shape: u8, position: u8) -> (m: Placement)
        ensures
            m == (Placement { player, shape, position }),
    {
        Placement { player, shape, position }
    }

    /// Two players, four shapes, sixteen squares.
    pub open spec fn well_formed(self) -> bool {
        self.player <= 1 && self.shape < 4 && self.position < 16
    }

    /// The action index of the move, as a number without bound.
    pub open spec fn action(self) -> int {
        self.shape * 16 + self.position
    }

    /// The plane that holds the pieces of this move's player and shape.
    pub open spec fn plane(self) -> int {
        self.player * 4 + self.shape
    }
}

/// A move as `quantik-core` holds it: a player, a shape and a square.
#[verifier::external_type_specification]
pub struct ExCoreMove(quantik_core::moves::Move);

/// A move of `quantik-core` as a move of this library.
pub(crate) fn own_move(m: &quantik_core::moves::Move) -> (res: Placement)
    ensures
        res == (Placement { player: m.player, shape: m.shape, position: m.position }),
{
    Placement::new(m.player, m.shape, m.position)
}

/// The action index of a move: `shape * 16 + position`.
pub fn action_index(mv: &Placement) -> (index: u8)
    requires
        mv.action() <= u8::MAX,
    ensures
        index == mv.action(),
        index == mv.shape * 16 + mv.position,
{
    mv.shape * 16 + mv.position
}

/// A board: eight planes of sixteen squares, one plane for each player and
/// shape. Plane `player * 4 + shape` has bit `square` set where that player has
/// that shape on that square.
#[derive(Clone, Copy, Debug, PartialEq, Eq)]
pub struct Position {
    pub planes: [u16; 8],
}

impl View for Position {
    type V = Seq<u16>;

    open spec fn view(&self) -> Seq<u16> {
        self.planes@
    }
}

/// Whether the given plane has a piece on the given square.
pub open spec fn has_piece(planes: Seq<u16>, plane: int, square: int) -> bool {
    (planes[plane] >> (square as u16)) & 1u16 == 1u16
}

/// Whether any piece stands on the square.
pub open spec fn occupied(planes: Seq<u16>, square: int) -> bool {
    exists|plane: int| 0 <= plane < 8 && #[trigger] has_piece(planes, plane, square)
}

/// No square carries two pieces.
pub open spec fn no_overlap(planes: Seq<u16>) -> bool {
    forall|a: int, b: int, square: int|
        0 <= a < 8 && 0 <= b < 8 && 0 <= square < 16 && #[trigger] has_piece(planes, a, square)
            && #[trigger] has_piece(planes, b, square) ==> a == b
}

/// How many of the first `n` squares carry a piece of the plane.
pub open spec fn count_below(planes: Seq<u16>, plane: int, n: nat) -> nat
    decreases n,
{
    if n == 0 {
        0
    } else {
        count_below(planes, plane, (n - 1) as nat) + if has_piece(planes, plane, n - 1) {
            1nat
        } else {
            0nat
        }
    }
}

/// How many pieces the plane has on the board.
pub open spec fn piece_count(planes: Seq<u16>, plane: int) -> nat {
    count_below(planes, plane, 16)
}

/// How many pieces the player has on the board.
pub open spec fn player_count(planes: Seq<u16>, player: int) -> nat {
    piece_count(planes, player * 4) + piece_count(planes, player * 4 + 1) + piece_count(
        planes,
        player * 4 + 2,
    ) + piece_count(planes, player * 4 + 3)
}

/// The side to move: player 0 moves first and the players alternate. There is
/// none where the piece counts fit no such game.
pub open spec fn mover(planes: Seq<u16>) -> Option<u8> {
    if player_count(planes, 0) == player_count(planes, 1) {
        Some(0u8)
    } else if player_count(planes, 0) == player_count(planes, 1) + 1 {
        Some(1u8)
    } else {
        None
    }
}

/// The two by two zone that the square lies in.
pub open spec fn zone(square: int) -> int {
    (square / 8) * 2 + (square % 4) / 2
}

/// Whether two squares share a row, a column or a zone.
pub open spec fn share_line(a: int, b: int) -> bool {
    a / 4 == b / 4 || a % 4 == b % 4 || zone(a) == zone(b)
}

/// Whether the opponent of the mover has the same shape on a line through the
/// square.
pub open spec fn blocked(planes: Seq<u16>, m: Placement) -> bool {
    exists|square: int|
        0 <= square < 16 && share_line(m.position as int, square) && #[trigger] has_piece(
            planes,
            (1 - m.player) * 4 + m.shape,
            square,
        )
}

/// The rule of placement: an empty square, fewer than two pieces of the shape
/// used, and no opposing piece of the shape on a line through the square.
pub open spec fn placeable(planes: Seq<u16>, m: Placement) -> bool {
    &&& !occupied(planes, m.position as int)
    &&& piece_count(planes, m.plane()) < 2
    &&& !blocked(planes, m)
}

/// The move of `player` with action index `action`.
pub open spec fn move_of(player: u8, action: int) -> Placement {
    Placement { player, shape: (action / 16) as u8, position: (action % 16) as u8 }
}

/// The legal moves of the side to move, by ascending action index. A board with
/// no side to move has none.
pub open spec fn legal_moves(planes: Seq<u16>) -> Seq<Placement> {
    match mover(planes) {
        Some(player) => Seq::new(64, |action: int| move_of(player, action)).filter(
            |m: Placement| placeable(planes, m),
        ),
        None => Seq::empty(),
    }
}

/// Whether the move may be played: it is the mover's, it lies on the board, and
/// the rule of placement admits it.
pub open spec fn is_legal(planes: Seq<u16>, m: Placement) -> bool {
    mover(planes) == Some(m.player) && m.well_formed() && placeable(planes, m)
}

/// The twelve lines: four rows, four columns, four zones.
pub open spec fn on_line(line: int, square: int) -> bool {
    if line < 4 {
        square / 4 == line
    } else if line < 8 {
        square % 4 == line - 4
    } else {
        zone(square) == line - 8
    }
}

/// Whether a piece of the shape, of either player, stands on the line.
pub open spec fn shape_on_line(planes: Seq<u16>, line: int, shape: int) -> bool {
    exists|square: int|
        0 <= square < 16 && on_line(line, square) && (#[trigger] has_piece(planes, shape, square)
            || has_piece(planes, 4 + shape, square))
}

/// Whether some line carries all four shapes.
pub open spec fn won(planes: Seq<u16>) -> bool {
    exists|line: int|
        0 <= line < 12 && #[trigger] shape_on_line(planes, line, 0) && shape_on_line(
            planes,
            line,
            1,
        ) && shape_on_line(planes, line, 2) && shape_on_line(planes, line, 3)
}

/// The board after the move.
pub open spec fn placed(planes: Seq<u16>, m: Placement) -> Seq<u16> {
    planes.update(m.plane(), planes[m.plane()] | (1u16 << (m.position as u16)))
}

/// Whether the game is over: some line carries all four shapes, or the side to
/// move has no legal move.
pub open spec fn finished(planes: Seq<u16>) -> bool {
    won(planes) || legal_moves(planes).len() == 0
}

/// Whether some legal move ends the game.
pub open spec fn can_finish(planes: Seq<u16>) -> bool {
    exists|m: Placement| #[trigger] is_legal(planes, m) && finished(placed(planes, m))
}

/// Whether after some legal move a line carries all four shapes.
pub open spec fn can_win(planes: Seq<u16>) -> bool {
    exists|m: Placement| #[trigger] is_legal(planes, m) && won(placed(planes, m))
}

/// The letter of a plane in QFEN: upper case for player 0, lower case for
/// player 1.
pub open spec fn piece_letter(plane: int) -> char {
    seq!['A', 'B', 'C', 'D', 'a', 'b', 'c', 'd'][plane]
}

/// The character that stands for the square in a QFEN text: four ranks of four
/// characters with a slash between two ranks.
pub open spec fn square_text(text: Seq<char>, square: int) -> char {
    text[square + square / 4]
}

/// A QFEN text: four ranks of four characters, each a full stop or the letter
/// of a piece, with slashes between the ranks.
pub open spec fn is_qfen(text: Seq<char>) -> bool {
    &&& text.len() == 19
    &&& text[4] == '/' && text[9] == '/' && text[14] == '/'
    &&& forall|square: int|
        0 <= square < 16 ==> {
            ||| #[trigger] square_text(text, square) == '.'
            ||| exists|plane: int|
                0 <= plane < 8 && square_text(text, square) == #[trigger] piece_letter(plane)
        }
}

/// The plane's bits over the first `n` squares of a QFEN text.
pub open spec fn plane_below(text: Seq<char>, plane: int, n: nat) -> u16
    decreases n,
{
    if n == 0 {
        0
    } else {
        plane_below(text, plane, (n - 1) as nat) | if square_text(text, n - 1) == piece_letter(
            plane,
        ) {
            1u16 << ((n - 1) as u16)
        } else {
            0u16
        }
    }
}

/// The board that a QFEN text describes.
pub open spec fn qfen_planes(text: Seq<char>) -> Seq<u16> {
    Seq::new(8, |plane: int| plane_below(text, plane, 16))
}

/// What `State::from_qfen` says of a text that it refuses.
pub uninterp spec fn qfen_complaint(text: Seq<char>) -> Seq<char>;

/// Reads a QFEN text.
///
/// Calls `quantik_core::state::State::from_qfen`. Trusted: it accepts exactly
/// the texts of four slash-separated ranks of four characters out of `.`, `A`
/// to `D` and `a` to `d`, it sets the bit of a square in the plane of the letter
/// that stands there and no other bit, and the message of a refusal depends on
/// the text alone.
#[verifier::external_body]
pub(crate) fn parse_qfen(qfen: &str) -> (res: Result<Position, String>)
    ensures
        match res {
            Ok(position) => is_qfen(qfen@) && position@ == qfen_planes(qfen@),
            Err(message) => !is_qfen(qfen@) && message@ == qfen_complaint(qfen@),
        },
{
    quantik_core::state::State::from_qfen(qfen).map(|state| Position { planes: state.bb.planes })
}

/// Lists the legal moves of the side to move.
///
/// Calls `quantik_core::moves::generate_legal_moves`. Trusted: the moves are
/// those of the side to move that the rule of placement admits, shape by shape
/// and square by square within a shape.
#[verifier::external_body]
pub(crate) fn generate_legal_moves(position: &Position) -> (moves: Vec<Placement>)
    ensures
        moves@ == legal_moves(position@),
{
    quantik_core::moves::generate_legal_moves(
        &quantik_core::bitboard::Bitboard::new(position.planes),
    ).iter().map(own_move).collect()
}

/// Plays a move on a copy of the board.
///
/// Calls `quantik_core::moves::apply_move`. Trusted: it sets the bit of the
/// move's square in the plane of the move's player and shape, and changes
/// nothing else.
#[verifier::external_body]
pub(crate) fn apply_move(position: &Position, m: &Placement) -> (next: Position)
    requires
        m.well_formed(),
    ensures
        next@ == placed(position@, *m),
{
    let board = quantik_core::moves::apply_move(
        &quantik_core::bitboard::Bitboard::new(position.planes),
        &quantik_core::moves::Move { player: m.player, shape: m.shape, position: m.position },
    );
    Position { planes: board.planes }
}

/// A board is looked at plane by plane.
pub proof fn a_board_is_looked_at_whole(position: Position)
    ensures
        position@.len() == 8,
        forall|plane: int| 0 <= plane < 8 ==> #[trigger] position@[plane] == position.planes[plane],
{
}

} // verus!
