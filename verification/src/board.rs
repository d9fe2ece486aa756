//! The engine's view of a position: plain bitboards, side to move, castling
//! rights and en-passant square, mirrored out of a `chess::Board` by trusted
//! constructors. All search logic reads only this mirror; the `chess::Board`
//! is carried along opaquely so that moves can be applied to it.

use vstd::prelude::*;

verus! {

/// Declares `chess::Board` to the verifier as an opaque value type.
#[verifier::external_type_specification]
#[verifier::external_body]
pub struct ExBoard(chess::Board);

/// Piece kinds, in the order the exchange evaluator tries attackers.
#[derive(Clone, Copy, PartialEq, Eq, Structural, Debug)]
pub enum Piece {
    Pawn,
    Knight,
    Bishop,
    Rook,
    Queen,
    King,
}

/// A move: source square, destination square (both 0..64, rank-major with
/// a1 = 0), and a promotion code (0 = none, 1 = knight, 2 = bishop,
/// 3 = rook, 4 = queen). The all-zero value is the null-move sentinel.
#[derive(Clone, Copy, PartialEq, Eq, Structural, Debug)]
pub struct Mv {
    pub from: u8,
    pub to: u8,
    pub promo: u8,
}

impl Mv {
    pub open spec fn wf(self) -> bool {
        self.from < 64 && self.to < 64 && self.promo <= 4
    }

    pub open spec fn is_null_spec(self) -> bool {
        self.from == 0 && self.to == 0 && self.promo == 0
    }

    /// The null-move sentinel, used where no move has been recorded yet.
    pub fn null() -> (r: Mv)
        ensures
            r.is_null_spec(),
            r.wf(),
    {
        Mv { from: 0, to: 0, promo: 0 }
    }

    pub fn is_null(&self) -> (r: bool)
        ensures
            r == self.is_null_spec(),
    {
        self.from == 0 && self.to == 0 && self.promo == 0
    }
}

/// Whether bit `i` of `x` is set.
pub open spec fn bit64(x: u64, i: u64) -> bool {
    (x >> i) & 1u64 == 1u64
}

/// Number of set bits of `x` with index below `i`.
pub open spec fn popcount_below(x: u64, i: nat) -> nat
    decreases i,
{
    if i == 0 {
        0
    } else {
        popcount_below(x, (i - 1) as nat) + (if bit64(x, (i - 1) as u64) {
            1nat
        } else {
            0nat
        })
    }
}

/// Number of set bits in `x`.
pub open spec fn popcount64(x: u64) -> nat {
    popcount_below(x, 64)
}

/// The plain value of a position: everything that determines play from here.
/// Two positions with equal reps admit the same moves, the same evaluation
/// and the same game status.
pub struct BoardRep {
    pub white: u64,
    pub black: u64,
    pub pawns: u64,
    pub knights: u64,
    pub bishops: u64,
    pub rooks: u64,
    pub queens: u64,
    pub kings: u64,
    /// True when it is the first player's turn.
    pub side_white: bool,
    /// Castling rights of the first player, encoded 0..4 (none, king side,
    /// queen side, both).
    pub castle_white: u8,
    /// Castling rights of the second player, encoded as above.
    pub castle_black: u8,
    /// En-passant target square, or 64 when there is none.
    pub ep: u8,
}

impl BoardRep {
    /// Squares occupied by either side.
    pub open spec fn occ(self) -> u64 {
        self.white | self.black
    }

    /// Number of pieces on the board.
    pub open spec fn occ_count(self) -> nat {
        popcount64(self.occ())
    }

    /// Structural soundness of the mirror: colors partition the occupancy
    /// and the piece planes partition it as well.
    pub open spec fn wf(self) -> bool {
        &&& self.white & self.black == 0u64
        &&& (self.pawns | self.knights | self.bishops | self.rooks | self.queens | self.kings)
            == self.occ()
        &&& self.pawns & self.knights == 0u64
        &&& self.pawns & self.bishops == 0u64
        &&& self.pawns & self.rooks == 0u64
        &&& self.pawns & self.queens == 0u64
        &&& self.pawns & self.kings == 0u64
        &&& self.knights & self.bishops == 0u64
        &&& self.knights & self.rooks == 0u64
        &&& self.knights & self.queens == 0u64
        &&& self.knights & self.kings == 0u64
        &&& self.bishops & self.rooks == 0u64
        &&& self.bishops & self.queens == 0u64
        &&& self.bishops & self.kings == 0u64
        &&& self.rooks & self.queens == 0u64
        &&& self.rooks & self.kings == 0u64
        &&& self.queens & self.kings == 0u64
        &&& self.castle_white < 4
        &&& self.castle_black < 4
        &&& self.ep <= 64
    }

    /// The piece standing on `sq`, if any, found by testing the piece
    /// planes in value order.
    pub open spec fn piece_on_spec(self, sq: u64) -> Option<Piece> {
        if !bit64(self.occ(), sq) {
            None
        } else if bit64(self.pawns, sq) {
            Some(Piece::Pawn)
        } else if bit64(self.knights, sq) {
            Some(Piece::Knight)
        } else if bit64(self.bishops, sq) {
            Some(Piece::Bishop)
        } else if bit64(self.rooks, sq) {
            Some(Piece::Rook)
        } else if bit64(self.queens, sq) {
            Some(Piece::Queen)
        } else {
            Some(Piece::King)
        }
    }

    /// Whether the first player occupies `sq`.
    pub open spec fn white_on_spec(self, sq: u64) -> bool {
        bit64(self.white, sq)
    }
}

/// The legal moves of a position with this rep, in the order the move
/// generator of the `chess` crate yields them. The order and contents are a
/// function of the rep alone.
pub uninterp spec fn legal_moves_of(r: BoardRep) -> Seq<Mv>;

/// The bitboard of pieces giving check to the side to move; a function of
/// the rep alone.
pub uninterp spec fn checkers_of(r: BoardRep) -> u64;

/// The position reached by playing a legal move: move application is a
/// function of the rep and the move alone.
pub uninterp spec fn apply_of(r: BoardRep, m: Mv) -> BoardRep;

/// A position: an opaque `chess::Board` together with its plain mirror.
/// The fields are crate-private and every constructor goes through the
/// trusted wrappers below, so in every `Position` value that can exist
/// the mirror is the board's own state, read back through the board's
/// accessors; the contracts of the wrappers lean on that.
#[derive(Clone, Copy)]
pub struct Position {
    /// The opaque board the mirror was read from.
    pub(crate) board: chess::Board,
    pub(crate) white: u64,
    pub(crate) black: u64,
    pub(crate) pawns: u64,
    pub(crate) knights: u64,
    pub(crate) bishops: u64,
    pub(crate) rooks: u64,
    pub(crate) queens: u64,
    pub(crate) kings: u64,
    pub(crate) side_white: bool,
    pub(crate) castle_white: u8,
    pub(crate) castle_black: u8,
    pub(crate) ep: u8,
    /// The position's 64-bit hash, used as the transposition-table key.
    pub(crate) hash: u64,
    /// Bitboard of pieces giving check to the side to move.
    pub(crate) checkers: u64,
}

impl View for Position {
    type V = BoardRep;

    open(crate) spec fn view(&self) -> BoardRep {
        BoardRep {
            white: self.white,
            black: self.black,
            pawns: self.pawns,
            knights: self.knights,
            bishops: self.bishops,
            rooks: self.rooks,
            queens: self.queens,
            kings: self.kings,
            side_white: self.side_white,
            castle_white: self.castle_white,
            castle_black: self.castle_black,
            ep: self.ep,
        }
    }
}

impl Position {
    /// A position is well formed when its mirror is structurally sound and
    /// the cached check information agrees with the mirror.
    pub open(crate) spec fn wf(&self) -> bool {
        self@.wf() && self.checkers == checkers_of(self@)
    }

    /// The cached check bitboard, as a spec value.
    pub open(crate) spec fn checkers_field(&self) -> u64 {
        self.checkers
    }

    /// What the trusted constructor establishes: the cached check
    /// bitboard agrees with the mirror, and the castling and en-passant
    /// encodings are in range.
    pub open(crate) spec fn mirror_facts(&self) -> bool {
        &&& self.checkers == checkers_of(self@)
        &&& self@.castle_white < 4
        &&& self@.castle_black < 4
        &&& self@.ep <= 64
    }

    /// Relies on `chess::Board`'s accessors (`side_to_move`,
    /// `castle_rights`, `en_passant`, `get_hash`, `checkers`): they report
    /// exactly the board's state, and the cached check bitboard is a
    /// function of that state. Structural soundness of the mirror is not
    /// assumed here; [`Position::mirror_consistent`] checks it in
    /// verified code.
    #[verifier::external_body]
    pub fn from_board(board: chess::Board) -> (p: Position)
        ensures
            p.mirror_facts(),
            p.checkers_field() == checkers_of(p@),
    {
        let (white, black, pawns, knights, bishops, rooks, queens, kings) = planes(&board);
        Position {
            white, black, pawns, knights, bishops, rooks, queens, kings,
            side_white: board.side_to_move() == chess::Color::White,
            castle_white: board.castle_rights(chess::Color::White).to_index() as u8,
            castle_black: board.castle_rights(chess::Color::Black).to_index() as u8,
            ep: board.en_passant().map_or(64, |s| s.to_index() as u8),
            hash: board.get_hash(),
            checkers: board.checkers().0,
            board,
        }
    }

    /// Whether the mirrored planes are structurally sound: colors
    /// disjoint, piece planes pairwise disjoint, and their union the
    /// occupancy. Together with the constructor's guarantees this is
    /// exactly well-formedness.
    pub fn mirror_consistent(&self) -> (r: bool)
        requires
            self.mirror_facts(),
        ensures
            r == self@.wf(),
    {
        let union = self.pawns | self.knights | self.bishops | self.rooks | self.queens
            | self.kings;
        self.white & self.black == 0 && union == (self.white | self.black) && self.pawns
            & self.knights == 0 && self.pawns & self.bishops == 0 && self.pawns & self.rooks == 0
            && self.pawns & self.queens == 0 && self.pawns & self.kings == 0 && self.knights
            & self.bishops == 0 && self.knights & self.rooks == 0 && self.knights & self.queens
            == 0 && self.knights & self.kings == 0 && self.bishops & self.rooks == 0
            && self.bishops & self.queens == 0 && self.bishops & self.kings == 0 && self.rooks
            & self.queens == 0 && self.rooks & self.kings == 0 && self.queens & self.kings == 0
    }

    /// Parse a position string into a well-formed position, rejecting
    /// both strings the board library refuses and boards whose mirror is
    /// not structurally sound.
    pub fn new(fen: &str) -> (p: Option<Position>)
        ensures
            p is Some ==> p.unwrap().wf(),
    {
        match parse_board(fen) {
            None => None,
            Some(b) => {
                let p = Position::from_board(b);
                if p.mirror_consistent() {
                    Some(p)
                } else {
                    None
                }
            },
        }
    }

    /// Whether it is the first player's turn.
    pub fn side_to_move(&self) -> (r: bool)
        ensures
            r == self@.side_white,
    {
        self.side_white
    }

    /// The bitboard of all occupied squares.
    pub fn occupancy(&self) -> (r: u64)
        ensures
            r == self@.occ(),
    {
        self.white | self.black
    }

    /// The bitboard of one side's pieces.
    pub fn color_bb(&self, white: bool) -> (r: u64)
        ensures
            r == (if white {
                self@.white
            } else {
                self@.black
            }),
    {
        if white {
            self.white
        } else {
            self.black
        }
    }

    /// The bitboard of one piece kind, both colors together.
    pub fn piece_bb(&self, kind: Piece) -> (r: u64)
        ensures
            r == (match kind {
                Piece::Pawn => self@.pawns,
                Piece::Knight => self@.knights,
                Piece::Bishop => self@.bishops,
                Piece::Rook => self@.rooks,
                Piece::Queen => self@.queens,
                Piece::King => self@.kings,
            }),
    {
        match kind {
            Piece::Pawn => self.pawns,
            Piece::Knight => self.knights,
            Piece::Bishop => self.bishops,
            Piece::Rook => self.rooks,
            Piece::Queen => self.queens,
            Piece::King => self.kings,
        }
    }

    /// The castling-rights code of one side (0 none, 1 king side, 2 queen
    /// side, 3 both).
    pub fn castle_code(&self, white: bool) -> (r: u8)
        ensures
            r == (if white {
                self@.castle_white
            } else {
                self@.castle_black
            }),
    {
        if white {
            self.castle_white
        } else {
            self.castle_black
        }
    }

    /// The en-passant target square, or 64 when there is none.
    pub fn ep_square(&self) -> (r: u8)
        ensures
            r == self@.ep,
    {
        self.ep
    }

    /// Whether the side to move is in check.
    pub fn in_check(&self) -> (r: bool)
        requires
            self.wf(),
        ensures
            r == (checkers_of(self@) != 0),
    {
        self.checkers != 0
    }

    /// The position's 64-bit hash.
    pub fn hash(&self) -> u64 {
        self.hash
    }

    /// The opaque board this position mirrors.
    pub fn board(&self) -> &chess::Board {
        &self.board
    }

    /// Relies on `chess::MoveGen::new_legal`: it enumerates exactly the
    /// legal moves of the board, each one once, in an order that is a
    /// function of the board's state.
    #[verifier::external_body]
    pub(crate) fn legal_moves(&self) -> (r: Vec<Mv>)
        requires
            self.wf(),
        ensures
            r@ == legal_moves_of(self@),
            forall|i: int| 0 <= i < r@.len() ==> (#[trigger] r@[i]).wf(),
            forall|i: int, j: int| 0 <= i < j < r@.len() ==> r@[i] != r@[j],
    {
        let mut v = Vec::new();
        for m in chess::MoveGen::new_legal(&self.board) {
            v.push(Mv {
                from: m.get_source().to_index() as u8,
                to: m.get_dest().to_index() as u8,
                promo: match m.get_promotion() {
                    None => 0,
                    Some(chess::Piece::Knight) => 1,
                    Some(chess::Piece::Bishop) => 2,
                    Some(chess::Piece::Rook) => 3,
                    _ => 4,
                },
            });
        }
        v
    }

    /// Relies on `chess::Board::make_move_new`: applying a legal move
    /// yields a sane board of the opposite side to move; it removes exactly
    /// one piece when the destination was occupied (a capture) and never
    /// adds pieces.
    #[verifier::external_body]
    pub(crate) fn apply_move(&self, m: Mv) -> (r: Position)
        requires
            self.wf(),
            m.wf(),
            legal_moves_of(self@).contains(m),
        ensures
            r.wf(),
            r@ == apply_of(self@, m),
            r@.occ_count() <= self@.occ_count(),
            bit64(self@.occ(), m.to as u64) ==> r@.occ_count() == (self@.occ_count() - 1) as nat,
            r@.side_white == !self@.side_white,
    {
        let cm = chess::ChessMove::new(
            chess::ALL_SQUARES[m.from as usize],
            chess::ALL_SQUARES[m.to as usize],
            match m.promo {
                0 => None,
                1 => Some(chess::Piece::Knight),
                2 => Some(chess::Piece::Bishop),
                3 => Some(chess::Piece::Rook),
                _ => Some(chess::Piece::Queen),
            },
        );
        Position::from_board(self.board.make_move_new(cm))
    }

    /// Relies on `chess::Board::null_move`: when the side to move is not in
    /// check it yields the same placement with the turn passed to the
    /// opponent and any en-passant right cleared.
    #[verifier::external_body]
    pub(crate) fn pass_move(&self) -> (r: Position)
        requires
            self.wf(),
            checkers_of(self@) == 0,
        ensures
            r.wf(),
            r@.white == self@.white,
            r@.black == self@.black,
            r@.pawns == self@.pawns,
            r@.knights == self@.knights,
            r@.bishops == self@.bishops,
            r@.rooks == self@.rooks,
            r@.queens == self@.queens,
            r@.kings == self@.kings,
            r@.side_white == !self@.side_white,
    {
        match self.board.null_move() {
            Some(b) => Position::from_board(b),
            None => Position::from_board(self.board),
        }
    }
}

/// Relies on `chess::Board::from_str`: it accepts exactly the position
/// strings the board library can parse into a board.
#[verifier::external_body]
fn parse_board(fen: &str) -> Option<chess::Board> {
    <chess::Board as core::str::FromStr>::from_str(fen).ok()
}

/// Relies on `chess::Board::color_combined` and `chess::Board::pieces`:
/// they report exactly the board's per-color and per-kind bitboards.
#[verifier::external_body]
fn planes(board: &chess::Board) -> (u64, u64, u64, u64, u64, u64, u64, u64) {
    (
        board.color_combined(chess::Color::White).0,
        board.color_combined(chess::Color::Black).0,
        board.pieces(chess::Piece::Pawn).0,
        board.pieces(chess::Piece::Knight).0,
        board.pieces(chess::Piece::Bishop).0,
        board.pieces(chess::Piece::Rook).0,
        board.pieces(chess::Piece::Queen).0,
        board.pieces(chess::Piece::King).0,
    )
}

/// Whether bit `i` of `x` is set; the executable twin of `bit64`.
pub fn test_bit(x: u64, i: u64) -> (r: bool)
    requires
        i < 64,
    ensures
        r == bit64(x, i),
{
    (x >> i) & 1u64 == 1u64
}

/// Bit `i` of an intersection.
pub proof fn lemma_bit_and(a: u64, b: u64, i: u64)
    requires
        i < 64,
    ensures
        bit64(a & b, i) == (bit64(a, i) && bit64(b, i)),
{
    assert((((a & b) >> i) & 1u64 == 1u64) == (((a >> i) & 1u64 == 1u64) && ((b >> i) & 1u64
        == 1u64))) by (bit_vector)
        requires
            i < 64u64,
    ;
}

/// Bit `i` of a union.
pub proof fn lemma_bit_or(a: u64, b: u64, i: u64)
    requires
        i < 64,
    ensures
        bit64(a | b, i) == (bit64(a, i) || bit64(b, i)),
{
    assert((((a | b) >> i) & 1u64 == 1u64) == (((a >> i) & 1u64 == 1u64) || ((b >> i) & 1u64
        == 1u64))) by (bit_vector)
        requires
            i < 64u64,
    ;
}

/// At most `i` bits are set below index `i`.
pub proof fn lemma_popcount_below_le(x: u64, i: nat)
    ensures
        popcount_below(x, i) <= i,
    decreases i,
{
    if i > 0 {
        lemma_popcount_below_le(x, (i - 1) as nat);
    }
}

/// A word with a set bit has a positive population count.
pub proof fn lemma_popcount_below_pos(x: u64, i: u64, j: nat)
    requires
        i < j,
        bit64(x, i),
    ensures
        popcount_below(x, j) >= 1,
    decreases j,
{
    if j - 1 > i {
        lemma_popcount_below_pos(x, i, (j - 1) as nat);
    }
}

/// A word with a set bit below index 64 has at least one set bit.
pub proof fn lemma_popcount_pos(x: u64, i: u64)
    requires
        i < 64,
        bit64(x, i),
    ensures
        popcount64(x) >= 1,
{
    lemma_popcount_below_pos(x, i, 64);
}

/// A 64-bit word has at most 64 set bits.
pub proof fn lemma_popcount_le(x: u64)
    ensures
        popcount64(x) <= 64,
{
    lemma_popcount_below_le(x, 64);
}

/// Number of set bits in `x`; the executable twin of `popcount64`.
pub fn popcount(x: u64) -> (r: u32)
    ensures
        r == popcount64(x),
{
    let mut c: u32 = 0;
    for i in 0..64u64
        invariant
            c == popcount_below(x, i as nat),
            c <= i,
    {
        if (x >> i) & 1u64 == 1u64 {
            c = c + 1;
        }
    }
    c
}

} // verus!
