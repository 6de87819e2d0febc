//! Reading a position from Forsyth-Edwards Notation.
//!
//! A FEN string has six fields separated by whitespace: the piece placement from the
//! eighth rank down, the side to move, the castling rights, the en passant square, the
//! half-move clock and the move number.
use vstd::prelude::*;
use crate::bits::{bit, group_bits, lemma_zero_iff_empty};
use crate::board::{Board, empty_piece, pieces_key, zkey, has_kings, check_info_valid, castle_key, ep_key, side_key, sq_key, piece_key, lemma_pieces_key_update};
use crate::defs::{Piece, PieceType, Player, Square, Castling, player_idx, pt_idx};
use crate::position::Position;
use vstd::string::StringSliceAdditionalSpecFns;

verus! {

broadcast use group_bits;

/// ASCII whitespace, as `split_whitespace` sees it.
pub open spec fn is_ws(c: u8) -> bool {
    c == 32 || (9 <= c <= 13)
}

/// The token spans of `s` from index `i` on, in accumulator form: `start` is where the
/// current token began when `in_tok` holds, and `acc` the spans found so far.
pub open spec fn spans_from(s: Seq<u8>, i: int, start: int, in_tok: bool, acc: Seq<(int, int)>) -> Seq<(int, int)>
    decreases s.len() - i,
{
    if i >= s.len() {
        if in_tok { acc.push((start, s.len() as int)) } else { acc }
    } else if is_ws(s[i]) {
        spans_from(s, i + 1, start, false, if in_tok { acc.push((start, i)) } else { acc })
    } else if in_tok {
        spans_from(s, i + 1, start, true, acc)
    } else {
        spans_from(s, i + 1, i, true, acc)
    }
}

/// The start and end of each whitespace-separated token of `s`.
pub open spec fn fen_tokens(s: Seq<u8>) -> Seq<(int, int)> {
    spans_from(s, 0, 0, false, Seq::empty())
}

/// Spans as integers.
pub open spec fn spans_view(v: Seq<(usize, usize)>) -> Seq<(int, int)> {
    v.map_values(|p: (usize, usize)| (p.0 as int, p.1 as int))
}

/// The spans of the whitespace-separated tokens of `s`.
fn token_spans(s: &[u8]) -> (r: Vec<(usize, usize)>)
    ensures
        spans_view(r@) == fen_tokens(s@),
        forall|k: int| 0 <= k < r@.len() ==> #[trigger] r@[k].0 <= r@[k].1 <= s@.len(),
{
    let mut acc: Vec<(usize, usize)> = Vec::new();
    let mut start: usize = 0;
    let mut in_tok = false;
    let mut i: usize = 0;
    assert(spans_view(acc@) =~= Seq::<(int, int)>::empty());
    while i < s.len()
        invariant
            i <= s@.len(),
            start <= i,
            fen_tokens(s@) == spans_from(s@, i as int, start as int, in_tok, spans_view(acc@)),
            forall|k: int| 0 <= k < acc@.len() ==> #[trigger] acc@[k].0 <= acc@[k].1 <= s@.len(),
        decreases s@.len() - i,
    {
        let c = s[i];
        if c == 32 || (9 <= c && c <= 13) {
            if in_tok {
                let ghost before = acc@;
                acc.push((start, i));
                assert(spans_view(acc@) =~= spans_view(before).push((start as int, i as int)));
            }
            in_tok = false;
        } else if !in_tok {
            start = i;
            in_tok = true;
        }
        i = i + 1;
    }
    if in_tok {
        let ghost before = acc@;
        acc.push((start, s.len()));
        assert(spans_view(acc@) =~= spans_view(before).push((start as int, s@.len() as int)));
    }
    acc
}

/// The piece a placement letter stands for: upper case for white, lower case for black.
pub open spec fn piece_of_byte(c: u8) -> Option<Piece> {
    let side = if c < 97 { Player::White } else { Player::Black };
    let l = if c < 97 { c + 32 } else { c as int };
    if !(65 <= c <= 90 || 97 <= c <= 122) {
        None
    } else if l == 112 {
        Some(Piece { t: PieceType::Pawn, c: side })
    } else if l == 110 {
        Some(Piece { t: PieceType::Knight, c: side })
    } else if l == 98 {
        Some(Piece { t: PieceType::Bishop, c: side })
    } else if l == 114 {
        Some(Piece { t: PieceType::Rook, c: side })
    } else if l == 113 {
        Some(Piece { t: PieceType::Queen, c: side })
    } else if l == 107 {
        Some(Piece { t: PieceType::King, c: side })
    } else {
        None
    }
}

fn piece_from_byte(c: u8) -> (r: Option<Piece>)
    ensures
        r == piece_of_byte(c),
{
    if !((65 <= c && c <= 90) || (97 <= c && c <= 122)) {
        return None;
    }
    let side = if c < 97 { Player::White } else { Player::Black };
    let l = if c < 97 { c + 32 } else { c };
    let t = if l == 112 {
        PieceType::Pawn
    } else if l == 110 {
        PieceType::Knight
    } else if l == 98 {
        PieceType::Bishop
    } else if l == 114 {
        PieceType::Rook
    } else if l == 113 {
        PieceType::Queen
    } else if l == 107 {
        PieceType::King
    } else {
        return None;
    };
    Some(Piece::new(t, side))
}

/// The mailbox after placing the pieces of `s[i..end]` from the given file and rank:
/// `/` starts the next rank down, a digit skips that many files, a letter puts a piece.
/// No result when a letter is unknown, a piece lands off the board or on an occupied
/// square, or the counters run away.
pub open spec fn place_from(s: Seq<u8>, i: int, end: int, file: int, rank: int, board: Seq<Piece>) -> Option<Seq<Piece>>
    decreases end - i,
{
    if i >= end {
        Some(board)
    } else if s[i] == 47 {
        if rank <= -1000 { None } else { place_from(s, i + 1, end, 0, rank - 1, board) }
    } else if 49 <= s[i] <= 56 {
        if file >= 1000 { None } else { place_from(s, i + 1, end, file + (s[i] - 48), rank, board) }
    } else {
        match piece_of_byte(s[i]) {
            None => None,
            Some(p) => {
                let sq = rank * 8 + file;
                if 0 <= sq < 64 && board[sq].t == PieceType::NoPiece {
                    place_from(s, i + 1, end, file + 1, rank, board.update(sq, p))
                } else {
                    None
                }
            },
        }
    }
}

/// The mailbox with no piece on it.
pub open spec fn empty_mailbox() -> Seq<Piece> {
    Seq::new(64, |i: int| empty_piece())
}

/// Both kings stand somewhere in the mailbox.
pub open spec fn kings_on(ps: Seq<Piece>) -> bool {
    &&& exists|i: int| 0 <= i < 64 && #[trigger] ps[i] == (Piece { t: PieceType::King, c: Player::White })
    &&& exists|i: int| 0 <= i < 64 && #[trigger] ps[i] == (Piece { t: PieceType::King, c: Player::Black })
}

/// The board holds exactly the pieces of `ps`, with its key the key of those pieces.
pub open spec fn placed(b: &Board, ps: Seq<Piece>) -> bool {
    &&& b.pieces@ == ps
    &&& b.wf()
    &&& b.pos.key == pieces_key(b.pieces@, 64)
}

/// Puts the pieces of `s[start..end]` on an empty board, from a8 on.
fn place_pieces(board: &mut Board, s: &[u8], start: usize, end: usize) -> (ok: bool)
    requires
        start <= end <= s@.len(),
        placed(old(board), empty_mailbox()),
    ensures
        ok == place_from(s@, start as int, end as int, 0, 7, empty_mailbox()).is_some(),
        ok ==> placed(final(board), place_from(s@, start as int, end as int, 0, 7, empty_mailbox()).unwrap()),
        final(board).same_except_pieces(old(board)),
{
    let ghost target = place_from(s@, start as int, end as int, 0, 7, empty_mailbox());
    let mut file: i32 = 0;
    let mut rank: i32 = 7;
    let mut i = start;
    while i < end
        invariant
            start <= i <= end <= s@.len(),
            -1000 <= rank <= 7,
            0 <= file < 10000,
            board.pieces@.len() == 64,
            target == place_from(s@, start as int, end as int, 0, 7, empty_mailbox()),
            target == place_from(s@, i as int, end as int, file as int, rank as int, board.pieces@),
            placed(board, board.pieces@),
            board.same_except_pieces(old(board)),
        decreases end - i,
    {
        let c = s[i];
        if c == 47 {
            if rank <= -1000 {
                return false;
            }
            file = 0;
            rank = rank - 1;
        } else if 49 <= c && c <= 56 {
            if file >= 1000 {
                return false;
            }
            file = file + (c - 48) as i32;
        } else {
            match piece_from_byte(c) {
                None => {
                    return false;
                },
                Some(p) => {
                    let sq = rank * 8 + file;
                    if sq < 0 || sq >= 64 {
                        return false;
                    }
                    if board.pieces[sq as usize].t != PieceType::NoPiece {
                        return false;
                    }
                    let ghost before = board.pieces@;
                    let ghost old_key = board.pos.key;
                    board.add_piece(p.c, p.t, sq as Square);
                    proof {
                        assert(board.pieces@ == before.update(sq as int, p));
                        lemma_pieces_key_update(before, 64, sq as int, p);
                        assert(sq_key(before[sq as int], sq as int) == 0);
                        crate::board::lemma_xor(sq_key(p, sq as int), 0, 0);
                    }
                    file = file + 1;
                }
            }
        }
        i = i + 1;
    }
    true
}

/// Some byte of `s[i..end]` is `c`.
pub open spec fn has_byte(s: Seq<u8>, i: int, end: int, c: u8) -> bool {
    exists|k: int| i <= k < end && #[trigger] s[k] == c
}

fn find_byte(s: &[u8], start: usize, end: usize, c: u8) -> (r: bool)
    requires
        start <= end <= s@.len(),
    ensures
        r == has_byte(s@, start as int, end as int, c),
{
    let mut i = start;
    while i < end
        invariant
            start <= i <= end <= s@.len(),
            forall|k: int| start <= k < i ==> #[trigger] s@[k] != c,
        decreases end - i,
    {
        if s[i] == c {
            assert(s@[i as int] == c);
            return true;
        }
        i = i + 1;
    }
    false
}

/// Castling rights from the letters `K`, `Q`, `k`, `q` of `s[i..end]`, added to `acc`.
pub open spec fn castle_from(s: Seq<u8>, i: int, end: int, acc: u8) -> Option<u8>
    decreases end - i,
{
    if i >= end {
        Some(acc)
    } else if s[i] == 75 {
        castle_from(s, i + 1, end, acc | Castling::WK)
    } else if s[i] == 81 {
        castle_from(s, i + 1, end, acc | Castling::WQ)
    } else if s[i] == 107 {
        castle_from(s, i + 1, end, acc | Castling::BK)
    } else if s[i] == 113 {
        castle_from(s, i + 1, end, acc | Castling::BQ)
    } else {
        None
    }
}

/// The castling field: no rights when it holds a `-`.
pub open spec fn castling_of(s: Seq<u8>, start: int, end: int) -> Option<u8> {
    if has_byte(s, start, end, 45) {
        Some(Castling::NONE)
    } else {
        castle_from(s, start, end, Castling::NONE)
    }
}

proof fn lemma_castle_bits(a: u8, b: u8)
    by (bit_vector)
    requires
        a < 16,
        b < 16,
    ensures
        a | b < 16,
{
}

fn parse_castling(s: &[u8], start: usize, end: usize) -> (r: Option<u8>)
    requires
        start <= end <= s@.len(),
    ensures
        r == castling_of(s@, start as int, end as int),
        r matches Some(c) ==> c < 16,
{
    if find_byte(s, start, end, 45) {
        return Some(Castling::NONE);
    }
    let mut acc: u8 = Castling::NONE;
    let mut i = start;
    while i < end
        invariant
            start <= i <= end <= s@.len(),
            acc < 16,
            !has_byte(s@, start as int, end as int, 45),
            castle_from(s@, start as int, end as int, Castling::NONE) == castle_from(s@, i as int, end as int, acc),
        decreases end - i,
    {
        let c = s[i];
        let right = if c == 75 {
            Castling::WK
        } else if c == 81 {
            Castling::WQ
        } else if c == 107 {
            Castling::BK
        } else if c == 113 {
            Castling::BQ
        } else {
            return None;
        };
        proof {
            lemma_castle_bits(acc, right);
        }
        acc = acc | right;
        i = i + 1;
    }
    Some(acc)
}

/// The en passant field: 64 for `-`, else a file letter and a rank digit.
pub open spec fn ep_of(s: Seq<u8>, start: int, end: int) -> Option<Square> {
    if has_byte(s, start, end, 45) {
        Some(64)
    } else if end - start == 2 && 97 <= s[start] <= 104 && 49 <= s[start + 1] <= 56 {
        Some(((s[start + 1] - 49) * 8 + (s[start] - 97)) as Square)
    } else {
        None
    }
}

fn parse_ep(s: &[u8], start: usize, end: usize) -> (r: Option<Square>)
    requires
        start <= end <= s@.len(),
    ensures
        r == ep_of(s@, start as int, end as int),
        r matches Some(e) ==> 0 <= e <= 64,
{
    if find_byte(s, start, end, 45) {
        return Some(64);
    }
    if end - start == 2 && 97 <= s[start] && s[start] <= 104 && 49 <= s[start + 1] && s[start + 1] <= 56 {
        let file = (s[start] - 97) as Square;
        let rank = (s[start + 1] - 49) as Square;
        Some(rank * 8 + file)
    } else {
        None
    }
}

/// The value of the decimal digits `s[i..end]` after `acc`, as long as it stays within a byte.
pub open spec fn digits_from(s: Seq<u8>, i: int, end: int, acc: int) -> Option<int>
    decreases end - i,
{
    if i >= end {
        Some(acc)
    } else if 48 <= s[i] <= 57 && acc * 10 + (s[i] - 48) <= 255 {
        digits_from(s, i + 1, end, acc * 10 + (s[i] - 48))
    } else {
        None
    }
}

/// A byte written in decimal, with an optional leading `+`.
pub open spec fn byte_of(s: Seq<u8>, start: int, end: int) -> Option<u8> {
    let first = if end - start >= 2 && s[start] == 43 { start + 1 } else { start };
    if first >= end {
        None
    } else {
        match digits_from(s, first, end, 0) {
            Some(v) => Some(v as u8),
            None => None,
        }
    }
}

fn parse_byte(s: &[u8], start: usize, end: usize) -> (r: Option<u8>)
    requires
        start <= end <= s@.len(),
    ensures
        r == byte_of(s@, start as int, end as int),
{
    let first = if end - start >= 2 && s[start] == 43 { start + 1 } else { start };
    if first >= end {
        return None;
    }
    let mut acc: u32 = 0;
    let mut i = first;
    while i < end
        invariant
            first <= i <= end <= s@.len(),
            first < end,
            first == (if end - start >= 2 && s@[start as int] == 43 { start + 1 } else { start as int }),
            acc <= 255,
            digits_from(s@, first as int, end as int, 0) == digits_from(s@, i as int, end as int, acc as int),
        decreases end - i,
    {
        let c = s[i];
        if !(48 <= c && c <= 57) {
            return None;
        }
        let next = acc * 10 + (c - 48) as u32;
        if next > 255 {
            return None;
        }
        acc = next;
        i = i + 1;
    }
    Some(acc as u8)
}

/// The side to move: `w` or `b`.
pub open spec fn turn_of(s: Seq<u8>, start: int, end: int) -> Option<Player> {
    if end - start == 1 && s[start] == 119 {
        Some(Player::White)
    } else if end - start == 1 && s[start] == 98 {
        Some(Player::Black)
    } else {
        None
    }
}

/// What a FEN string describes: the mailbox, the side to move, the castling rights, the
/// en passant square (64 for none) and the half-move clock; no result when the string has
/// not six fields or one of them is malformed.
pub open spec fn fen_fields(s: Seq<u8>) -> Option<(Seq<Piece>, Player, u8, Square, u8)> {
    let t = fen_tokens(s);
    if t.len() != 6 {
        None
    } else {
        let pieces = place_from(s, t[0].0, t[0].1, 0, 7, empty_mailbox());
        let turn = turn_of(s, t[1].0, t[1].1);
        let castling = castling_of(s, t[2].0, t[2].1);
        let ep = ep_of(s, t[3].0, t[3].1);
        let half = byte_of(s, t[4].0, t[4].1);
        if pieces.is_some() && turn.is_some() && castling.is_some() && ep.is_some() && half.is_some() {
            Some((pieces.unwrap(), turn.unwrap(), castling.unwrap(), ep.unwrap(), half.unwrap()))
        } else {
            None
        }
    }
}

/// A FEN string that describes a position with both kings.
pub open spec fn fen_ok(s: Seq<u8>) -> bool {
    fen_fields(s).is_some() && kings_on(fen_fields(s).unwrap().0)
}

/// `b` is the position the FEN string `s` describes, with its check information and key
/// computed, at ply zero and without history.
pub open spec fn fen_board(b: &Board, s: Seq<u8>) -> bool {
    let f = fen_fields(s).unwrap();
    &&& b.pieces@ == f.0
    &&& b.turn == f.1
    &&& b.pos.castling == f.2
    &&& b.pos.ep_square == f.3
    &&& b.pos.rule_fifty == f.4
    &&& b.wf()
    &&& has_kings(b)
    &&& check_info_valid(b)
    &&& b.pos.key == zkey(b)
    &&& b.pos.ply == 0
    &&& b.history@.len() == 0
}

/// The mailbox of an empty board keys to zero.
proof fn lemma_empty_key(ps: Seq<Piece>, n: int)
    requires
        0 <= n <= ps.len(),
        forall|i: int| 0 <= i < n ==> #[trigger] ps[i].t == PieceType::NoPiece,
    ensures
        pieces_key(ps, n) == 0,
    decreases n,
{
    if n > 0 {
        lemma_empty_key(ps, n - 1);
        crate::board::lemma_xor(0, 0, 0);
    }
}

/// Kings in the mailbox of a well-formed board show in its bitboards.
proof fn lemma_kings(b: &Board)
    requires
        b.wf(),
    ensures
        has_kings(b) == kings_on(b.pieces@),
{
    let w = b.piece_bb[5] & b.side_bb[0];
    let k = b.piece_bb[5] & b.side_bb[1];
    lemma_zero_iff_empty(w);
    lemma_zero_iff_empty(k);
    if w != 0 {
        let t = choose|t: int| #[trigger] bit(w, t);
        assert(bit(b.piece_bb[5], t) && bit(b.side_bb[0], t));
        assert(b.pieces@[t] == (Piece { t: PieceType::King, c: Player::White }));
    }
    if k != 0 {
        let t = choose|t: int| #[trigger] bit(k, t);
        assert(bit(b.piece_bb[5], t) && bit(b.side_bb[1], t));
        assert(b.pieces@[t] == (Piece { t: PieceType::King, c: Player::Black }));
    }
    if exists|i: int| 0 <= i < 64 && #[trigger] b.pieces@[i] == (Piece { t: PieceType::King, c: Player::White }) {
        let i = choose|i: int| 0 <= i < 64 && #[trigger] b.pieces@[i] == (Piece { t: PieceType::King, c: Player::White });
        assert(bit(b.piece_bb[5], i) && bit(b.side_bb[0], i));
        assert(bit(w, i));
    }
    if exists|i: int| 0 <= i < 64 && #[trigger] b.pieces@[i] == (Piece { t: PieceType::King, c: Player::Black }) {
        let i = choose|i: int| 0 <= i < 64 && #[trigger] b.pieces@[i] == (Piece { t: PieceType::King, c: Player::Black });
        assert(bit(b.piece_bb[5], i) && bit(b.side_bb[1], i));
        assert(bit(k, i));
    }
}

impl Board {
    /// The position described by the FEN string `fen`, which must be six
    /// whitespace-separated fields of the expected form placing a king of each side
    /// (`from_fen_bytes` checks a string that may not be).
    pub fn from_fen(fen: &str) -> (r: Board)
        requires
            fen_ok(fen.spec_bytes()),
        ensures
            fen_board(&r, fen.spec_bytes()),
    {
        from_fen_bytes(fen.as_bytes()).unwrap()
    }
}

/// The position described by the FEN bytes `s`.
pub fn from_fen_bytes(s: &[u8]) -> (r: Option<Board>)
    ensures
        r.is_some() == fen_ok(s@),
        r matches Some(b) ==> fen_board(&b, s@),
{
    let spans = token_spans(s);
    if spans.len() != 6 {
        return None;
    }
    proof {
        assert forall|k: int| 0 <= k < 6 implies fen_tokens(s@)[k] == (spans@[k].0 as int, spans@[k].1 as int) by {
            assert(spans_view(spans@)[k] == (spans@[k].0 as int, spans@[k].1 as int));
        }
        assert(spans@[0].0 <= spans@[0].1 <= s@.len());
        assert(spans@[1].0 <= spans@[1].1 <= s@.len());
        assert(spans@[2].0 <= spans@[2].1 <= s@.len());
        assert(spans@[3].0 <= spans@[3].1 <= s@.len());
        assert(spans@[4].0 <= spans@[4].1 <= s@.len());
    }
    let (p0, p1) = spans[0];
    let (t0, t1) = spans[1];
    let (c0, c1) = spans[2];
    let (e0, e1) = spans[3];
    let (h0, h1) = spans[4];

    let turn = if t1 - t0 == 1 && s[t0] == 119 {
        Player::White
    } else if t1 - t0 == 1 && s[t0] == 98 {
        Player::Black
    } else {
        return None;
    };
    let castling = match parse_castling(s, c0, c1) {
        Some(c) => c,
        None => {
            return None;
        },
    };
    let ep = match parse_ep(s, e0, e1) {
        Some(e) => e,
        None => {
            return None;
        },
    };
    let half = match parse_byte(s, h0, h1) {
        Some(h) => h,
        None => {
            return None;
        },
    };

    let mut board = Board::new();
    proof {
        assert(board.pieces@ =~= empty_mailbox());
        lemma_empty_key(board.pieces@, 64);
    }
    if !place_pieces(&mut board, s, p0, p1) {
        return None;
    }
    let ghost mailbox = board.pieces@;
    proof {
        lemma_kings(&board);
    }
    if board.player_piece_bb(Player::White, PieceType::King) == 0 || board.player_piece_bb(Player::Black, PieceType::King) == 0 {
        return None;
    }
    let ghost pk = board.pos.key;
    board.turn = turn;
    board.pos.castling = castling;
    board.pos.rule_fifty = half;
    board.pos.key = board.pos.key ^ crate::zobrist::Zobrist::castle(castling);
    if ep < 64 {
        board.set_ep(ep);
    }
    if turn == Player::Black {
        board.pos.key = board.pos.key ^ crate::zobrist::Zobrist::side();
    }
    proof {
        crate::board::lemma_xor(pk, castle_key(castling), 0);
        crate::board::lemma_xor(pk ^ castle_key(castling), ep_key(ep), 0);
        crate::board::lemma_xor(pk ^ castle_key(castling) ^ ep_key(ep), side_key(turn), 0);
    }
    board.set_check_info();
    Some(board)
}


/// Puts `p` on the empty square `sq` of a board holding the pieces of its mailbox.
fn put_piece(board: &mut Board, p: Piece, sq: Square)
    requires
        p.t != PieceType::NoPiece,
        0 <= sq < 64,
        placed(old(board), old(board).pieces@),
        old(board).pieces@[sq as int].t == PieceType::NoPiece,
    ensures
        placed(final(board), old(board).pieces@.update(sq as int, p)),
        final(board).same_except_pieces(old(board)),
{
    let ghost before = board.pieces@;
    board.add_piece(p.c, p.t, sq);
    proof {
        lemma_pieces_key_update(before, 64, sq as int, p);
        crate::board::lemma_xor(sq_key(p, sq as int), 0, 0);
    }
}

/// The back rank, from the a-file to the h-file.
pub open spec fn back_rank(f: int) -> PieceType {
    if f == 0 || f == 7 {
        PieceType::Rook
    } else if f == 1 || f == 6 {
        PieceType::Knight
    } else if f == 2 || f == 5 {
        PieceType::Bishop
    } else if f == 3 {
        PieceType::Queen
    } else {
        PieceType::King
    }
}

/// The pieces of the starting position on the files before `files`.
pub open spec fn start_mailbox_files(files: int) -> Seq<Piece> {
    Seq::new(64, |i: int|
        if i % 8 >= files {
            empty_piece()
        } else if i < 8 {
            Piece { t: back_rank(i % 8), c: Player::White }
        } else if i < 16 {
            Piece { t: PieceType::Pawn, c: Player::White }
        } else if i >= 56 {
            Piece { t: back_rank(i % 8), c: Player::Black }
        } else if i >= 48 {
            Piece { t: PieceType::Pawn, c: Player::Black }
        } else {
            empty_piece()
        })
}

/// The mailbox of the starting position.
pub open spec fn start_mailbox() -> Seq<Piece> {
    start_mailbox_files(8)
}

fn back_rank_piece(f: i8) -> (r: PieceType)
    requires
        0 <= f < 8,
    ensures
        r == back_rank(f as int),
{
    if f == 0 || f == 7 {
        PieceType::Rook
    } else if f == 1 || f == 6 {
        PieceType::Knight
    } else if f == 2 || f == 5 {
        PieceType::Bishop
    } else if f == 3 {
        PieceType::Queen
    } else {
        PieceType::King
    }
}

impl Board {
    /// The starting position, as `FEN_START_STRING` describes it: white to move, all
    /// castling rights, no en passant square.
    pub fn start_pos() -> (r: Board)
        ensures
            r.pieces@ == start_mailbox(),
            r.turn == Player::White,
            r.pos.castling == Castling::ALL,
            r.pos.ep_square == 64,
            r.pos.rule_fifty == 0,
            r.pos.ply == 0,
            r.history@.len() == 0,
            r.wf(),
            has_kings(&r),
            check_info_valid(&r),
            r.pos.key == zkey(&r),
    {
        let mut board = Board::new();
        proof {
            assert(board.pieces@ =~= start_mailbox_files(0));
            lemma_empty_key(board.pieces@, 64);
        }
        let ghost b0 = board;
        let mut f: i8 = 0;
        while f < 8
            invariant
                0 <= f <= 8,
                placed(&board, start_mailbox_files(f as int)),
                board.same_except_pieces(&b0),
                b0.pos == Position::new_spec(),
                b0.turn == Player::White,
                b0.history@.len() == 0,
            decreases 8 - f,
        {
            let t = back_rank_piece(f);
            let ghost m0 = board.pieces@;
            put_piece(&mut board, Piece::new(t, Player::White), f);
            put_piece(&mut board, Piece::new(PieceType::Pawn, Player::White), 8 + f);
            put_piece(&mut board, Piece::new(PieceType::Pawn, Player::Black), 48 + f);
            put_piece(&mut board, Piece::new(t, Player::Black), 56 + f);
            proof {
                assert(board.pieces@ =~= start_mailbox_files(f + 1));
            }
            f = f + 1;
        }
        proof {
            lemma_kings(&board);
            assert(board.pieces@[4] == (Piece { t: PieceType::King, c: Player::White }));
            assert(board.pieces@[60] == (Piece { t: PieceType::King, c: Player::Black }));
        }
        let ghost pk = board.pos.key;
        board.pos.castling = Castling::ALL;
        board.pos.key = board.pos.key ^ crate::zobrist::Zobrist::castle(Castling::ALL);
        proof {
            crate::board::lemma_xor(pk ^ castle_key(Castling::ALL), 0, 0);
        }
        board.set_check_info();
        board
    }
}

} // verus!
