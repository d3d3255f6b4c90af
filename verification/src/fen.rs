//! Reading positions in Forsyth-Edwards Notation.

use vstd::prelude::*;

use crate::bitboard::BitBoard;
use crate::board::Board;
use crate::pieces::{piece_from_fen, spec_piece_from_fen, Color, Piece};
use crate::position::lemma_board_add;
use crate::square::{spec_file_from_char, File, Rank, Square};

verus! {

/// What a square holds: a piece of some color, or nothing.
pub open spec fn cell_of(b: Board, sq: Square) -> Option<(Color, Piece)> {
    match (b.spec_color_at(sq), b.spec_piece_at(sq)) {
        (Some(c), Some(p)) => Some((c, p)),
        _ => None,
    }
}

/// The cells a character of a board row stands for: a digit from `1` to `8`
/// for that many empty squares, or a piece letter.
pub open spec fn fen_run(c: char) -> Option<Seq<Option<(Color, Piece)>>> {
    if '1' <= c && c <= '8' {
        Some(Seq::new((c as int - '0' as int) as nat, |i: int| None))
    } else {
        match spec_piece_from_fen(c) {
            Some(cp) => Some(seq![Some(cp)]),
            None => None,
        }
    }
}

/// The cells of a board row, or `None` if it holds another character.
pub open spec fn fen_row(r: Seq<char>) -> Option<Seq<Option<(Color, Piece)>>>
    decreases r.len(),
{
    if r.len() == 0 {
        Some(seq![])
    } else {
        match (fen_row(r.drop_last()), fen_run(r.last())) {
            (Some(a), Some(b)) => Some(a + b),
            _ => None,
        }
    }
}

/// The rows of the board field, split on `/`.
pub open spec fn fen_rows(w: Seq<char>) -> Seq<Seq<char>>
    decreases w.len(),
{
    if w.len() == 0 {
        seq![seq![]]
    } else {
        let init = fen_rows(w.drop_last());
        if w.last() == '/' {
            init.push(seq![])
        } else {
            init.update(init.len() - 1, init.last().push(w.last()))
        }
    }
}

/// A board field has at least one row.
proof fn lemma_rows_nonempty(w: Seq<char>)
    ensures
        fen_rows(w).len() >= 1,
    decreases w.len(),
{
    if w.len() > 0 {
        lemma_rows_nonempty(w.drop_last());
    }
}

/// The board field is well formed: eight rows of eight cells each.
pub open spec fn fen_board_ok(w: Seq<char>) -> bool {
    let rows = fen_rows(w);
    &&& rows.len() == 8
    &&& forall|k: int| 0 <= k < 8 ==> #[trigger] fen_row(rows[k]) is Some && fen_row(rows[k]).unwrap().len() == 8
}

/// The cell of the square with index `i` in a well formed board field: the
/// first row is the eighth rank.
pub open spec fn fen_cell(w: Seq<char>, i: int) -> Option<(Color, Piece)> {
    fen_row(fen_rows(w)[7 - i / 8]).unwrap()[i % 8]
}

/// The rows read so far can still begin a well formed board field.
spec fn rows_prefix_ok(rows: Seq<Seq<char>>) -> bool {
    &&& 1 <= rows.len() <= 8
    &&& forall|k: int| 0 <= k < rows.len() - 1 ==> #[trigger] fen_row(rows[k]) is Some && fen_row(rows[k]).unwrap().len() == 8
    &&& fen_row(rows.last()) is Some
    &&& fen_row(rows.last()).unwrap().len() <= 8
}

/// A row that is not eight cells long.
spec fn row_bad(r: Seq<char>) -> bool {
    !(fen_row(r) is Some && fen_row(r).unwrap().len() == 8)
}

/// The rows read so far cannot begin a well formed board field.
spec fn rows_broken(rows: Seq<Seq<char>>) -> bool {
    ||| rows.len() > 8
    ||| exists|kk: int| 0 <= kk < rows.len() - 1 && #[trigger] row_bad(rows[kk])
    ||| fen_row(rows.last()) is None
    ||| fen_row(rows.last()).unwrap().len() > 8
}

/// The cell of square `i` once the rows read so far are placed.
spec fn placed_cell(rows: Seq<Seq<char>>, i: int) -> Option<(Color, Piece)> {
    let k = 7 - i / 8;
    if k < rows.len() - 1 {
        fen_row(rows[k]).unwrap()[i % 8]
    } else if k == rows.len() - 1 && i % 8 < fen_row(rows[k]).unwrap().len() {
        fen_row(rows[k]).unwrap()[i % 8]
    } else {
        None
    }
}

/// The board of a well formed board field of a FEN string (the characters
/// from `start` to `end`), or `None` for a malformed one.
pub fn parse_board(fen: &str, start: usize, end: usize) -> (r: Option<Board>)
    requires
        start <= end <= fen@.len(),
    ensures
        r is Some <==> fen_board_ok(fen@.subrange(start as int, end as int)),
        r matches Some(b) ==> b.wf() && forall|sq: Square| #[trigger] cell_of(b, sq) == fen_cell(fen@.subrange(start as int, end as int), sq.idx()),
{
    let ghost w = fen@.subrange(start as int, end as int);
    let mut board = Board::empty();
    let mut valid = true;
    let mut k: usize = 0;
    let mut f: usize = 0;
    let mut i = start;
    proof {
        assert(w.take(0) =~= Seq::<char>::empty());
        assert forall|sq: Square| #[trigger] cell_of(board, sq) == placed_cell(fen_rows(w.take(0)), sq.idx()) by {
            sq.lemma_repr_roundtrip();
            crate::bitboard::lemma_bits_of_constants(sq.idx() as u64);
        }
    }
    while i < end
        invariant
            start <= i <= end <= fen@.len(),
            w == fen@.subrange(start as int, end as int),
            board.wf(),
            valid <==> rows_prefix_ok(fen_rows(w.take(i - start))),
            valid ==> k + 1 == fen_rows(w.take(i - start)).len(),
            valid ==> f == fen_row(fen_rows(w.take(i - start)).last()).unwrap().len(),
            valid ==> forall|sq: Square| #[trigger] cell_of(board, sq) == placed_cell(fen_rows(w.take(i - start)), sq.idx()),
            !valid ==> rows_broken(fen_rows(w.take(i - start))),
        decreases end - i,
    {
        let c = fen.get_char(i);
        let ghost prev = w.take(i - start);
        let ghost next = w.take(i + 1 - start);
        let ghost rows0 = fen_rows(prev);
        let ghost rows1 = fen_rows(next);
        proof {
            lemma_rows_nonempty(prev);
            assert(next.drop_last() =~= prev);
            assert(next.last() == c);
            assert(rows1 == if c == '/' { rows0.push(seq![]) } else { rows0.update(rows0.len() - 1, rows0.last().push(c)) });
            if c != '/' {
                let r = rows0.last().push(c);
                assert(r.drop_last() =~= rows0.last());
                assert(fen_row(r) == match (fen_row(rows0.last()), fen_run(c)) {
                    (Some(a), Some(b)) => Some(a + b),
                    _ => None,
                });
                assert(rows1.last() == r);
            }
        }
        i = i + 1;
        if !valid {
            proof {
                if rows0.len() > 8 {
                } else if exists|kk: int| 0 <= kk < rows0.len() - 1 && #[trigger] row_bad(rows0[kk]) {
                    let kk = choose|kk: int| 0 <= kk < rows0.len() - 1 && #[trigger] row_bad(rows0[kk]);
                    assert(rows1[kk] == rows0[kk]);
                    assert(row_bad(rows1[kk]));
                } else if c == '/' {
                    assert(rows1[rows0.len() - 1] == rows0.last());
                    assert(row_bad(rows1[rows0.len() - 1]));
                } else {
                }
            }
            continue;
        }
        if c == '/' {
            if f != 8 || k == 7 {
                valid = false;
                proof {
                    if k != 7 {
                        assert(rows1[rows0.len() - 1] == rows0.last());
                        assert(row_bad(rows1[rows0.len() - 1]));
                    }
                }
            } else {
                k = k + 1;
                f = 0;
                proof {
                    assert forall|kk: int| 0 <= kk < rows1.len() - 1 implies #[trigger] fen_row(rows1[kk]) is Some
                        && fen_row(rows1[kk]).unwrap().len() == 8 by {
                        assert(rows1[kk] == rows0[kk]);
                    }
                    assert forall|sq: Square| #[trigger] cell_of(board, sq) == placed_cell(rows1, sq.idx()) by {
                        sq.lemma_repr_roundtrip();
                        assert(cell_of(board, sq) == placed_cell(rows0, sq.idx()));
                        let kk = 7 - sq.idx() / 8;
                        if kk < rows0.len() {
                            assert(rows1[kk] == rows0[kk]);
                        }
                    }
                }
            }
        } else if '1' <= c && c <= '8' {
            let n = (c as u32 - '0' as u32) as usize;
            proof {
                assert(fen_run(c) == Some(Seq::new(n as nat, |j: int| None::<(Color, Piece)>)));
            }
            if f + n > 8 {
                valid = false;
            } else {
                f = f + n;
                proof {
                    assert forall|kk: int| 0 <= kk < rows1.len() - 1 implies #[trigger] fen_row(rows1[kk]) is Some
                        && fen_row(rows1[kk]).unwrap().len() == 8 by {
                        assert(rows1[kk] == rows0[kk]);
                    }
                    assert forall|sq: Square| #[trigger] cell_of(board, sq) == placed_cell(rows1, sq.idx()) by {
                        sq.lemma_repr_roundtrip();
                        assert(cell_of(board, sq) == placed_cell(rows0, sq.idx()));
                        let kk = 7 - sq.idx() / 8;
                        if kk < rows0.len() - 1 {
                            assert(rows1[kk] == rows0[kk]);
                        }
                    }
                }
            }
        } else {
            match piece_from_fen(c) {
                None => {
                    valid = false;
                },
                Some((color, piece)) => {
                    if f >= 8 {
                        valid = false;
                    } else {
                        proof {
                            Rank::lemma_from_repr_in_range((7 - k) as int);
                            File::lemma_from_repr_in_range(f as int);
                        }
                        let sq = Square::new(Rank::from_repr((7 - k) as u8).unwrap(), File::from_repr(f as u8).unwrap());
                        proof {
                            File::lemma_from_repr_in_range(f as int);
                            sq.lemma_repr_roundtrip();
                            assert(sq.idx() == (7 - k) * 8 + f);
                            assert(cell_of(board, sq) == placed_cell(rows0, sq.idx()));
                            board.lemma_color_iff_piece(sq);
                            lemma_board_add(board, color, piece, sq);
                        }
                        let ghost old_board = board;
                        board.mask_or(color, piece, BitBoard::from_square(sq));
                        f = f + 1;
                        proof {
                            assert forall|kk: int| 0 <= kk < rows1.len() - 1 implies #[trigger] fen_row(rows1[kk]) is Some
                                && fen_row(rows1[kk]).unwrap().len() == 8 by {
                                assert(rows1[kk] == rows0[kk]);
                            }
                            assert forall|s2: Square| #[trigger] cell_of(board, s2) == placed_cell(rows1, s2.idx()) by {
                                s2.lemma_repr_roundtrip();
                                if s2 != sq {
                                    assert(cell_of(old_board, s2) == placed_cell(rows0, s2.idx()));
                                    let kk = 7 - s2.idx() / 8;
                                    if kk < rows0.len() - 1 {
                                        assert(rows1[kk] == rows0[kk]);
                                    }
                                    if s2.idx() == sq.idx() {
                                        Square::lemma_idx_injective(s2, sq);
                                    }
                                }
                            }
                        }
                    }
                },
            }
        }
    }
    proof {
        assert(w.take(end - start) =~= w);
    }
    if valid && k == 7 && f == 8 {
        proof {
            let rows = fen_rows(w);
            assert forall|kk: int| 0 <= kk < 8 implies #[trigger] fen_row(rows[kk]) is Some && fen_row(rows[kk]).unwrap().len() == 8 by {
                if kk < 7 {
                } else {
                }
            }
            assert forall|sq: Square| #[trigger] cell_of(board, sq) == fen_cell(w, sq.idx()) by {
                sq.lemma_repr_roundtrip();
            }
        }
        Some(board)
    } else {
        proof {
            let rows = fen_rows(w);
            if fen_board_ok(w) {
                if !valid {
                    if rows.len() > 8 {
                    } else if exists|kk: int| 0 <= kk < rows.len() - 1 && #[trigger] row_bad(rows[kk]) {
                        let kk = choose|kk: int| 0 <= kk < rows.len() - 1 && #[trigger] row_bad(rows[kk]);
                        assert(fen_row(rows[kk]) is Some && fen_row(rows[kk]).unwrap().len() == 8);
                    } else {
                        assert(fen_row(rows[7]) is Some && fen_row(rows[7]).unwrap().len() == 8);
                    }
                } else {
                    assert(fen_row(rows[7]) is Some && fen_row(rows[7]).unwrap().len() == 8);
                }
            }
        }
        None
    }
}

/// Whether the character is white space (the Unicode `White_Space` set).
pub open spec fn is_space(c: char) -> bool {
    ||| '\t' <= c && c <= '\r'
    ||| c == ' '
    ||| c == '\u{85}'
    ||| c == '\u{a0}'
    ||| c == '\u{1680}'
    ||| '\u{2000}' <= c && c <= '\u{200a}'
    ||| c == '\u{2028}'
    ||| c == '\u{2029}'
    ||| c == '\u{202f}'
    ||| c == '\u{205f}'
    ||| c == '\u{3000}'
}

/// Returns whether the character is white space.
pub(crate) fn char_is_space(c: char) -> (r: bool)
    ensures
        r == is_space(c),
{
    ('\t' <= c && c <= '\r') || c == ' ' || c == '\u{85}' || c == '\u{a0}' || c == '\u{1680}' || ('\u{2000}'
        <= c && c <= '\u{200a}') || c == '\u{2028}' || c == '\u{2029}' || c == '\u{202f}' || c == '\u{205f}'
        || c == '\u{3000}'
}

/// The first index at or after `i` that does not hold white space.
pub open spec fn skip_space(s: Seq<char>, i: int) -> int
    decreases s.len() - i,
{
    if 0 <= i < s.len() && is_space(s[i]) {
        skip_space(s, i + 1)
    } else {
        i
    }
}

/// The first index at or after `i` that holds white space (or the end).
pub open spec fn word_end(s: Seq<char>, i: int) -> int
    decreases s.len() - i,
{
    if 0 <= i < s.len() && !is_space(s[i]) {
        word_end(s, i + 1)
    } else {
        i
    }
}

pub proof fn lemma_skip_space(s: Seq<char>, i: int)
    requires
        0 <= i <= s.len(),
    ensures
        i <= skip_space(s, i) <= s.len(),
        skip_space(s, i) < s.len() ==> !is_space(s[skip_space(s, i)]),
    decreases s.len() - i,
{
    if i < s.len() && is_space(s[i]) {
        lemma_skip_space(s, i + 1);
    }
}

pub proof fn lemma_word_end(s: Seq<char>, i: int)
    requires
        0 <= i <= s.len(),
    ensures
        i <= word_end(s, i) <= s.len(),
        i < s.len() && !is_space(s[i]) ==> i < word_end(s, i),
    decreases s.len() - i,
{
    if i < s.len() && !is_space(s[i]) {
        lemma_word_end(s, i + 1);
    }
}

/// The words of `s` from index `i` on: the maximal runs of characters that
/// are not white space.
pub open spec fn words_from(s: Seq<char>, i: int) -> Seq<Seq<char>>
    decreases s.len() - i,
{
    if 0 <= i <= s.len() {
        let a = skip_space(s, i);
        proof {
            lemma_skip_space(s, i);
            lemma_word_end(s, a);
        }
        if a >= s.len() {
            seq![]
        } else {
            seq![s.subrange(a, word_end(s, a))] + words_from(s, word_end(s, a))
        }
    } else {
        seq![]
    }
}

/// The words of a span list.
pub open spec fn span_words(s: Seq<char>, spans: Seq<(usize, usize)>) -> Seq<Seq<char>> {
    spans.map_values(|p: (usize, usize)| s.subrange(p.0 as int, p.1 as int))
}

/// Splits a string into its words, as spans of character indices.
pub fn split_words(text: &str) -> (r: Vec<(usize, usize)>)
    ensures
        span_words(text@, r@) == words_from(text@, 0),
        forall|k: int| 0 <= k < r@.len() ==> #[trigger] r@[k].0 <= r@[k].1 <= text@.len(),
{
    let n = text.unicode_len();
    let ghost s = text@;
    let mut spans: Vec<(usize, usize)> = Vec::new();
    let mut i: usize = 0;
    proof {
        assert(span_words(s, spans@) =~= Seq::<Seq<char>>::empty());
    }
    while i < n
        invariant
            n == s.len(),
            s == text@,
            i <= n,
            span_words(s, spans@) + words_from(s, i as int) == words_from(s, 0),
            forall|k: int| 0 <= k < spans@.len() ==> #[trigger] spans@[k].0 <= spans@[k].1 <= s.len(),
        decreases n - i,
    {
        let mut a = i;
        while a < n && char_is_space(text.get_char(a))
            invariant
                i <= a <= n,
                n == s.len(),
                s == text@,
                skip_space(s, a as int) == skip_space(s, i as int),
            decreases n - a,
        {
            a = a + 1;
        }
        proof {
            lemma_skip_space(s, a as int);
        }
        if a == n {
            proof {
                assert(words_from(s, i as int) =~= Seq::<Seq<char>>::empty());
            }
            i = n;
        } else {
            let mut e = a;
            while e < n && !char_is_space(text.get_char(e))
                invariant
                    a <= e <= n,
                    n == s.len(),
                    s == text@,
                    word_end(s, e as int) == word_end(s, a as int),
                decreases n - e,
            {
                e = e + 1;
            }
            let ghost old_spans = spans@;
            spans.push((a, e));
            proof {
                assert(span_words(s, spans@) =~= span_words(s, old_spans).push(s.subrange(a as int, e as int)));
                assert(words_from(s, i as int) == seq![s.subrange(a as int, e as int)] + words_from(s, e as int));
                assert(span_words(s, spans@) + words_from(s, e as int) =~= span_words(s, old_spans) + words_from(s, i as int));
            }
            i = e;
        }
    }
    proof {
        assert(words_from(s, i as int) =~= Seq::<Seq<char>>::empty());
        assert(span_words(s, spans@) + words_from(s, i as int) =~= span_words(s, spans@));
    }
    spans
}

/// The value of a string of decimal digits.
pub open spec fn digits_value(d: Seq<char>) -> int
    decreases d.len(),
{
    if d.len() == 0 {
        0
    } else {
        digits_value(d.drop_last()) * 10 + (d.last() as int - '0' as int)
    }
}

/// Whether the character is a decimal digit.
pub open spec fn is_digit(c: char) -> bool {
    '0' <= c && c <= '9'
}

/// The characters of a number after an optional `+`.
pub open spec fn unsigned_digits(w: Seq<char>) -> Seq<char> {
    if w.len() > 0 && w[0] == '+' {
        w.drop_first()
    } else {
        w
    }
}

/// Whether every character is a decimal digit.
pub open spec fn all_digits(d: Seq<char>) -> bool {
    forall|i: int| 0 <= i < d.len() ==> #[trigger] is_digit(d[i])
}

/// A decimal number without sign: an optional `+` and at least one digit,
/// with a value that fits in a `u32`.
pub open spec fn spec_parse_u32(w: Seq<char>) -> Option<u32> {
    let d = unsigned_digits(w);
    if d.len() > 0 && all_digits(d) && digits_value(d) <= u32::MAX {
        Some(digits_value(d) as u32)
    } else {
        None
    }
}

/// Parses the characters from `start` to `end` as a decimal `u32`.
pub fn parse_u32(text: &str, start: usize, end: usize) -> (r: Option<u32>)
    requires
        start <= end <= text@.len(),
    ensures
        r == spec_parse_u32(text@.subrange(start as int, end as int)),
{
    let ghost w = text@.subrange(start as int, end as int);
    let mut a = start;
    if a < end && text.get_char(a) == '+' {
        a = a + 1;
    }
    let ghost d = text@.subrange(a as int, end as int);
    proof {
        assert(d =~= unsigned_digits(w));
    }
    if a == end {
        return None;
    }
    let cap: u64 = 0x1_0000_0000;
    let mut acc: u64 = 0;
    let mut i = a;
    proof {
        assert(d.take(0) =~= Seq::<char>::empty());
    }
    while i < end
        invariant
            start <= a <= i <= end <= text@.len(),
            d == text@.subrange(a as int, end as int),
            w == text@.subrange(start as int, end as int),
            d == unsigned_digits(w),
            cap == 0x1_0000_0000u64,
            acc <= cap,
            acc == (if digits_value(d.take(i - a)) < cap { digits_value(d.take(i - a)) } else { cap as int }),
            digits_value(d.take(i - a)) >= 0,
            forall|j: int| 0 <= j < i - a ==> #[trigger] is_digit(d[j]),
        decreases end - i,
    {
        let c = text.get_char(i);
        if !('0' <= c && c <= '9') {
            proof {
                assert(d[i - a] == c);
                assert(!is_digit(d[i - a]));
                assert(!all_digits(d));
            }
            return None;
        }
        let digit = (c as u32 - '0' as u32) as u64;
        proof {
            assert(d.take(i + 1 - a).drop_last() =~= d.take(i - a));
            assert(d.take(i + 1 - a).last() == c);
        }
        let next = acc * 10 + digit;
        acc = if next < cap { next } else { cap };
        i = i + 1;
    }
    proof {
        assert(d.take(end - a) =~= d);
    }
    if acc < cap {
        Some(acc as u32)
    } else {
        None
    }
}

/// The side to move of a FEN turn field: `w` or `b`.
pub open spec fn fen_turn(w: Seq<char>) -> Option<Color> {
    if w == seq!['w'] {
        Some(Color::White)
    } else if w == seq!['b'] {
        Some(Color::Black)
    } else {
        None
    }
}

/// The en passant file of a FEN en passant field: `-` for none, or a file letter.
pub open spec fn fen_en_passant(w: Seq<char>) -> Option<Option<File>> {
    if w == seq!['-'] {
        Some(None)
    } else if w.len() == 1 && spec_file_from_char(w[0]) is Some {
        Some(spec_file_from_char(w[0]))
    } else {
        None
    }
}

/// Parses the turn field from `start` to `end`.
pub fn parse_turn(text: &str, start: usize, end: usize) -> (r: Option<Color>)
    requires
        start <= end <= text@.len(),
    ensures
        r == fen_turn(text@.subrange(start as int, end as int)),
{
    let ghost w = text@.subrange(start as int, end as int);
    if end - start != 1 {
        proof {
            assert(w.len() != 1);
            assert(w != seq!['w'] && w != seq!['b']);
        }
        return None;
    }
    let c = text.get_char(start);
    proof {
        assert(w[0] == c);
        if c == 'w' {
            assert(w =~= seq!['w']);
        } else if c == 'b' {
            assert(w =~= seq!['b']);
        } else {
            assert(w != seq!['w'] && w != seq!['b']) by {
                if w == seq!['w'] {
                    assert(w[0] == 'w');
                }
                if w == seq!['b'] {
                    assert(w[0] == 'b');
                }
            }
        }
    }
    if c == 'w' {
        Some(Color::White)
    } else if c == 'b' {
        Some(Color::Black)
    } else {
        None
    }
}

/// Parses the en passant field from `start` to `end`.
pub fn parse_en_passant(text: &str, start: usize, end: usize) -> (r: Option<Option<File>>)
    requires
        start <= end <= text@.len(),
    ensures
        r == fen_en_passant(text@.subrange(start as int, end as int)),
{
    let ghost w = text@.subrange(start as int, end as int);
    if end - start != 1 {
        proof {
            assert(w.len() != 1);
            assert(w != seq!['-']);
        }
        return None;
    }
    let c = text.get_char(start);
    proof {
        assert(w[0] == c);
        if c == '-' {
            assert(w =~= seq!['-']);
        } else {
            assert(w != seq!['-']) by {
                if w == seq!['-'] {
                    assert(w[0] == '-');
                }
            }
        }
    }
    if c == '-' {
        Some(None)
    } else {
        match crate::square::file_from_char(c) {
            Some(f) => Some(Some(f)),
            None => None,
        }
    }
}

} // verus!
