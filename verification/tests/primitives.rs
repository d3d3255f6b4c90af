use grob::{BitBoard, File, NegDiag, PosDiag, Rank, Square};

fn all_ranks() -> Vec<Rank> {
    (0..8u8).map(|i| Rank::from_repr(i).unwrap()).collect()
}

fn all_files() -> Vec<File> {
    (0..8u8).map(|i| File::from_repr(i).unwrap()).collect()
}

fn all_squares() -> Vec<Square> {
    (0..64u8).map(|i| Square::from_repr(i).unwrap()).collect()
}

#[test]
fn test_rank_composite_bitboard_conversion() {
    for rank in all_ranks() {
        let rank_bb = BitBoard::from_rank(rank);
        for square in all_squares() {
            let square_bb = BitBoard::from_square(square);
            let is_passed;
            let phrasing;
            if square.rank() == rank {
                is_passed = rank_bb.has_square(square);
                phrasing = "does not contain a square on this rank";
            } else {
                is_passed = !rank_bb.has_square(square);
                phrasing = "contains a square not on this rank";
            }
            assert!(
                is_passed,
                "Bitboard generated from rank {}!\nrank ({:?}):\n{:?}\nsquare ({:?}):\n{:?}\n",
                phrasing, rank, rank_bb, square, square_bb
            )
        }
    }
}

#[test]
fn test_file_composite_bitboard_conversion() {
    for file in all_files() {
        let file_bb = BitBoard::from_file(file);
        for square in all_squares() {
            let square_bb = BitBoard::from_square(square);
            let is_passed;
            let phrasing;
            if square.file() == file {
                is_passed = file_bb.has_square(square);
                phrasing = "does not contain a square on this file";
            } else {
                is_passed = !file_bb.has_square(square);
                phrasing = "contains a square not on this file";
            }
            assert!(
                is_passed,
                "Bitboard generated from file {}!\nfile ({:?}):\n{:?}\nsquare ({:?}):\n{:?}\n",
                phrasing, file, file_bb, square, square_bb
            )
        }
    }
}

#[test]
fn test_pos_diag_composite_bitboard_conversion() {
    for i in -7..=7i8 {
        let diagonal = PosDiag::from_repr(i).unwrap();
        let diagonal_bb = BitBoard::from_pos_diag(diagonal);
        for square in all_squares() {
            let square_bb = BitBoard::from_square(square);
            let is_passed;
            let phrasing;
            if square.pos_diag() == diagonal {
                is_passed = diagonal_bb.has_square(square);
                phrasing = "does not contain a square on this diagonal";
            } else {
                is_passed = !diagonal_bb.has_square(square);
                phrasing = "contains a square not on this diagonal";
            }
            assert!(
                is_passed,
                "Bitboard generated from positive diagonal {}!\ndiagonal ({:?}):\n{:?}\nsquare ({:?}):\n{:?}\n",
                phrasing, diagonal, diagonal_bb, square, square_bb
            )
        }
    }
}

#[test]
fn test_neg_diag_composite_bitboard_conversion() {
    for i in -7..=7i8 {
        let diagonal = NegDiag::from_repr(i).unwrap();
        let diagonal_bb = BitBoard::from_neg_diag(diagonal);
        for square in all_squares() {
            let square_bb = BitBoard::from_square(square);
            let is_passed;
            let phrasing;
            if square.neg_diag() == diagonal {
                is_passed = diagonal_bb.has_square(square);
                phrasing = "does not contain a square on this diagonal";
            } else {
                is_passed = !diagonal_bb.has_square(square);
                phrasing = "contains a square not on this diagonal";
            }
            assert!(
                is_passed,
                "Bitboard generated from negative diagonal {}!\ndiagonal ({:?}):\n{:?}\nsquare ({:?}):\n{:?}\n",
                phrasing, diagonal, diagonal_bb, square, square_bb
            )
        }
    }
}

#[test]
fn test_bitscan() {
    assert_eq!(BitBoard(0).bit_scan_forward(), None);
    assert_eq!(BitBoard(u64::MAX).bit_scan_forward(), Some(Square::from_repr(0).unwrap()));
}

#[test]
fn square_test_rank_file_conversion() {
    for square in all_squares() {
        assert_eq!(Some(square.rank()), Rank::from_repr(square.repr() / 8));
        assert_eq!(Some(square.file()), File::from_repr(square.repr() % 8));
    }
}

#[test]
fn square_test_pos_neg_diagonals() {
    for square in all_squares() {
        let rank = square.rank();
        let file = square.file();
        assert_eq!(
            Some(square.pos_diag()),
            PosDiag::from_repr(rank.repr() as i8 - file.repr() as i8)
        );
        assert_eq!(
            Some(square.neg_diag()),
            NegDiag::from_repr(rank.repr() as i8 + file.repr() as i8 - 7)
        );
    }
}

#[test]
fn square_test_square_constructor() {
    for rank in all_ranks() {
        for file in all_files() {
            let square = Square::new(rank, file);
            assert_eq!(square.rank(), rank);
            assert_eq!(square.file(), file);
        }
    }
}

#[test]
fn test_rank_file_conversion() {
    for square in all_squares() {
        assert_eq!(Some(square.rank()), Rank::from_repr(square.repr() / 8));
        assert_eq!(Some(square.file()), File::from_repr(square.repr() % 8));
    }
}

#[test]
fn test_pos_neg_diagonals() {
    for square in all_squares() {
        let rank = square.rank();
        let file = square.file();
        assert_eq!(
            Some(square.pos_diag()),
            PosDiag::from_repr(rank.repr() as i8 - file.repr() as i8)
        );
        assert_eq!(
            Some(square.neg_diag()),
            NegDiag::from_repr(rank.repr() as i8 + file.repr() as i8 - 7)
        );
    }
}

#[test]
fn test_square_constructor() {
    for rank in all_ranks() {
        for file in all_files() {
            let square = Square::new(rank, file);
            assert_eq!(square.rank(), rank);
            assert_eq!(square.file(), file);
        }
    }
}

#[test]
fn bitboard_count_and_scan() {
    let bb = BitBoard(0b1011_0000);
    assert_eq!(bb.count(), 3);
    assert_eq!(bb.bit_scan_forward(), Some(Square::from_repr(4).unwrap()));
    assert_eq!(BitBoard::from_rank(Rank::from_repr(0).unwrap()), BitBoard(0xff));
    assert_eq!(BitBoard::from_file(File::from_repr(0).unwrap()), BitBoard(0x0101_0101_0101_0101));
}

#[test]
fn square_names_and_shifts() {
    let e4 = Square::parse_name("e4").unwrap();
    assert_eq!(e4.repr(), 28);
    assert_eq!(e4.shifted(8).repr(), 36);
    assert_eq!(e4.mirrored().repr(), 36);
    assert_eq!(Square::parse_name("i9"), None);
}

#[test]
fn bitboard_image() {
    let image = BitBoard(0x8000_0000_0000_0001).image_string();
    let mut expected = String::from("Bitboard (white side view) {\n");
    expected += "  _ _ _ _ _ _ _ 1 \n";
    for _ in 0..6 {
        expected += "  _ _ _ _ _ _ _ _ \n";
    }
    expected += "  1 _ _ _ _ _ _ _ \n";
    expected += "}";
    assert_eq!(image, expected);
}

#[test]
fn serialized_squares() {
    let mut squares = BitBoard(0b1010_0000_0001).serialize();
    assert_eq!(squares.next(), Some(Square::from_repr(0).unwrap()));
    assert_eq!(squares.next(), Some(Square::from_repr(9).unwrap()));
    assert_eq!(squares.next(), Some(Square::from_repr(11).unwrap()));
    assert_eq!(squares.next(), None);
}

#[test]
fn board_image() {
    let image = grob::Board::initial().ascii_image();
    let expected = [
        " r n b q k b n r \n",
        " p p p p p p p p \n",
        " _ _ _ _ _ _ _ _ \n",
        " _ _ _ _ _ _ _ _ \n",
        " _ _ _ _ _ _ _ _ \n",
        " _ _ _ _ _ _ _ _ \n",
        " P P P P P P P P \n",
        " R N B Q K B N R \n",
    ]
    .concat();
    assert_eq!(image, expected);
}
