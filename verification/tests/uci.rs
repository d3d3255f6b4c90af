use grob::game::Game;
use grob::lan::LanMove;
use grob::uci::{parse_u64, same_text, Command, Cursor, Go};

fn lan(s: &str) -> LanMove {
    s.parse().unwrap()
}

#[test]
fn cursor_reads_tokens() {
    let mut cursor = Cursor::new("  go  depth 5 ");
    assert!(!cursor.is_empty());
    assert_eq!(cursor.next_token(), Some("go"));
    assert_eq!(cursor.next_token(), Some("depth"));
    assert_eq!(cursor.next_token(), Some("5"));
    assert_eq!(cursor.next_token(), None);
    assert!(cursor.is_empty());
}

#[test]
fn cursor_until_token() {
    let mut cursor = Cursor::new("a b moves c");
    assert_eq!(cursor.until_token("moves"), "a b ");
    assert_eq!(cursor.next_token(), Some("c"));
    let mut cursor = Cursor::new("a b c ");
    assert_eq!(cursor.until_token("moves"), "a b c ");
    assert!(cursor.is_empty());
    // Without the stop word, the whole rest of the line is read.
    let mut cursor = Cursor::new("a b c");
    assert_eq!(cursor.until_token("moves"), "a b c");
    assert!(cursor.is_empty());
}

#[test]
fn numbers_and_text() {
    assert_eq!(parse_u64("18446744073709551615"), Some(u64::MAX));
    assert_eq!(parse_u64("18446744073709551616"), None);
    assert_eq!(parse_u64("+12"), Some(12));
    assert_eq!(parse_u64("-1"), None);
    assert_eq!(parse_u64(""), None);
    assert_eq!(parse_u64("1a"), None);
    assert!(same_text("abc", "abc"));
    assert!(!same_text("abc", "abd"));
    assert!(!same_text("ab", "abc"));
}

#[test]
fn simple_commands() {
    assert!(matches!("uci".parse::<Command>(), Ok(Command::Uci)));
    assert!(matches!(" isready".parse::<Command>(), Ok(Command::IsReady)));
    assert!(matches!("ucinewgame x".parse::<Command>(), Ok(Command::UciNewGame)));
    assert!(matches!("stop".parse::<Command>(), Ok(Command::Stop)));
    assert!(matches!("ponderhit".parse::<Command>(), Ok(Command::PonderHit)));
    assert!(matches!("quit".parse::<Command>(), Ok(Command::Quit)));
    assert!("".parse::<Command>().is_err());
    assert!("   ".parse::<Command>().is_err());
    assert!("hello".parse::<Command>().is_err());
}

#[test]
fn go_parameters() {
    let go = match "go wtime 1000 btime 2000 winc 10 binc 20 movestogo 5 depth 7 nodes 100 mate 3 movetime 50 ponder infinite"
        .parse::<Command>()
    {
        Ok(Command::Go(go)) => go,
        _ => panic!("expected go"),
    };
    let expected = Go {
        searchmoves: None,
        ponder: true,
        wtime: Some(1000),
        btime: Some(2000),
        winc: Some(10),
        binc: Some(20),
        movestogo: Some(5),
        depth: Some(7),
        nodes: Some(100),
        mate: Some(3),
        movetime: Some(50),
        infinite: true,
    };
    assert_eq!(go, expected);
}

#[test]
fn go_first_value_wins_and_bad_values_are_skipped() {
    let go = match "go depth 3 depth 9 nodes x searchmoves e2e4 d2d4 depth 4".parse::<Command>() {
        Ok(Command::Go(go)) => go,
        _ => panic!("expected go"),
    };
    assert_eq!(go.depth, Some(3));
    assert_eq!(go.nodes, None);
    assert_eq!(go.searchmoves, Some(vec![lan("e2e4"), lan("d2d4")]));
    let go = match "go".parse::<Command>() {
        Ok(Command::Go(go)) => go,
        _ => panic!("expected go"),
    };
    assert_eq!(go, Go::default());
}

#[test]
fn position_startpos_with_moves() {
    let game = match "position startpos moves e2e4 e7e5 g1f3".parse::<Command>() {
        Ok(Command::Position(game)) => game,
        _ => panic!("expected position"),
    };
    let mut expected = Game::initial_position();
    for name in ["e2e4", "e7e5", "g1f3"] {
        let m = expected.lan_move(lan(name)).unwrap();
        assert!(expected.try_make_move(m));
    }
    assert!(game.is_same_position(&expected));
}

#[test]
fn position_stops_at_an_illegal_move() {
    let game = match "position startpos moves e2e4 e2e4 d7d5".parse::<Command>() {
        Ok(Command::Position(game)) => game,
        _ => panic!("expected position"),
    };
    let mut expected = Game::initial_position();
    let m = expected.lan_move(lan("e2e4")).unwrap();
    assert!(expected.try_make_move(m));
    assert!(game.is_same_position(&expected));
}

#[test]
fn position_fen() {
    let kiwipete = "r3k2r/p1ppqpb1/bn2pnp1/3PN3/1p2P3/2N2Q1p/PPPBBPPP/R3K2R w KQkq - 0 1";
    let game = match format!("position fen {} moves e1g1", kiwipete).parse::<Command>() {
        Ok(Command::Position(game)) => game,
        _ => panic!("expected position"),
    };
    let mut expected = Game::try_from_fen(kiwipete).ok().unwrap();
    let m = expected.lan_move(lan("e1g1")).unwrap();
    assert!(expected.try_make_move(m));
    assert!(game.is_same_position(&expected));
    // A FEN text that does not parse gives the starting position.
    let game = match "position fen 8/8/8 w - - 0 1 moves e2e4".parse::<Command>() {
        Ok(Command::Position(game)) => game,
        _ => panic!("expected position"),
    };
    assert!(game.is_same_position(&Game::initial_position()));
    // Without "moves", the whole FEN text sets up the position.
    let game = match format!("position fen {}", kiwipete).parse::<Command>() {
        Ok(Command::Position(game)) => game,
        _ => panic!("expected position"),
    };
    assert!(game.is_same_position(&Game::try_from_fen(kiwipete).ok().unwrap()));
    let game = match "position fen 4k3/8/8/8/8/8/8/4K3 w - - 0 1".parse::<Command>() {
        Ok(Command::Position(game)) => game,
        _ => panic!("expected position"),
    };
    assert!(game.is_same_position(&Game::try_from_fen("4k3/8/8/8/8/8/8/4K3 w - - 0 1").ok().unwrap()));
}
