use csaparser::TryFromCsa;
use csaparser::error::{CsaParserError, CsaStateError, CsaStreamReadError};
use csaparser::moves::{CsaMove, CsaMoves, CsaMovesParser, EndState};
use csaparser::parser::{parse_statements, CsaData, CsaParser};
use csaparser::position::CsaPositionParser;
use csaparser::reader::{read_real_line, normalize_line, CsaLinesStream, CsaStream, CsaStringReader};
use csaparser::shogi::{
    Banmen, KomaDstPutPosition, KomaDstToPosition, KomaKind, KomaSrcPosition, Mochigoma,
    MochigomaCollections, MochigomaKind, Move, Teban,
};
use csaparser::strings::CsaChars;

fn strings(v: &[&str]) -> Vec<String> {
    v.iter().map(|s| s.to_string()).collect()
}

fn parse_text(text: &str) -> Result<Vec<CsaData>, CsaParserError> {
    let stream = CsaLinesStream::new(text.lines().map(|s| s.to_string()).collect());
    CsaParser::new(stream).parse()
}

fn is_format(r: &Result<Vec<CsaData>, CsaParserError>) -> bool {
    matches!(r, Err(CsaParserError::FormatError(_)))
}

#[test]
fn resignation_from_standard_start() {
    let r = parse_text("V2.2\nN+sente\nN-gote\nPI\n+\n%TORYO\n").unwrap();
    assert_eq!(r.len(), 1);
    let d = &r[0];
    assert_eq!(d.version, Some("2.2".to_string()));
    assert_eq!(d.initial_position, Banmen::start_pos());
    assert_eq!(d.initial_mochigoma, MochigomaCollections::Empty);
    assert_eq!(d.moves.len(), 0);
    assert_eq!(d.end_state, Some(EndState::Toryo));
    assert_eq!(d.teban_at_start, Teban::Sente);
    let info = d.kifu_info.as_ref().unwrap();
    assert_eq!(info.sente_name, Some("sente".to_string()));
    assert_eq!(info.gote_name, Some("gote".to_string()));
}

fn full_board(rows: &[&str]) -> String {
    let mut s = String::from("V2.2\n");
    for r in rows {
        s.push_str(r);
        s.push('\n');
    }
    s.push_str("+\n");
    s
}

const START_ROWS: [&str; 9] = [
    "P1-KY-KE-GI-KI-OU-KI-GI-KE-KY",
    "P2 * -HI *  *  *  *  * -KA * ",
    "P3-FU-FU-FU-FU-FU-FU-FU-FU-FU",
    "P4 *  *  *  *  *  *  *  *  * ",
    "P5 *  *  *  *  *  *  *  *  * ",
    "P6 *  *  *  *  *  *  *  *  * ",
    "P7+FU+FU+FU+FU+FU+FU+FU+FU+FU",
    "P8 * +KA *  *  *  *  * +HI * ",
    "P9+KY+KE+GI+KI+OU+KI+GI+KE+KY",
];

#[test]
fn full_board_reproduces_start() {
    let r = parse_text(&full_board(&START_ROWS)).unwrap();
    let d = &r[0];
    assert_eq!(d.initial_position, Banmen::start_pos());
    match &d.initial_mochigoma {
        MochigomaCollections::Pair(ms, mg) => {
            for k in [
                MochigomaKind::Fu,
                MochigomaKind::Kyou,
                MochigomaKind::Kei,
                MochigomaKind::Gin,
                MochigomaKind::Kin,
                MochigomaKind::Kaku,
                MochigomaKind::Hisha,
            ] {
                assert_eq!(ms.get(k), 0);
                assert_eq!(mg.get(k), 0);
            }
        }
        MochigomaCollections::Empty => panic!("stock expected"),
    }
}

#[test]
fn full_board_second_sente_king_fails() {
    let mut rows = START_ROWS;
    rows[5] = "P6 *  *  *  * +OU *  *  *  * ";
    let r = parse_text(&format!("{}+7776FU\n%TORYO\n", full_board(&rows)));
    assert!(is_format(&r));
}

#[test]
fn full_board_too_many_pawns_fails() {
    let mut rows = START_ROWS;
    rows[5] = "P6 *  *  *  * +FU *  *  *  * ";
    assert!(is_format(&parse_text(&full_board(&rows))));
}

#[test]
fn full_board_wrong_rank_digit_fails() {
    let mut rows = START_ROWS;
    rows[3] = "P5 *  *  *  *  *  *  *  *  * ";
    assert!(is_format(&parse_text(&full_board(&rows))));
}

#[test]
fn full_board_missing_rows_fails() {
    assert!(is_format(&parse_text("V2.2\nP1-KY-KE-GI-KI-OU-KI-GI-KE-KY\n+\n")));
}

#[test]
fn moves_with_elapsed_and_declared_win() {
    let r = parse_text("V2.2\nPI\n+\n+7776FU\nT12\n-3334FU\n%KACHI\n").unwrap();
    let mv = &r[0].moves;
    assert_eq!(mv.len(), 3);
    assert_eq!(
        mv.get(0),
        CsaMove::Move(Move::To(KomaSrcPosition(7, 7), KomaDstToPosition(7, 6, false)), Some(12))
    );
    assert_eq!(
        mv.get(1),
        CsaMove::Move(Move::To(KomaSrcPosition(3, 3), KomaDstToPosition(3, 4, false)), None)
    );
    assert_eq!(mv.get(2), CsaMove::Kachi(None));
    assert_eq!(r[0].end_state, None);
}

#[test]
fn line_after_declared_win_fails() {
    assert!(is_format(&parse_text("V2.2\nPI\n+\n+7776FU\nT12\n-3334FU\n%KACHI\n+2726FU\n")));
    assert!(is_format(&parse_text("V2.2\nPI\n+\n+7776FU\n%KACHI\n%HIKIWAKE\n")));
    assert!(is_format(&parse_text("V2.2\nPI\n+\n+7776FU\n%KACHI\n%TORYO\n")));
}

#[test]
fn placement_list_malformed_all_fails() {
    assert!(is_format(&parse_text("V2.2\nP+00AL\nP-51OU\n+\n")));
    assert!(is_format(&parse_text("V2.2\nP-51OU\nP+00AL\n+\n")));
}

#[test]
fn placement_list_all_sweeps_stock() {
    let r = parse_text("V2.2\nP-51OU\nP+59OU11KY\nP+00ALL\n+\n").unwrap();
    let d = &r[0];
    assert_eq!(d.initial_position.get(5, 1), KomaKind::GOu);
    assert_eq!(d.initial_position.get(5, 9), KomaKind::SOu);
    assert_eq!(d.initial_position.get(1, 1), KomaKind::SKyou);
    match &d.initial_mochigoma {
        MochigomaCollections::Pair(ms, mg) => {
            assert_eq!(ms.get(MochigomaKind::Fu), 18);
            assert_eq!(ms.get(MochigomaKind::Kyou), 3);
            assert_eq!(ms.get(MochigomaKind::Hisha), 2);
            assert_eq!(mg.get(MochigomaKind::Fu), 0);
            assert_eq!(mg.get(MochigomaKind::Kyou), 0);
        }
        MochigomaCollections::Empty => panic!("stock expected"),
    }
}

#[test]
fn placement_list_all_not_last_fails() {
    assert!(is_format(&parse_text("V2.2\nP+00ALL\nP-51OU\n+\n")));
}

#[test]
fn placement_list_occupied_square_fails() {
    assert!(is_format(&parse_text("V2.2\nP+59OU\nP-59OU\n+\n")));
}

#[test]
fn shorthand_removes_pieces() {
    let r = parse_text("V2.2\nPI82HI22KA\n+\n").unwrap();
    let b = &r[0].initial_position;
    assert_eq!(b.get(8, 2), KomaKind::Blank);
    assert_eq!(b.get(2, 2), KomaKind::Blank);
    assert_eq!(b.get(2, 8), KomaKind::SHisha);
}

#[test]
fn shorthand_wrong_piece_fails() {
    assert!(is_format(&parse_text("V2.2\nPI82KA\n+\n")));
    assert!(is_format(&parse_text("V2.2\nPI51OU\n+\n")));
}

#[test]
fn shorthand_without_removal_is_standard_start() {
    let mut p = CsaPositionParser::new();
    let (b, m) = p.parse(strings(&["PI"])).unwrap();
    assert_eq!(b, Banmen::start_pos());
    assert_eq!(m, MochigomaCollections::Empty);
}

#[test]
fn promotion_is_inferred_from_board() {
    let r = parse_text("V2.2\nPI\n+\n+7776FU\n-3334FU\n+8822UM\n-3122GI\n+0045KA\n").unwrap();
    let mv = &r[0].moves;
    assert_eq!(
        mv.get(2),
        CsaMove::Move(Move::To(KomaSrcPosition(8, 8), KomaDstToPosition(2, 2, true)), None)
    );
    assert_eq!(
        mv.get(3),
        CsaMove::Move(Move::To(KomaSrcPosition(3, 1), KomaDstToPosition(2, 2, false)), None)
    );
    assert_eq!(
        mv.get(4),
        CsaMove::Move(Move::Put(MochigomaKind::Kaku, KomaDstPutPosition(4, 5)), None)
    );
}

#[test]
fn promoted_piece_moving_again_is_not_flagged() {
    let r = parse_text("V2.2\nPI\n+\n+7776FU\n-3334FU\n+8822UM\n-4132KI\n+2211UM\n").unwrap();
    assert_eq!(
        r[0].moves.get(4),
        CsaMove::Move(Move::To(KomaSrcPosition(2, 2), KomaDstToPosition(1, 1, false)), None)
    );
}

#[test]
fn wrong_side_to_move_fails() {
    assert!(is_format(&parse_text("V2.2\nPI\n+\n+7776FU\n+2726FU\n")));
    assert!(is_format(&parse_text("V2.2\nPI\n-\n+7776FU\n")));
}

#[test]
fn out_of_range_square_fails() {
    assert!(is_format(&parse_text("V2.2\nPI\n+\n+7770FU\n")));
    assert!(is_format(&parse_text("V2.2\nPI\n+\n+0010FU\n")));
    assert!(is_format(&parse_text("V2.2\nPI\n+\n+77\n")));
}

#[test]
fn malformed_elapsed_is_number_error() {
    let r = parse_text("V2.2\nPI\n+\n+7776FU\nTabc\n");
    assert!(matches!(r, Err(CsaParserError::ParseIntError(_))));
}

#[test]
fn elapsed_accepts_sign() {
    let r = parse_text("V2.2\nPI\n+\n+7776FU\nT-5\n").unwrap();
    assert_eq!(
        r[0].moves.get(0),
        CsaMove::Move(Move::To(KomaSrcPosition(7, 7), KomaDstToPosition(7, 6, false)), Some(-5))
    );
}

#[test]
fn two_records_and_comments() {
    let r = parse_text("'first\nV2.2\nPI\n+\n%CHUDAN\n/\nV2.2\n'second\nPI\n-\n-3334FU\n%TORYO\n").unwrap();
    assert_eq!(r.len(), 2);
    assert_eq!(r[0].comments, strings(&["first"]));
    assert_eq!(r[0].end_state, Some(EndState::Chudan));
    assert_eq!(r[1].comments, strings(&["second"]));
    assert_eq!(r[1].teban_at_start, Teban::Gote);
    assert_eq!(r[1].moves.len(), 1);
}

#[test]
fn comma_separated_statements() {
    let r = parse_text("V2.2\nPI\n+\n+7776FU,T3,-3334FU,T4\n").unwrap();
    assert_eq!(r[0].moves.len(), 2);
    assert_eq!(
        r[0].moves.get(1),
        CsaMove::Move(Move::To(KomaSrcPosition(3, 3), KomaDstToPosition(3, 4, false)), Some(4))
    );
}

#[test]
fn input_without_position_fails() {
    assert!(is_format(&parse_text("V2.2\nN+a\n")));
    assert!(is_format(&parse_text("")));
    assert!(is_format(&parse_text("V2.2\nPI\n/\n")));
}

#[test]
fn unknown_statement_fails() {
    assert!(is_format(&parse_text("V2.2\nPI\nX\n")));
    assert!(is_format(&parse_text("PI\n+\n")));
}

#[test]
fn info_fields() {
    let r = parse_text(
        "V2.2\n$EVENT:cup\n$SITE:hall\n$START_TIME:2020/01/01\n$END_TIME:2020/01/02\n$TIME_LIMIT:01:30+10\n$OPENING:yagura\nPI\n+\n",
    )
    .unwrap();
    let info = r[0].kifu_info.as_ref().unwrap();
    assert_eq!(info.event, Some("cup".to_string()));
    assert_eq!(info.site, Some("hall".to_string()));
    assert_eq!(info.start_time, Some("2020/01/01".to_string()));
    assert_eq!(info.end_time, Some("2020/01/02".to_string()));
    assert_eq!(info.time_limit, Some((90, Some(10))));
    assert_eq!(info.opening, Some("yagura".to_string()));
}

#[test]
fn time_limit_forms() {
    let r = parse_text("V2.2\n$TIME_LIMIT:00:10\nPI\n+\n").unwrap();
    assert_eq!(r[0].kifu_info.as_ref().unwrap().time_limit, Some((10, None)));
    assert!(is_format(&parse_text("V2.2\n$TIME_LIMIT:0010\nPI\n+\n")));
    assert!(is_format(&parse_text("V2.2\n$TIME_LIMIT:00:10+1\nPI\n+\n")));
    assert!(is_format(&parse_text("V2.2\n$TIME_LIMIT:00:10+100\nPI\n+\n")));
    assert!(matches!(
        parse_text("V2.2\n$TIME_LIMIT:0a:10\nPI\n+\n"),
        Err(CsaParserError::ParseIntError(_))
    ));
    assert!(is_format(&parse_text("V2.2\n$UNKNOWN:x\nPI\n+\n")));
}

#[test]
fn end_states_by_name() {
    for (name, st) in [
        ("%TORYO", EndState::Toryo),
        ("%CHUDAN", EndState::Chudan),
        ("%SENNICHITE", EndState::Sennichite),
        ("%TIME_UP", EndState::TimeUp),
        ("%ILLEGAL_MOVE", EndState::IllegalMove),
        ("%+ILLEGAL_ACTION", EndState::SIllegalAction),
        ("%-ILLEGAL_ACTION", EndState::GIllegalAction),
        ("%JISHOGI", EndState::Jishogi),
        ("%MATTA", EndState::Matta),
        ("%TSUMI", EndState::Tsumi),
        ("%FUZUMI", EndState::Fuzumi),
        ("%ERROR", EndState::Error),
    ] {
        let r = parse_text(&format!("V2.2\nPI\n+\n{}\n", name)).unwrap();
        assert_eq!(r[0].end_state, Some(st));
    }
    assert!(is_format(&parse_text("V2.2\nPI\n+\n%RESIGN\n")));
}

#[test]
fn empty_blocks_are_invalid_state() {
    let mut p = CsaPositionParser::new();
    assert!(matches!(p.parse(Vec::new()), Err(CsaParserError::InvalidStateError(_))));
    let mut m = CsaMovesParser::new();
    assert!(matches!(m.parse(Vec::new(), &Banmen::start_pos()), Err(CsaParserError::InvalidStateError(_))));
}

#[test]
fn moves_parser_directly() {
    let mut m = CsaMovesParser::new();
    let (t, mv, es) = m.parse(strings(&["-", "-3334FU", "T7", "%HIKIWAKE"]), &Banmen::start_pos()).unwrap();
    assert_eq!(t, Teban::Gote);
    assert_eq!(mv.len(), 2);
    assert_eq!(mv.get(1), CsaMove::Hikiwake(None));
    assert_eq!(es, None);
}

#[test]
fn move_list_rejects_entry_after_terminal() {
    let mut m = CsaMoves::new();
    assert_eq!(m.push(CsaMove::Kachi(None)).ok(), Some(0));
    assert!(m.push(CsaMove::Hikiwake(None)).is_err());
    assert!(m.push(CsaMove::Move(Move::Put(MochigomaKind::Fu, KomaDstPutPosition(5, 5)), None)).is_err());
    assert_eq!(m.len(), 1);
    let mut n = CsaMoves::new();
    assert_eq!(n.push(CsaMove::Move(Move::Put(MochigomaKind::Fu, KomaDstPutPosition(5, 5)), None)).ok(), Some(0));
    assert_eq!(n.push(CsaMove::Kachi(Some(3))).ok(), Some(1));
    assert_eq!(n.iter().count(), 2);
}

#[test]
fn statements_of_a_physical_line() {
    assert_eq!(read_real_line("+7776FU,T12,-3334FU".to_string()), strings(&["+7776FU", "T12", "-3334FU"]));
    assert_eq!(read_real_line("'a,b".to_string()), strings(&["'a,b"]));
    assert_eq!(read_real_line("a,,b,".to_string()), strings(&["a", "", "b", ""]));
}

#[test]
fn physical_line_trimming() {
    assert_eq!(normalize_line("PI \r\n"), "PI");
    assert_eq!(normalize_line("PI\0\0"), "PI");
    assert_eq!(normalize_line("  "), "");
}

#[test]
fn stream_skips_blank_lines() {
    let mut s = CsaLinesStream::new(strings(&["", "a,b", "   ", "c\0"]));
    assert_eq!(s.next().unwrap(), Some("a".to_string()));
    assert_eq!(s.next().unwrap(), Some("b".to_string()));
    assert_eq!(s.next().unwrap(), Some("c".to_string()));
    assert_eq!(s.next().unwrap(), None);
    assert_eq!(s.next().unwrap(), None);
}

#[test]
fn string_reader_reads_fixed_width() {
    let mut r = CsaStringReader::new();
    let mut c = CsaChars::new("FUX");
    assert_eq!(r.read(&mut c, 2).unwrap(), "FU");
    assert!(matches!(r.read(&mut c, 2), Err(CsaParserError::FormatError(_))));
}

#[test]
fn statements_decode_without_stream() {
    let r = parse_statements(strings(&["V2.2", "PI", "+", "+7776FU", "%TORYO"])).unwrap();
    assert_eq!(r.len(), 1);
    assert_eq!(r[0].moves.len(), 1);
    assert_eq!(r[0].end_state, Some(EndState::Toryo));
}

#[test]
fn standard_stock_and_board() {
    let m = Mochigoma::filled();
    assert_eq!(m.get(MochigomaKind::Fu), 9);
    assert_eq!(m.get(MochigomaKind::Kyou), 2);
    assert_eq!(m.get(MochigomaKind::Kaku), 1);
    assert_eq!(m.get(MochigomaKind::Hisha), 1);
    let b = Banmen::start_pos();
    assert_eq!(b.get(5, 9), KomaKind::SOu);
    assert_eq!(b.get(5, 1), KomaKind::GOu);
    assert_eq!(b.get(2, 8), KomaKind::SHisha);
    assert_eq!(b.get(8, 8), KomaKind::SKaku);
    assert_eq!(b.get(8, 2), KomaKind::GHisha);
    assert_eq!(b.get(1, 7), KomaKind::SFu);
    assert_eq!(b.get(5, 5), KomaKind::Blank);
}

struct FailingStream;

impl CsaStream for FailingStream {
    fn next(&mut self) -> Result<Option<String>, CsaStreamReadError> {
        Err(CsaStreamReadError::IOError(std::io::Error::new(std::io::ErrorKind::Other, "gone")))
    }
}

#[test]
fn stream_failure_is_reported() {
    let r = CsaParser::new(FailingStream).parse();
    assert!(matches!(r, Err(CsaParserError::StreamReadError(_))));
}

#[test]
fn error_texts_and_conversions() {
    let e = CsaParserError::FormatError("bad".to_string());
    assert_eq!(e.message(), "bad");
    assert_eq!(e.description(), "Invalid format.");
    let s = CsaStateError::InvalidStateError("twice".to_string());
    assert_eq!(s.message(), "twice");
    assert_eq!(s.description(), "Invalid read state.");
    let p: CsaParserError = s.into();
    assert!(matches!(p, CsaParserError::InvalidStateError(ref m) if m == "twice"));
    let io = CsaStreamReadError::from(std::io::Error::new(std::io::ErrorKind::Other, "x"));
    assert_eq!(io.message(), "Error occurred in file I/O.");
    let q: CsaParserError = io.into();
    assert_eq!(q.message(), "There was an error loading the stream.");
    let n: CsaParserError = "z".parse::<u32>().unwrap_err().into();
    assert!(matches!(n, CsaParserError::ParseIntError(_)));
    assert!(!n.message().is_empty());
}

#[test]
fn reparsing_gives_equal_records() {
    let text = "V2.2\nN+a\n$TIME_LIMIT:00:30\nP-51OU\nP+59OU\nP+00ALL\n+\n+0055FU\nT3\n-5152OU\n%TORYO\n";
    let a = parse_text(text).unwrap();
    let b = parse_text(text).unwrap();
    assert_eq!(format!("{:?}", a), format!("{:?}", b));
    assert_eq!(a[0].initial_position, b[0].initial_position);
    assert_eq!(a[0].initial_mochigoma, b[0].initial_mochigoma);
}

#[test]
fn termination_line_keeps_the_turn() {
    assert!(is_format(&parse_text("V2.2\nPI\n+\n+7776FU\n%CHUDAN\n+2726FU\n")));
    assert!(is_format(&parse_text("V2.2\nPI\n+\n%TORYO\n-3334FU\n")));
    let r = parse_text("V2.2\nPI\n+\n+7776FU\n%CHUDAN\n-3334FU\n").unwrap();
    assert_eq!(r[0].moves.len(), 2);
    assert_eq!(r[0].end_state, Some(EndState::Chudan));
}

#[test]
fn piece_codes_by_side() {
    let k = |t: Teban, c: &str| KomaKind::try_from_csa((t, &c.to_string())).ok();
    assert_eq!(k(Teban::Sente, "TO"), Some(KomaKind::SFuN));
    assert_eq!(k(Teban::Gote, "RY"), Some(KomaKind::GHishaN));
    assert_eq!(k(Teban::Gote, "OU"), Some(KomaKind::GOu));
    assert_eq!(k(Teban::Sente, "KI"), Some(KomaKind::SKin));
    assert!(matches!(
        KomaKind::try_from_csa((Teban::Sente, &"XX".to_string())),
        Err(CsaParserError::FormatError(_))
    ));
    let h = |c: &str| MochigomaKind::try_from_csa(&c.to_string()).ok();
    assert_eq!(h("FU"), Some(MochigomaKind::Fu));
    assert_eq!(h("TO"), Some(MochigomaKind::Fu));
    assert_eq!(h("UM"), Some(MochigomaKind::Kaku));
    assert_eq!(h("KI"), Some(MochigomaKind::Kin));
    assert_eq!(h("OU"), None);
    assert_eq!(h("XX"), None);
    assert_eq!(EndState::try_from_csa(&"%TORYO".to_string()).ok(), Some(EndState::Toryo));
    assert_eq!(EndState::try_from_csa(&"%KACHI".to_string()).ok(), Some(EndState::Kachi));
    assert!(matches!(
        EndState::try_from_csa(&"TORYO".to_string()),
        Err(CsaParserError::FormatError(_))
    ));
}

#[test]
fn physical_lines_decode_the_same_twice() {
    let raw = strings(&["V2.2", "", "PI82HI", "+,+7776FU,T1", "-3334FU", "%TORYO"]);
    let a = csaparser::parser::parse_lines(raw.clone()).unwrap();
    let b = csaparser::parser::parse_lines(raw).unwrap();
    assert_eq!(format!("{:?}", a), format!("{:?}", b));
    assert_eq!(a.len(), 1);
    assert_eq!(a[0].moves.len(), 2);
    assert_eq!(a[0].initial_position.get(8, 2), KomaKind::Blank);
}
