use vstd::prelude::*;
use crate::codes::{hand_kind_from_code, hand_kind_of_code, koma_from_code, koma_of_code, TryFromCsa};
use crate::error::{kind_of, CsaParserError, CsaStateError, ErrorKind};
use crate::reader::CsaStringReader;
use crate::shogi::{
    is_promoted, koma_of, square_index, Banmen, KomaDstPutPosition, KomaDstToPosition, KomaKind,
    KomaSrcPosition, Move, Teban,
};
use crate::strings::{
    has_prefix, i32_text, lines_view, parse_i32, same_text, starts_with, text_after, CsaChars,
};

verus! {

/// Why a game ended.
#[derive(Clone, Copy, PartialEq, Eq, Structural, Debug)]
pub enum EndState {
    Toryo,
    Chudan,
    Sennichite,
    TimeUp,
    IllegalMove,
    SIllegalAction,
    GIllegalAction,
    Jishogi,
    Kachi,
    Hikiwake,
    Matta,
    Tsumi,
    Fuzumi,
    Error,
}

/// The termination that a `%` line names.
pub open spec fn end_state_of(s: Seq<char>) -> Option<EndState> {
    if s == "%TORYO"@ {
        Some(EndState::Toryo)
    } else if s == "%CHUDAN"@ {
        Some(EndState::Chudan)
    } else if s == "%SENNICHITE"@ {
        Some(EndState::Sennichite)
    } else if s == "%TIME_UP"@ {
        Some(EndState::TimeUp)
    } else if s == "%ILLEGAL_MOVE"@ {
        Some(EndState::IllegalMove)
    } else if s == "%+ILLEGAL_ACTION"@ {
        Some(EndState::SIllegalAction)
    } else if s == "%-ILLEGAL_ACTION"@ {
        Some(EndState::GIllegalAction)
    } else if s == "%JISHOGI"@ {
        Some(EndState::Jishogi)
    } else if s == "%KACHI"@ {
        Some(EndState::Kachi)
    } else if s == "%HIKIWAKE"@ {
        Some(EndState::Hikiwake)
    } else if s == "%MATTA"@ {
        Some(EndState::Matta)
    } else if s == "%TSUMI"@ {
        Some(EndState::Tsumi)
    } else if s == "%FUZUMI"@ {
        Some(EndState::Fuzumi)
    } else if s == "%ERROR"@ {
        Some(EndState::Error)
    } else {
        None
    }
}

impl EndState {
    /// The termination named by a `%` line, if it names one.
    pub fn from_line(s: &String) -> (r: Option<EndState>)
        ensures
            r == end_state_of(s@),
    {
        let t = s.as_str();
        if same_text(t, "%TORYO") {
            Some(EndState::Toryo)
        } else if same_text(t, "%CHUDAN") {
            Some(EndState::Chudan)
        } else if same_text(t, "%SENNICHITE") {
            Some(EndState::Sennichite)
        } else if same_text(t, "%TIME_UP") {
            Some(EndState::TimeUp)
        } else if same_text(t, "%ILLEGAL_MOVE") {
            Some(EndState::IllegalMove)
        } else if same_text(t, "%+ILLEGAL_ACTION") {
            Some(EndState::SIllegalAction)
        } else if same_text(t, "%-ILLEGAL_ACTION") {
            Some(EndState::GIllegalAction)
        } else if same_text(t, "%JISHOGI") {
            Some(EndState::Jishogi)
        } else if same_text(t, "%KACHI") {
            Some(EndState::Kachi)
        } else if same_text(t, "%HIKIWAKE") {
            Some(EndState::Hikiwake)
        } else if same_text(t, "%MATTA") {
            Some(EndState::Matta)
        } else if same_text(t, "%TSUMI") {
            Some(EndState::Tsumi)
        } else if same_text(t, "%FUZUMI") {
            Some(EndState::Fuzumi)
        } else if same_text(t, "%ERROR") {
            Some(EndState::Error)
        } else {
            None
        }
    }
}

impl<'a> TryFromCsa<&'a String> for EndState {
    fn try_from_csa(kind: &'a String) -> (r: Result<EndState, CsaParserError>)
        ensures
            match end_state_of(kind@) {
                Some(e) => r is Ok && r->Ok_0 == e,
                None => r is Err && r->Err_0 is FormatError,
            },
    {
        match EndState::from_line(kind) {
            Some(e) => Ok(e),
            None => Err(CsaParserError::FormatError(String::from_str("Invalid end state."))),
        }
    }
}

/// One entry of the move list, each with its optional elapsed time.
#[derive(Clone, Copy, PartialEq, Eq, Structural, Debug)]
pub enum CsaMove {
    Move(Move, Option<i32>),
    Kachi(Option<i32>),
    Hikiwake(Option<i32>),
}

/// A declared win or a declared draw.
pub open spec fn is_terminal(m: CsaMove) -> bool {
    m is Kachi || m is Hikiwake
}

/// No terminal entry stands anywhere but last.
pub open spec fn terminal_only_last(s: Seq<CsaMove>) -> bool {
    forall|i: int| 0 <= i < s.len() - 1 ==> !is_terminal(#[trigger] s[i])
}

/// The ordered move list of a record.
#[derive(Debug)]
pub struct CsaMoves {
    moves: Vec<CsaMove>,
}

impl View for CsaMoves {
    type V = Seq<CsaMove>;

    closed spec fn view(&self) -> Seq<CsaMove> {
        self.moves@
    }
}

impl CsaMoves {
    pub closed spec fn wf(&self) -> bool {
        terminal_only_last(self.moves@)
    }

    pub fn new() -> (r: CsaMoves)
        ensures
            r.wf(),
            r@ == Seq::<CsaMove>::empty(),
    {
        CsaMoves { moves: Vec::new() }
    }

    /// The entries in order.
    pub fn iter(&self) -> (r: std::slice::Iter<'_, CsaMove>) {
        self.moves.iter()
    }

    pub fn len(&self) -> (r: usize)
        ensures
            r == self@.len(),
    {
        self.moves.len()
    }

    /// The entry at position `i`.
    pub fn get(&self, i: usize) -> (r: CsaMove)
        requires
            i < self@.len(),
        ensures
            r == self@[i as int],
    {
        self.moves[i]
    }

    /// Appends `m`, unless the list already ends with a terminal entry; returns the
    /// position that `m` took.
    pub fn push(&mut self, m: CsaMove) -> (r: Result<usize, CsaStateError>)
        requires
            old(self).wf(),
        ensures
            final(self).wf(),
            old(self)@.len() > 0 && is_terminal(old(self)@.last()) ==> r is Err && final(self)@
                == old(self)@,
            !(old(self)@.len() > 0 && is_terminal(old(self)@.last())) ==> r is Ok && r->Ok_0
                == old(self)@.len() && final(self)@ == old(self)@.push(m),
    {
        let len = self.len();
        if len > 0 {
            match self.moves[len - 1] {
                CsaMove::Kachi(_) | CsaMove::Hikiwake(_) => {
                    return Err(
                        CsaStateError::InvalidStateError(
                            String::from_str("Only one special move can store."),
                        ),
                    );
                },
                _ => {},
            }
        }
        self.moves.push(m);
        Ok(len)
    }

    /// A terminal entry, if the list holds one, is its last entry.
    pub proof fn lemma_terminal_last(&self, i: int)
        requires
            self.wf(),
            0 <= i < self@.len(),
            is_terminal(self@[i]),
        ensures
            i == self@.len() - 1,
    {
    }
}

/// The value of a raw digit character.
pub open spec fn dval(c: char) -> int {
    c as int - '0' as int
}

pub open spec fn in_range(v: int) -> bool {
    1 <= v <= 9
}

/// A move line without its side marker: four digits and a two-letter code, decoded
/// against the running board; gives the move and the board after it.
pub open spec fn move_of_line(t: Teban, board: Seq<KomaKind>, c: Seq<char>) -> Option<(Move, Seq<KomaKind>)> {
    if c.len() < 6 {
        None
    } else {
        let sx = dval(c[0]);
        let sy = dval(c[1]);
        let dx = dval(c[2]);
        let dy = dval(c[3]);
        let code = c.subrange(4, 6);
        if sx == 0 && sy == 0 && in_range(dx) && in_range(dy) {
            match hand_kind_of_code(code) {
                None => None,
                Some(k) => Some(
                    (
                        Move::Put(k, KomaDstPutPosition(dx as u32, dy as u32)),
                        board.update(square_index(dx, dy), koma_of(t, k)),
                    ),
                ),
            }
        } else if !(in_range(sx) && in_range(sy) && in_range(dx) && in_range(dy)) {
            None
        } else {
            match koma_of_code(t, code) {
                None => None,
                Some(k) => {
                    let n = is_promoted(k) && board[square_index(sx, sy)] != k;
                    Some(
                        (
                            Move::To(
                                KomaSrcPosition(sx as u32, sy as u32),
                                KomaDstToPosition(dx as u32, dy as u32, n),
                            ),
                            board.update(square_index(sx, sy), KomaKind::Blank).update(
                                square_index(dx, dy),
                                k,
                            ),
                        ),
                    )
                },
            }
        }
    }
}

/// Grid index of a move's destination.
pub open spec fn move_dest(mv: Move) -> int {
    match mv {
        Move::To(_, d) => square_index(d.0 as int, d.1 as int),
        Move::Put(_, d) => square_index(d.0 as int, d.1 as int),
    }
}

/// What the move decoder has built so far. For each entry of `moves`, `sides` holds the
/// side to move, `boards` the running board before it, and `pieces` the piece it puts on
/// its destination (`Blank` for a declared win or draw).
pub struct MovesState {
    pub teban: Teban,
    pub board: Seq<KomaKind>,
    pub moves: Seq<CsaMove>,
    pub sides: Seq<Teban>,
    pub boards: Seq<Seq<KomaKind>>,
    pub pieces: Seq<KomaKind>,
    pub ended: bool,
    pub end_state: Option<EndState>,
}

/// Line `j` is an elapsed-time annotation.
pub open spec fn elapsed_at(lines: Seq<Seq<char>>, j: int) -> bool {
    0 <= j < lines.len() && has_prefix(lines[j], "T"@)
}

/// The annotation on line `j`, if that line has one: `Err` when its number is malformed.
pub open spec fn elapsed_of(lines: Seq<Seq<char>>, j: int) -> Result<Option<i32>, ErrorKind> {
    if elapsed_at(lines, j) {
        match i32_text(lines[j].skip(1)) {
            None => Err(ErrorKind::Number),
            Some(v) => Ok(Some(v as i32)),
        }
    } else {
        Ok(None)
    }
}

/// The move block from line `i` on. Each entry (a move or a declared win or draw) flips
/// the side to move, a termination line does not; nothing may follow a declared win or
/// draw.
pub open spec fn moves_from(st: MovesState, lines: Seq<Seq<char>>, i: int) -> Result<
    MovesState,
    ErrorKind,
>
    decreases lines.len() - i,
{
    if i >= lines.len() || i < 0 {
        Ok(st)
    } else {
        let l = lines[i];
        let next = if elapsed_at(lines, i + 1) { i + 2 } else { i + 1 };
        if st.ended {
            Err(ErrorKind::Format)
        } else if l == "%KACHI"@ || l == "%HIKIWAKE"@ {
            match elapsed_of(lines, i + 1) {
                Err(e) => Err(e),
                Ok(e) => moves_from(
                    MovesState {
                        teban: st.teban.other(),
                        board: st.board,
                        moves: st.moves.push(
                            if l == "%KACHI"@ { CsaMove::Kachi(e) } else { CsaMove::Hikiwake(e) },
                        ),
                        sides: st.sides.push(st.teban),
                        boards: st.boards.push(st.board),
                        pieces: st.pieces.push(KomaKind::Blank),
                        ended: true,
                        end_state: st.end_state,
                    },
                    lines,
                    next,
                ),
            }
        } else if has_prefix(l, "+"@) || has_prefix(l, "-"@) {
            if has_prefix(l, "+"@) != (st.teban == Teban::Sente) {
                Err(ErrorKind::Format)
            } else {
                match move_of_line(st.teban, st.board, l.skip(1)) {
                    None => Err(ErrorKind::Format),
                    Some((mv, b2)) => match elapsed_of(lines, i + 1) {
                        Err(e) => Err(e),
                        Ok(e) => moves_from(
                            MovesState {
                                teban: st.teban.other(),
                                board: b2,
                                moves: st.moves.push(CsaMove::Move(mv, e)),
                                sides: st.sides.push(st.teban),
                                boards: st.boards.push(st.board),
                                pieces: st.pieces.push(b2[move_dest(mv)]),
                                ended: false,
                                end_state: st.end_state,
                            },
                            lines,
                            next,
                        ),
                    },
                }
            }
        } else if has_prefix(l, "%"@) {
            match end_state_of(l) {
                None => Err(ErrorKind::Format),
                Some(es) => moves_from(
                    MovesState {
                        teban: st.teban,
                        board: st.board,
                        moves: st.moves,
                        sides: st.sides,
                        boards: st.boards,
                        pieces: st.pieces,
                        ended: false,
                        end_state: Some(es),
                    },
                    lines,
                    i + 1,
                ),
            }
        } else {
            Err(ErrorKind::Format)
        }
    }
}

/// What a move block decodes to: the side to move at its start, the move list, and
/// the termination named by a `%` line, if any.
pub open spec fn moves_spec(lines: Seq<Seq<char>>, board: Seq<KomaKind>) -> Result<
    (Teban, Seq<CsaMove>, Option<EndState>),
    ErrorKind,
> {
    if lines.len() == 0 {
        Err(ErrorKind::InvalidState)
    } else if lines[0] != "+"@ && lines[0] != "-"@ {
        Err(ErrorKind::Format)
    } else {
        let t = if lines[0] == "+"@ { Teban::Sente } else { Teban::Gote };
        let st = MovesState {
            teban: t,
            board,
            moves: Seq::empty(),
            sides: Seq::empty(),
            boards: Seq::empty(),
            pieces: Seq::empty(),
            ended: false,
            end_state: None,
        };
        match moves_from(st, lines, 1) {
            Err(e) => Err(e),
            Ok(s) => Ok((t, s.moves, s.end_state)),
        }
    }
}

} // verus!

verus! {

/// The raw value of a digit character, which may lie outside 0 to 9.
fn raw_digit(c: char) -> (r: i64)
    ensures
        r == dval(c),
{
    c as u32 as i64 - '0' as u32 as i64
}

fn moves_error() -> (r: CsaParserError)
    ensures
        r is FormatError,
{
    CsaParserError::FormatError(String::from_str("Invalid csa moves format."))
}

/// Decodes one move line for side `t` and plays it on `board`.
fn decode_move(t: Teban, board: &mut Banmen, line: &String, reader: &mut CsaStringReader) -> (r: Result<Move, CsaParserError>)
    requires
        old(board).wf(),
        line@.len() >= 1,
    ensures
        final(board).wf(),
        match move_of_line(t, old(board)@, line@.skip(1)) {
            None => r is Err && r->Err_0 is FormatError,
            Some((mv, b2)) => r is Ok && r->Ok_0 == mv && final(board)@ == b2,
        },
{
    let ghost c = line@.skip(1);
    let mut chars = CsaChars::new(line.as_str());
    chars.next();
    assert(chars@ =~= c);
    let a = chars.next();
    let b = chars.next();
    let d = chars.next();
    let e = chars.next();
    let (sx, sy, dx, dy) = match (a, b, d, e) {
        (Some(a), Some(b), Some(d), Some(e)) => (raw_digit(a), raw_digit(b), raw_digit(d), raw_digit(e)),
        _ => {
            return Err(moves_error());
        },
    };
    let kind = reader.read(&mut chars, 2)?;
    assert(kind@ =~= c.subrange(4, 6));
    if sx == 0 && sy == 0 && 1 <= dx && dx <= 9 && 1 <= dy && dy <= 9 {
        let k = match hand_kind_from_code(&kind) {
            None => {
                return Err(moves_error());
            },
            Some(k) => k,
        };
        board.set(dx as u32, dy as u32, KomaKind::from((t, k)));
        Ok(Move::Put(k, KomaDstPutPosition(dx as u32, dy as u32)))
    } else {
        if !(1 <= sx && sx <= 9 && 1 <= sy && sy <= 9 && 1 <= dx && dx <= 9 && 1 <= dy && dy <= 9) {
            return Err(moves_error());
        }
        let k = match koma_from_code(t, &kind) {
            None => {
                return Err(moves_error());
            },
            Some(k) => k,
        };
        let sx = sx as u32;
        let sy = sy as u32;
        let dx = dx as u32;
        let dy = dy as u32;
        let n = match k {
            KomaKind::SFuN | KomaKind::SKyouN | KomaKind::SKeiN | KomaKind::SGinN
            | KomaKind::SKakuN | KomaKind::SHishaN | KomaKind::GFuN | KomaKind::GKyouN
            | KomaKind::GKeiN | KomaKind::GGinN | KomaKind::GKakuN | KomaKind::GHishaN => board.get(sx, sy) != k,
            _ => false,
        };
        board.set(sx, sy, KomaKind::Blank);
        board.set(dx, dy, k);
        Ok(Move::To(KomaSrcPosition(sx, sy), KomaDstToPosition(dx, dy, n)))
    }
}

/// Decoder of one move block.
pub struct CsaMovesParser {}

impl CsaMovesParser {
    pub fn new() -> (r: CsaMovesParser) {
        CsaMovesParser {  }
    }

    /// The error of a malformed move block.
    pub fn create_error(&self) -> (r: CsaParserError)
        ensures
            r is FormatError,
    {
        moves_error()
    }

    /// Steps past the entry at `*i` and reads the elapsed-time line after it, if any.
    fn parse_elpsed(&self, lines: &Vec<String>, i: &mut usize, len: usize) -> (r: Result<Option<i32>, CsaParserError>)
        requires
            len == lines@.len(),
            *old(i) < len,
        ensures
            r is Ok ==> *final(i) == if elapsed_at(lines_view(lines@), *old(i) + 1) { *old(i) + 2 } else { *old(i) + 1 },
            match elapsed_of(lines_view(lines@), *old(i) + 1) {
                Err(e) => r is Err && kind_of(r->Err_0) == e,
                Ok(v) => r is Ok && r->Ok_0 == v,
            },
    {
        *i = *i + 1;
        if *i < len && starts_with(lines[*i].as_str(), "T") {
            assert(lines_view(lines@)[*i as int] == lines@[*i as int]@);
            proof {
                reveal_strlit("T");
            }
            let s = text_after(lines[*i].as_str(), 1);
            let v = match parse_i32(s.as_str()) {
                Ok(v) => v,
                Err(e) => {
                    return Err(CsaParserError::ParseIntError(e));
                },
            };
            *i = *i + 1;
            Ok(Some(v))
        } else {
            proof {
                if *i < len {
                    assert(lines_view(lines@)[*i as int] == lines@[*i as int]@);
                }
            }
            Ok(None)
        }
    }

    /// Decodes one move block: its side marker, then moves, elapsed-time lines, a
    /// declared win or draw, and termination lines, replayed against `banmen`.
    pub fn parse(&mut self, lines: Vec<String>, banmen: &Banmen) -> (r: Result<
        (Teban, CsaMoves, Option<EndState>),
        CsaParserError,
    >)
        requires
            banmen.wf(),
        ensures
            match moves_spec(lines_view(lines@), banmen@) {
                Err(e) => r is Err && kind_of(r->Err_0) == e,
                Ok((t, m, es)) => r is Ok && r->Ok_0.0 == t && r->Ok_0.1@ == m && r->Ok_0.1.wf()
                    && r->Ok_0.2 == es,
            },
    {
        let ghost lv = lines_view(lines@);
        if lines.len() == 0 {
            return Err(CsaParserError::InvalidStateError(String::from_str("lines is empty.")));
        }
        assert(lv[0] == lines@[0]@);
        let teban_at_start = if same_text(lines[0].as_str(), "+") {
            Teban::Sente
        } else if same_text(lines[0].as_str(), "-") {
            Teban::Gote
        } else {
            return Err(self.create_error());
        };
        let mut teban = teban_at_start;
        let mut board = banmen.duplicate();
        let mut mvs = CsaMoves::new();
        let mut reader = CsaStringReader::new();
        let len = lines.len();
        let mut i: usize = 1;
        let mut moveend = false;
        let mut end_state: Option<EndState> = None;
        let ghost mut sides: Seq<Teban> = Seq::empty();
        let ghost mut boards: Seq<Seq<KomaKind>> = Seq::empty();
        let ghost mut pieces: Seq<KomaKind> = Seq::empty();
        let ghost st0 = MovesState {
            teban: teban_at_start,
            board: banmen@,
            moves: Seq::empty(),
            sides: Seq::empty(),
            boards: Seq::empty(),
            pieces: Seq::empty(),
            ended: false,
            end_state: None,
        };
        while i < len
            invariant
                len == lines@.len(),
                lv == lines_view(lines@),
                lv.len() > 0 && (lv[0] == "+"@ || lv[0] == "-"@),
                teban_at_start == (if lv[0] == "+"@ { Teban::Sente } else { Teban::Gote }),
                st0 == (MovesState {
                    teban: teban_at_start,
                    board: banmen@,
                    moves: Seq::empty(),
                    sides: Seq::empty(),
                    boards: Seq::empty(),
                    pieces: Seq::empty(),
                    ended: false,
                    end_state: None,
                }),
                1 <= i <= len,
                board.wf(),
                mvs.wf(),
                !moveend ==> (mvs@.len() == 0 || !is_terminal(mvs@.last())),
                moves_from(st0, lv, 1) == moves_from(
                    MovesState { teban, board: board@, moves: mvs@, sides, boards, pieces, ended: moveend, end_state },
                    lv,
                    i as int,
                ),
            decreases len - i,
        {
            let line = &lines[i];
            assert(lv[i as int] == line@);
            let ghost cur = MovesState { teban, board: board@, moves: mvs@, sides, boards, pieces, ended: moveend, end_state };
            if moveend {
                assert(moves_from(cur, lv, i as int) == Err::<MovesState, ErrorKind>(ErrorKind::Format));
                return Err(self.create_error());
            }
            if same_text(line.as_str(), "%KACHI") || same_text(line.as_str(), "%HIKIWAKE") {
                let kachi = same_text(line.as_str(), "%KACHI");
                let e = self.parse_elpsed(&lines, &mut i, len)?;
                let m = if kachi { CsaMove::Kachi(e) } else { CsaMove::Hikiwake(e) };
                match mvs.push(m) {
                    Err(_) => {
                        return Err(self.create_error());
                    },
                    Ok(_) => {},
                }
                proof {
                    sides = sides.push(teban);
                    boards = boards.push(board@);
                    pieces = pieces.push(KomaKind::Blank);
                }
                moveend = true;
                teban = teban.opposite();
            } else if starts_with(line.as_str(), "+") || starts_with(line.as_str(), "-") {
                proof {
                    reveal_strlit("+");
                    reveal_strlit("-");
                }
                if starts_with(line.as_str(), "+") != (teban == Teban::Sente) {
                    assert(moves_from(cur, lv, i as int) == Err::<MovesState, ErrorKind>(ErrorKind::Format));
                    return Err(self.create_error());
                }
                let ghost before = board@;
                let mv = decode_move(teban, &mut board, line, &mut reader)?;
                let e = self.parse_elpsed(&lines, &mut i, len)?;
                match mvs.push(CsaMove::Move(mv, e)) {
                    Err(_) => {
                        return Err(self.create_error());
                    },
                    Ok(_) => {},
                }
                proof {
                    sides = sides.push(teban);
                    boards = boards.push(before);
                    pieces = pieces.push(board@[move_dest(mv)]);
                }
                teban = teban.opposite();
            } else if starts_with(line.as_str(), "%") {
                match EndState::from_line(line) {
                    None => {
                        return Err(self.create_error());
                    },
                    Some(es) => {
                        end_state = Some(es);
                    },
                }
                i = i + 1;
            } else {
                return Err(self.create_error());
            }
        }
        Ok((teban_at_start, mvs, end_state))
    }
}

} // verus!

verus! {

/// The side to move after `k` turns from `t`.
pub open spec fn alternate(t: Teban, k: int) -> Teban {
    if k % 2 == 0 {
        t
    } else {
        t.other()
    }
}

/// The side to move at each entry of a decoded move block.
pub open spec fn entry_sides(lines: Seq<Seq<char>>, board: Seq<KomaKind>) -> Seq<Teban> {
    let t = if lines[0] == "+"@ { Teban::Sente } else { Teban::Gote };
    let st = MovesState {
        teban: t,
        board,
        moves: Seq::empty(),
        sides: Seq::empty(),
        boards: Seq::empty(),
        pieces: Seq::empty(),
        ended: false,
        end_state: None,
    };
    moves_from(st, lines, 1)->Ok_0.sides
}

proof fn lemma_sides_alternate(t0: Teban, st: MovesState, lines: Seq<Seq<char>>, i: int)
    requires
        1 <= i,
        moves_from(st, lines, i) is Ok,
        st.sides.len() == st.moves.len(),
        st.teban == alternate(t0, st.sides.len() as int),
        forall|k: int| 0 <= k < st.sides.len() ==> #[trigger] st.sides[k] == alternate(t0, k),
    ensures
        ({
            let s = moves_from(st, lines, i)->Ok_0;
            &&& s.sides.len() == s.moves.len()
            &&& forall|k: int| 0 <= k < s.sides.len() ==> #[trigger] s.sides[k] == alternate(t0, k)
        }),
    decreases lines.len() - i,
{
    if i >= lines.len() {
        return;
    }
    let l = lines[i];
    let n = st.sides.len() as int;
    assert(alternate(t0, n + 1) == alternate(t0, n).other()) by {
        if n % 2 == 0 {
            assert((n + 1) % 2 == 1);
        } else {
            assert((n + 1) % 2 == 0);
        }
    }
    let next = if elapsed_at(lines, i + 1) { i + 2 } else { i + 1 };
    if st.ended {
    } else if l == "%KACHI"@ || l == "%HIKIWAKE"@ {
        let e = elapsed_of(lines, i + 1)->Ok_0;
        let s2 = MovesState {
            teban: st.teban.other(),
            board: st.board,
            moves: st.moves.push(
                if l == "%KACHI"@ { CsaMove::Kachi(e) } else { CsaMove::Hikiwake(e) },
            ),
            sides: st.sides.push(st.teban),
            boards: st.boards.push(st.board),
            pieces: st.pieces.push(KomaKind::Blank),
            ended: true,
            end_state: st.end_state,
        };
        assert forall|k: int| 0 <= k < s2.sides.len() implies #[trigger] s2.sides[k] == alternate(t0, k) by {
            if k < n {
                assert(s2.sides[k] == st.sides[k]);
            }
        }
        lemma_sides_alternate(t0, s2, lines, next);
    } else if has_prefix(l, "+"@) || has_prefix(l, "-"@) {
        let (mv, b2) = move_of_line(st.teban, st.board, l.skip(1))->Some_0;
        let e = elapsed_of(lines, i + 1)->Ok_0;
        let s2 = MovesState {
            teban: st.teban.other(),
            board: b2,
            moves: st.moves.push(CsaMove::Move(mv, e)),
            sides: st.sides.push(st.teban),
            boards: st.boards.push(st.board),
            pieces: st.pieces.push(b2[move_dest(mv)]),
            ended: false,
            end_state: st.end_state,
        };
        assert forall|k: int| 0 <= k < s2.sides.len() implies #[trigger] s2.sides[k] == alternate(t0, k) by {
            if k < n {
                assert(s2.sides[k] == st.sides[k]);
            }
        }
        lemma_sides_alternate(t0, s2, lines, next);
    } else {
        let es = end_state_of(l)->Some_0;
        let s2 = MovesState {
            teban: st.teban,
            board: st.board,
            moves: st.moves,
            sides: st.sides,
            boards: st.boards,
            pieces: st.pieces,
            ended: false,
            end_state: Some(es),
        };
        lemma_sides_alternate(t0, s2, lines, i + 1);
    }
}

/// Turns alternate: in a move block that decodes, the side to move at entry `k` is the
/// starting side flipped `k` times; termination lines do not pass the turn. (A move line
/// is accepted only with the marker of the side to move.)
pub proof fn lemma_turn_alternation(lines: Seq<Seq<char>>, board: Seq<KomaKind>)
    requires
        moves_spec(lines, board) is Ok,
    ensures
        ({
            let (t, m, es) = moves_spec(lines, board)->Ok_0;
            let sides = entry_sides(lines, board);
            &&& sides.len() == m.len()
            &&& forall|k: int| 0 <= k < sides.len() ==> #[trigger] sides[k] == alternate(t, k)
        }),
{
    let t = if lines[0] == "+"@ { Teban::Sente } else { Teban::Gote };
    let st = MovesState {
        teban: t,
        board,
        moves: Seq::empty(),
        sides: Seq::empty(),
        boards: Seq::empty(),
        pieces: Seq::empty(),
        ended: false,
        end_state: None,
    };
    lemma_sides_alternate(t, st, lines, 1);
}

/// The unpromoted form of a promoted piece.
pub open spec fn unpromoted(k: KomaKind) -> KomaKind {
    match k {
        KomaKind::SFuN => KomaKind::SFu,
        KomaKind::SKyouN => KomaKind::SKyou,
        KomaKind::SKeiN => KomaKind::SKei,
        KomaKind::SGinN => KomaKind::SGin,
        KomaKind::SKakuN => KomaKind::SKaku,
        KomaKind::SHishaN => KomaKind::SHisha,
        KomaKind::GFuN => KomaKind::GFu,
        KomaKind::GKyouN => KomaKind::GKyou,
        KomaKind::GKeiN => KomaKind::GKei,
        KomaKind::GGinN => KomaKind::GGin,
        KomaKind::GKakuN => KomaKind::GKaku,
        KomaKind::GHishaN => KomaKind::GHisha,
        _ => k,
    }
}

/// Promotion is inferred from the board: a board move whose code names a promoted
/// piece while its source square held the unpromoted form is flagged as a promotion,
/// and a move whose source square already held the named piece never is.
pub proof fn lemma_promotion_inference(t: Teban, board: Seq<KomaKind>, c: Seq<char>)
    requires
        move_of_line(t, board, c) is Some,
        move_of_line(t, board, c)->Some_0.0 is To,
    ensures
        ({
            let k = koma_of_code(t, c.subrange(4, 6))->Some_0;
            let src = square_index(dval(c[0]), dval(c[1]));
            let flagged = move_of_line(t, board, c)->Some_0.0->To_1.2;
            &&& (is_promoted(k) && board[src] == unpromoted(k)) ==> flagged
            &&& board[src] == k ==> !flagged
        }),
{
}

} // verus!

verus! {

/// The running board after entry `m`, which puts `p` on its destination.
pub open spec fn apply_entry(b: Seq<KomaKind>, m: CsaMove, p: KomaKind) -> Seq<KomaKind> {
    match m {
        CsaMove::Move(Move::To(s, d), _) => b.update(square_index(s.0 as int, s.1 as int), KomaKind::Blank).update(
            square_index(d.0 as int, d.1 as int),
            p,
        ),
        CsaMove::Move(Move::Put(_, d), _) => b.update(square_index(d.0 as int, d.1 as int), p),
        _ => b,
    }
}

/// A board move is flagged as a promotion exactly when the piece it puts down is a
/// promoted one and its source square held something else.
pub open spec fn promotion_flag_ok(b: Seq<KomaKind>, m: CsaMove, p: KomaKind) -> bool {
    match m {
        CsaMove::Move(Move::To(s, d), _) => d.2 == (is_promoted(p) && b[square_index(
            s.0 as int,
            s.1 as int,
        )] != p),
        _ => true,
    }
}

/// The running boards replay the entries from `b0`, and every promotion flag agrees
/// with the board it was read against.
pub open spec fn replay_ok(b0: Seq<KomaKind>, st: MovesState) -> bool {
    &&& st.boards.len() == st.moves.len()
    &&& st.pieces.len() == st.moves.len()
    &&& st.moves.len() == 0 ==> st.board == b0
    &&& st.moves.len() > 0 ==> st.boards[0] == b0 && st.board == apply_entry(
        st.boards.last(),
        st.moves.last(),
        st.pieces.last(),
    )
    &&& forall|k: int|
        0 <= k < st.moves.len() - 1 ==> #[trigger] st.boards[k + 1] == apply_entry(
            st.boards[k],
            st.moves[k],
            st.pieces[k],
        )
    &&& forall|k: int|
        0 <= k < st.moves.len() ==> promotion_flag_ok(
            #[trigger] st.boards[k],
            st.moves[k],
            st.pieces[k],
        )
}

proof fn lemma_replay(b0: Seq<KomaKind>, st: MovesState, lines: Seq<Seq<char>>, i: int)
    requires
        1 <= i,
        st.board.len() == 81,
        moves_from(st, lines, i) is Ok,
        replay_ok(b0, st),
    ensures
        replay_ok(b0, moves_from(st, lines, i)->Ok_0),
    decreases lines.len() - i,
{
    if i >= lines.len() {
        return;
    }
    let l = lines[i];
    let n = st.moves.len() as int;
    let next = if elapsed_at(lines, i + 1) { i + 2 } else { i + 1 };
    if st.ended {
    } else if l == "%KACHI"@ || l == "%HIKIWAKE"@ {
        let e = elapsed_of(lines, i + 1)->Ok_0;
        let s2 = MovesState {
            teban: st.teban.other(),
            board: st.board,
            moves: st.moves.push(
                if l == "%KACHI"@ { CsaMove::Kachi(e) } else { CsaMove::Hikiwake(e) },
            ),
            sides: st.sides.push(st.teban),
            boards: st.boards.push(st.board),
            pieces: st.pieces.push(KomaKind::Blank),
            ended: true,
            end_state: st.end_state,
        };
        assert forall|k: int| 0 <= k < s2.moves.len() - 1 implies #[trigger] s2.boards[k + 1]
            == apply_entry(s2.boards[k], s2.moves[k], s2.pieces[k]) by {
            if k < n - 1 {
                assert(s2.boards[k + 1] == st.boards[k + 1]);
            }
        }
        assert forall|k: int| 0 <= k < s2.moves.len() implies promotion_flag_ok(
            #[trigger] s2.boards[k],
            s2.moves[k],
            s2.pieces[k],
        ) by {
            if k < n {
                assert(s2.boards[k] == st.boards[k]);
            }
        }
        lemma_replay(b0, s2, lines, next);
    } else if has_prefix(l, "+"@) || has_prefix(l, "-"@) {
        let (mv, b2) = move_of_line(st.teban, st.board, l.skip(1))->Some_0;
        let e = elapsed_of(lines, i + 1)->Ok_0;
        let s2 = MovesState {
            teban: st.teban.other(),
            board: b2,
            moves: st.moves.push(CsaMove::Move(mv, e)),
            sides: st.sides.push(st.teban),
            boards: st.boards.push(st.board),
            pieces: st.pieces.push(b2[move_dest(mv)]),
            ended: false,
            end_state: st.end_state,
        };
        assert(b2 == apply_entry(st.board, CsaMove::Move(mv, e), b2[move_dest(mv)]));
        assert(promotion_flag_ok(st.board, CsaMove::Move(mv, e), b2[move_dest(mv)]));
        assert forall|k: int| 0 <= k < s2.moves.len() - 1 implies #[trigger] s2.boards[k + 1]
            == apply_entry(s2.boards[k], s2.moves[k], s2.pieces[k]) by {
            if k < n - 1 {
                assert(s2.boards[k + 1] == st.boards[k + 1]);
            }
        }
        assert forall|k: int| 0 <= k < s2.moves.len() implies promotion_flag_ok(
            #[trigger] s2.boards[k],
            s2.moves[k],
            s2.pieces[k],
        ) by {
            if k < n {
                assert(s2.boards[k] == st.boards[k]);
            }
        }
        lemma_replay(b0, s2, lines, next);
    } else {
        let es = end_state_of(l)->Some_0;
        let s2 = MovesState {
            teban: st.teban,
            board: st.board,
            moves: st.moves,
            sides: st.sides,
            boards: st.boards,
            pieces: st.pieces,
            ended: false,
            end_state: Some(es),
        };
        lemma_replay(b0, s2, lines, i + 1);
    }
}

/// The running boards of a decoded move block, before each entry, and the piece each
/// entry puts down.
pub open spec fn entry_replay(lines: Seq<Seq<char>>, board: Seq<KomaKind>) -> MovesState {
    let t = if lines[0] == "+"@ { Teban::Sente } else { Teban::Gote };
    let st = MovesState {
        teban: t,
        board,
        moves: Seq::empty(),
        sides: Seq::empty(),
        boards: Seq::empty(),
        pieces: Seq::empty(),
        ended: false,
        end_state: None,
    };
    moves_from(st, lines, 1)->Ok_0
}

/// Promotion inference over a whole move block: replaying the entries from the starting
/// board, each board move is flagged as a promotion exactly when the piece it puts down
/// is promoted and the running board held something else on its source square.
pub proof fn lemma_block_promotions(lines: Seq<Seq<char>>, board: Seq<KomaKind>)
    requires
        board.len() == 81,
        moves_spec(lines, board) is Ok,
    ensures
        entry_replay(lines, board).moves == moves_spec(lines, board)->Ok_0.1,
        replay_ok(board, entry_replay(lines, board)),
{
    let t = if lines[0] == "+"@ { Teban::Sente } else { Teban::Gote };
    let st = MovesState {
        teban: t,
        board,
        moves: Seq::empty(),
        sides: Seq::empty(),
        boards: Seq::empty(),
        pieces: Seq::empty(),
        ended: false,
        end_state: None,
    };
    lemma_replay(board, st, lines, 1);
}

} // verus!
