use vstd::prelude::*;
use crate::codes::{
    base_kind_from_code, base_kind_of_code, hand_kind_from_code, hand_kind_of_code, is_king,
    is_king_code, koma_from_code, koma_of_code,
};
use crate::error::CsaParserError;
use crate::reader::CsaStringReader;
use crate::shogi::{
    blank_board, filled_counts, kind_at, kind_index, koma_of, on_board, square_index, start_board, Banmen,
    KomaKind, Mochigoma, MochigomaCollections, MochigomaKind, Teban,
};
use crate::strings::{has_prefix, lines_view, starts_with, CsaChars};

verus! {

/// A digit naming a file or a rank.
pub open spec fn is_coord(c: char) -> bool {
    '1' as u32 <= c as u32 <= '9' as u32
}

/// The value of a digit.
pub open spec fn digit(c: char) -> int {
    c as u32 - '0' as u32
}

/// What a position block has built so far: the board, the stock that each side may
/// still place, and whether each side's king stands.
pub struct PlaceState {
    pub board: Seq<KomaKind>,
    pub ms: Seq<u32>,
    pub mg: Seq<u32>,
    pub sou: bool,
    pub gou: bool,
}

/// Empty board, full stock on both sides, no king placed.
pub open spec fn initial_state() -> PlaceState {
    PlaceState {
        board: blank_board(),
        ms: filled_counts(),
        mg: filled_counts(),
        sou: false,
        gou: false,
    }
}

/// Puts the piece of side `t` named by `code` on grid index `idx`: a king at most once
/// per side, any other piece taken from that side's stock, which must hold one.
pub open spec fn place_spec(st: PlaceState, t: Teban, code: Seq<char>, idx: int) -> Option<
    PlaceState,
> {
    if is_king_code(code) {
        if t == Teban::Sente {
            if st.sou {
                None
            } else {
                Some(
                    PlaceState {
                        board: st.board.update(idx, KomaKind::SOu),
                        ms: st.ms,
                        mg: st.mg,
                        sou: true,
                        gou: st.gou,
                    },
                )
            }
        } else {
            if st.gou {
                None
            } else {
                Some(
                    PlaceState {
                        board: st.board.update(idx, KomaKind::GOu),
                        ms: st.ms,
                        mg: st.mg,
                        sou: st.sou,
                        gou: true,
                    },
                )
            }
        }
    } else {
        match hand_kind_of_code(code) {
            None => None,
            Some(k) => {
                let i = kind_index(k);
                let h = if t == Teban::Sente { st.ms } else { st.mg };
                if h[i] == 0 {
                    None
                } else {
                    let h2 = h.update(i, (h[i] - 1) as u32);
                    let b2 = st.board.update(idx, koma_of_code(t, code)->Some_0);
                    if t == Teban::Sente {
                        Some(PlaceState { board: b2, ms: h2, mg: st.mg, sou: st.sou, gou: st.gou })
                    } else {
                        Some(PlaceState { board: b2, ms: st.ms, mg: h2, sou: st.sou, gou: st.gou })
                    }
                }
            },
        }
    }
}

/// Rest of one full-board row from column `col` on.
pub open spec fn row_spec(st: PlaceState, c: Seq<char>, row: int, col: int) -> Option<PlaceState>
    decreases 9 - col,
{
    if col >= 9 {
        Some(st)
    } else if c.len() == 0 {
        None
    } else if c[0] == '+' || c[0] == '-' {
        let t = if c[0] == '+' { Teban::Sente } else { Teban::Gote };
        if c.len() < 3 {
            None
        } else {
            match place_spec(st, t, c.subrange(1, 3), row * 9 + col) {
                None => None,
                Some(s2) => row_spec(s2, c.skip(3), row, col + 1),
            }
        }
    } else {
        row_spec(st, if c.len() >= 3 { c.skip(3) } else { Seq::empty() }, row, col + 1)
    }
}

/// Full-board rows from `row` on; each begins with `P` and its rank digit.
pub open spec fn board_rows_spec(st: PlaceState, lines: Seq<Seq<char>>, row: int) -> Option<
    PlaceState,
>
    decreases 9 - row,
{
    if row >= 9 {
        Some(st)
    } else if row >= lines.len() {
        None
    } else {
        let l = lines[row];
        if l.len() < 2 || l[0] != 'P' || l[1] as u32 != '1' as u32 + row {
            None
        } else {
            match row_spec(st, l.skip(2), row, 0) {
                None => None,
                Some(s2) => board_rows_spec(s2, lines, row + 1),
            }
        }
    }
}

/// Hands every piece still in stock to side `t`.
pub open spec fn sweep_spec(st: PlaceState, t: Teban) -> PlaceState {
    let all = Seq::new(7, |i: int| (st.ms[i] + st.mg[i]) as u32);
    let none = Seq::new(7, |i: int| 0u32);
    if t == Teban::Sente {
        PlaceState { board: st.board, ms: all, mg: none, sou: st.sou, gou: st.gou }
    } else {
        PlaceState { board: st.board, ms: none, mg: all, sou: st.sou, gou: st.gou }
    }
}

/// Rest of one placement line: (file, rank, code) triples, or `00ALL` at the very end.
pub open spec fn list_rest(st: PlaceState, c: Seq<char>, t: Teban, last: bool) -> Option<
    PlaceState,
>
    decreases c.len(),
{
    if c.len() == 0 {
        Some(st)
    } else if c.len() < 2 {
        None
    } else if c[0] == '0' && c[1] == '0' {
        if last && c.skip(2) == seq!['A', 'L', 'L'] {
            Some(sweep_spec(st, t))
        } else {
            None
        }
    } else if !is_coord(c[0]) || !is_coord(c[1]) || c.len() < 4 {
        None
    } else {
        let idx = square_index(digit(c[0]), digit(c[1]));
        if st.board[idx] != KomaKind::Blank {
            None
        } else {
            match place_spec(st, t, c.subrange(2, 4), idx) {
                None => None,
                Some(s2) => list_rest(s2, c.skip(4), t, last),
            }
        }
    }
}

/// Placement lines from `i` on; each begins with `P+` or `P-`.
pub open spec fn list_lines_spec(st: PlaceState, lines: Seq<Seq<char>>, i: int) -> Option<
    PlaceState,
>
    decreases lines.len() - i,
{
    if i >= lines.len() {
        Some(st)
    } else {
        let l = lines[i];
        if l.len() < 2 || l[0] != 'P' || (l[1] != '+' && l[1] != '-') {
            None
        } else {
            let t = if l[1] == '+' { Teban::Sente } else { Teban::Gote };
            match list_rest(st, l.skip(2), t, i == lines.len() - 1) {
                None => None,
                Some(s2) => list_lines_spec(s2, lines, i + 1),
            }
        }
    }
}

/// Rest of the shorthand line: each (file, rank, code) removes that piece from the board.
pub open spec fn pi_rest(board: Seq<KomaKind>, c: Seq<char>) -> Option<Seq<KomaKind>>
    decreases c.len(),
{
    if c.len() == 0 {
        Some(board)
    } else if c.len() < 4 || !is_coord(c[0]) || !is_coord(c[1]) {
        None
    } else {
        let idx = square_index(digit(c[0]), digit(c[1]));
        let k = board[idx];
        match base_kind_of_code(c.subrange(2, 4)) {
            None => None,
            Some(hk) => if k == koma_of(Teban::Sente, hk) || k == koma_of(Teban::Gote, hk) {
                pi_rest(board.update(idx, KomaKind::Blank), c.skip(4))
            } else {
                None
            },
        }
    }
}

/// Board and stocks of a completed placement.
pub open spec fn with_hands(r: Option<PlaceState>) -> Option<(Seq<KomaKind>, Option<(Seq<u32>, Seq<u32>)>)> {
    match r {
        None => None,
        Some(st) => Some((st.board, Some((st.ms, st.mg)))),
    }
}

/// What a position block decodes to: the board and, unless the shorthand form is used,
/// the stock of each side.
pub open spec fn position_spec(lines: Seq<Seq<char>>) -> Option<
    (Seq<KomaKind>, Option<(Seq<u32>, Seq<u32>)>),
> {
    let l = lines[0];
    if has_prefix(l, "PI"@) {
        match pi_rest(start_board(), l.skip(2)) {
            None => None,
            Some(b) => Some((b, None)),
        }
    } else if has_prefix(l, "P1"@) {
        with_hands(board_rows_spec(initial_state(), lines, 0))
    } else if has_prefix(l, "P+"@) || has_prefix(l, "P-"@) {
        with_hands(list_lines_spec(initial_state(), lines, 0))
    } else {
        None
    }
}

/// The stocks held by a collection, if it tracks any.
pub open spec fn hands_view(m: MochigomaCollections) -> Option<(Seq<u32>, Seq<u32>)> {
    match m {
        MochigomaCollections::Empty => None,
        MochigomaCollections::Pair(s, g) => Some((s@, g@)),
    }
}

/// The exec counterpart of `PlaceState`.
struct Placement {
    board: Banmen,
    ms: Mochigoma,
    mg: Mochigoma,
    sou: bool,
    gou: bool,
}

impl View for Placement {
    type V = PlaceState;

    closed spec fn view(&self) -> PlaceState {
        PlaceState { board: self.board@, ms: self.ms@, mg: self.mg@, sou: self.sou, gou: self.gou }
    }
}

/// Every count is at most the nine pawns of a full stock.
pub open spec fn stock_bounded(h: Seq<u32>) -> bool {
    h.len() == 7 && forall|i: int| 0 <= i < 7 ==> #[trigger] h[i] <= 9
}

impl Placement {
    closed spec fn wf(&self) -> bool {
        &&& self.board.wf()
        &&& self.ms.wf()
        &&& self.mg.wf()
        &&& stock_bounded(self.ms@)
        &&& stock_bounded(self.mg@)
    }

    fn initial() -> (r: Placement)
        ensures
            r.wf(),
            r@ == initial_state(),
    {
        Placement {
            board: Banmen::blank(),
            ms: Mochigoma::filled(),
            mg: Mochigoma::filled(),
            sou: false,
            gou: false,
        }
    }

    fn place(&mut self, t: Teban, code: &String, x: u32, y: u32) -> (r: Result<(), CsaParserError>)
        requires
            old(self).wf(),
            on_board(x as int, y as int),
        ensures
            final(self).wf(),
            match place_spec(old(self)@, t, code@, square_index(x as int, y as int)) {
                None => r is Err && r->Err_0 is FormatError,
                Some(s) => r is Ok && final(self)@ == s,
            },
    {
        if is_king(code) {
            match t {
                Teban::Sente => {
                    if self.sou {
                        return Err(position_error());
                    }
                    self.sou = true;
                    self.board.set(x, y, KomaKind::SOu);
                },
                Teban::Gote => {
                    if self.gou {
                        return Err(position_error());
                    }
                    self.gou = true;
                    self.board.set(x, y, KomaKind::GOu);
                },
            }
            Ok(())
        } else {
            let k = match hand_kind_from_code(code) {
                None => {
                    return Err(position_error());
                },
                Some(k) => k,
            };
            let piece = match koma_from_code(t, code) {
                None => {
                    return Err(position_error());
                },
                Some(p) => p,
            };
            match t {
                Teban::Sente => {
                    let c = self.ms.get(k);
                    if c == 0 {
                        return Err(position_error());
                    }
                    self.ms.set(k, c - 1);
                },
                Teban::Gote => {
                    let c = self.mg.get(k);
                    if c == 0 {
                        return Err(position_error());
                    }
                    self.mg.set(k, c - 1);
                },
            }
            self.board.set(x, y, piece);
            Ok(())
        }
    }

    fn sweep(&mut self, t: Teban)
        requires
            old(self).wf(),
        ensures
            final(self).board.wf(),
            final(self)@ == sweep_spec(old(self)@, t),
    {
        let ghost st = self@;
        let mut all: Vec<u32> = Vec::new();
        let mut none: Vec<u32> = Vec::new();
        let mut i: usize = 0;
        while i < 7
            invariant
                i <= 7,
                self@ == st,
                self.wf(),
                all@ == Seq::new(i as nat, |j: int| (st.ms[j] + st.mg[j]) as u32),
                none@ == Seq::new(i as nat, |j: int| 0u32),
            decreases 7 - i,
        {
            let a = self.ms.counts_at(i);
            let b = self.mg.counts_at(i);
            assert(a <= 9 && b <= 9);
            all.push(a + b);
            none.push(0);
            i = i + 1;
            assert(all@ =~= Seq::new(i as nat, |j: int| (st.ms[j] + st.mg[j]) as u32));
            assert(none@ =~= Seq::new(i as nat, |j: int| 0u32));
        }
        match t {
            Teban::Sente => {
                self.ms = Mochigoma::from_counts(all);
                self.mg = Mochigoma::from_counts(none);
            },
            Teban::Gote => {
                self.ms = Mochigoma::from_counts(none);
                self.mg = Mochigoma::from_counts(all);
            },
        }
    }
}

/// Reads the nine slots of one full-board row.
fn parse_board_row(
    p: &mut Placement,
    chars: &mut CsaChars,
    row: u32,
    reader: &mut CsaStringReader,
) -> (r: Result<(), CsaParserError>)
    requires
        old(p).wf(),
        old(chars).wf(),
        row < 9,
    ensures
        final(p).wf(),
        match row_spec(old(p)@, old(chars)@, row as int, 0) {
            None => r is Err && r->Err_0 is FormatError,
            Some(s) => r is Ok && final(p)@ == s,
        },
{
    let mut j: u32 = 0;
    while j < 9
        invariant
            p.wf(),
            chars.wf(),
            j <= 9,
            row < 9,
            row_spec(old(p)@, old(chars)@, row as int, 0) == row_spec(p@, chars@, row as int, j as int),
        decreases 9 - j,
    {
        let ghost c = chars@;
        match chars.next() {
            None => {
                return Err(position_error());
            },
            Some(ch) => {
                if ch == '+' || ch == '-' {
                    let t = if ch == '+' { Teban::Sente } else { Teban::Gote };
                    let kind = reader.read(chars, 2)?;
                    assert(kind@ =~= c.subrange(1, 3));
                    assert(chars@ =~= c.skip(3));
                    assert(square_index((9 - j) as int, (row + 1) as int) == row * 9 + j);
                    p.place(t, &kind, 9 - j, row + 1)?;
                } else {
                    chars.next();
                    chars.next();
                    proof {
                        if c.len() >= 3 {
                            assert(chars@ =~= c.skip(3));
                        } else {
                            assert(chars@ =~= Seq::<char>::empty());
                        }
                    }
                }
            },
        }
        j = j + 1;
    }
    Ok(())
}

/// Reads the full-board form: nine rows `P1` to `P9`.
fn parse_full_board(lines: &Vec<String>) -> (r: Result<Placement, CsaParserError>)
    ensures
        match board_rows_spec(initial_state(), lines_view(lines@), 0) {
            None => r is Err && r->Err_0 is FormatError,
            Some(s) => r is Ok && r->Ok_0.wf() && r->Ok_0@ == s,
        },
{
    let ghost lv = lines_view(lines@);
    let mut p = Placement::initial();
    let mut reader = CsaStringReader::new();
    let mut i: usize = 0;
    while i < 9
        invariant
            p.wf(),
            i <= 9,
            lv == lines_view(lines@),
            board_rows_spec(initial_state(), lv, 0) == board_rows_spec(p@, lv, i as int),
        decreases 9 - i,
    {
        if i >= lines.len() {
            return Err(position_error());
        }
        let ghost l = lv[i as int];
        assert(l == lines@[i as int]@);
        let mut chars = CsaChars::new(lines[i].as_str());
        match chars.next() {
            Some(c) => {
                if c != 'P' {
                    return Err(position_error());
                }
            },
            None => {
                return Err(position_error());
            },
        }
        match chars.next() {
            Some(c) => {
                if c as u32 != '1' as u32 + i as u32 {
                    return Err(position_error());
                }
            },
            None => {
                return Err(position_error());
            },
        }
        assert(chars@ =~= l.skip(2));
        parse_board_row(&mut p, &mut chars, i as u32, &mut reader)?;
        i = i + 1;
    }
    Ok(p)
}

/// Reads the triples of one placement line for side `t`.
fn parse_list_line(
    p: &mut Placement,
    chars: &mut CsaChars,
    t: Teban,
    last: bool,
    reader: &mut CsaStringReader,
) -> (r: Result<(), CsaParserError>)
    requires
        old(p).wf(),
        old(chars).wf(),
    ensures
        r is Ok && !last ==> final(p).wf(),
        r is Ok ==> final(p).board.wf(),
        match list_rest(old(p)@, old(chars)@, t, last) {
            None => r is Err && r->Err_0 is FormatError,
            Some(s) => r is Ok && final(p)@ == s,
        },
{
    loop
        invariant
            p.wf(),
            chars.wf(),
            list_rest(old(p)@, old(chars)@, t, last) == list_rest(p@, chars@, t, last),
        decreases chars@.len(),
    {
        let ghost c = chars@;
        let x = match chars.next() {
            None => {
                return Ok(());
            },
            Some(x) => x,
        };
        let y = match chars.next() {
            None => {
                return Err(position_error());
            },
            Some(y) => y,
        };
        if x == '0' && y == '0' {
            if !last {
                return Err(position_error());
            }
            let ghost d = chars@;
            assert(d =~= c.skip(2));
            let a = chars.next();
            let b = chars.next();
            let e = chars.next();
            let z = chars.next();
            if a == Some('A') && b == Some('L') && e == Some('L') && z.is_none() {
                assert(d =~= seq!['A', 'L', 'L']);
                p.sweep(t);
                return Ok(());
            } else {
                proof {
                    if d == seq!['A', 'L', 'L'] {
                        assert(d[0] == 'A' && d[1] == 'L' && d[2] == 'L');
                    }
                }
                return Err(position_error());
            }
        }
        if !(is_coord_char(x) && is_coord_char(y)) {
            return Err(position_error());
        }
        let kind = reader.read(chars, 2)?;
        assert(kind@ =~= c.subrange(2, 4));
        assert(chars@ =~= c.skip(4));
        let xv = x as u32 - '0' as u32;
        let yv = y as u32 - '0' as u32;
        if p.board.get(xv, yv) != KomaKind::Blank {
            return Err(position_error());
        }
        p.place(t, &kind, xv, yv)?;
    }
}

/// Reads the placement-list form: lines `P+` and `P-`.
fn parse_list(lines: &Vec<String>) -> (r: Result<Placement, CsaParserError>)
    ensures
        match list_lines_spec(initial_state(), lines_view(lines@), 0) {
            None => r is Err && r->Err_0 is FormatError,
            Some(s) => r is Ok && r->Ok_0.board.wf() && r->Ok_0@ == s,
        },
{
    let ghost lv = lines_view(lines@);
    let mut p = Placement::initial();
    let mut reader = CsaStringReader::new();
    let n = lines.len();
    let mut i: usize = 0;
    while i < n
        invariant
            i < n ==> p.wf(),
            p.board.wf(),
            i <= n,
            n == lines@.len(),
            lv == lines_view(lines@),
            list_lines_spec(initial_state(), lv, 0) == list_lines_spec(p@, lv, i as int),
        decreases n - i,
    {
        let ghost l = lv[i as int];
        assert(l == lines@[i as int]@);
        let mut chars = CsaChars::new(lines[i].as_str());
        match chars.next() {
            Some(c) => {
                if c != 'P' {
                    return Err(position_error());
                }
            },
            None => {
                return Err(position_error());
            },
        }
        let t = match chars.next() {
            Some(c) => {
                if c == '+' {
                    Teban::Sente
                } else if c == '-' {
                    Teban::Gote
                } else {
                    return Err(position_error());
                }
            },
            None => {
                return Err(position_error());
            },
        };
        assert(chars@ =~= l.skip(2));
        parse_list_line(&mut p, &mut chars, t, i == n - 1, &mut reader)?;
        i = i + 1;
    }
    Ok(p)
}

/// Reads the shorthand form: the standard arrangement less the named pieces.
fn parse_shorthand(line: &String) -> (r: Result<Banmen, CsaParserError>)
    requires
        line@.len() >= 2,
    ensures
        match pi_rest(start_board(), line@.skip(2)) {
            None => r is Err && r->Err_0 is FormatError,
            Some(b) => r is Ok && r->Ok_0.wf() && r->Ok_0@ == b,
        },
{
    let mut reader = CsaStringReader::new();
    let mut board = Banmen::start_pos();
    let mut chars = CsaChars::new(line.as_str());
    chars.next();
    chars.next();
    assert(chars@ =~= line@.skip(2));
    loop
        invariant
            board.wf(),
            chars.wf(),
            pi_rest(start_board(), line@.skip(2)) == pi_rest(board@, chars@),
        decreases chars@.len(),
    {
        let ghost c = chars@;
        let x = match chars.next() {
            None => {
                return Ok(board);
            },
            Some(x) => x,
        };
        let y = match chars.next() {
            None => {
                return Err(position_error());
            },
            Some(y) => y,
        };
        if !(is_coord_char(x) && is_coord_char(y)) {
            return Err(position_error());
        }
        let kind = reader.read(&mut chars, 2)?;
        assert(kind@ =~= c.subrange(2, 4));
        assert(chars@ =~= c.skip(4));
        let xv = x as u32 - '0' as u32;
        let yv = y as u32 - '0' as u32;
        let k = board.get(xv, yv);
        match base_kind_from_code(&kind) {
            None => {
                return Err(position_error());
            },
            Some(hk) => {
                if k == KomaKind::from((Teban::Sente, hk)) || k == KomaKind::from((Teban::Gote, hk)) {
                    board.set(xv, yv, KomaKind::Blank);
                } else {
                    return Err(position_error());
                }
            },
        }
    }
}

/// Whether `c` is a digit from 1 to 9.
pub fn is_coord_char(c: char) -> (r: bool)
    ensures
        r == is_coord(c),
{
    '1' as u32 <= c as u32 && c as u32 <= '9' as u32
}

fn position_error() -> (r: CsaParserError)
    ensures
        r is FormatError,
{
    CsaParserError::FormatError(String::from_str("Invalid csa position format."))
}

} // verus!

verus! {

/// Decoder of one position block.
pub struct CsaPositionParser {}

impl CsaPositionParser {
    pub fn new() -> (r: CsaPositionParser) {
        CsaPositionParser {  }
    }

    /// The error of a malformed position block.
    pub fn create_error(&self) -> (r: CsaParserError)
        ensures
            r is FormatError,
    {
        position_error()
    }

    /// Decodes one position block, in whichever of the three forms its first line selects.
    pub fn parse(&mut self, lines: Vec<String>) -> (r: Result<(Banmen, MochigomaCollections), CsaParserError>)
        ensures
            lines@.len() == 0 ==> r is Err && r->Err_0 is InvalidStateError,
            lines@.len() > 0 ==> match position_spec(lines_view(lines@)) {
                None => r is Err && r->Err_0 is FormatError,
                Some((b, h)) => r is Ok && r->Ok_0.0.wf() && r->Ok_0.0@ == b && hands_view(r->Ok_0.1) == h,
            },
    {
        if lines.len() == 0 {
            return Err(CsaParserError::InvalidStateError(String::from_str("lines is empty.")));
        }
        assert(lines_view(lines@)[0] == lines@[0]@);
        if starts_with(lines[0].as_str(), "PI") {
            proof {
                reveal_strlit("PI");
            }
            let b = parse_shorthand(&lines[0])?;
            Ok((b, MochigomaCollections::Empty))
        } else if starts_with(lines[0].as_str(), "P1") {
            let p = parse_full_board(&lines)?;
            Ok((p.board, MochigomaCollections::Pair(p.ms, p.mg)))
        } else if starts_with(lines[0].as_str(), "P+") || starts_with(lines[0].as_str(), "P-") {
            let p = parse_list(&lines)?;
            Ok((p.board, MochigomaCollections::Pair(p.ms, p.mg)))
        } else {
            Err(self.create_error())
        }
    }
}

} // verus!

verus! {

/// The shorthand line with no removal decodes to the standard starting arrangement,
/// with no stock tracked.
pub proof fn lemma_shorthand_unmodified(l: Seq<char>)
    requires
        l == "PI"@,
    ensures
        position_spec(seq![l]) == Some::<(Seq<KomaKind>, Option<(Seq<u32>, Seq<u32>)>)>((start_board(), None)),
{
    reveal_strlit("PI");
    assert(seq![l][0] == l);
    assert(l.take(2) =~= l);
    assert(l.skip(2) =~= Seq::<char>::empty());
}

/// Removing one unpromoted non-king piece through the shorthand line empties exactly
/// its square, and putting that piece back gives the standard arrangement again.
pub proof fn lemma_shorthand_round_trip(x: char, y: char, code: Seq<char>)
    requires
        is_coord(x),
        is_coord(y),
        code.len() == 2,
        base_kind_of_code(code) is Some,
        ({
            let hk = base_kind_of_code(code)->Some_0;
            let k = start_board()[square_index(digit(x), digit(y))];
            k == koma_of(Teban::Sente, hk) || k == koma_of(Teban::Gote, hk)
        }),
    ensures
        ({
            let idx = square_index(digit(x), digit(y));
            let decoded = position_spec(seq!["PI"@ + seq![x, y] + code]);
            &&& decoded == Some::<(Seq<KomaKind>, Option<(Seq<u32>, Seq<u32>)>)>((start_board().update(idx, KomaKind::Blank), None))
            &&& decoded->Some_0.0.update(idx, start_board()[idx]) == start_board()
        }),
{
    reveal_strlit("PI");
    let l = "PI"@ + seq![x, y] + code;
    let idx = square_index(digit(x), digit(y));
    assert(seq![l][0] == l);
    assert(l.take(2) =~= "PI"@);
    let c = l.skip(2);
    assert(c =~= seq![x, y] + code);
    assert(c[0] == x && c[1] == y);
    assert(c.subrange(2, 4) =~= code);
    assert(c.skip(4) =~= Seq::<char>::empty());
    let b2 = start_board().update(idx, KomaKind::Blank);
    assert(pi_rest(b2, c.skip(4)) == Some(b2));
    assert(b2.update(idx, start_board()[idx]) =~= start_board());
}

} // verus!

verus! {

/// The hand kind that a board piece counts against, promoted pieces included.
pub open spec fn piece_hand_kind(p: KomaKind) -> Option<MochigomaKind> {
    match p {
        KomaKind::SFu | KomaKind::SFuN | KomaKind::GFu | KomaKind::GFuN => Some(MochigomaKind::Fu),
        KomaKind::SKyou | KomaKind::SKyouN | KomaKind::GKyou | KomaKind::GKyouN => Some(
            MochigomaKind::Kyou,
        ),
        KomaKind::SKei | KomaKind::SKeiN | KomaKind::GKei | KomaKind::GKeiN => Some(MochigomaKind::Kei),
        KomaKind::SGin | KomaKind::SGinN | KomaKind::GGin | KomaKind::GGinN => Some(MochigomaKind::Gin),
        KomaKind::SKin | KomaKind::GKin => Some(MochigomaKind::Kin),
        KomaKind::SKaku | KomaKind::SKakuN | KomaKind::GKaku | KomaKind::GKakuN => Some(
            MochigomaKind::Kaku,
        ),
        KomaKind::SHisha | KomaKind::SHishaN | KomaKind::GHisha | KomaKind::GHishaN => Some(
            MochigomaKind::Hisha,
        ),
        _ => None,
    }
}

/// How many cells of `b` satisfy `f`.
pub open spec fn count_where(b: Seq<KomaKind>, f: spec_fn(KomaKind) -> bool) -> nat
    decreases b.len(),
{
    if b.len() == 0 {
        0
    } else {
        count_where(b.drop_last(), f) + if f(b.last()) { 1nat } else { 0nat }
    }
}

/// The pieces that count against hand kind `k`.
pub open spec fn of_kind(k: MochigomaKind) -> spec_fn(KomaKind) -> bool {
    |p: KomaKind| piece_hand_kind(p) == Some(k)
}

/// The cells that hold `p`.
pub open spec fn is_piece(p: KomaKind) -> spec_fn(KomaKind) -> bool {
    |q: KomaKind| q == p
}

/// How many pieces on `b` count against hand kind `k`.
pub open spec fn count_kind(b: Seq<KomaKind>, k: MochigomaKind) -> nat {
    count_where(b, of_kind(k))
}

/// How many cells of `b` hold `p`.
pub open spec fn count_piece(b: Seq<KomaKind>, p: KomaKind) -> nat {
    count_where(b, is_piece(p))
}

/// Every piece-kind is accounted for: on the board or in either stock, as many as two
/// full stocks hold; and a king stands exactly when its side has placed one.
pub open spec fn stock_balanced(st: PlaceState) -> bool {
    &&& st.board.len() == 81
    &&& st.ms.len() == 7
    &&& st.mg.len() == 7
    &&& forall|i: int|
        0 <= i < 7 ==> count_kind(st.board, kind_at(i)) + #[trigger] st.ms[i] + st.mg[i] == 2
            * filled_counts()[i]
    &&& count_piece(st.board, KomaKind::SOu) == (if st.sou { 1nat } else { 0nat })
    &&& count_piece(st.board, KomaKind::GOu) == (if st.gou { 1nat } else { 0nat })
}

proof fn lemma_count_update(b: Seq<KomaKind>, i: int, v: KomaKind, f: spec_fn(KomaKind) -> bool)
    requires
        0 <= i < b.len(),
    ensures
        count_where(b.update(i, v), f) + (if f(b[i]) { 1nat } else { 0nat }) == count_where(b, f)
            + (if f(v) { 1nat } else { 0nat }),
    decreases b.len(),
{
    let u = b.update(i, v);
    if i == b.len() - 1 {
        assert(u.drop_last() =~= b.drop_last());
    } else {
        assert(u.drop_last() =~= b.drop_last().update(i, v));
        lemma_count_update(b.drop_last(), i, v, f);
    }
}

proof fn lemma_count_blank(b: Seq<KomaKind>, f: spec_fn(KomaKind) -> bool)
    requires
        forall|j: int| 0 <= j < b.len() ==> b[j] == KomaKind::Blank,
        !f(KomaKind::Blank),
    ensures
        count_where(b, f) == 0,
    decreases b.len(),
{
    if b.len() > 0 {
        lemma_count_blank(b.drop_last(), f);
    }
}

proof fn lemma_kind_index(k: MochigomaKind)
    ensures
        kind_at(kind_index(k)) == k,
        0 <= kind_index(k) < 7,
{
}

proof fn lemma_initial_balanced()
    ensures
        stock_balanced(initial_state()),
{
    let b = blank_board();
    lemma_count_blank(b, is_piece(KomaKind::SOu));
    lemma_count_blank(b, is_piece(KomaKind::GOu));
    assert forall|i: int| 0 <= i < 7 implies count_kind(b, kind_at(i)) + #[trigger] initial_state().ms[i]
        + initial_state().mg[i] == 2 * filled_counts()[i] by {
        lemma_count_blank(b, of_kind(kind_at(i)));
    }
}

proof fn lemma_place_balanced(st: PlaceState, t: Teban, code: Seq<char>, idx: int)
    requires
        stock_balanced(st),
        0 <= idx < 81,
        st.board[idx] == KomaKind::Blank,
        place_spec(st, t, code, idx) is Some,
    ensures
        stock_balanced(place_spec(st, t, code, idx)->Some_0),
{
    let s2 = place_spec(st, t, code, idx)->Some_0;
    let v = s2.board[idx];
    assert(s2.board == st.board.update(idx, v));
    lemma_count_update(st.board, idx, v, is_piece(KomaKind::SOu));
    lemma_count_update(st.board, idx, v, is_piece(KomaKind::GOu));
    assert forall|i: int| 0 <= i < 7 implies count_kind(s2.board, kind_at(i)) + #[trigger] s2.ms[i]
        + s2.mg[i] == 2 * filled_counts()[i] by {
        lemma_count_update(st.board, idx, v, of_kind(kind_at(i)));
        if !is_king_code(code) {
            let k = hand_kind_of_code(code)->Some_0;
            lemma_kind_index(k);
            assert(piece_hand_kind(v) == Some(k));
        }
    }
}

proof fn lemma_row_balanced(st: PlaceState, c: Seq<char>, row: int, col: int)
    requires
        stock_balanced(st),
        0 <= row < 9,
        0 <= col <= 9,
        forall|j: int| row * 9 + col <= j < 81 ==> st.board[j] == KomaKind::Blank,
        row_spec(st, c, row, col) is Some,
    ensures
        stock_balanced(row_spec(st, c, row, col)->Some_0),
        forall|j: int|
            row * 9 + 9 <= j < 81 ==> row_spec(st, c, row, col)->Some_0.board[j] == KomaKind::Blank,
    decreases 9 - col,
{
    if col >= 9 {
    } else if c[0] == '+' || c[0] == '-' {
        let t = if c[0] == '+' { Teban::Sente } else { Teban::Gote };
        let idx = row * 9 + col;
        lemma_place_balanced(st, t, c.subrange(1, 3), idx);
        let s2 = place_spec(st, t, c.subrange(1, 3), idx)->Some_0;
        assert(s2.board == st.board.update(idx, s2.board[idx]));
        lemma_row_balanced(s2, c.skip(3), row, col + 1);
    } else {
        lemma_row_balanced(st, if c.len() >= 3 { c.skip(3) } else { Seq::empty() }, row, col + 1);
    }
}

proof fn lemma_rows_balanced(st: PlaceState, lines: Seq<Seq<char>>, row: int)
    requires
        stock_balanced(st),
        0 <= row <= 9,
        forall|j: int| row * 9 <= j < 81 ==> st.board[j] == KomaKind::Blank,
        board_rows_spec(st, lines, row) is Some,
    ensures
        stock_balanced(board_rows_spec(st, lines, row)->Some_0),
    decreases 9 - row,
{
    if row < 9 {
        let l = lines[row];
        lemma_row_balanced(st, l.skip(2), row, 0);
        lemma_rows_balanced(row_spec(st, l.skip(2), row, 0)->Some_0, lines, row + 1);
    }
}

proof fn lemma_sweep_balanced(st: PlaceState, t: Teban)
    requires
        stock_balanced(st),
    ensures
        stock_balanced(sweep_spec(st, t)),
{
    let s2 = sweep_spec(st, t);
    assert forall|i: int| 0 <= i < 7 implies count_kind(s2.board, kind_at(i)) + #[trigger] s2.ms[i]
        + s2.mg[i] == 2 * filled_counts()[i] by {
        assert(st.ms[i] + st.mg[i] <= 18);
    }
}

proof fn lemma_list_rest_balanced(st: PlaceState, c: Seq<char>, t: Teban, last: bool)
    requires
        stock_balanced(st),
        list_rest(st, c, t, last) is Some,
    ensures
        stock_balanced(list_rest(st, c, t, last)->Some_0),
    decreases c.len(),
{
    if c.len() == 0 {
    } else if c[0] == '0' && c[1] == '0' {
        lemma_sweep_balanced(st, t);
    } else {
        let idx = square_index(digit(c[0]), digit(c[1]));
        lemma_place_balanced(st, t, c.subrange(2, 4), idx);
        lemma_list_rest_balanced(place_spec(st, t, c.subrange(2, 4), idx)->Some_0, c.skip(4), t, last);
    }
}

proof fn lemma_list_lines_balanced(st: PlaceState, lines: Seq<Seq<char>>, i: int)
    requires
        stock_balanced(st),
        0 <= i,
        list_lines_spec(st, lines, i) is Some,
    ensures
        stock_balanced(list_lines_spec(st, lines, i)->Some_0),
    decreases lines.len() - i,
{
    if i < lines.len() {
        let l = lines[i];
        let t = if l[1] == '+' { Teban::Sente } else { Teban::Gote };
        lemma_list_rest_balanced(st, l.skip(2), t, i == lines.len() - 1);
        lemma_list_lines_balanced(list_rest(st, l.skip(2), t, i == lines.len() - 1)->Some_0, lines, i + 1);
    }
}

/// Board reconstruction: when a position block with stocks decodes, every piece-kind
/// on the board and in both stocks together numbers exactly two full stocks, never more,
/// and each side has at most one king on the board.
pub proof fn lemma_position_stock_balanced(lines: Seq<Seq<char>>)
    requires
        lines.len() > 0,
        position_spec(lines) is Some,
        position_spec(lines)->Some_0.1 is Some,
    ensures
        ({
            let b = position_spec(lines)->Some_0.0;
            let (ms, mg) = position_spec(lines)->Some_0.1->Some_0;
            &&& forall|i: int|
                0 <= i < 7 ==> count_kind(b, kind_at(i)) + #[trigger] ms[i] + mg[i] == 2
                    * filled_counts()[i]
            &&& count_piece(b, KomaKind::SOu) <= 1
            &&& count_piece(b, KomaKind::GOu) <= 1
        }),
{
    lemma_initial_balanced();
    let l = lines[0];
    if has_prefix(l, "PI"@) {
    } else if has_prefix(l, "P1"@) {
        lemma_rows_balanced(initial_state(), lines, 0);
    } else {
        lemma_list_lines_balanced(initial_state(), lines, 0);
    }
}

} // verus!

verus! {

proof fn lemma_pi_rest_only_removes(board: Seq<KomaKind>, c: Seq<char>)
    requires
        board.len() == 81,
        forall|i: int| 0 <= i < 81 ==> board[i] == start_board()[i] || board[i] == KomaKind::Blank,
        pi_rest(board, c) is Some,
    ensures
        pi_rest(board, c)->Some_0.len() == 81,
        forall|i: int|
            0 <= i < 81 ==> #[trigger] pi_rest(board, c)->Some_0[i] == start_board()[i]
                || pi_rest(board, c)->Some_0[i] == KomaKind::Blank,
    decreases c.len(),
{
    if c.len() > 0 {
        let idx = square_index(digit(c[0]), digit(c[1]));
        let b2 = board.update(idx, KomaKind::Blank);
        assert forall|i: int| 0 <= i < 81 implies b2[i] == start_board()[i] || b2[i]
            == KomaKind::Blank by {}
        lemma_pi_rest_only_removes(b2, c.skip(4));
    }
}

/// The shorthand line, with any number of removals, only empties squares of the standard
/// arrangement: every square of the decoded board holds its standard piece or nothing,
/// so putting the standard piece back on each emptied square gives the standard
/// arrangement again.
pub proof fn lemma_shorthand_removes_only(l: Seq<char>)
    requires
        has_prefix(l, "PI"@),
        position_spec(seq![l]) is Some,
    ensures
        ({
            let b = position_spec(seq![l])->Some_0.0;
            &&& position_spec(seq![l])->Some_0.1 is None
            &&& b.len() == 81
            &&& forall|i: int| 0 <= i < 81 ==> #[trigger] b[i] == start_board()[i] || b[i] == KomaKind::Blank
            &&& Seq::new(81, |i: int| if b[i] == KomaKind::Blank { start_board()[i] } else { b[i] })
                == start_board()
        }),
{
    assert(seq![l][0] == l);
    lemma_pi_rest_only_removes(start_board(), l.skip(2));
    let b = position_spec(seq![l])->Some_0.0;
    assert(Seq::new(81, |i: int| if b[i] == KomaKind::Blank { start_board()[i] } else { b[i] })
        =~= start_board());
}

} // verus!

verus! {

proof fn lemma_count_at_most_one(b: Seq<KomaKind>, f: spec_fn(KomaKind) -> bool, i: int)
    requires
        forall|j: int| 0 <= j < b.len() && j != i ==> !f(#[trigger] b[j]),
    ensures
        count_where(b, f) <= 1,
        i < 0 || i >= b.len() ==> count_where(b, f) == 0,
    decreases b.len(),
{
    if b.len() > 0 {
        let d = b.drop_last();
        assert forall|j: int| 0 <= j < d.len() && j != i implies !f(#[trigger] d[j]) by {
            assert(d[j] == b[j]);
        }
        lemma_count_at_most_one(d, f, i);
        if i == b.len() - 1 {
            assert forall|j: int| 0 <= j < d.len() && j != -1 implies !f(#[trigger] d[j]) by {
                assert(d[j] == b[j]);
            }
            lemma_count_at_most_one(d, f, -1);
        }
    }
}

proof fn lemma_start_kings_unique(j: int)
    requires
        0 <= j < 81,
    ensures
        start_board()[j] == KomaKind::SOu ==> j == 76,
        start_board()[j] == KomaKind::GOu ==> j == 4,
{
    assert(j == 9 * (j / 9) + j % 9);
}

/// A decoded board and its stocks keep the counts in bounds: with stocks, each
/// piece-kind on the board and in both stocks numbers at most two full stocks; and each
/// side has at most one king on the board.
pub open spec fn position_bounded(b: Seq<KomaKind>, h: Option<(Seq<u32>, Seq<u32>)>) -> bool {
    &&& (h is Some ==> forall|i: int|
        0 <= i < 7 ==> count_kind(b, kind_at(i)) + #[trigger] h->Some_0.0[i] + h->Some_0.1[i] <= 2
            * filled_counts()[i])
    &&& count_piece(b, KomaKind::SOu) <= 1
    &&& count_piece(b, KomaKind::GOu) <= 1
}

/// Every position block that decodes, in any of the three forms, is in bounds.
pub proof fn lemma_position_bounded(lines: Seq<Seq<char>>)
    requires
        lines.len() > 0,
        position_spec(lines) is Some,
    ensures
        position_bounded(position_spec(lines)->Some_0.0, position_spec(lines)->Some_0.1),
{
    let l = lines[0];
    if has_prefix(l, "PI"@) {
        assert(seq![l][0] == l);
        assert(position_spec(seq![l]) == position_spec(lines));
        lemma_shorthand_removes_only(l);
        let b = position_spec(lines)->Some_0.0;
        assert forall|j: int| 0 <= j < b.len() && j != 76 implies !is_piece(KomaKind::SOu)(#[trigger] b[j]) by {
            lemma_start_kings_unique(j);
        }
        assert forall|j: int| 0 <= j < b.len() && j != 4 implies !is_piece(KomaKind::GOu)(#[trigger] b[j]) by {
            lemma_start_kings_unique(j);
        }
        lemma_count_at_most_one(b, is_piece(KomaKind::SOu), 76);
        lemma_count_at_most_one(b, is_piece(KomaKind::GOu), 4);
    } else {
        lemma_position_stock_balanced(lines);
    }
}

} // verus!
