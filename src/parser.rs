use vstd::prelude::*;
use crate::error::{kind_of, CsaParserError, ErrorKind};
use crate::info::{empty_info, info_update, opt_text, InfoView, KifuInfo};
use crate::moves::{moves_spec, CsaMove, CsaMoves, CsaMovesParser, EndState};
use crate::position::{
    count_kind, count_piece, count_where, hands_view, is_piece, lemma_position_bounded, of_kind,
    position_bounded, position_spec, CsaPositionParser,
};
use crate::reader::{raw_statements, CsaLinesStream, CsaStream};
use crate::shogi::{blank_board, kind_at, Banmen, KomaKind, Mochigoma, MochigomaCollections, Teban};
use crate::strings::{has_prefix, lines_view, same_text, starts_with, text_after};

verus! {

/// The section of a record that the decoder has reached.
#[derive(Clone, Copy, PartialEq, Eq, Structural, Debug)]
pub enum Stage {
    Initial,
    Version,
    Info,
    Position,
    Moves,
}

/// Sections are reached in this order.
pub open spec fn stage_rank(s: Stage) -> int {
    match s {
        Stage::Initial => 0,
        Stage::Version => 1,
        Stage::Info => 2,
        Stage::Position => 3,
        Stage::Moves => 4,
    }
}

impl Stage {
    pub fn rank(&self) -> (r: u8)
        ensures
            r == stage_rank(*self),
    {
        match self {
            Stage::Initial => 0,
            Stage::Version => 1,
            Stage::Info => 2,
            Stage::Position => 3,
            Stage::Moves => 4,
        }
    }
}

/// One decoded game record.
#[derive(Debug)]
pub struct CsaData {
    pub version: Option<String>,
    pub kifu_info: Option<KifuInfo>,
    pub teban_at_start: Teban,
    pub initial_position: Banmen,
    pub initial_mochigoma: MochigomaCollections,
    pub moves: CsaMoves,
    pub end_state: Option<EndState>,
    pub comments: Vec<String>,
}

/// A record in mathematical terms.
pub struct RecordView {
    pub version: Option<Seq<char>>,
    pub info: Option<InfoView>,
    pub teban: Teban,
    pub board: Seq<KomaKind>,
    pub hands: Option<(Seq<u32>, Seq<u32>)>,
    pub moves: Seq<CsaMove>,
    pub end_state: Option<EndState>,
    pub comments: Seq<Seq<char>>,
}

pub open spec fn opt_info(i: Option<KifuInfo>) -> Option<InfoView> {
    match i {
        None => None,
        Some(i) => Some(i@),
    }
}

impl View for CsaData {
    type V = RecordView;

    open spec fn view(&self) -> RecordView {
        RecordView {
            version: opt_text(self.version),
            info: opt_info(self.kifu_info),
            teban: self.teban_at_start,
            board: self.initial_position@,
            hands: hands_view(self.initial_mochigoma),
            moves: self.moves@,
            end_state: self.end_state,
            comments: lines_view(self.comments@),
        }
    }
}

impl CsaData {
    pub fn new(
        version: Option<String>,
        kifu_info: Option<KifuInfo>,
        teban: Teban,
        banmen: Banmen,
        mochigoma: MochigomaCollections,
        mvs: CsaMoves,
        end_state: Option<EndState>,
        comments: Vec<String>,
    ) -> (r: CsaData)
        ensures
            r.version == version,
            r.kifu_info == kifu_info,
            r.teban_at_start == teban,
            r.initial_position == banmen,
            r.initial_mochigoma == mochigoma,
            r.moves == mvs,
            r.end_state == end_state,
            r.comments == comments,
    {
        CsaData {
            version,
            kifu_info,
            teban_at_start: teban,
            initial_position: banmen,
            initial_mochigoma: mochigoma,
            moves: mvs,
            end_state,
            comments,
        }
    }
}

/// The records in mathematical terms.
pub open spec fn records_view(v: Seq<CsaData>) -> Seq<RecordView> {
    v.map_values(|d: CsaData| d@)
}

/// A multi-line block being collected.
#[derive(Clone, Copy, PartialEq, Eq, Structural, Debug)]
pub enum BlockKind {
    Position,
    Moves,
}

/// The decoder between two statements.
pub struct BuildState {
    pub stage: Stage,
    pub results: Seq<RecordView>,
    pub cur: RecordView,
    pub block: Option<BlockKind>,
    pub block_lines: Seq<Seq<char>>,
}

/// The record that a new section starts from.
pub open spec fn empty_record() -> RecordView {
    RecordView {
        version: None,
        info: None,
        teban: Teban::Sente,
        board: blank_board(),
        hands: Some((Seq::new(7, |i: int| 0u32), Seq::new(7, |i: int| 0u32))),
        moves: Seq::empty(),
        end_state: None,
        comments: Seq::empty(),
    }
}

/// Before the first statement.
pub open spec fn initial_build() -> BuildState {
    BuildState {
        stage: Stage::Initial,
        results: Seq::empty(),
        cur: empty_record(),
        block: None,
        block_lines: Seq::empty(),
    }
}

/// Statement `l` belongs to the block being collected.
pub open spec fn continues(kind: BlockKind, l: Seq<char>) -> bool {
    match kind {
        BlockKind::Position => has_prefix(l, "P"@),
        BlockKind::Moves => has_prefix(l, "+"@) || has_prefix(l, "-"@) || has_prefix(l, "T"@)
            || has_prefix(l, "%"@),
    }
}

/// Decodes the block being collected, if any, into the current record.
pub open spec fn flush_spec(st: BuildState) -> Result<BuildState, ErrorKind> {
    match st.block {
        None => Ok(st),
        Some(kind) => if st.block_lines.len() == 0 {
            Err(ErrorKind::InvalidState)
        } else {
            match kind {
                BlockKind::Position => match position_spec(st.block_lines) {
                    None => Err(ErrorKind::Format),
                    Some((b, h)) => Ok(
                        BuildState {
                            cur: RecordView { board: b, hands: h, ..st.cur },
                            block: None,
                            block_lines: Seq::empty(),
                            ..st
                        },
                    ),
                },
                BlockKind::Moves => match moves_spec(st.block_lines, st.cur.board) {
                    Err(e) => Err(e),
                    Ok((t, m, es)) => Ok(
                        BuildState {
                            cur: RecordView { teban: t, moves: m, end_state: es, ..st.cur },
                            block: None,
                            block_lines: Seq::empty(),
                            ..st
                        },
                    ),
                },
            }
        },
    }
}

/// The section rules, in order; the first that matches applies.
pub open spec fn dispatch_spec(st: BuildState, l: Seq<char>) -> Result<BuildState, ErrorKind> {
    let r = stage_rank(st.stage);
    if has_prefix(l, "V"@) && st.stage == Stage::Initial {
        Ok(
            BuildState {
                stage: Stage::Version,
                cur: RecordView { version: Some(l.skip(1)), ..st.cur },
                ..st
            },
        )
    } else if (has_prefix(l, "N+"@) || has_prefix(l, "N-"@) || has_prefix(l, "$"@)) && (st.stage
        == Stage::Version || st.stage == Stage::Info) {
        let base = match st.cur.info {
            None => empty_info(),
            Some(i) => i,
        };
        match info_update(base, l) {
            Err(e) => Err(e),
            Ok(i) => Ok(
                BuildState { stage: Stage::Info, cur: RecordView { info: Some(i), ..st.cur }, ..st },
            ),
        }
    } else if has_prefix(l, "PI"@) && 1 <= r <= 2 {
        match position_spec(seq![l]) {
            None => Err(ErrorKind::Format),
            Some((b, h)) => Ok(
                BuildState {
                    stage: Stage::Position,
                    cur: RecordView { board: b, hands: h, ..st.cur },
                    ..st
                },
            ),
        }
    } else if (has_prefix(l, "P1"@) || has_prefix(l, "P+"@) || has_prefix(l, "P-"@)) && 1 <= r
        <= 2 {
        Ok(
            BuildState {
                stage: Stage::Position,
                block: Some(BlockKind::Position),
                block_lines: seq![l],
                ..st
            },
        )
    } else if (l == "+"@ || l == "-"@) && st.stage == Stage::Position {
        Ok(
            BuildState {
                stage: Stage::Moves,
                block: Some(BlockKind::Moves),
                block_lines: seq![l],
                ..st
            },
        )
    } else if l == "/"@ && r >= 3 {
        Ok(
            BuildState {
                stage: Stage::Initial,
                results: st.results.push(st.cur),
                cur: empty_record(),
                ..st
            },
        )
    } else {
        Err(ErrorKind::Format)
    }
}

/// The decoder after statement `l`: a comment line is kept aside, a line of the block
/// being collected joins it, any other line first closes that block.
pub open spec fn step_spec(st: BuildState, l: Seq<char>) -> Result<BuildState, ErrorKind> {
    if has_prefix(l, "'"@) {
        Ok(BuildState { cur: RecordView { comments: st.cur.comments.push(l.skip(1)), ..st.cur }, ..st })
    } else if st.block is Some && continues(st.block->Some_0, l) {
        Ok(BuildState { block_lines: st.block_lines.push(l), ..st })
    } else {
        match flush_spec(st) {
            Err(e) => Err(e),
            Ok(s2) => dispatch_spec(s2, l),
        }
    }
}

/// The records at the end of the input: the one in progress counts only once its
/// position is known.
pub open spec fn finish_spec(st: BuildState) -> Result<Seq<RecordView>, ErrorKind> {
    match flush_spec(st) {
        Err(e) => Err(e),
        Ok(s2) => if stage_rank(s2.stage) >= 3 {
            Ok(s2.results.push(s2.cur))
        } else {
            Err(ErrorKind::Format)
        },
    }
}

/// The decoder after the statements `lines`.
pub open spec fn run_spec(st: BuildState, lines: Seq<Seq<char>>) -> Result<BuildState, ErrorKind>
    decreases lines.len(),
{
    if lines.len() == 0 {
        Ok(st)
    } else {
        match step_spec(st, lines[0]) {
            Err(e) => Err(e),
            Ok(s2) => run_spec(s2, lines.skip(1)),
        }
    }
}

/// What a sequence of statements decodes to.
pub open spec fn parse_spec(lines: Seq<Seq<char>>) -> Result<Seq<RecordView>, ErrorKind> {
    match run_spec(initial_build(), lines) {
        Err(e) => Err(e),
        Ok(s) => finish_spec(s),
    }
}

} // verus!

verus! {

/// Whether statement `l` belongs to a block of kind `kind`.
fn block_continues(kind: BlockKind, l: &str) -> (r: bool)
    ensures
        r == continues(kind, l@),
{
    match kind {
        BlockKind::Position => starts_with(l, "P"),
        BlockKind::Moves => starts_with(l, "+") || starts_with(l, "-") || starts_with(l, "T")
            || starts_with(l, "%"),
    }
}

fn format_error() -> (r: CsaParserError)
    ensures
        r is FormatError,
{
    CsaParserError::FormatError(String::from_str("Invalid csa format."))
}

/// The record decoder: fed one statement at a time, it assembles the records.
pub struct CsaRecordBuilder {
    results: Vec<CsaData>,
    stage: Stage,
    version: Option<String>,
    info: Option<KifuInfo>,
    teban: Teban,
    banmen: Banmen,
    mc: MochigomaCollections,
    mvs: CsaMoves,
    end_state: Option<EndState>,
    comments: Vec<String>,
    block: Option<BlockKind>,
    block_lines: Vec<String>,
}

impl View for CsaRecordBuilder {
    type V = BuildState;

    closed spec fn view(&self) -> BuildState {
        BuildState {
            stage: self.stage,
            results: records_view(self.results@),
            cur: RecordView {
                version: opt_text(self.version),
                info: opt_info(self.info),
                teban: self.teban,
                board: self.banmen@,
                hands: hands_view(self.mc),
                moves: self.mvs@,
                end_state: self.end_state,
                comments: lines_view(self.comments@),
            },
            block: self.block,
            block_lines: lines_view(self.block_lines@),
        }
    }
}

impl CsaRecordBuilder {
    pub closed spec fn wf(&self) -> bool {
        self.banmen.wf() && self.mvs.wf()
    }

    pub fn new() -> (r: CsaRecordBuilder)
        ensures
            r.wf(),
            r@ == initial_build(),
    {
        let r = CsaRecordBuilder {
            results: Vec::new(),
            stage: Stage::Initial,
            version: None,
            info: None,
            teban: Teban::Sente,
            banmen: Banmen::blank(),
            mc: MochigomaCollections::Pair(Mochigoma::empty(), Mochigoma::empty()),
            mvs: CsaMoves::new(),
            end_state: None,
            comments: Vec::new(),
            block: None,
            block_lines: Vec::new(),
        };
        assert(records_view(r.results@) =~= Seq::<RecordView>::empty());
        assert(lines_view(r.comments@) =~= Seq::<Seq<char>>::empty());
        assert(r@ =~= initial_build());
        r
    }

    /// Decodes the block being collected, if any.
    fn flush(&mut self) -> (r: Result<(), CsaParserError>)
        requires
            old(self).wf(),
        ensures
            final(self).wf(),
            match flush_spec(old(self)@) {
                Err(e) => r is Err && kind_of(r->Err_0) == e,
                Ok(s) => r is Ok && final(self)@ == s,
            },
    {
        match self.block {
            None => Ok(()),
            Some(kind) => {
                let mut lines: Vec<String> = Vec::new();
                std::mem::swap(&mut lines, &mut self.block_lines);
                self.block = None;
                assert(lines_view(self.block_lines@) =~= Seq::<Seq<char>>::empty());
                match kind {
                    BlockKind::Position => {
                        let (b, m) = CsaPositionParser::new().parse(lines)?;
                        self.banmen = b;
                        self.mc = m;
                    },
                    BlockKind::Moves => {
                        let (t, m, s) = CsaMovesParser::new().parse(lines, &self.banmen)?;
                        self.teban = t;
                        self.mvs = m;
                        self.end_state = s;
                    },
                }
                Ok(())
            },
        }
    }

    /// Closes the current record and starts a new one.
    fn emit(&mut self)
        requires
            old(self).wf(),
        ensures
            final(self).wf(),
            final(self)@ == (BuildState {
                stage: Stage::Initial,
                results: old(self)@.results.push(old(self)@.cur),
                cur: empty_record(),
                ..old(self)@
            }),
    {
        let mut version: Option<String> = None;
        std::mem::swap(&mut version, &mut self.version);
        let mut info: Option<KifuInfo> = None;
        std::mem::swap(&mut info, &mut self.info);
        let mut banmen = Banmen::blank();
        std::mem::swap(&mut banmen, &mut self.banmen);
        let mut mc = MochigomaCollections::Pair(Mochigoma::empty(), Mochigoma::empty());
        std::mem::swap(&mut mc, &mut self.mc);
        let mut mvs = CsaMoves::new();
        std::mem::swap(&mut mvs, &mut self.mvs);
        let mut comments: Vec<String> = Vec::new();
        std::mem::swap(&mut comments, &mut self.comments);
        let teban = self.teban;
        let end_state = self.end_state;
        self.teban = Teban::Sente;
        self.end_state = None;
        let d = CsaData::new(version, info, teban, banmen, mc, mvs, end_state, comments);
        let ghost before = self.results@;
        self.results.push(d);
        self.stage = Stage::Initial;
        assert(records_view(self.results@) =~= records_view(before).push(d@));
        assert(lines_view(self.comments@) =~= Seq::<Seq<char>>::empty());
    }

    /// Applies the section rules to statement `line`.
    fn dispatch(&mut self, line: String) -> (r: Result<(), CsaParserError>)
        requires
            old(self).wf(),
        ensures
            final(self).wf(),
            match dispatch_spec(old(self)@, line@) {
                Err(e) => r is Err && kind_of(r->Err_0) == e,
                Ok(s) => r is Ok && final(self)@ == s,
            },
    {
        let r = self.stage.rank();
        let l = line.as_str();
        if starts_with(l, "V") && self.stage == Stage::Initial {
            proof {
                reveal_strlit("V");
            }
            self.stage = Stage::Version;
            self.version = Some(text_after(l, 1));
            Ok(())
        } else if (starts_with(l, "N+") || starts_with(l, "N-") || starts_with(l, "$")) && (
        self.stage == Stage::Version || self.stage == Stage::Info) {
            let mut current: Option<KifuInfo> = None;
            std::mem::swap(&mut current, &mut self.info);
            let mut info = match current {
                None => KifuInfo::new(),
                Some(i) => i,
            };
            info.parse(&line)?;
            self.info = Some(info);
            self.stage = Stage::Info;
            Ok(())
        } else if starts_with(l, "PI") && 1 <= r && r <= 2 {
            let ghost lv = line@;
            let lines = vec![line];
            assert(lines_view(lines@) =~= seq![lv]);
            let (b, m) = CsaPositionParser::new().parse(lines)?;
            self.stage = Stage::Position;
            self.banmen = b;
            self.mc = m;
            Ok(())
        } else if (starts_with(l, "P1") || starts_with(l, "P+") || starts_with(l, "P-")) && 1 <= r
            && r <= 2 {
            let ghost lv = line@;
            self.stage = Stage::Position;
            self.block = Some(BlockKind::Position);
            self.block_lines = vec![line];
            assert(lines_view(self.block_lines@) =~= seq![lv]);
            Ok(())
        } else if (same_text(l, "+") || same_text(l, "-")) && self.stage == Stage::Position {
            let ghost lv = line@;
            self.stage = Stage::Moves;
            self.block = Some(BlockKind::Moves);
            self.block_lines = vec![line];
            assert(lines_view(self.block_lines@) =~= seq![lv]);
            Ok(())
        } else if same_text(l, "/") && r >= 3 {
            self.emit();
            Ok(())
        } else {
            Err(format_error())
        }
    }

    /// Takes the next statement.
    pub fn feed(&mut self, line: String) -> (r: Result<(), CsaParserError>)
        requires
            old(self).wf(),
        ensures
            final(self).wf(),
            match step_spec(old(self)@, line@) {
                Err(e) => r is Err && kind_of(r->Err_0) == e,
                Ok(s) => r is Ok && final(self)@ == s,
            },
    {
        if starts_with(line.as_str(), "'") {
            proof {
                reveal_strlit("'");
            }
            let ghost before = self.comments@;
            self.comments.push(text_after(line.as_str(), 1));
            assert(lines_view(self.comments@) =~= lines_view(before).push(line@.skip(1)));
            return Ok(());
        }
        match self.block {
            Some(kind) => {
                if block_continues(kind, line.as_str()) {
                    let ghost before = self.block_lines@;
                    let ghost lv = line@;
                    self.block_lines.push(line);
                    assert(lines_view(self.block_lines@) =~= lines_view(before).push(lv));
                    return Ok(());
                }
            },
            None => {},
        }
        self.flush()?;
        self.dispatch(line)
    }

    /// Ends the input and hands out the records.
    pub fn finish(self) -> (r: Result<Vec<CsaData>, CsaParserError>)
        requires
            self.wf(),
        ensures
            match finish_spec(self@) {
                Err(e) => r is Err && kind_of(r->Err_0) == e,
                Ok(v) => r is Ok && records_view(r->Ok_0@) == v,
            },
    {
        let mut b = self;
        b.flush()?;
        if b.stage.rank() >= 3 {
            b.emit();
            Ok(b.results)
        } else {
            Err(format_error())
        }
    }
}

/// Decodes a sequence of statements into records.
pub fn parse_statements(lines: Vec<String>) -> (r: Result<Vec<CsaData>, CsaParserError>)
    ensures
        match parse_spec(lines_view(lines@)) {
            Err(e) => r is Err && kind_of(r->Err_0) == e,
            Ok(v) => r is Ok && records_view(r->Ok_0@) == v,
        },
{
    let ghost lv = lines_view(lines@);
    let mut b = CsaRecordBuilder::new();
    let mut i: usize = 0;
    assert(lv.skip(0) =~= lv);
    while i < lines.len()
        invariant
            b.wf(),
            i <= lines@.len(),
            lv == lines_view(lines@),
            run_spec(initial_build(), lv) == run_spec(b@, lv.skip(i as int)),
        decreases lines@.len() - i,
    {
        let l = lines[i].clone();
        assert(lv.skip(i as int)[0] == l@);
        assert(lv.skip(i as int).skip(1) =~= lv.skip(i + 1));
        b.feed(l)?;
        i = i + 1;
    }
    assert(lv.skip(i as int) =~= Seq::<Seq<char>>::empty());
    b.finish()
}

} // verus!

verus! {

/// The decoder after statements `a` and then `x`.
pub proof fn lemma_run_push(st: BuildState, a: Seq<Seq<char>>, x: Seq<char>)
    ensures
        run_spec(st, a.push(x)) == match run_spec(st, a) {
            Err(e) => Err(e),
            Ok(s) => step_spec(s, x),
        },
    decreases a.len(),
{
    if a.len() == 0 {
        assert(a.push(x).skip(1) =~= Seq::<Seq<char>>::empty());
        assert(a.push(x)[0] == x);
        match step_spec(st, x) {
            Err(e) => {},
            Ok(s2) => {
                assert(run_spec(s2, a.push(x).skip(1)) == Ok::<BuildState, ErrorKind>(s2));
            },
        }
    } else {
        assert(a.push(x)[0] == a[0]);
        assert(a.push(x).skip(1) =~= a.skip(1).push(x));
        match step_spec(st, a[0]) {
            Err(e) => {},
            Ok(s2) => {
                lemma_run_push(s2, a.skip(1), x);
            },
        }
    }
}

/// Reads every record from a statement source.
pub struct CsaParser<S> where S: CsaStream {
    st: S,
}

impl<S> CsaParser<S> where S: CsaStream {
    pub fn new(st: S) -> (r: CsaParser<S>) {
        CsaParser { st }
    }

    /// Decodes the records of the whole source. Whatever statements the source hands
    /// out, a success is what `parse_spec` gives on them, and so is a malformed record
    /// or number. `InvalidStateError` comes only from a source that hands out more
    /// statements than a `usize` counts.
    pub fn parse(&mut self) -> (r: Result<Vec<CsaData>, CsaParserError>)
        ensures
            r is Ok ==> exists|s: Seq<Seq<char>>| parse_spec(s) == Ok::<Seq<RecordView>, ErrorKind>(records_view(r->Ok_0@)),
            r is Err && (kind_of(r->Err_0) == ErrorKind::Format || kind_of(r->Err_0) == ErrorKind::Number) ==> exists|s: Seq<Seq<char>>| parse_spec(s) == Err::<Seq<RecordView>, ErrorKind>(kind_of(r->Err_0)),
    {
        let mut b = CsaRecordBuilder::new();
        let ghost mut pulled: Seq<Seq<char>> = Seq::empty();
        let mut n: usize = 0;
        loop
            invariant
                b.wf(),
                run_spec(initial_build(), pulled) == Ok::<BuildState, ErrorKind>(b@),
            decreases usize::MAX - n,
        {
            if n == usize::MAX {
                return Err(CsaParserError::InvalidStateError(String::from_str("Too many statements.")));
            }
            match self.st.next() {
                Err(e) => {
                    return Err(CsaParserError::StreamReadError(e));
                },
                Ok(None) => {
                    break;
                },
                Ok(Some(l)) => {
                    proof {
                        lemma_run_push(initial_build(), pulled, l@);
                    }
                    let ghost lv = l@;
                    let ghost prev = pulled;
                    match b.feed(l) {
                        Err(e) => {
                            assert(parse_spec(prev.push(lv)) == Err::<Seq<RecordView>, ErrorKind>(kind_of(e)));
                            return Err(e);
                        },
                        Ok(()) => {},
                    }
                    proof {
                        pulled = pulled.push(lv);
                    }
                },
            }
            n = n + 1;
        }
        let r = b.finish();
        assert(parse_spec(pulled) == finish_spec(b@));
        r
    }
}

} // verus!

verus! {

/// Decoding depends on the statements alone: the same statements decode to the same
/// records, or fail the same way.
pub proof fn lemma_parse_deterministic(a: Seq<Seq<char>>, b: Seq<Seq<char>>)
    requires
        a == b,
    ensures
        parse_spec(a) == parse_spec(b),
{
}

} // verus!

verus! {

/// Decodes the records held by physical lines in memory: exactly what `parse_spec`
/// gives on their statements.
pub fn parse_lines(raw: Vec<String>) -> (r: Result<Vec<CsaData>, CsaParserError>)
    ensures
        match parse_spec(raw_statements(lines_view(raw@))) {
            Err(e) => r is Err && kind_of(r->Err_0) == e,
            Ok(v) => r is Ok && records_view(r->Ok_0@) == v,
        },
{
    let ghost total = raw_statements(lines_view(raw@));
    let mut st = CsaLinesStream::new(raw);
    let mut b = CsaRecordBuilder::new();
    let ghost mut pulled: Seq<Seq<char>> = Seq::empty();
    assert(pulled + st.statements() =~= total);
    loop
        invariant
            b.wf(),
            total == raw_statements(lines_view(raw@)),
            pulled + st.statements() == total,
            run_spec(initial_build(), pulled) == Ok::<BuildState, ErrorKind>(b@),
        ensures
            b.wf(),
            pulled == total,
            total == raw_statements(lines_view(raw@)),
            run_spec(initial_build(), pulled) == Ok::<BuildState, ErrorKind>(b@),
        decreases st.statements().len(),
    {
        let ghost before = st.statements();
        let next = st.next();
        match next {
            Err(_) => {
                return Err(format_error());
            },
            Ok(None) => {
                assert(before.len() == 0);
                assert(pulled =~= total);
                break;
            },
            Ok(Some(l)) => {
                proof {
                    lemma_run_push(initial_build(), pulled, l@);
                }
                let ghost lv = l@;
                let ghost prev = pulled;
                assert(prev.push(lv) + before.drop_first() =~= prev + before);
                match b.feed(l) {
                    Err(e) => {
                        proof {
                            lemma_run_prefix_error(prev.push(lv), before.drop_first());
                        }
                        assert(prev.push(lv) + before.drop_first() == total);
                        return Err(e);
                    },
                    Ok(()) => {},
                }
                proof {
                    pulled = pulled.push(lv);
                }
            },
        }
    }
    b.finish()
}

/// A failure on a prefix of the statements is the failure of the whole sequence.
proof fn lemma_run_prefix_error(a: Seq<Seq<char>>, rest: Seq<Seq<char>>)
    requires
        run_spec(initial_build(), a) is Err,
    ensures
        run_spec(initial_build(), a + rest) == run_spec(initial_build(), a),
        parse_spec(a + rest) == Err::<Seq<RecordView>, ErrorKind>(run_spec(initial_build(), a)->Err_0),
    decreases rest.len(),
{
    if rest.len() > 0 {
        let a2 = a.push(rest[0]);
        lemma_run_push(initial_build(), a, rest[0]);
        assert(a + rest =~= a2 + rest.skip(1));
        lemma_run_prefix_error(a2, rest.skip(1));
    } else {
        assert(a + rest =~= a);
    }
}

/// Decoding depends on the physical lines alone: the same lines decode to the same
/// records, or fail the same way.
pub proof fn lemma_lines_deterministic(a: Seq<Seq<char>>, b: Seq<Seq<char>>)
    requires
        a == b,
    ensures
        parse_spec(raw_statements(a)) == parse_spec(raw_statements(b)),
{
}

} // verus!

verus! {

/// Every record built so far, and the one in progress, is in bounds.
pub open spec fn all_bounded(st: BuildState) -> bool {
    &&& forall|k: int|
        0 <= k < st.results.len() ==> position_bounded(
            (#[trigger] st.results[k]).board,
            st.results[k].hands,
        )
    &&& position_bounded(st.cur.board, st.cur.hands)
}

proof fn lemma_empty_record_bounded()
    ensures
        position_bounded(empty_record().board, empty_record().hands),
{
    let b = blank_board();
    lemma_count_blank_board(b);
}

proof fn lemma_count_blank_board(b: Seq<KomaKind>)
    requires
        b == blank_board(),
    ensures
        count_piece(b, KomaKind::SOu) == 0,
        count_piece(b, KomaKind::GOu) == 0,
        forall|i: int| 0 <= i < 7 ==> #[trigger] count_kind(b, kind_at(i)) == 0,
{
    assert forall|j: int| 0 <= j < b.len() && j != -1 implies !is_piece(KomaKind::SOu)(#[trigger] b[j]) by {}
    assert forall|j: int| 0 <= j < b.len() && j != -1 implies !is_piece(KomaKind::GOu)(#[trigger] b[j]) by {}
    lemma_count_none(b, is_piece(KomaKind::SOu));
    lemma_count_none(b, is_piece(KomaKind::GOu));
    assert forall|i: int| 0 <= i < 7 implies #[trigger] count_kind(b, kind_at(i)) == 0 by {
        lemma_count_none(b, of_kind(kind_at(i)));
    }
}

proof fn lemma_count_none(b: Seq<KomaKind>, f: spec_fn(KomaKind) -> bool)
    requires
        forall|j: int| 0 <= j < b.len() ==> !f(#[trigger] b[j]),
    ensures
        count_where(b, f) == 0,
    decreases b.len(),
{
    if b.len() > 0 {
        let d = b.drop_last();
        assert forall|j: int| 0 <= j < d.len() implies !f(#[trigger] d[j]) by {
            assert(d[j] == b[j]);
        }
        lemma_count_none(d, f);
    }
}

proof fn lemma_step_bounded(st: BuildState, l: Seq<char>)
    requires
        all_bounded(st),
        step_spec(st, l) is Ok,
    ensures
        all_bounded(step_spec(st, l)->Ok_0),
{
    let s1 = if has_prefix(l, "'"@) || (st.block is Some && continues(st.block->Some_0, l)) {
        st
    } else {
        flush_spec(st)->Ok_0
    };
    if !(has_prefix(l, "'"@) || (st.block is Some && continues(st.block->Some_0, l))) {
        if st.block == Some(BlockKind::Position) {
            lemma_position_bounded(st.block_lines);
        }
        assert(all_bounded(s1));
        let r = stage_rank(s1.stage);
        if has_prefix(l, "V"@) && s1.stage == Stage::Initial {
        } else if (has_prefix(l, "N+"@) || has_prefix(l, "N-"@) || has_prefix(l, "$"@)) && (s1.stage
            == Stage::Version || s1.stage == Stage::Info) {
        } else if has_prefix(l, "PI"@) && 1 <= r <= 2 {
            lemma_position_bounded(seq![l]);
        } else if (has_prefix(l, "P1"@) || has_prefix(l, "P+"@) || has_prefix(l, "P-"@)) && 1 <= r
            <= 2 {
        } else if (l == "+"@ || l == "-"@) && s1.stage == Stage::Position {
        } else if l == "/"@ && r >= 3 {
            lemma_empty_record_bounded();
            let s2 = dispatch_spec(s1, l)->Ok_0;
            assert forall|k: int| 0 <= k < s2.results.len() implies position_bounded(
                (#[trigger] s2.results[k]).board,
                s2.results[k].hands,
            ) by {
                if k < s1.results.len() {
                    assert(s2.results[k] == s1.results[k]);
                }
            }
        }
    }
}

proof fn lemma_run_bounded(st: BuildState, lines: Seq<Seq<char>>)
    requires
        all_bounded(st),
        run_spec(st, lines) is Ok,
    ensures
        all_bounded(run_spec(st, lines)->Ok_0),
    decreases lines.len(),
{
    if lines.len() > 0 {
        lemma_step_bounded(st, lines[0]);
        lemma_run_bounded(step_spec(st, lines[0])->Ok_0, lines.skip(1));
    }
}

/// Board reconstruction, for whole records: in every record that decodes, each
/// piece-kind on the board and in both stocks numbers at most two full stocks, and each
/// side has at most one king on the board.
pub proof fn lemma_records_bounded(lines: Seq<Seq<char>>)
    requires
        parse_spec(lines) is Ok,
    ensures
        forall|k: int|
            0 <= k < parse_spec(lines)->Ok_0.len() ==> position_bounded(
                (#[trigger] parse_spec(lines)->Ok_0[k]).board,
                parse_spec(lines)->Ok_0[k].hands,
            ),
{
    lemma_empty_record_bounded();
    lemma_run_bounded(initial_build(), lines);
    let s = run_spec(initial_build(), lines)->Ok_0;
    let s2 = flush_spec(s)->Ok_0;
    if s.block == Some(BlockKind::Position) {
        lemma_position_bounded(s.block_lines);
    }
    let v = parse_spec(lines)->Ok_0;
    assert(v == s2.results.push(s2.cur));
    assert forall|k: int| 0 <= k < v.len() implies position_bounded(
        (#[trigger] v[k]).board,
        v[k].hands,
    ) by {
        if k < s2.results.len() {
            assert(v[k] == s2.results[k]);
        }
    }
}

} // verus!
