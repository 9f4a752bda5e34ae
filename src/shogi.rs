use vstd::prelude::*;

verus! {

/// The side to move.
#[derive(Clone, Copy, PartialEq, Eq, Structural, Debug)]
pub enum Teban {
    Sente,
    Gote,
}

impl Teban {
    pub open spec fn other(self) -> Teban {
        match self {
            Teban::Sente => Teban::Gote,
            Teban::Gote => Teban::Sente,
        }
    }

    /// The other side.
    pub fn opposite(&self) -> (r: Teban)
        ensures
            r == self.other(),
    {
        match self {
            Teban::Sente => Teban::Gote,
            Teban::Gote => Teban::Sente,
        }
    }
}

/// A piece-kind that can be held in hand.
#[derive(Clone, Copy, PartialEq, Eq, Structural, Debug)]
pub enum MochigomaKind {
    Fu,
    Kyou,
    Kei,
    Gin,
    Kin,
    Kaku,
    Hisha,
}

/// Position of each hand kind inside a hand's count table.
pub open spec fn kind_index(k: MochigomaKind) -> int {
    match k {
        MochigomaKind::Fu => 0,
        MochigomaKind::Kyou => 1,
        MochigomaKind::Kei => 2,
        MochigomaKind::Gin => 3,
        MochigomaKind::Kin => 4,
        MochigomaKind::Kaku => 5,
        MochigomaKind::Hisha => 6,
    }
}

/// The hand kind at a position of the count table.
pub open spec fn kind_at(i: int) -> MochigomaKind {
    if i == 0 {
        MochigomaKind::Fu
    } else if i == 1 {
        MochigomaKind::Kyou
    } else if i == 2 {
        MochigomaKind::Kei
    } else if i == 3 {
        MochigomaKind::Gin
    } else if i == 4 {
        MochigomaKind::Kin
    } else if i == 5 {
        MochigomaKind::Kaku
    } else {
        MochigomaKind::Hisha
    }
}

impl MochigomaKind {
    pub fn index(&self) -> (r: usize)
        ensures
            r == kind_index(*self),
            r < 7,
    {
        match self {
            MochigomaKind::Fu => 0,
            MochigomaKind::Kyou => 1,
            MochigomaKind::Kei => 2,
            MochigomaKind::Gin => 3,
            MochigomaKind::Kin => 4,
            MochigomaKind::Kaku => 5,
            MochigomaKind::Hisha => 6,
        }
    }
}

/// What a board square holds: a piece of either side, promoted or not, or nothing.
#[derive(Clone, Copy, PartialEq, Eq, Structural, Debug)]
pub enum KomaKind {
    SFu,
    SKyou,
    SKei,
    SGin,
    SKin,
    SKaku,
    SHisha,
    SOu,
    SFuN,
    SKyouN,
    SKeiN,
    SGinN,
    SKakuN,
    SHishaN,
    GFu,
    GKyou,
    GKei,
    GGin,
    GKin,
    GKaku,
    GHisha,
    GOu,
    GFuN,
    GKyouN,
    GKeiN,
    GGinN,
    GKakuN,
    GHishaN,
    Blank,
}

/// The unpromoted piece of side `t` for hand kind `k`.
pub open spec fn koma_of(t: Teban, k: MochigomaKind) -> KomaKind {
    match (t, k) {
        (Teban::Sente, MochigomaKind::Fu) => KomaKind::SFu,
        (Teban::Sente, MochigomaKind::Kyou) => KomaKind::SKyou,
        (Teban::Sente, MochigomaKind::Kei) => KomaKind::SKei,
        (Teban::Sente, MochigomaKind::Gin) => KomaKind::SGin,
        (Teban::Sente, MochigomaKind::Kin) => KomaKind::SKin,
        (Teban::Sente, MochigomaKind::Kaku) => KomaKind::SKaku,
        (Teban::Sente, MochigomaKind::Hisha) => KomaKind::SHisha,
        (Teban::Gote, MochigomaKind::Fu) => KomaKind::GFu,
        (Teban::Gote, MochigomaKind::Kyou) => KomaKind::GKyou,
        (Teban::Gote, MochigomaKind::Kei) => KomaKind::GKei,
        (Teban::Gote, MochigomaKind::Gin) => KomaKind::GGin,
        (Teban::Gote, MochigomaKind::Kin) => KomaKind::GKin,
        (Teban::Gote, MochigomaKind::Kaku) => KomaKind::GKaku,
        (Teban::Gote, MochigomaKind::Hisha) => KomaKind::GHisha,
    }
}

/// The promoted pieces.
pub open spec fn is_promoted(k: KomaKind) -> bool {
    match k {
        KomaKind::SFuN | KomaKind::SKyouN | KomaKind::SKeiN | KomaKind::SGinN | KomaKind::SKakuN
        | KomaKind::SHishaN | KomaKind::GFuN | KomaKind::GKyouN | KomaKind::GKeiN
        | KomaKind::GGinN | KomaKind::GKakuN | KomaKind::GHishaN => true,
        _ => false,
    }
}

/// The declaration index of each kind, `SFu` first and `Blank` last.
pub open spec fn code_of(k: KomaKind) -> u8 {
    match k {
        KomaKind::SFu => 0,
        KomaKind::SKyou => 1,
        KomaKind::SKei => 2,
        KomaKind::SGin => 3,
        KomaKind::SKin => 4,
        KomaKind::SKaku => 5,
        KomaKind::SHisha => 6,
        KomaKind::SOu => 7,
        KomaKind::SFuN => 8,
        KomaKind::SKyouN => 9,
        KomaKind::SKeiN => 10,
        KomaKind::SGinN => 11,
        KomaKind::SKakuN => 12,
        KomaKind::SHishaN => 13,
        KomaKind::GFu => 14,
        KomaKind::GKyou => 15,
        KomaKind::GKei => 16,
        KomaKind::GGin => 17,
        KomaKind::GKin => 18,
        KomaKind::GKaku => 19,
        KomaKind::GHisha => 20,
        KomaKind::GOu => 21,
        KomaKind::GFuN => 22,
        KomaKind::GKyouN => 23,
        KomaKind::GKeiN => 24,
        KomaKind::GGinN => 25,
        KomaKind::GKakuN => 26,
        KomaKind::GHishaN => 27,
        KomaKind::Blank => 28,
    }
}

impl KomaKind {
    /// The kind whose declaration index is `c`.
    pub fn from_code(c: u8) -> (r: Option<KomaKind>)
        ensures
            c <= 28 ==> r is Some && code_of(r->Some_0) == c,
            c > 28 ==> r is None,
    {
        match c {
            0 => Some(KomaKind::SFu),
            1 => Some(KomaKind::SKyou),
            2 => Some(KomaKind::SKei),
            3 => Some(KomaKind::SGin),
            4 => Some(KomaKind::SKin),
            5 => Some(KomaKind::SKaku),
            6 => Some(KomaKind::SHisha),
            7 => Some(KomaKind::SOu),
            8 => Some(KomaKind::SFuN),
            9 => Some(KomaKind::SKyouN),
            10 => Some(KomaKind::SKeiN),
            11 => Some(KomaKind::SGinN),
            12 => Some(KomaKind::SKakuN),
            13 => Some(KomaKind::SHishaN),
            14 => Some(KomaKind::GFu),
            15 => Some(KomaKind::GKyou),
            16 => Some(KomaKind::GKei),
            17 => Some(KomaKind::GGin),
            18 => Some(KomaKind::GKin),
            19 => Some(KomaKind::GKaku),
            20 => Some(KomaKind::GHisha),
            21 => Some(KomaKind::GOu),
            22 => Some(KomaKind::GFuN),
            23 => Some(KomaKind::GKyouN),
            24 => Some(KomaKind::GKeiN),
            25 => Some(KomaKind::GGinN),
            26 => Some(KomaKind::GKakuN),
            27 => Some(KomaKind::GHishaN),
            28 => Some(KomaKind::Blank),
            _ => None,
        }
    }
}

impl From<(Teban, MochigomaKind)> for KomaKind {
    fn from(tk: (Teban, MochigomaKind)) -> (r: KomaKind) {
        match tk {
            (Teban::Sente, MochigomaKind::Fu) => KomaKind::SFu,
            (Teban::Sente, MochigomaKind::Kyou) => KomaKind::SKyou,
            (Teban::Sente, MochigomaKind::Kei) => KomaKind::SKei,
            (Teban::Sente, MochigomaKind::Gin) => KomaKind::SGin,
            (Teban::Sente, MochigomaKind::Kin) => KomaKind::SKin,
            (Teban::Sente, MochigomaKind::Kaku) => KomaKind::SKaku,
            (Teban::Sente, MochigomaKind::Hisha) => KomaKind::SHisha,
            (Teban::Gote, MochigomaKind::Fu) => KomaKind::GFu,
            (Teban::Gote, MochigomaKind::Kyou) => KomaKind::GKyou,
            (Teban::Gote, MochigomaKind::Kei) => KomaKind::GKei,
            (Teban::Gote, MochigomaKind::Gin) => KomaKind::GGin,
            (Teban::Gote, MochigomaKind::Kin) => KomaKind::GKin,
            (Teban::Gote, MochigomaKind::Kaku) => KomaKind::GKaku,
            (Teban::Gote, MochigomaKind::Hisha) => KomaKind::GHisha,
        }
    }
}

impl vstd::std_specs::convert::FromSpecImpl<(Teban, MochigomaKind)> for KomaKind {
    open spec fn obeys_from_spec() -> bool {
        true
    }

    open spec fn from_spec(tk: (Teban, MochigomaKind)) -> KomaKind {
        koma_of(tk.0, tk.1)
    }
}

/// Grid index of the square on file `x` and rank `y`: ranks top to bottom, files 9 down to 1.
pub open spec fn square_index(x: int, y: int) -> int {
    (y - 1) * 9 + (9 - x)
}

pub open spec fn on_board(x: int, y: int) -> bool {
    1 <= x <= 9 && 1 <= y <= 9
}

/// Grid index of the square on file `x` and rank `y`.
pub fn index_of_square(x: u32, y: u32) -> (r: usize)
    requires
        on_board(x as int, y as int),
    ensures
        r as int == square_index(x as int, y as int),
        r < 81,
{
    ((y - 1) * 9 + (9 - x)) as usize
}

/// The pieces of the back rank, from file 9 to file 1, for one side.
pub open spec fn back_rank(t: Teban, col: int) -> KomaKind {
    let k = if col == 0 || col == 8 {
        MochigomaKind::Kyou
    } else if col == 1 || col == 7 {
        MochigomaKind::Kei
    } else if col == 2 || col == 6 {
        MochigomaKind::Gin
    } else {
        MochigomaKind::Kin
    };
    if col == 4 {
        if t == Teban::Sente { KomaKind::SOu } else { KomaKind::GOu }
    } else {
        koma_of(t, k)
    }
}

/// The cell at grid index `i` of the standard starting arrangement.
pub open spec fn start_cell(i: int) -> KomaKind {
    let row = i / 9;
    let col = i % 9;
    if row == 0 {
        back_rank(Teban::Gote, col)
    } else if row == 1 && col == 1 {
        KomaKind::GHisha
    } else if row == 1 && col == 7 {
        KomaKind::GKaku
    } else if row == 2 {
        KomaKind::GFu
    } else if row == 6 {
        KomaKind::SFu
    } else if row == 7 && col == 1 {
        KomaKind::SKaku
    } else if row == 7 && col == 7 {
        KomaKind::SHisha
    } else if row == 8 {
        back_rank(Teban::Sente, col)
    } else {
        KomaKind::Blank
    }
}

/// The standard starting arrangement as a grid.
pub open spec fn start_board() -> Seq<KomaKind> {
    Seq::new(81, |i: int| start_cell(i))
}

/// The grid with no piece on it.
pub open spec fn blank_board() -> Seq<KomaKind> {
    Seq::new(81, |i: int| KomaKind::Blank)
}

/// Relies on `usiagent::rule::BANMEN_START_POS`: the standard starting arrangement,
/// each cell given as the declaration index of `usiagent::shogi::KomaKind`, rank by rank.
#[verifier::external_body]
fn start_position_codes() -> (r: Vec<u8>)
    ensures
        r@.len() == 81,
        forall|i: int| 0 <= i < 81 ==> r@[i] == code_of(#[trigger] start_cell(i)),
{
    usiagent::rule::BANMEN_START_POS.0.iter().flatten().map(|k| *k as u8).collect()
}

/// A 9x9 board, stored rank by rank with file 9 first.
#[derive(Clone, Debug, PartialEq, Eq)]
pub struct Banmen {
    cells: Vec<KomaKind>,
}

impl View for Banmen {
    type V = Seq<KomaKind>;

    closed spec fn view(&self) -> Seq<KomaKind> {
        self.cells@
    }
}

impl Banmen {
    pub closed spec fn wf(&self) -> bool {
        self.cells@.len() == 81
    }

    pub fn blank() -> (r: Banmen)
        ensures
            r.wf(),
            r@ == blank_board(),
    {
        let mut cells: Vec<KomaKind> = Vec::new();
        let mut i: usize = 0;
        while i < 81
            invariant
                i <= 81,
                cells@ == Seq::new(i as nat, |j: int| KomaKind::Blank),
            decreases 81 - i,
        {
            cells.push(KomaKind::Blank);
            i = i + 1;
            assert(cells@ =~= Seq::new(i as nat, |j: int| KomaKind::Blank));
        }
        assert(cells@ =~= blank_board());
        Banmen { cells }
    }

    /// The standard starting arrangement.
    pub fn start_pos() -> (r: Banmen)
        ensures
            r.wf(),
            r@ == start_board(),
    {
        let codes = start_position_codes();
        let mut cells: Vec<KomaKind> = Vec::new();
        let mut i: usize = 0;
        while i < 81
            invariant
                i <= 81,
                codes@.len() == 81,
                forall|j: int| 0 <= j < 81 ==> codes@[j] == code_of(#[trigger] start_cell(j)),
                cells@ == start_board().take(i as int),
            decreases 81 - i,
        {
            let k = KomaKind::from_code(codes[i]);
            proof {
                let c = codes@[i as int];
                assert(c == code_of(start_cell(i as int)));
            }
            match k {
                Some(k) => {
                    proof {
                        lemma_code_injective(k, start_cell(i as int));
                    }
                    cells.push(k);
                },
                None => {
                    cells.push(KomaKind::Blank);
                },
            }
            i = i + 1;
            assert(cells@ =~= start_board().take(i as int));
        }
        assert(cells@ =~= start_board());
        Banmen { cells }
    }

    /// A copy of the same grid.
    pub fn duplicate(&self) -> (r: Banmen)
        requires
            self.wf(),
        ensures
            r.wf(),
            r@ == self@,
    {
        Banmen { cells: self.cells.clone() }
    }

    /// What stands on file `x`, rank `y`.
    pub fn get(&self, x: u32, y: u32) -> (r: KomaKind)
        requires
            self.wf(),
            on_board(x as int, y as int),
        ensures
            r == self@[square_index(x as int, y as int)],
    {
        self.cells[index_of_square(x, y)]
    }

    /// Puts `k` on file `x`, rank `y`.
    pub fn set(&mut self, x: u32, y: u32, k: KomaKind)
        requires
            old(self).wf(),
            on_board(x as int, y as int),
        ensures
            final(self).wf(),
            final(self)@ == old(self)@.update(square_index(x as int, y as int), k),
    {
        let i = index_of_square(x, y);
        self.cells.set(i, k);
    }
}

proof fn lemma_code_injective(a: KomaKind, b: KomaKind)
    requires
        code_of(a) == code_of(b),
    ensures
        a == b,
{
}

} // verus!

verus! {

/// The standard full stock of one side: nine pawns, two each of lance, knight,
/// silver and gold, one bishop and one rook.
pub open spec fn filled_counts() -> Seq<u32> {
    seq![9u32, 2u32, 2u32, 2u32, 2u32, 1u32, 1u32]
}

/// Relies on `usiagent::rule::Rule::filled_mochigoma_hashmap`: the standard full stock
/// of one side, read out in the order of `usiagent::shogi::MOCHIGOMA_KINDS`.
#[verifier::external_body]
fn filled_mochigoma_counts() -> (r: Vec<u32>)
    ensures
        r@ == filled_counts(),
{
    let m = usiagent::rule::Rule::filled_mochigoma_hashmap();
    usiagent::shogi::MOCHIGOMA_KINDS.iter().map(|k| m[k]).collect()
}

/// Held pieces of one side: a count for each hand kind.
#[derive(Clone, Debug, PartialEq, Eq)]
pub struct Mochigoma {
    counts: Vec<u32>,
}

impl View for Mochigoma {
    type V = Seq<u32>;

    /// The count of each kind, at `kind_index`.
    closed spec fn view(&self) -> Seq<u32> {
        self.counts@
    }
}

impl Mochigoma {
    pub closed spec fn wf(&self) -> bool {
        self.counts@.len() == 7
    }

    /// The standard full stock of one side.
    pub fn filled() -> (r: Mochigoma)
        ensures
            r.wf(),
            r@ == filled_counts(),
    {
        Mochigoma { counts: filled_mochigoma_counts() }
    }

    /// A hand with no piece.
    pub fn empty() -> (r: Mochigoma)
        ensures
            r.wf(),
            r@ == Seq::new(7, |i: int| 0u32),
    {
        let mut counts: Vec<u32> = Vec::new();
        let mut i: usize = 0;
        while i < 7
            invariant
                i <= 7,
                counts@ == Seq::new(i as nat, |j: int| 0u32),
            decreases 7 - i,
        {
            counts.push(0);
            i = i + 1;
            assert(counts@ =~= Seq::new(i as nat, |j: int| 0u32));
        }
        Mochigoma { counts }
    }

    /// How many pieces of kind `k` are held.
    pub fn get(&self, k: MochigomaKind) -> (r: u32)
        requires
            self.wf(),
        ensures
            r == self@[kind_index(k)],
    {
        self.counts[k.index()]
    }

    /// Sets the count of kind `k`.
    pub fn set(&mut self, k: MochigomaKind, n: u32)
        requires
            old(self).wf(),
        ensures
            final(self).wf(),
            final(self)@ == old(self)@.update(kind_index(k), n),
    {
        let i = k.index();
        self.counts.set(i, n);
    }

    /// The count at position `i` of the table.
    pub fn counts_at(&self, i: usize) -> (r: u32)
        requires
            self.wf(),
            i < 7,
        ensures
            r == self@[i as int],
    {
        self.counts[i]
    }

    /// A hand with the given counts, in the order of `kind_index`.
    pub fn from_counts(counts: Vec<u32>) -> (r: Mochigoma)
        ensures
            r@ == counts@,
    {
        Mochigoma { counts }
    }
}

/// The held pieces of both sides, or the marker that none are tracked.
#[derive(Clone, Debug, PartialEq, Eq)]
pub enum MochigomaCollections {
    Empty,
    Pair(Mochigoma, Mochigoma),
}

/// Source square of a board move: file, rank.
#[derive(Clone, Copy, PartialEq, Eq, Structural, Debug)]
pub struct KomaSrcPosition(pub u32, pub u32);

/// Destination of a board move: file, rank, and whether the piece promotes.
#[derive(Clone, Copy, PartialEq, Eq, Structural, Debug)]
pub struct KomaDstToPosition(pub u32, pub u32, pub bool);

/// Destination of a drop: file, rank.
#[derive(Clone, Copy, PartialEq, Eq, Structural, Debug)]
pub struct KomaDstPutPosition(pub u32, pub u32);

/// A board move or a drop.
#[derive(Clone, Copy, PartialEq, Eq, Structural, Debug)]
pub enum Move {
    To(KomaSrcPosition, KomaDstToPosition),
    Put(MochigomaKind, KomaDstPutPosition),
}

} // verus!
