use vstd::prelude::*;
use crate::error::CsaParserError;
use crate::shogi::{koma_of, KomaKind, MochigomaKind, Teban};

verus! {

/// The hand kind that a two-letter code stands for; promoted codes give their base kind.
pub open spec fn hand_kind_of_code(c: Seq<char>) -> Option<MochigomaKind> {
    if c.len() != 2 {
        None
    } else {
        match (c[0], c[1]) {
            ('F', 'U') | ('T', 'O') => Some(MochigomaKind::Fu),
            ('K', 'Y') | ('N', 'Y') => Some(MochigomaKind::Kyou),
            ('K', 'E') | ('N', 'K') => Some(MochigomaKind::Kei),
            ('G', 'I') | ('N', 'G') => Some(MochigomaKind::Gin),
            ('K', 'I') => Some(MochigomaKind::Kin),
            ('K', 'A') | ('U', 'M') => Some(MochigomaKind::Kaku),
            ('H', 'I') | ('R', 'Y') => Some(MochigomaKind::Hisha),
            _ => None,
        }
    }
}

/// The hand kind that an unpromoted two-letter code stands for.
pub open spec fn base_kind_of_code(c: Seq<char>) -> Option<MochigomaKind> {
    if c.len() != 2 {
        None
    } else {
        match (c[0], c[1]) {
            ('F', 'U') => Some(MochigomaKind::Fu),
            ('K', 'Y') => Some(MochigomaKind::Kyou),
            ('K', 'E') => Some(MochigomaKind::Kei),
            ('G', 'I') => Some(MochigomaKind::Gin),
            ('K', 'I') => Some(MochigomaKind::Kin),
            ('K', 'A') => Some(MochigomaKind::Kaku),
            ('H', 'I') => Some(MochigomaKind::Hisha),
            _ => None,
        }
    }
}

/// The code of the king.
pub open spec fn is_king_code(c: Seq<char>) -> bool {
    c.len() == 2 && c[0] == 'O' && c[1] == 'U'
}

/// The piece of side `t` that a two-letter code stands for.
pub open spec fn koma_of_code(t: Teban, c: Seq<char>) -> Option<KomaKind> {
    if c.len() != 2 {
        None
    } else {
        let s = t == Teban::Sente;
        match (c[0], c[1]) {
            ('O', 'U') => Some(if s { KomaKind::SOu } else { KomaKind::GOu }),
            ('T', 'O') => Some(if s { KomaKind::SFuN } else { KomaKind::GFuN }),
            ('N', 'Y') => Some(if s { KomaKind::SKyouN } else { KomaKind::GKyouN }),
            ('N', 'K') => Some(if s { KomaKind::SKeiN } else { KomaKind::GKeiN }),
            ('N', 'G') => Some(if s { KomaKind::SGinN } else { KomaKind::GGinN }),
            ('U', 'M') => Some(if s { KomaKind::SKakuN } else { KomaKind::GKakuN }),
            ('R', 'Y') => Some(if s { KomaKind::SHishaN } else { KomaKind::GHishaN }),
            _ => match base_kind_of_code(c) {
                Some(k) => Some(koma_of(t, k)),
                None => None,
            },
        }
    }
}

/// The two characters of a code.
fn code_chars(s: &String) -> (r: Option<(char, char)>)
    ensures
        s@.len() == 2 ==> r == Some((s@[0], s@[1])),
        s@.len() != 2 ==> r is None,
{
    let t = s.as_str();
    if t.unicode_len() != 2 {
        None
    } else {
        Some((t.get_char(0), t.get_char(1)))
    }
}

/// The hand kind of a code, promoted codes included.
pub fn hand_kind_from_code(s: &String) -> (r: Option<MochigomaKind>)
    ensures
        r == hand_kind_of_code(s@),
{
    match code_chars(s) {
        None => None,
        Some((a, b)) => match (a, b) {
            ('F', 'U') | ('T', 'O') => Some(MochigomaKind::Fu),
            ('K', 'Y') | ('N', 'Y') => Some(MochigomaKind::Kyou),
            ('K', 'E') | ('N', 'K') => Some(MochigomaKind::Kei),
            ('G', 'I') | ('N', 'G') => Some(MochigomaKind::Gin),
            ('K', 'I') => Some(MochigomaKind::Kin),
            ('K', 'A') | ('U', 'M') => Some(MochigomaKind::Kaku),
            ('H', 'I') | ('R', 'Y') => Some(MochigomaKind::Hisha),
            _ => None,
        },
    }
}

/// The hand kind of an unpromoted code.
pub fn base_kind_from_code(s: &String) -> (r: Option<MochigomaKind>)
    ensures
        r == base_kind_of_code(s@),
{
    match code_chars(s) {
        None => None,
        Some((a, b)) => match (a, b) {
            ('F', 'U') => Some(MochigomaKind::Fu),
            ('K', 'Y') => Some(MochigomaKind::Kyou),
            ('K', 'E') => Some(MochigomaKind::Kei),
            ('G', 'I') => Some(MochigomaKind::Gin),
            ('K', 'I') => Some(MochigomaKind::Kin),
            ('K', 'A') => Some(MochigomaKind::Kaku),
            ('H', 'I') => Some(MochigomaKind::Hisha),
            _ => None,
        },
    }
}

/// Whether a code is the king's.
pub fn is_king(s: &String) -> (r: bool)
    ensures
        r == is_king_code(s@),
{
    match code_chars(s) {
        None => false,
        Some((a, b)) => a == 'O' && b == 'U',
    }
}

/// The piece of side `t` for a code.
pub fn koma_from_code(t: Teban, s: &String) -> (r: Option<KomaKind>)
    ensures
        r == koma_of_code(t, s@),
{
    match code_chars(s) {
        None => None,
        Some((a, b)) => {
            let sente = t == Teban::Sente;
            match (a, b) {
                ('O', 'U') => Some(if sente { KomaKind::SOu } else { KomaKind::GOu }),
                ('T', 'O') => Some(if sente { KomaKind::SFuN } else { KomaKind::GFuN }),
                ('N', 'Y') => Some(if sente { KomaKind::SKyouN } else { KomaKind::GKyouN }),
                ('N', 'K') => Some(if sente { KomaKind::SKeiN } else { KomaKind::GKeiN }),
                ('N', 'G') => Some(if sente { KomaKind::SGinN } else { KomaKind::GGinN }),
                ('U', 'M') => Some(if sente { KomaKind::SKakuN } else { KomaKind::GKakuN }),
                ('R', 'Y') => Some(if sente { KomaKind::SHishaN } else { KomaKind::GHishaN }),
                _ => match base_kind_from_code(s) {
                    Some(k) => Some(KomaKind::from((t, k))),
                    None => None,
                },
            }
        },
    }
}

/// Conversion from the text of a record.
pub trait TryFromCsa<T> where Self: Sized {
    fn try_from_csa(kind: T) -> Result<Self, CsaParserError>;
}

impl<'a> TryFromCsa<&'a String> for MochigomaKind {
    fn try_from_csa(kind: &'a String) -> (r: Result<MochigomaKind, CsaParserError>)
        ensures
            match hand_kind_of_code(kind@) {
                Some(k) => r is Ok && r->Ok_0 == k,
                None => r is Err && r->Err_0 is FormatError,
            },
    {
        match hand_kind_from_code(kind) {
            Some(k) => Ok(k),
            None => Err(CsaParserError::FormatError(String::from_str("Invalid csa position format."))),
        }
    }
}

impl<'a> TryFromCsa<(Teban, &'a String)> for KomaKind {
    fn try_from_csa(s: (Teban, &'a String)) -> (r: Result<KomaKind, CsaParserError>)
        ensures
            match koma_of_code(s.0, s.1@) {
                Some(k) => r is Ok && r->Ok_0 == k,
                None => r is Err && r->Err_0 is FormatError,
            },
    {
        let (teban, kind) = s;
        match koma_from_code(teban, kind) {
            Some(k) => Ok(k),
            None => Err(CsaParserError::FormatError(String::from_str("Invalid csa position format."))),
        }
    }
}

} // verus!
