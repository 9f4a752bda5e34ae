use vstd::prelude::*;
use crate::error::{kind_of, CsaParserError, ErrorKind};
use crate::reader::CsaStringReader;
use crate::strings::{digits_value, has_prefix, parse_u32, starts_with, text_after, u32_text, CsaChars};

verus! {

/// Metadata of a record.
#[derive(Debug)]
pub struct KifuInfo {
    pub sente_name: Option<String>,
    pub gote_name: Option<String>,
    pub event: Option<String>,
    pub site: Option<String>,
    pub start_time: Option<String>,
    pub end_time: Option<String>,
    pub time_limit: Option<(u32, Option<u32>)>,
    pub opening: Option<String>,
}

/// The characters of an optional text.
pub open spec fn opt_text(o: Option<String>) -> Option<Seq<char>> {
    match o {
        None => None,
        Some(s) => Some(s@),
    }
}

/// `KifuInfo` with its texts as character sequences.
pub struct InfoView {
    pub sente_name: Option<Seq<char>>,
    pub gote_name: Option<Seq<char>>,
    pub event: Option<Seq<char>>,
    pub site: Option<Seq<char>>,
    pub start_time: Option<Seq<char>>,
    pub end_time: Option<Seq<char>>,
    pub time_limit: Option<(u32, Option<u32>)>,
    pub opening: Option<Seq<char>>,
}

impl View for KifuInfo {
    type V = InfoView;

    open spec fn view(&self) -> InfoView {
        InfoView {
            sente_name: opt_text(self.sente_name),
            gote_name: opt_text(self.gote_name),
            event: opt_text(self.event),
            site: opt_text(self.site),
            start_time: opt_text(self.start_time),
            end_time: opt_text(self.end_time),
            time_limit: self.time_limit,
            opening: opt_text(self.opening),
        }
    }
}

/// No field set.
pub open spec fn empty_info() -> InfoView {
    InfoView {
        sente_name: None,
        gote_name: None,
        event: None,
        site: None,
        start_time: None,
        end_time: None,
        time_limit: None,
        opening: None,
    }
}

/// The value of `HH:MM` or `HH:MM+SS`: total minutes, and the grace seconds if given.
pub open spec fn time_limit_spec(t: Seq<char>) -> Result<(u32, Option<u32>), ErrorKind> {
    if t.len() < 3 || t[2] != ':' || t.len() < 5 {
        Err(ErrorKind::Format)
    } else if u32_text(t.subrange(0, 2)) is None || u32_text(t.subrange(3, 5)) is None {
        Err(ErrorKind::Number)
    } else {
        let total = (u32_text(t.subrange(0, 2))->Some_0 * 60 + u32_text(t.subrange(3, 5))->Some_0) as u32;
        let rest = t.skip(5);
        if rest.len() == 0 {
            Ok((total, None))
        } else if rest[0] != '+' || rest.len() < 3 {
            Err(ErrorKind::Format)
        } else if u32_text(rest.subrange(1, 3)) is None {
            Err(ErrorKind::Number)
        } else if rest.len() > 3 {
            Err(ErrorKind::Format)
        } else {
            Ok((total, Some(u32_text(rest.subrange(1, 3))->Some_0 as u32)))
        }
    }
}

/// `info` after the metadata line `l`.
pub open spec fn info_update(info: InfoView, l: Seq<char>) -> Result<InfoView, ErrorKind> {
    if has_prefix(l, "N+"@) {
        Ok(InfoView { sente_name: Some(l.skip(2)), ..info })
    } else if has_prefix(l, "N-"@) {
        Ok(InfoView { gote_name: Some(l.skip(2)), ..info })
    } else if has_prefix(l, "$EVENT:"@) {
        Ok(InfoView { event: Some(l.skip(7)), ..info })
    } else if has_prefix(l, "$SITE:"@) {
        Ok(InfoView { site: Some(l.skip(6)), ..info })
    } else if has_prefix(l, "$START_TIME:"@) {
        Ok(InfoView { start_time: Some(l.skip(12)), ..info })
    } else if has_prefix(l, "$END_TIME:"@) {
        Ok(InfoView { end_time: Some(l.skip(10)), ..info })
    } else if has_prefix(l, "$TIME_LIMIT:"@) {
        match time_limit_spec(l.skip(12)) {
            Err(e) => Err(e),
            Ok(v) => Ok(InfoView { time_limit: Some(v), ..info }),
        }
    } else if has_prefix(l, "$OPENING:"@) {
        Ok(InfoView { opening: Some(l.skip(9)), ..info })
    } else {
        Err(ErrorKind::Format)
    }
}

proof fn lemma_two_digits_bound(s: Seq<char>)
    requires
        s.len() == 2,
        u32_text(s) is Some,
    ensures
        u32_text(s)->Some_0 <= 99,
{
    let body = if s[0] == '+' { s.skip(1) } else { s };
    assert(0 <= 0 < body.len());
    assert('0' as u32 <= body[0] as u32 <= '9' as u32);
    assert('0' as u32 <= body.last() as u32 <= '9' as u32);
    if body.len() == 2 {
        let a = body.drop_last();
        assert(a.last() == body[0]);
        assert(a.drop_last().len() == 0);
        assert(digits_value(a.drop_last()) == 0);
        assert(digits_value(a) == body[0] as u32 - '0' as u32);
        assert(digits_value(body) == digits_value(a) * 10 + (body.last() as u32 - '0' as u32));
    } else {
        assert(body.drop_last().len() == 0);
        assert(digits_value(body.drop_last()) == 0);
        assert(digits_value(body) == body.last() as u32 - '0' as u32);
    }
}

fn info_error() -> (r: CsaParserError)
    ensures
        r is FormatError,
{
    CsaParserError::FormatError(String::from_str("Invalid csa info format of timelimit."))
}

/// Reads `HH:MM` or `HH:MM+SS`.
fn parse_time_limit(t: &String) -> (r: Result<(u32, Option<u32>), CsaParserError>)
    ensures
        match time_limit_spec(t@) {
            Err(e) => r is Err && kind_of(r->Err_0) == e,
            Ok(v) => r is Ok && r->Ok_0 == v,
        },
{
    let mut reader = CsaStringReader::new();
    let mut chars = CsaChars::new(t.as_str());
    let hh = reader.read(&mut chars, 2)?;
    match chars.next() {
        None => {
            return Err(info_error());
        },
        Some(c) => {
            if c != ':' {
                return Err(info_error());
            }
        },
    }
    let mm = reader.read(&mut chars, 2)?;
    assert(hh@ =~= t@.subrange(0, 2));
    assert(mm@ =~= t@.subrange(3, 5));
    assert(chars@ =~= t@.skip(5));
    let h = match parse_u32(hh.as_str()) {
        Ok(h) => h,
        Err(e) => {
            return Err(CsaParserError::ParseIntError(e));
        },
    };
    let m = match parse_u32(mm.as_str()) {
        Ok(m) => m,
        Err(e) => {
            return Err(CsaParserError::ParseIntError(e));
        },
    };
    proof {
        lemma_two_digits_bound(hh@);
        lemma_two_digits_bound(mm@);
    }
    let total = h * 60 + m;
    let ghost rest = chars@;
    match chars.next() {
        None => Ok((total, None)),
        Some(c) => {
            if c != '+' {
                return Err(info_error());
            }
            let ss = reader.read(&mut chars, 2)?;
            assert(ss@ =~= rest.subrange(1, 3));
            let s = match parse_u32(ss.as_str()) {
                Ok(s) => s,
                Err(e) => {
                    return Err(CsaParserError::ParseIntError(e));
                },
            };
            match chars.next() {
                None => Ok((total, Some(s))),
                Some(_) => Err(info_error()),
            }
        },
    }
}

impl KifuInfo {
    pub fn new() -> (r: KifuInfo)
        ensures
            r@ == empty_info(),
    {
        KifuInfo {
            sente_name: None,
            gote_name: None,
            event: None,
            site: None,
            start_time: None,
            end_time: None,
            time_limit: None,
            opening: None,
        }
    }

    /// Takes one metadata line: a player name, or a `$` field.
    pub fn parse(&mut self, line: &String) -> (r: Result<(), CsaParserError>)
        ensures
            match info_update(old(self)@, line@) {
                Err(e) => r is Err && kind_of(r->Err_0) == e && final(self)@ == old(self)@,
                Ok(v) => r is Ok && final(self)@ == v,
            },
    {
        let l = line.as_str();
        if starts_with(l, "N+") {
            proof { reveal_strlit("N+"); }
            self.sente_name = Some(text_after(l, 2));
        } else if starts_with(l, "N-") {
            proof { reveal_strlit("N-"); }
            self.gote_name = Some(text_after(l, 2));
        } else if starts_with(l, "$EVENT:") {
            proof { reveal_strlit("$EVENT:"); }
            self.event = Some(text_after(l, 7));
        } else if starts_with(l, "$SITE:") {
            proof { reveal_strlit("$SITE:"); }
            self.site = Some(text_after(l, 6));
        } else if starts_with(l, "$START_TIME:") {
            proof { reveal_strlit("$START_TIME:"); }
            self.start_time = Some(text_after(l, 12));
        } else if starts_with(l, "$END_TIME:") {
            proof { reveal_strlit("$END_TIME:"); }
            self.end_time = Some(text_after(l, 10));
        } else if starts_with(l, "$TIME_LIMIT:") {
            proof { reveal_strlit("$TIME_LIMIT:"); }
            let t = text_after(l, 12);
            let v = parse_time_limit(&t)?;
            self.time_limit = Some(v);
        } else if starts_with(l, "$OPENING:") {
            proof { reveal_strlit("$OPENING:"); }
            self.opening = Some(text_after(l, 9));
        } else {
            return Err(CsaParserError::FormatError(String::from_str("Invalid csa info format.")));
        }
        Ok(())
    }
}

} // verus!
