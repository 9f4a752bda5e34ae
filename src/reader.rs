use vstd::prelude::*;
use crate::error::{CsaParserError, CsaStreamReadError};
use crate::strings::{lines_view, starts_with, CsaChars};

verus! {

/// Fixed-width token reader shared by all the sub-decoders.
pub struct CsaStringReader {}

impl CsaStringReader {
    pub fn new() -> (r: CsaStringReader) {
        CsaStringReader {  }
    }

    /// Consumes exactly `len` characters from `chars`, or fails when fewer remain.
    pub fn read(&mut self, chars: &mut CsaChars, len: u32) -> (r: Result<String, CsaParserError>)
        requires
            old(chars).wf(),
        ensures
            final(chars).wf(),
            len <= old(chars)@.len() ==> {
                &&& r is Ok
                &&& r->Ok_0@ == old(chars)@.take(len as int)
                &&& final(chars)@ == old(chars)@.skip(len as int)
            },
            len > old(chars)@.len() ==> {
                &&& r is Err
                &&& r->Err_0 is FormatError
                &&& final(chars)@ == Seq::<char>::empty()
            },
    {
        let mut s = String::new();
        let mut i: u32 = 0;
        assert(old(chars)@.skip(0) =~= old(chars)@);
        while i < len
            invariant
                chars.wf(),
                i <= len,
                i <= old(chars)@.len(),
                s@ == old(chars)@.take(i as int),
                chars@ == old(chars)@.skip(i as int),
            decreases len - i,
        {
            match chars.next() {
                None => {
                    return Err(CsaParserError::FormatError(String::from_str(
                        "Invalid csa format, Could not read the specified length.",
                    )));
                },
                Some(c) => {
                    s.push(c);
                    assert(s@ =~= old(chars)@.take(i + 1));
                    assert(chars@ =~= old(chars)@.skip(i + 1));
                },
            }
            i = i + 1;
        }
        Ok(s)
    }
}

/// Splits at each comma, from `s` on, with `cur` as the piece begun so far.
pub open spec fn split_from(s: Seq<char>, cur: Seq<char>) -> Seq<Seq<char>>
    decreases s.len(),
{
    if s.len() == 0 {
        seq![cur]
    } else if s[0] == ',' {
        seq![cur] + split_from(s.skip(1), Seq::empty())
    } else {
        split_from(s.skip(1), cur.push(s[0]))
    }
}

/// The pieces of `s` between commas, empty ones included.
pub open spec fn split_commas(s: Seq<char>) -> Seq<Seq<char>> {
    split_from(s, Seq::empty())
}

/// The statements of one physical line: a comment line whole, any other split at commas.
pub open spec fn statements_of(l: Seq<char>) -> Seq<Seq<char>> {
    if l.len() > 0 && l[0] == '\'' {
        seq![l]
    } else {
        split_commas(l)
    }
}

/// The statements held on one physical line.
pub fn read_real_line(l: String) -> (r: Vec<String>)
    ensures
        lines_view(r@) == statements_of(l@),
{
    if starts_with(l.as_str(), "'") {
        proof {
            reveal_strlit("'");
            assert(l@.take(1)[0] == l@[0]);
        }
        let ghost lv = l@;
        let r = vec![l];
        assert(r@[0]@ == lv);
        assert(lines_view(r@) =~= statements_of(lv));
        return r;
    }
    proof {
        reveal_strlit("'");
        if l@.len() > 0 && l@[0] == '\'' {
            assert(l@.take(1) =~= "'"@);
        }
    }
    let mut pieces: Vec<String> = Vec::new();
    let mut cur = String::new();
    let mut chars = CsaChars::new(l.as_str());
    loop
        invariant
            chars.wf(),
            statements_of(l@) == split_commas(l@),
            split_commas(l@) == lines_view(pieces@) + split_from(chars@, cur@),
        decreases chars@.len(),
    {
        let ghost c = chars@;
        match chars.next() {
            None => {
                pieces.push(cur);
                assert(lines_view(pieces@) =~= split_commas(l@));
                return pieces;
            },
            Some(ch) => {
                if ch == ',' {
                    let ghost before = lines_view(pieces@);
                    let done = cur;
                    cur = String::new();
                    pieces.push(done);
                    assert(lines_view(pieces@) =~= before + seq![done@]);
                    assert(c.skip(1) =~= chars@);
                } else {
                    cur.push(ch);
                    assert(c.skip(1) =~= chars@);
                }
            },
        }
    }
}

/// The Unicode `White_Space` characters.
pub open spec fn is_white_space(c: char) -> bool {
    let u = c as u32;
    (0x9 <= u <= 0xd) || u == 0x20 || u == 0x85 || u == 0xa0 || u == 0x1680 || (0x2000 <= u
        <= 0x200a) || u == 0x2028 || u == 0x2029 || u == 0x202f || u == 0x205f || u == 0x3000
}

/// `s` without its trailing white space.
pub open spec fn trim_end_spec(s: Seq<char>) -> Seq<char>
    decreases s.len(),
{
    if s.len() > 0 && is_white_space(s.last()) {
        trim_end_spec(s.drop_last())
    } else {
        s
    }
}

/// `s` without its trailing NUL padding.
pub open spec fn trim_nul_spec(s: Seq<char>) -> Seq<char>
    decreases s.len(),
{
    if s.len() > 0 && s.last() == '\0' {
        trim_nul_spec(s.drop_last())
    } else {
        s
    }
}

/// A physical line as a statement source sees it: trailing white space, then trailing
/// NUL padding, taken off.
pub open spec fn normalized(s: Seq<char>) -> Seq<char> {
    trim_nul_spec(trim_end_spec(s))
}

/// Relies on `str::trim_end`: it removes the trailing characters that have the Unicode
/// `White_Space` property.
#[verifier::external_body]
fn trim_end(s: &str) -> (r: String)
    ensures
        r@ == trim_end_spec(s@),
{
    s.trim_end().to_string()
}

/// Takes trailing white space and NUL padding off a physical line.
pub fn normalize_line(s: &str) -> (r: String)
    ensures
        r@ == normalized(s@),
{
    let t = trim_end(s);
    let n = t.as_str().unicode_len();
    let mut k: usize = n;
    assert(t@.take(n as int) =~= t@);
    while k > 0 && t.as_str().get_char(k - 1) == '\0'
        invariant
            k <= n,
            n == t@.len(),
            trim_nul_spec(t@) == trim_nul_spec(t@.take(k as int)),
        decreases k,
    {
        assert(t@.take(k as int).drop_last() =~= t@.take(k - 1));
        k = k - 1;
    }
    assert(trim_nul_spec(t@.take(k as int)) == t@.take(k as int));
    let r = t.as_str().substring_char(0, k);
    assert(t@.subrange(0, k as int) =~= t@.take(k as int));
    String::from_str(r)
}

/// A source of statements: trimmed, comma-separated pieces of the physical lines, with
/// blank lines skipped.
pub trait CsaStream {
    /// The next statement, or `None` at the end of the input.
    fn next(&mut self) -> Result<Option<String>, CsaStreamReadError>;
}

/// The statement buffer of a line source: it holds the statements of the physical line
/// read last, and asks for another line when they are used up.
pub struct CsaLineBuffer {
    lines: Option<Vec<String>>,
    current_pos: usize,
}

impl CsaLineBuffer {
    /// The statements not yet handed out, or `None` once the input has ended.
    pub closed spec fn pending(&self) -> Option<Seq<Seq<char>>> {
        match self.lines {
            None => None,
            Some(v) => Some(lines_view(v@).skip(self.current_pos as int)),
        }
    }

    #[verifier::type_invariant]
    closed spec fn inv(self) -> bool {
        match self.lines {
            None => true,
            Some(v) => self.current_pos <= v@.len(),
        }
    }

    /// A buffer that has read nothing yet.
    pub fn new() -> (r: CsaLineBuffer)
        ensures
            r.pending() == Some(Seq::<Seq<char>>::empty()),
    {
        let r = CsaLineBuffer { lines: Some(Vec::new()), current_pos: 0 };
        assert(lines_view(Seq::<String>::empty()).skip(0) =~= Seq::<Seq<char>>::empty());
        r
    }

    /// Whether another physical line is needed before a statement can be handed out.
    pub fn needs_line(&self) -> (r: bool)
        ensures
            r == (self.pending() == Some(Seq::<Seq<char>>::empty())),
    {
        proof {
            use_type_invariant(self);
        }
        match &self.lines {
            None => false,
            Some(v) => {
                proof {
                    if self.current_pos < v@.len() {
                        assert(lines_view(v@).skip(self.current_pos as int).len() > 0);
                    } else {
                        assert(lines_view(v@).skip(self.current_pos as int) =~= Seq::<Seq<char>>::empty());
                    }
                }
                self.current_pos >= v.len()
            },
        }
    }

    /// Hands in the next physical line, or `None` at the end of the input; a blank line
    /// leaves the buffer still asking.
    pub fn supply(&mut self, raw: Option<String>)
        ensures
            raw is None ==> final(self).pending() is None,
            raw is Some && normalized(raw->Some_0@).len() == 0 ==> final(self).pending()
                == old(self).pending(),
            raw is Some && normalized(raw->Some_0@).len() > 0 ==> final(self).pending() == Some(
                statements_of(normalized(raw->Some_0@)),
            ),
    {
        proof {
            use_type_invariant(&*self);
        }
        match raw {
            None => {
                *self = CsaLineBuffer { lines: None, current_pos: 0 };
            },
            Some(raw) => {
                let buf = normalize_line(raw.as_str());
                if buf.as_str().unicode_len() > 0 {
                    let v = read_real_line(buf);
                    *self = CsaLineBuffer { lines: Some(v), current_pos: 0 };
                    assert(lines_view(v@).skip(0) =~= lines_view(v@));
                }
            },
        }
    }

    /// The next statement, once a line is at hand; `None` once the input has ended.
    pub fn take(&mut self) -> (r: Option<String>)
        requires
            old(self).pending() != Some(Seq::<Seq<char>>::empty()),
        ensures
            old(self).pending() is None ==> r is None && final(self).pending() is None,
            old(self).pending() is Some ==> r is Some && r->Some_0@ == old(self).pending()->Some_0[0]
                && final(self).pending() == Some(old(self).pending()->Some_0.drop_first()),
    {
        proof {
            use_type_invariant(&*self);
        }
        match &self.lines {
            None => None,
            Some(v) => {
                let p = self.current_pos;
                if p >= v.len() {
                    assert(lines_view(v@).skip(p as int) =~= Seq::<Seq<char>>::empty());
                    return None;
                }
                let s = v[p].clone();
                assert(lines_view(v@).skip(p as int)[0] == v@[p as int]@);
                assert(lines_view(v@).skip(p + 1) =~= lines_view(v@).skip(p as int).drop_first());
                self.current_pos = p + 1;
                Some(s)
            },
        }
    }
}

/// The statements of the physical lines `raw`, in order, blank lines skipped.
pub open spec fn raw_statements(raw: Seq<Seq<char>>) -> Seq<Seq<char>>
    decreases raw.len(),
{
    if raw.len() == 0 {
        Seq::empty()
    } else {
        let l = normalized(raw[0]);
        let here = if l.len() == 0 { Seq::empty() } else { statements_of(l) };
        here + raw_statements(raw.skip(1))
    }
}

/// A statement source over physical lines held in memory.
pub struct CsaLinesStream {
    raw: Vec<String>,
    next_raw: usize,
    buffer: CsaLineBuffer,
}

impl CsaLinesStream {
    /// The statements still to come: those buffered, then those of the lines not read yet.
    pub closed spec fn statements(&self) -> Seq<Seq<char>> {
        match self.buffer.pending() {
            None => Seq::empty(),
            Some(p) => p + if self.next_raw <= self.raw@.len() {
                raw_statements(lines_view(self.raw@).skip(self.next_raw as int))
            } else {
                Seq::empty()
            },
        }
    }

    pub fn new(raw: Vec<String>) -> (r: CsaLinesStream)
        ensures
            r.statements() == raw_statements(lines_view(raw@)),
    {
        let r = CsaLinesStream { raw, next_raw: 0, buffer: CsaLineBuffer::new() };
        assert(lines_view(r.raw@).skip(0) =~= lines_view(r.raw@));
        assert(Seq::<Seq<char>>::empty() + raw_statements(lines_view(r.raw@)) =~= raw_statements(
            lines_view(r.raw@),
        ));
        r
    }
}

impl CsaStream for CsaLinesStream {
    fn next(&mut self) -> (r: Result<Option<String>, CsaStreamReadError>)
        ensures
            r is Ok,
            old(self).statements().len() == 0 ==> r->Ok_0 is None && final(self).statements().len()
                == 0,
            old(self).statements().len() > 0 ==> r->Ok_0 is Some && r->Ok_0->Some_0@ == old(
                self,
            ).statements()[0] && final(self).statements() == old(self).statements().drop_first(),
    {
        let ghost total = self.statements();
        loop
            invariant
                self.statements() == total,
            ensures
                self.statements() == total,
                self.buffer.pending() != Some(Seq::<Seq<char>>::empty()),
            decreases self.raw@.len() - self.next_raw,
        {
            if !self.buffer.needs_line() {
                break;
            }
            let ghost rv = lines_view(self.raw@);
            if self.next_raw < self.raw.len() {
                let ghost n = self.next_raw as int;
                let l = self.raw[self.next_raw].clone();
                assert(rv.skip(n)[0] == l@);
                assert(rv.skip(n).skip(1) =~= rv.skip(n + 1));
                self.next_raw = self.next_raw + 1;
                self.buffer.supply(Some(l));
                proof {
                    let nl = normalized(l@);
                    let here = if nl.len() == 0 { Seq::<Seq<char>>::empty() } else { statements_of(nl) };
                    assert(raw_statements(rv.skip(n)) == here + raw_statements(rv.skip(n + 1)));
                    assert(Seq::<Seq<char>>::empty() + raw_statements(rv.skip(n)) =~= raw_statements(rv.skip(n)));
                    if nl.len() == 0 {
                        assert(here + raw_statements(rv.skip(n + 1)) =~= raw_statements(rv.skip(n + 1)));
                        assert(Seq::<Seq<char>>::empty() + raw_statements(rv.skip(n + 1)) =~= raw_statements(rv.skip(n + 1)));
                    }
                }
            } else {
                proof {
                    if self.next_raw as int == rv.len() {
                        assert(rv.skip(self.next_raw as int) =~= Seq::<Seq<char>>::empty());
                    }
                    assert(Seq::<Seq<char>>::empty() + Seq::<Seq<char>>::empty() =~= Seq::<Seq<char>>::empty());
                }
                self.buffer.supply(None);
                break;
            }
        }
        let ghost rest = if self.next_raw <= self.raw@.len() {
            raw_statements(lines_view(self.raw@).skip(self.next_raw as int))
        } else {
            Seq::<Seq<char>>::empty()
        };
        let ghost before = self.buffer.pending();
        let r = self.buffer.take();
        proof {
            if let Some(p) = before {
                if p.len() == 0 {
                    assert(p =~= Seq::<Seq<char>>::empty());
                }
                assert(total == p + rest);
                assert((p + rest)[0] == p[0]);
                assert(p.drop_first() + rest =~= (p + rest).drop_first());
            }
        }
        Ok(r)
    }
}

} // verus!
