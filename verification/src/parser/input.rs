use vstd::prelude::*;
use vstd::string::*;
use vstd::utf8::{decode_utf8, valid_utf8};
use crate::diagnostics::diagnostic::Diagnostic;
use crate::diagnostics::location::Range;
use crate::strings::{byte_char, bytes_slice_to_string, lossy_utf8, str_bytes};

verus! {

/// Settings and findings of one parse: how many bytes a line ending has
/// (1 for `\n`, 2 for `\r\n`) and the diagnostics collected so far.
pub struct ParsingContext {
    pub line_endings: usize,
    pub diagnostics: Vec<Diagnostic>,
}

impl ParsingContext {
    pub fn new(line_endings: usize) -> (r: Self)
        ensures
            r.line_endings == line_endings,
            r.diagnostics@.len() == 0,
    {
        ParsingContext { line_endings, diagnostics: Vec::new() }
    }
}

/// Whether a line ending starts at byte `i`.
pub open spec fn eol_at(data: Seq<u8>, i: int, le: usize) -> bool {
    &&& 0 <= i < data.len()
    &&& {
        ||| (data[i] == 10u8 && le == 1)
        ||| (data[i] == 13u8 && le == 2 && i + 1 < data.len() && data[i + 1] == 10u8)
    }
}

/// The first byte at or after `i` where a line ending starts, or the end of the data.
pub open spec fn next_eol(data: Seq<u8>, i: int, le: usize) -> int
    decreases data.len() - i,
{
    if i >= data.len() {
        i
    } else if eol_at(data, i, le) {
        i
    } else {
        next_eol(data, i + 1, le)
    }
}

pub proof fn lemma_next_eol_bounds(data: Seq<u8>, i: int, le: usize)
    requires
        i <= data.len(),
    ensures
        i <= next_eol(data, i, le) <= data.len(),
        next_eol(data, i, le) < data.len() ==> eol_at(data, next_eol(data, i, le), le),
        forall|k: int| i <= k < next_eol(data, i, le) ==> !eol_at(data, k, le),
    decreases data.len() - i,
{
    if i < data.len() && !eol_at(data, i, le) {
        lemma_next_eol_bounds(data, i + 1, le);
    }
}

/// Matching `pat[k..]` against the data from byte `i` on, the way `consume_until`
/// does it: stops at the first mismatch, one byte past it.
/// Returns whether the whole pattern matched and where the scan stopped.
pub open spec fn try_match(data: Seq<u8>, pat: Seq<u8>, i: int, k: int) -> (bool, int)
    decreases pat.len() - k,
{
    if k >= pat.len() {
        (true, i)
    } else if i < 0 || i >= data.len() {
        (false, i)
    } else if data[i] != pat[k] {
        (false, i + 1)
    } else {
        try_match(data, pat, i + 1, k + 1)
    }
}

/// Where `consume_until` stops after a successful match that started its scan at `i`.
pub open spec fn scan_until(data: Seq<u8>, pat: Seq<u8>, i: int) -> Option<int>
    decreases data.len() - i,
{
    if i < 0 || i >= data.len() {
        None
    } else {
        let (ok, j) = try_match(data, pat, i, 0);
        if ok {
            Some(j)
        } else if j <= i || j > data.len() {
            None
        } else {
            scan_until(data, pat, j)
        }
    }
}

pub proof fn lemma_try_match(data: Seq<u8>, pat: Seq<u8>, i: int, k: int)
    requires
        0 <= i,
        0 <= k <= pat.len(),
    ensures
        try_match(data, pat, i, k).0 ==> try_match(data, pat, i, k).1 == i + pat.len() - k
            && i + pat.len() - k <= data.len() || k == pat.len(),
        try_match(data, pat, i, k).0 ==> try_match(data, pat, i, k).1 == i + pat.len() - k,
        try_match(data, pat, i, k).0 && k < pat.len() ==> i + pat.len() - k <= data.len(),
        !try_match(data, pat, i, k).0 && i < data.len() ==> i < try_match(data, pat, i, k).1 <= data.len(),
        !try_match(data, pat, i, k).0 && i >= data.len() ==> try_match(data, pat, i, k).1 == i,
    decreases pat.len() - k,
{
    if k < pat.len() && i < data.len() && data[i] == pat[k] {
        lemma_try_match(data, pat, i + 1, k + 1);
    }
}

pub proof fn lemma_scan_until(data: Seq<u8>, pat: Seq<u8>, i: int)
    requires
        0 <= i,
    ensures
        scan_until(data, pat, i) matches Some(j) ==> i + pat.len() <= j <= data.len() + pat.len(),
        scan_until(data, pat, i) matches Some(j) ==> pat.len() <= j && j - pat.len() >= i,
        scan_until(data, pat, i) matches Some(j) ==> (pat.len() > 0 ==> j <= data.len()),
        scan_until(data, pat, i) matches Some(j) ==> j <= data.len(),
    decreases data.len() - i,
{
    if 0 <= i < data.len() {
        lemma_try_match(data, pat, i, 0);
        let (ok, j) = try_match(data, pat, i, 0);
        if !ok && j > i {
            lemma_scan_until(data, pat, j);
        }
    }
}

/// The first position `q >= from` at which `pat` occurs with `q + pat.len() < data.len()`.
pub open spec fn first_occurrence(data: Seq<u8>, pat: Seq<u8>, from: int) -> Option<int>
    decreases data.len() - from,
{
    if from < 0 || from + pat.len() >= data.len() {
        None
    } else if data.subrange(from, from + pat.len()) == pat {
        Some(from)
    } else {
        first_occurrence(data, pat, from + 1)
    }
}

pub proof fn lemma_first_occurrence(data: Seq<u8>, pat: Seq<u8>, from: int)
    requires
        0 <= from,
    ensures
        first_occurrence(data, pat, from) matches Some(q) ==> from <= q && q + pat.len() < data.len()
            && data.subrange(q, q + pat.len()) == pat,
    decreases data.len() - from,
{
    if from + pat.len() < data.len() && data.subrange(from, from + pat.len()) != pat {
        lemma_first_occurrence(data, pat, from + 1);
    }
}

/// Where `consume_until_of_eol` finds `pat`: the first position at or after
/// `q`, before the first line ending, where `pat` starts and no line ending
/// starts within it.
pub open spec fn eol_scan(data: Seq<u8>, pat: Seq<u8>, le: usize, q: int) -> Option<int>
    decreases data.len() - q,
{
    if q < 0 || q >= data.len() || eol_at(data, q, le) {
        None
    } else if q + pat.len() <= data.len() && data.subrange(q, q + pat.len()) == pat && (forall|j: int|
        q <= j < q + pat.len() ==> !eol_at(data, j, le)) {
        Some(q)
    } else {
        eol_scan(data, pat, le, q + 1)
    }
}

pub proof fn lemma_eol_scan(data: Seq<u8>, pat: Seq<u8>, le: usize, q: int)
    requires
        0 <= q,
    ensures
        eol_scan(data, pat, le, q) matches Some(r) ==> q <= r && r + pat.len() <= data.len()
            && data.subrange(r, r + pat.len()) == pat && r + pat.len() <= next_eol(data, q, le),
    decreases data.len() - q,
{
    if q < data.len() && !eol_at(data, q, le) {
        lemma_eol_scan(data, pat, le, q + 1);
        if let Some(r) = eol_scan(data, pat, le, q) {
            if r == q {
                lemma_no_eol_before(data, q, r + pat.len(), le);
            }
        }
    }
}

/// Number of consecutive bytes equal to `b` from `i` on.
pub open spec fn run_length(data: Seq<u8>, i: int, b: u8) -> int
    decreases data.len() - i,
{
    if i < 0 || i >= data.len() || data[i] != b {
        0
    } else {
        1 + run_length(data, i + 1, b)
    }
}

pub proof fn lemma_run_length(data: Seq<u8>, i: int, b: u8)
    requires
        0 <= i,
    ensures
        0 <= run_length(data, i, b),
        i + run_length(data, i, b) <= data.len() || run_length(data, i, b) == 0,
        forall|k: int| i <= k < i + run_length(data, i, b) ==> data[k] == b,
        i + run_length(data, i, b) < data.len() ==> data[i + run_length(data, i, b)] != b,
    decreases data.len() - i,
{
    if 0 <= i < data.len() && data[i] == b {
        lemma_run_length(data, i + 1, b);
    }
}

/// A cursor over the bytes of a story's text, with its parsing context.
pub struct InputConsumer<'a> {
    pub data: &'a [u8],
    pub ctx: ParsingContext,
    pub pos: usize,
}

impl<'a> InputConsumer<'a> {
    pub open spec fn bytes(&self) -> Seq<u8> {
        self.data@
    }

    pub fn new(content: &'a str, ctx: ParsingContext) -> (r: Self)
        ensures
            r.pos == 0,
            r.data@ == content.spec_bytes(),
            r.ctx == ctx,
    {
        InputConsumer { pos: 0, ctx, data: content.as_bytes() }
    }

    /// Up to `len` bytes from the current position, as text.
    pub fn slice(&self, len: usize) -> (s: String)
        requires
            self.pos <= self.data@.len(),
        ensures
            s@ == lossy_utf8(self.data@.subrange(
                self.pos as int,
                if self.pos + len > self.data@.len() { self.data@.len() as int } else { self.pos + len },
            )),
            ({
                let b = self.data@.subrange(
                    self.pos as int,
                    if self.pos + len > self.data@.len() { self.data@.len() as int } else { self.pos + len },
                );
                valid_utf8(b) ==> s@ == decode_utf8(b)
            }),
    {
        let end = if len > self.data.len() - self.pos {
            self.data.len()
        } else {
            self.pos + len
        };
        bytes_slice_to_string(self.data, self.pos, end)
    }

    pub fn skip(&mut self)
        requires
            old(self).pos < usize::MAX,
        ensures
            final(self).pos == old(self).pos + 1,
            final(self).data == old(self).data,
            final(self).ctx == old(self).ctx,
    {
        self.pos = self.pos + 1;
    }

    pub fn set_pos(&mut self, pos: usize)
        ensures
            final(self).pos == pos,
            final(self).data == old(self).data,
            final(self).ctx == old(self).ctx,
    {
        self.pos = pos;
    }

    pub fn skip_n(&mut self, n: usize)
        requires
            old(self).pos + n <= usize::MAX,
        ensures
            final(self).pos == old(self).pos + n,
            final(self).data == old(self).data,
            final(self).ctx == old(self).ctx,
    {
        self.pos = self.pos + n;
    }

    /// The byte at the current position, as a character; the position moves past it.
    pub fn force_next(&mut self) -> (c: char)
        requires
            old(self).pos < old(self).data@.len(),
        ensures
            c == byte_char(old(self).data@[old(self).pos as int]),
            final(self).pos == old(self).pos + 1,
            final(self).data == old(self).data,
            final(self).ctx == old(self).ctx,
    {
        let item = self.data[self.pos] as char;
        self.pos = self.pos + 1;
        item
    }

    pub fn back(&mut self, n: usize)
        requires
            n <= old(self).pos,
        ensures
            final(self).pos == old(self).pos - n,
            final(self).data == old(self).data,
            final(self).ctx == old(self).ctx,
    {
        self.pos = self.pos - n;
    }

    pub fn peek(&self) -> (c: Option<char>)
        ensures
            self.pos >= self.data@.len() ==> c.is_none(),
            self.pos < self.data@.len() ==> c == Some(byte_char(self.data@[self.pos as int])),
    {
        if self.pos >= self.data.len() {
            None
        } else {
            Some(self.data[self.pos] as char)
        }
    }

    pub fn peek_n(&self, n: usize) -> (c: Option<char>)
        requires
            self.pos + n <= usize::MAX,
        ensures
            self.pos + n >= self.data@.len() ==> c.is_none(),
            self.pos + n < self.data@.len() ==> c == Some(byte_char(self.data@[self.pos + n])),
    {
        let f = self.pos + n;
        if f >= self.data.len() {
            None
        } else {
            Some(self.data[f] as char)
        }
    }

    pub fn consume(&mut self) -> (c: Option<char>)
        ensures
            old(self).pos >= old(self).data@.len() ==> c.is_none() && final(self).pos == old(self).pos,
            old(self).pos < old(self).data@.len() ==> c == Some(byte_char(old(self).data@[old(self).pos as int]))
                && final(self).pos == old(self).pos + 1,
            final(self).data == old(self).data,
            final(self).ctx == old(self).ctx,
    {
        if self.pos >= self.data.len() {
            None
        } else {
            let item = self.data[self.pos] as char;
            self.pos = self.pos + 1;
            Some(item)
        }
    }

    /// Whether a line ending starts at byte `i`.
    fn eol_here(&self, i: usize) -> (r: bool)
        ensures
            r == eol_at(self.data@, i as int, self.ctx.line_endings),
    {
        if i >= self.data.len() {
            false
        } else if self.data[i] == 10u8 && self.ctx.line_endings == 1 {
            true
        } else if self.data[i] == 13u8 && self.ctx.line_endings == 2 && i < self.data.len() - 1 {
            self.data[i + 1] == 10u8
        } else {
            false
        }
    }


    /// Whether `pat` occurs in the data at byte `q`.
    fn matches_at(&self, q: usize, pat: &[u8]) -> (r: bool)
        ensures
            r == (q + pat@.len() <= self.data@.len() && self.data@.subrange(q as int, q + pat@.len()) == pat@),
    {
        if q > self.data.len() || pat.len() > self.data.len() - q {
            return false;
        }
        let mut k: usize = 0;
        while k < pat.len()
            invariant
                0 <= k <= pat@.len(),
                q + pat@.len() <= self.data.len(),
                forall|m: int| 0 <= m < k ==> self.data@[q + m] == pat@[m],
            decreases pat@.len() - k,
        {
            if self.data[q + k] != pat[k] {
                assert(self.data@.subrange(q as int, q + pat@.len())[k as int] != pat@[k as int]);
                return false;
            }
            k = k + 1;
        }
        assert(self.data@.subrange(q as int, q + pat@.len()) =~= pat@);
        true
    }

    /// Whether no line ending starts at any byte in `from..to`.
    fn no_eol_between(&self, from: usize, to: usize) -> (r: bool)
        requires
            from <= to <= self.data@.len(),
        ensures
            r == (forall|j: int| from <= j < to ==> !eol_at(self.data@, j, self.ctx.line_endings)),
    {
        let mut m = from;
        while m < to
            invariant
                from <= m <= to,
                to <= self.data@.len(),
                forall|j: int| from <= j < m ==> !eol_at(self.data@, j, self.ctx.line_endings),
            decreases to - m,
        {
            if self.eol_here(m) {
                return false;
            }
            m = m + 1;
        }
        true
    }

    /// The text up to the next line ending (or the end of the data); the
    /// position moves past the line ending.
    pub fn consume_until_end_of_line(&mut self) -> (s: String)
        requires
            old(self).pos <= old(self).data@.len(),
            old(self).data@.len() + old(self).ctx.line_endings <= usize::MAX,
        ensures
            old(self).pos + old(self).ctx.line_endings <= final(self).pos <= old(self).data@.len() + old(self).ctx.line_endings,
            s@ == lossy_utf8(old(self).data@.subrange(
                old(self).pos as int,
                next_eol(old(self).data@, old(self).pos as int, old(self).ctx.line_endings),
            )),
            ({
                let b = old(self).data@.subrange(
                    old(self).pos as int,
                    next_eol(old(self).data@, old(self).pos as int, old(self).ctx.line_endings),
                );
                valid_utf8(b) ==> s@ == decode_utf8(b)
            }),
            final(self).pos == next_eol(old(self).data@, old(self).pos as int, old(self).ctx.line_endings)
                + old(self).ctx.line_endings,
            final(self).data == old(self).data,
            final(self).ctx == old(self).ctx,
    {
        let start = self.pos;
        proof {
            lemma_next_eol_bounds(self.data@, start as int, self.ctx.line_endings);
        }
        while self.pos < self.data.len() && !self.eol_here(self.pos)
            invariant
                start <= self.pos <= self.data@.len(),
                self.data == old(self).data,
                self.ctx == old(self).ctx,
                next_eol(self.data@, start as int, self.ctx.line_endings)
                    == next_eol(self.data@, self.pos as int, self.ctx.line_endings),
            decreases self.data@.len() - self.pos,
        {
            self.pos = self.pos + 1;
        }
        let string = bytes_slice_to_string(self.data, start, self.pos);
        self.pos = self.pos + self.ctx.line_endings;
        string
    }

    /// Moves past the next line ending (or to the end of the data, plus the
    /// size of a line ending).
    pub fn skip_until_end_of_line(&mut self)
        requires
            old(self).pos <= old(self).data@.len(),
            old(self).data@.len() + old(self).ctx.line_endings <= usize::MAX,
        ensures
            old(self).pos + old(self).ctx.line_endings <= final(self).pos <= old(self).data@.len() + old(self).ctx.line_endings,
            final(self).pos == next_eol(old(self).data@, old(self).pos as int, old(self).ctx.line_endings)
                + old(self).ctx.line_endings,
            final(self).data == old(self).data,
            final(self).ctx == old(self).ctx,
    {
        let ghost start = self.pos;
        proof {
            lemma_next_eol_bounds(self.data@, start as int, self.ctx.line_endings);
        }
        while self.pos < self.data.len() && !self.eol_here(self.pos)
            invariant
                start <= self.pos <= self.data@.len(),
                self.data == old(self).data,
                self.ctx == old(self).ctx,
                next_eol(self.data@, start as int, self.ctx.line_endings)
                    == next_eol(self.data@, self.pos as int, self.ctx.line_endings),
            decreases self.data@.len() - self.pos,
        {
            self.pos = self.pos + 1;
        }
        self.pos = self.pos + self.ctx.line_endings;
    }

    /// The text up to the first match of `pattern` (found by a scan that
    /// resumes one byte past each mismatch); the position moves past the match.
    /// `None`, with the position at the end of the data, where nothing matches.
    pub fn consume_until(&mut self, pattern: &str) -> (r: Option<String>)
        requires
            old(self).pos <= old(self).data@.len(),
        ensures
            final(self).data == old(self).data,
            final(self).ctx == old(self).ctx,
            old(self).pos <= final(self).pos <= old(self).data@.len(),
            match scan_until(old(self).data@, str_bytes(pattern), old(self).pos as int) {
                Some(j) => r.is_some() && final(self).pos == j
                    && r.unwrap()@ == lossy_utf8(old(self).data@.subrange(old(self).pos as int, j - str_bytes(pattern).len()))
                    && (valid_utf8(old(self).data@.subrange(old(self).pos as int, j - str_bytes(pattern).len()))
                        ==> r.unwrap()@ == decode_utf8(old(self).data@.subrange(old(self).pos as int, j - str_bytes(pattern).len()))),
                None => r.is_none() && final(self).pos >= old(self).data@.len(),
            },
    {
        let pat = pattern.as_bytes();
        let plen = pat.len();
        let start = self.pos;
        proof {
            lemma_scan_until(self.data@, pat@, start as int);
        }
        while self.pos < self.data.len()
            invariant
                start <= self.pos,
                start == old(self).pos,
                self.pos <= self.data@.len(),
                self.data == old(self).data,
                self.ctx == old(self).ctx,
                pat@ == str_bytes(pattern),
                plen == pat@.len(),
                scan_until(self.data@, pat@, start as int) == scan_until(self.data@, pat@, self.pos as int),
            decreases self.data@.len() - self.pos,
        {
            let i = self.pos;
            proof {
                lemma_try_match(self.data@, pat@, i as int, 0);
                lemma_scan_until(self.data@, pat@, i as int);
            }
            let mut k: usize = 0;
            while k < plen && self.pos < self.data.len() && self.data[self.pos] == pat[k]
                invariant
                    0 <= k <= plen,
                    plen == pat@.len(),
                    start <= i,
                    start == old(self).pos,
                    i <= self.pos <= self.data@.len(),
                    self.pos == i + k,
                    self.data == old(self).data,
                    self.ctx == old(self).ctx,
                    try_match(self.data@, pat@, i as int, 0) == try_match(self.data@, pat@, self.pos as int, k as int),
                decreases plen - k,
            {
                self.pos = self.pos + 1;
                k = k + 1;
            }
            if k == plen {
                assert(try_match(self.data@, pat@, i as int, 0) == (true, self.pos as int));
                assert(scan_until(self.data@, pat@, i as int) == Some(self.pos as int));
                let s = bytes_slice_to_string(self.data, start, self.pos - plen);
                assert(scan_until(old(self).data@, str_bytes(pattern), old(self).pos as int) == Some(self.pos as int));
                return Some(s);
            }
            if self.pos < self.data.len() {
                self.pos = self.pos + 1;
            }
            proof {
                let (ok, j) = try_match(self.data@, pat@, i as int, 0);
                assert(!ok);
                assert(j == self.pos);
                assert(scan_until(self.data@, pat@, i as int) == scan_until(self.data@, pat@, self.pos as int));
            }
            if self.pos <= i {
                self.pos = self.data.len();
            }
        }
        None
    }

    /// Like `consume_until`, but the match must end before the end of the
    /// current line; where there is none, the position stays.
    pub fn consume_until_of_eol(&mut self, pattern: &str) -> (r: Option<String>)
        requires
            old(self).pos <= old(self).data@.len(),
        ensures
            old(self).pos <= final(self).pos <= old(self).data@.len(),
            final(self).data == old(self).data,
            final(self).ctx == old(self).ctx,
            r.is_none() ==> final(self).pos == old(self).pos,
            r.is_some() ==> old(self).pos + str_bytes(pattern).len() <= final(self).pos
                && final(self).pos <= next_eol(old(self).data@, old(self).pos as int, old(self).ctx.line_endings)
                && final(self).pos - str_bytes(pattern).len() >= old(self).pos
                && old(self).data@.subrange(final(self).pos - str_bytes(pattern).len(), final(self).pos as int) == str_bytes(pattern)
                && r.unwrap()@ == lossy_utf8(old(self).data@.subrange(old(self).pos as int, final(self).pos - str_bytes(pattern).len()))
                && (valid_utf8(old(self).data@.subrange(old(self).pos as int, final(self).pos - str_bytes(pattern).len()))
                    ==> r.unwrap()@ == decode_utf8(old(self).data@.subrange(old(self).pos as int, final(self).pos - str_bytes(pattern).len()))),
            match eol_scan(old(self).data@, str_bytes(pattern), old(self).ctx.line_endings, old(self).pos as int) {
                Some(q) => r.is_some() && final(self).pos == q + str_bytes(pattern).len(),
                None => r.is_none(),
            },
    {
        let pat = pattern.as_bytes();
        let plen = pat.len();
        let start = self.pos;
        let mut q = start;
        proof {
            lemma_next_eol_bounds(self.data@, start as int, self.ctx.line_endings);
        }
        while q < self.data.len()
            invariant
                start <= q <= self.data@.len(),
                self.pos == start,
                start == old(self).pos,
                self.data == old(self).data,
                self.ctx == old(self).ctx,
                pat@ == str_bytes(pattern),
                plen == pat@.len(),
                forall|k: int| start <= k < q ==> !eol_at(self.data@, k, self.ctx.line_endings),
                next_eol(self.data@, start as int, self.ctx.line_endings)
                    == next_eol(self.data@, q as int, self.ctx.line_endings),
                eol_scan(self.data@, pat@, self.ctx.line_endings, start as int)
                    == eol_scan(self.data@, pat@, self.ctx.line_endings, q as int),
            ensures
                self.pos == start,
                start == old(self).pos,
                self.data == old(self).data,
                self.ctx == old(self).ctx,
                pat@ == str_bytes(pattern),
                eol_scan(self.data@, pat@, self.ctx.line_endings, start as int) == None::<int>,
            decreases self.data@.len() - q,
        {
            if self.eol_here(q) {
                break;
            }
            if self.matches_at(q, pat) && self.no_eol_between(q, q + plen) {
                proof {
                    assert forall|j: int| start <= j < q + plen implies !eol_at(self.data@, j, self.ctx.line_endings) by {}
                    lemma_no_eol_before(self.data@, start as int, (q + plen) as int, self.ctx.line_endings);
                }
                let s = bytes_slice_to_string(self.data, start, q);
                self.pos = q + plen;
                assert(old(self).data@.subrange(q as int, q + plen) == str_bytes(pattern));
                assert(q + plen <= next_eol(old(self).data@, old(self).pos as int, old(self).ctx.line_endings));
                return Some(s);
            }
            q = q + 1;
        }
        None
    }

    /// The first position at or after the current one where `pattern` occurs
    /// and is followed by at least one more byte.
    pub fn get_pos_of(&self, pattern: &str) -> (r: Option<usize>)
        requires
            self.data@.len() + str_bytes(pattern).len() <= usize::MAX,
        ensures
            self.pos >= self.data@.len() ==> r.is_none(),
            r matches Some(q) ==> self.pos <= q < self.data@.len(),
            self.pos < self.data@.len() ==> match first_occurrence(self.data@, str_bytes(pattern), self.pos as int) {
                Some(q) => r == Some(q as usize),
                None => r.is_none(),
            },
    {
        let pat = pattern.as_bytes();
        let plen = pat.len();
        let mut pos = self.pos;
        if pos >= self.data.len() {
            return None;
        }
        proof {
            lemma_first_occurrence(self.data@, pat@, self.pos as int);
        }
        while plen < self.data.len() - pos
            invariant
                self.pos <= pos <= self.data@.len(),
                plen == pat@.len(),
                pat@ == str_bytes(pattern),
                self.data@.len() + plen <= usize::MAX,
                first_occurrence(self.data@, pat@, self.pos as int) == first_occurrence(self.data@, pat@, pos as int),
            decreases self.data@.len() - pos,
        {
            if self.matches_at(pos, pat) {
                return Some(pos);
            }
            pos = pos + 1;
        }
        None
    }

    /// Whether the current position directly follows a line ending.
    pub fn is_on_new_line(&self) -> (r: bool)
        requires
            1 <= self.pos <= self.data@.len(),
        ensures
            r == ((self.data@[self.pos - 1] == 10u8 && self.ctx.line_endings == 1) || (self.data@[self.pos - 1]
                == 13u8 && self.ctx.line_endings == 2 && self.pos >= 2 && self.data@[self.pos - 2] == 10u8)),
    {
        let prev = self.data[self.pos - 1];
        if prev == 10u8 && self.ctx.line_endings == 1 {
            true
        } else if prev == 13u8 && self.ctx.line_endings == 2 && self.pos >= 2 {
            self.data[self.pos - 2] == 10u8
        } else {
            false
        }
    }

    /// The indentation at the current position: a quarter of the number of
    /// spaces (counted in a byte, which wraps), and the position after them.
    pub fn get_identation(&self) -> (r: (u8, usize))
        requires
            self.pos <= self.data@.len(),
        ensures
            r.1 == self.pos + run_length(self.data@, self.pos as int, 32u8),
            self.pos <= r.1 <= self.data@.len(),
            r.0 == ((run_length(self.data@, self.pos as int, 32u8) % 256) / 4) as u8,
    {
        let mut depth: u8 = 0;
        let mut pos = self.pos;
        proof {
            lemma_run_length(self.data@, self.pos as int, 32u8);
        }
        while pos < self.data.len() && self.data[pos] == 32u8
            invariant
                self.pos <= pos <= self.data@.len(),
                depth == (pos - self.pos) % 256,
                run_length(self.data@, self.pos as int, 32u8) == (pos - self.pos) + run_length(self.data@, pos as int, 32u8),
            decreases self.data@.len() - pos,
        {
            depth = depth.wrapping_add(1);
            pos = pos + 1;
        }
        (depth / 4, pos)
    }

    /// Consumes the run of `character` at the current position and gives its length.
    pub fn count_while(&mut self, character: char) -> (count: usize)
        requires
            old(self).pos <= old(self).data@.len(),
        ensures
            old(self).pos <= final(self).pos <= old(self).data@.len(),
            (character as u32) < 256 ==> count == run_length(old(self).data@, old(self).pos as int, character as u8),
            (character as u32) >= 256 ==> count == 0,
            final(self).pos == old(self).pos + count,
            final(self).data == old(self).data,
            final(self).ctx == old(self).ctx,
    {
        let start = self.pos;
        let mut count: usize = 0;
        if (character as u32) >= 256 {
            return 0;
        }
        let b = character as u8;
        proof {
            lemma_run_length(self.data@, start as int, b);
        }
        while self.pos < self.data.len() && self.data[self.pos] == b
            invariant
                start <= self.pos <= self.data@.len(),
                count == self.pos - start,
                self.data == old(self).data,
                self.ctx == old(self).ctx,
                run_length(self.data@, start as int, b) == count + run_length(self.data@, self.pos as int, b),
            decreases self.data@.len() - self.pos,
        {
            count = count + 1;
            self.pos = self.pos + 1;
        }
        count
    }

    /// The length of the run of `character` at the current position, without moving.
    pub fn count(&self, character: char) -> (count: usize)
        requires
            self.pos <= self.data@.len(),
        ensures
            (character as u32) < 256 ==> count == run_length(self.data@, self.pos as int, character as u8),
            (character as u32) >= 256 ==> count == 0,
    {
        if (character as u32) >= 256 {
            return 0;
        }
        let b = character as u8;
        let mut pos = self.pos;
        proof {
            lemma_run_length(self.data@, self.pos as int, b);
        }
        while pos < self.data.len() && self.data[pos] == b
            invariant
                self.pos <= pos <= self.data@.len(),
                run_length(self.data@, self.pos as int, b) == (pos - self.pos) + run_length(self.data@, pos as int, b),
            decreases self.data@.len() - pos,
        {
            pos = pos + 1;
        }
        pos - self.pos
    }

    pub fn range_here(&self, start: usize) -> (r: Range<usize>)
        ensures
            r.start == start,
            r.end == self.pos,
    {
        Range { start, end: self.pos }
    }

    /// The one-byte range at the current position.
    pub fn range_single(&self) -> (r: Range<usize>)
        requires
            self.pos < usize::MAX,
        ensures
            r.start == self.pos,
            r.end == self.pos + 1,
    {
        Range { start: self.pos, end: self.pos + 1 }
    }

    pub fn is_eof(&self) -> (r: bool)
        ensures
            r == (self.pos >= self.data@.len()),
    {
        self.pos >= self.data.len()
    }

    /// Whether a line ending starts at the current position; the end of the
    /// data also counts as the end of a line.
    pub fn is_eol(&self) -> (r: bool)
        ensures
            r == (self.pos >= self.data@.len() || eol_at(self.data@, self.pos as int, self.ctx.line_endings)),
    {
        if self.pos >= self.data.len() {
            true
        } else {
            self.eol_here(self.pos)
        }
    }
}

pub proof fn lemma_no_eol_before(data: Seq<u8>, i: int, j: int, le: usize)
    requires
        0 <= i <= j <= data.len(),
        forall|k: int| i <= k < j ==> !eol_at(data, k, le),
    ensures
        j <= next_eol(data, i, le),
    decreases j - i,
{
    lemma_next_eol_bounds(data, i, le);
    if i < j {
        lemma_no_eol_before(data, i + 1, j, le);
    }
}

} // verus!
