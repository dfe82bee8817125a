use vstd::prelude::*;
use vstd::string::*;
use crate::diagnostics::location::Range;
use crate::parser::input::{InputConsumer, ParsingContext};
use crate::strings::{byte_char, bytes_slice_to_string, lossy_utf8, push_char};

verus! {

/// A token of story text: a character, a line ending, a space of indentation, or the end.
#[derive(Clone, Copy, PartialEq, Eq, Structural, Debug)]
pub enum TokenKind {
    Character(char),
    EndOfLine,
    Identation,
    EndOfFile,
}

impl TokenKind {
    /// The character the token stands for: line endings as `\n`, the others as a space.
    pub fn as_char(self) -> (c: char)
        ensures
            c == (match self {
                TokenKind::Character(character) => character,
                TokenKind::EndOfLine => '\n',
                _ => ' ',
            }),
    {
        match self {
            TokenKind::Character(character) => character,
            TokenKind::EndOfLine => '\n',
            TokenKind::Identation => ' ',
            TokenKind::EndOfFile => ' ',
        }
    }

    /// Whether the token is the given character.
    pub fn is(&self, equal_to: char) -> (r: bool)
        ensures
            r == (*self == TokenKind::Character(equal_to)),
    {
        match self {
            TokenKind::Character(character) => *character == equal_to,
            _ => false,
        }
    }
}

/// The token at `pos`: the position after it and whether a line just ended.
/// A space right after a line ending (or after such spaces) is indentation.
pub open spec fn lex_token(d: Seq<u8>, pos: int, prev_eol: bool, le: usize) -> (TokenKind, int, bool) {
    if pos < 0 || pos >= d.len() {
        (TokenKind::EndOfFile, pos, prev_eol)
    } else if d[pos] == 10u8 && le == 1 {
        (TokenKind::EndOfLine, pos + 1, true)
    } else if d[pos] == 13u8 && le == 2 && pos + 1 < d.len() && d[pos + 1] == 10u8 {
        (TokenKind::EndOfLine, pos + 2, true)
    } else if d[pos] == 32u8 && prev_eol {
        (TokenKind::Identation, pos + 1, prev_eol)
    } else {
        (TokenKind::Character(byte_char(d[pos])), pos + 1, false)
    }
}

/// The characters up to the end of the line (indentation left out), where
/// reading stops, and whether a line just ended.
pub open spec fn rest_of_line(d: Seq<u8>, pos: int, prev_eol: bool, le: usize) -> (Seq<char>, int, bool)
    decreases d.len() - pos,
{
    let t = lex_token(d, pos, prev_eol, le);
    if pos < 0 || pos >= d.len() {
        (seq![], pos, prev_eol)
    } else {
        match t.0 {
            TokenKind::Character(c) => {
                let r = rest_of_line(d, t.1, t.2, le);
                (seq![c] + r.0, r.1, r.2)
            },
            TokenKind::Identation => rest_of_line(d, t.1, t.2, le),
            _ => (seq![], t.1, t.2),
        }
    }
}

/// What the rest of a line gives when the first token is already known.
pub open spec fn line_after(d: Seq<u8>, p: (TokenKind, int, bool), le: usize) -> (Seq<char>, int, bool) {
    match p.0 {
        TokenKind::Character(c) => {
            let r = rest_of_line(d, p.1, p.2, le);
            (seq![c] + r.0, r.1, r.2)
        },
        TokenKind::Identation => rest_of_line(d, p.1, p.2, le),
        _ => (seq![], p.1, p.2),
    }
}

/// How many spaces of indentation follow, and where they end.
pub open spec fn indent_run(d: Seq<u8>, pos: int, prev_eol: bool, le: usize) -> (nat, int)
    decreases d.len() - pos,
{
    let t = lex_token(d, pos, prev_eol, le);
    if pos >= 0 && pos < d.len() && t.0 == TokenKind::Identation {
        let r = indent_run(d, t.1, t.2, le);
        (r.0 + 1, r.1)
    } else {
        (0, pos)
    }
}

/// The next token from a lexer state, and the state after handing it out.
pub open spec fn step_token(d: Seq<u8>, s: (Option<TokenKind>, int, bool), le: usize) -> (TokenKind, (Option<TokenKind>, int, bool)) {
    match s.0 {
        Some(t) => (t, (None, s.1, s.2)),
        None => {
            let t = lex_token(d, s.1, s.2, le);
            (t.0, (None, t.1, t.2))
        },
    }
}

/// How much is left to read from a lexer state.
pub open spec fn lex_measure(d: Seq<u8>, s: (Option<TokenKind>, int, bool)) -> int {
    d.len() - s.1 + (if s.0 is Some { 1int } else { 0int })
}

/// Whether the next tokens are the characters `pat[i..]`, and the state after
/// reading them, up to and including the first one that differs.
pub open spec fn match_tokens(d: Seq<u8>, pat: Seq<char>, i: int, s: (Option<TokenKind>, int, bool), le: usize) -> (bool, (Option<TokenKind>, int, bool))
    decreases pat.len() - i,
{
    if i >= pat.len() {
        (true, s)
    } else {
        let n = step_token(d, s, le);
        if n.0 != TokenKind::Character(pat[i]) {
            (false, n.1)
        } else {
            match_tokens(d, pat, i + 1, n.1, le)
        }
    }
}

/// Tries the pattern again and again from a lexer state until it matches or
/// the data ends (or nothing more is read): whether it matched, and the state
/// where reading stopped.
pub open spec fn find_pattern(d: Seq<u8>, pat: Seq<char>, s: (Option<TokenKind>, int, bool), le: usize) -> (bool, (Option<TokenKind>, int, bool))
    decreases lex_measure(d, s),
{
    if !(0 <= s.1 < d.len()) {
        (false, s)
    } else {
        let m = match_tokens(d, pat, 0, s, le);
        if m.0 {
            m
        } else if 0 <= lex_measure(d, m.1) < lex_measure(d, s) {
            find_pattern(d, pat, m.1, le)
        } else {
            (false, m.1)
        }
    }
}

/// Reading the run of indentation from a lexer state: how many indentation
/// tokens there are, and the state once they are read and the token after
/// them is looked at.
pub open spec fn indent_skip(d: Seq<u8>, s: (Option<TokenKind>, int, bool), le: usize) -> (nat, (Option<TokenKind>, int, bool))
    decreases lex_measure(d, s),
{
    let t = step_token(d, s, le);
    if t.0 == TokenKind::Identation && 0 <= lex_measure(d, t.1) < lex_measure(d, s) {
        let r = indent_skip(d, t.1, le);
        (r.0 + 1, r.1)
    } else {
        (0, (Some(t.0), t.1.1, t.1.2))
    }
}

/// With no token looked at, the run counts as many tokens as `indent_run`.
pub proof fn lemma_indent_skip_run(d: Seq<u8>, pos: int, prev_eol: bool, le: usize)
    requires
        0 <= pos <= d.len(),
    ensures
        indent_skip(d, (None, pos, prev_eol), le).0 == indent_run(d, pos, prev_eol, le).0,
    decreases d.len() - pos,
{
    let t = lex_token(d, pos, prev_eol, le);
    if pos < d.len() && t.0 == TokenKind::Identation {
        lemma_indent_skip_run(d, t.1, t.2, le);
    }
}

/// Where the text before a match ends: `plen` bytes before `end`, or `start`
/// where fewer were read.
pub open spec fn match_cut(start: int, end: int, plen: int) -> int {
    if end >= start && end - start >= plen {
        end - plen
    } else {
        start
    }
}

/// Reads story text token by token.
pub struct Lexer<'a> {
    pub input: InputConsumer<'a>,
    /// A token that was looked at and not yet handed out.
    pub current_token: Option<TokenKind>,
    pub is_previous_eol: bool,
}

impl<'a> Lexer<'a> {
    pub open spec fn data(&self) -> Seq<u8> {
        self.input.data@
    }

    pub open spec fn le(&self) -> usize {
        self.input.ctx.line_endings
    }

    /// What looking at the next token gives: the token, the position after it
    /// and whether a line just ended.
    pub open spec fn peeked(&self) -> (TokenKind, int, bool) {
        match self.current_token {
            Some(t) => (t, self.input.pos as int, self.is_previous_eol),
            None => lex_token(self.data(), self.input.pos as int, self.is_previous_eol, self.le()),
        }
    }

    /// Where the lexer stands: the token looked at and not yet handed out,
    /// the position and whether a line just ended.
    pub open spec fn state(&self) -> (Option<TokenKind>, int, bool) {
        (self.current_token, self.input.pos as int, self.is_previous_eol)
    }

    /// The position stays within the data.
    pub open spec fn wf(&self) -> bool {
        self.input.pos <= self.data().len()
    }

    pub fn new(text: &'a str, ctx: ParsingContext) -> (l: Self)
        ensures
            l.wf(),
            l.input.pos == 0,
            l.data() == text.spec_bytes(),
            l.input.ctx == ctx,
            l.current_token.is_none(),
            !l.is_previous_eol,
    {
        Lexer { input: InputConsumer::new(text, ctx), current_token: None, is_previous_eol: false }
    }

    /// Reads the token at the position.
    pub fn process(&mut self) -> (t: TokenKind)
        requires
            old(self).wf(),
        ensures
            final(self).wf(),
            (t, final(self).input.pos as int, final(self).is_previous_eol) == lex_token(
                old(self).data(),
                old(self).input.pos as int,
                old(self).is_previous_eol,
                old(self).le(),
            ),
            final(self).input.data == old(self).input.data,
            final(self).input.ctx == old(self).input.ctx,
            final(self).current_token == old(self).current_token,
    {
        let len = self.input.data.len();
        match self.input.consume() {
            Some(character) => {
                if character == '\n' && self.input.ctx.line_endings == 1 {
                    self.is_previous_eol = true;
                    TokenKind::EndOfLine
                } else if character == '\r' && self.input.ctx.line_endings == 2 && self.input.peek() == Some('\n') {
                    self.input.skip();
                    self.is_previous_eol = true;
                    TokenKind::EndOfLine
                } else if character == ' ' && self.is_previous_eol {
                    TokenKind::Identation
                } else {
                    self.is_previous_eol = false;
                    TokenKind::Character(character)
                }
            },
            None => TokenKind::EndOfFile,
        }
    }

    /// The next token, which is then handed out.
    pub fn next(&mut self) -> (t: TokenKind)
        requires
            old(self).wf(),
        ensures
            final(self).wf(),
            (t, final(self).input.pos as int, final(self).is_previous_eol) == old(self).peeked(),
            final(self).current_token.is_none(),
            final(self).input.data == old(self).input.data,
            final(self).input.ctx == old(self).input.ctx,
    {
        match self.current_token {
            Some(t) => {
                self.current_token = None;
                t
            },
            None => self.process(),
        }
    }

    /// The next token, which stays to be handed out.
    pub fn peek(&mut self) -> (t: TokenKind)
        requires
            old(self).wf(),
        ensures
            final(self).wf(),
            (t, final(self).input.pos as int, final(self).is_previous_eol) == old(self).peeked(),
            final(self).current_token == Some(t),
            final(self).input.data == old(self).input.data,
            final(self).input.ctx == old(self).input.ctx,
    {
        match self.current_token {
            Some(t) => t,
            None => {
                let next = self.process();
                self.current_token = Some(next);
                next
            },
        }
    }

    /// The character `n` bytes ahead.
    pub fn peek_raw(&mut self, n: usize) -> (c: Option<char>)
        requires
            old(self).input.pos + n <= usize::MAX,
        ensures
            *final(self) == *old(self),
            old(self).input.pos + n < old(self).data().len() ==> c == Some(byte_char(old(self).data()[old(self).input.pos + n])),
            old(self).input.pos + n >= old(self).data().len() ==> c.is_none(),
    {
        self.input.peek_n(n)
    }

    /// Moves `n` bytes ahead, dropping a token that was looked at.
    pub fn skip_n(&mut self, n: usize)
        requires
            old(self).input.pos + n <= usize::MAX,
        ensures
            final(self).input.pos == old(self).input.pos + n,
            final(self).current_token.is_none(),
            final(self).input.data == old(self).input.data,
            final(self).input.ctx == old(self).input.ctx,
            final(self).is_previous_eol == old(self).is_previous_eol,
    {
        self.current_token = None;
        self.input.pos = self.input.pos + n;
    }

    /// Drops the token that was looked at.
    pub fn skip(&mut self)
        ensures
            final(self).current_token.is_none(),
            final(self).input == old(self).input,
            final(self).is_previous_eol == old(self).is_previous_eol,
    {
        self.current_token = None;
    }

    /// The characters up to the end of the line, indentation left out; the
    /// line ending is read too.
    pub fn consume_until_end_of_line(&mut self) -> (result: String)
        requires
            old(self).wf(),
        ensures
            final(self).wf(),
            final(self).current_token.is_none(),
            final(self).input.data == old(self).input.data,
            final(self).input.ctx == old(self).input.ctx,
            ({
                let l = line_after(old(self).data(), old(self).peeked(), old(self).le());
                result@ == l.0 && final(self).input.pos == l.1 && final(self).is_previous_eol == l.2
            }),
    {
        let ghost d = self.data();
        let ghost le = self.le();
        let mut result = String::new();
        let first = self.next();
        match first {
            TokenKind::EndOfFile | TokenKind::EndOfLine => {
                return result;
            },
            TokenKind::Character(c) => push_char(&mut result, c),
            TokenKind::Identation => {},
        }
        let ghost l = line_after(d, old(self).peeked(), le);
        proof {
            let p = old(self).peeked();
            let r = rest_of_line(d, p.1, p.2, le);
            match p.0 {
                TokenKind::Character(c) => {
                    assert(result@ + r.0 =~= seq![c] + r.0);
                },
                _ => {
                    assert(result@ + r.0 =~= r.0);
                },
            }
        }
        loop
            invariant
                self.wf(),
                self.current_token.is_none(),
                self.input.data@ == d,
                self.le() == le,
                self.input.ctx == old(self).input.ctx,
                self.input.data == old(self).input.data,
                l == line_after(d, old(self).peeked(), le),
                ({
                    let here = rest_of_line(d, self.input.pos as int, self.is_previous_eol, le);
                    &&& result@ + here.0 == l.0
                    &&& here.1 == l.1
                    &&& here.2 == l.2
                }),
            decreases d.len() - self.input.pos,
        {
            let ghost here_pos = self.input.pos as int;
            let ghost here_eol = self.is_previous_eol;
            let ghost before = result@;
            if self.input.pos >= self.input.data.len() {
                proof {
                    assert(before + Seq::<char>::empty() =~= before);
                }
                self.next();
                return result;
            }
            match self.next() {
                TokenKind::Character(c) => {
                    push_char(&mut result, c);
                    proof {
                        let t = lex_token(d, here_pos, here_eol, le);
                        let rr = rest_of_line(d, t.1, t.2, le);
                        assert(before.push(c) + rr.0 =~= before + (seq![c] + rr.0));
                    }
                },
                TokenKind::EndOfFile | TokenKind::EndOfLine => {
                    proof {
                        assert(before + Seq::<char>::empty() =~= before);
                    }
                    return result;
                },
                TokenKind::Identation => {},
            }
        }
    }

    /// Reads past the end of the line.
    pub fn skip_until_end_of_line(&mut self)
        requires
            old(self).wf(),
        ensures
            final(self).wf(),
            final(self).current_token.is_none(),
            final(self).input.data == old(self).input.data,
            final(self).input.ctx == old(self).input.ctx,
            ({
                let l = line_after(old(self).data(), old(self).peeked(), old(self).le());
                final(self).input.pos == l.1 && final(self).is_previous_eol == l.2
            }),
    {
        let _ = self.consume_until_end_of_line();
    }

    /// Counts the spaces of indentation that follow, in steps of four; the
    /// token after them stays to be handed out.
    pub fn skip_identation(&mut self) -> (depth: u8)
        requires
            old(self).wf(),
        ensures
            final(self).wf(),
            final(self).input.data == old(self).input.data,
            final(self).input.ctx == old(self).input.ctx,
            ({
                let k = indent_skip(old(self).data(), old(self).state(), old(self).le());
                depth == (k.0 % 256) as u8 / 4 && final(self).state() == k.1
            }),
            old(self).current_token.is_none() ==> depth == (indent_run(
                old(self).data(),
                old(self).input.pos as int,
                old(self).is_previous_eol,
                old(self).le(),
            ).0 % 256) as u8 / 4,
    {
        let ghost d = self.data();
        let ghost le = self.le();
        let mut depth: u8 = 0;
        let ghost mut counted: nat = 0;
        let ghost total = indent_skip(d, self.state(), le);
        proof {
            if self.current_token.is_none() {
                lemma_indent_skip_run(d, self.input.pos as int, self.is_previous_eol, le);
            }
        }
        loop
            invariant_except_break
                total.0 == counted + indent_skip(d, self.state(), le).0,
                total.1 == indent_skip(d, self.state(), le).1,
                depth == (counted % 256) as u8,
            invariant
                self.wf(),
                self.input.data == old(self).input.data,
                self.input.ctx == old(self).input.ctx,
                self.input.data@ == d,
                self.le() == le,
                total == indent_skip(d, old(self).state(), le),
            ensures
                depth == (total.0 % 256) as u8,
                self.state() == total.1,
            decreases lex_measure(d, self.state()),
        {
            let ghost here = self.state();
            let t = self.peek();
            proof {
                assert(step_token(d, here, le).0 == t);
            }
            match t {
                TokenKind::Identation => {
                    proof {
                        assert(counted % 256 < 255 ==> (counted + 1) % 256 == counted % 256 + 1);
                        assert(counted % 256 == 255 ==> (counted + 1) % 256 == 0);
                    }
                    depth = depth.wrapping_add(1);
                    proof {
                        counted = counted + 1;
                    }
                    self.skip();
                    proof {
                        assert(self.state() == step_token(d, here, le).1);
                    }
                },
                _ => {
                    break;
                },
            }
        }
        depth / 4
    }

    pub fn pos(&self) -> (p: usize)
        ensures
            p == self.input.pos,
    {
        self.input.pos
    }

    /// The range from `start` to the position.
    pub fn range_here(&self, start: usize) -> (r: Range<usize>)
        ensures
            r.start == start,
            r.end == self.input.pos,
    {
        Range { start, end: self.input.pos }
    }

    /// Reads tokens until the characters of the pattern come one after the
    /// other; gives the text before them. Where a token breaks the pattern,
    /// matching starts again after it.
    /// The text up to the next occurrence of `pattern` in the token stream,
    /// the pattern itself read too; `None` where the data ends first.
    pub fn consume_until(&mut self, pattern: &str) -> (r: Option<String>)
        requires
            old(self).wf(),
        ensures
            final(self).wf(),
            final(self).input.data == old(self).input.data,
            final(self).input.ctx == old(self).input.ctx,
            ({
                let f = find_pattern(old(self).data(), pattern@, old(self).state(), old(self).le());
                let start = old(self).input.pos as int;
                &&& final(self).state() == f.1
                &&& (r is Some <==> f.0)
                &&& (r matches Some(s) ==> s@ == lossy_utf8(
                    old(self).data().subrange(start, match_cut(start, f.1.1, pattern.spec_bytes().len() as int)),
                ))
            }),
    {
        let ghost d = self.data();
        let ghost le = self.le();
        let ghost p = pattern@;
        let start = self.input.pos;
        let plen = pattern.as_bytes().len();
        let n = pattern.unicode_len();
        while !self.input.is_eof()
            invariant
                self.wf(),
                n == p.len(),
                p == pattern@,
                d == self.data(),
                le == self.le(),
                start <= self.input.pos,
                plen == pattern.spec_bytes().len(),
                start == old(self).input.pos,
                self.input.data == old(self).input.data,
                self.input.ctx == old(self).input.ctx,
                find_pattern(d, p, old(self).state(), le) == find_pattern(d, p, self.state(), le),
            decreases lex_measure(d, self.state()),
        {
            let ghost s0 = self.state();
            let ghost entry = lex_measure(d, s0);
            let mut matches = true;
            let mut i: usize = 0;
            let mut progressed = false;
            while i < n
                invariant_except_break
                    matches,
                invariant
                    self.wf(),
                    n == p.len(),
                    p == pattern@,
                    d == self.data(),
                    le == self.le(),
                    0 <= i <= n,
                    start <= s0.1 <= self.input.pos,
                    s0.1 < d.len(),
                    self.input.data == old(self).input.data,
                    self.input.ctx == old(self).input.ctx,
                    progressed ==> lex_measure(d, self.state()) < entry,
                    !progressed ==> lex_measure(d, self.state()) == entry && self.state() == s0,
                    i > 0 ==> progressed,
                    match_tokens(d, p, 0, s0, le) == (if matches {
                        match_tokens(d, p, i as int, self.state(), le)
                    } else {
                        (false, self.state())
                    }),
                    !matches ==> progressed,
                ensures
                    matches ==> i == n,
                    match_tokens(d, p, 0, s0, le) == (if matches {
                        match_tokens(d, p, n as int, self.state(), le)
                    } else {
                        (false, self.state())
                    }),
                decreases n - i,
            {
                let had = self.current_token.is_some();
                let at_end = self.input.pos >= self.input.data.len();
                let ghost before = self.state();
                let t = self.next();
                proof {
                    assert(step_token(d, before, le) == (t, self.state()));
                }
                if had || !at_end {
                    progressed = true;
                }
                let c = pattern.get_char(i);
                if t != TokenKind::Character(c) {
                    proof {
                        assert(match_tokens(d, p, i as int, before, le) == (false, self.state()));
                    }
                    matches = false;
                    break;
                }
                proof {
                    assert(match_tokens(d, p, i as int, before, le) == match_tokens(d, p, i + 1, self.state(), le));
                }
                i = i + 1;
            }
            if matches {
                let end = if self.input.pos >= start && self.input.pos - start >= plen { self.input.pos - plen } else { start };
                return Some(bytes_slice_to_string(self.input.data, start, end));
            }
            if !progressed {
                return None;
            }
        }
        None
    }
}

} // verus!
