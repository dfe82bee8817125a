use vstd::prelude::*;
use vstd::string::*;
use vstd::utf8::{decode_utf8, valid_utf8};
use crate::diagnostics::location::Range;
use crate::strings::{byte_char, bytes_slice_to_string, lossy_utf8};

verus! {

/// Read access to the bytes of a piece of javascript.
pub struct InputPresenter<'a> {
    pub data: &'a [u8],
}

impl<'a> InputPresenter<'a> {
    pub fn new(content: &'a str) -> (r: Self)
        ensures
            r.data@ == content.spec_bytes(),
    {
        InputPresenter { data: content.as_bytes() }
    }

    /// The text in a range of the input.
    pub fn from_range(&self, range: &Range<usize>) -> (s: String)
        requires
            range.start <= range.end <= self.data@.len(),
        ensures
            s@ == lossy_utf8(self.data@.subrange(range.start as int, range.end as int)),
            valid_utf8(self.data@.subrange(range.start as int, range.end as int)) ==> s@ == decode_utf8(
                self.data@.subrange(range.start as int, range.end as int),
            ),
    {
        bytes_slice_to_string(self.data, range.start, range.end)
    }

    pub fn len(&self) -> (r: usize)
        ensures
            r == self.data@.len(),
    {
        self.data.len()
    }

    /// The byte at `index`.
    pub fn index(&self, index: usize) -> (b: u8)
        requires
            index < self.data@.len(),
        ensures
            b == self.data@[index as int],
    {
        self.data[index]
    }
}

/// A cursor over javascript input.
pub struct InputConsumer<'a> {
    pub data: InputPresenter<'a>,
    pub pos: usize,
}

impl<'a> InputConsumer<'a> {
    pub open spec fn bytes(&self) -> Seq<u8> {
        self.data.data@
    }

    pub fn new(code: &'a str) -> (r: Self)
        ensures
            r.pos == 0,
            r.data.data@ == code.spec_bytes(),
    {
        InputConsumer { data: InputPresenter::new(code), pos: 0 }
    }

    pub fn force_next(&mut self) -> (c: char)
        requires
            old(self).pos < old(self).bytes().len(),
        ensures
            c == byte_char(old(self).bytes()[old(self).pos as int]),
            final(self).pos == old(self).pos + 1,
            final(self).data == old(self).data,
    {
        let n = self.data.len();
        let item = self.data.index(self.pos) as char;
        self.pos = self.pos + 1;
        item
    }

    pub fn peek(&self) -> (c: Option<char>)
        ensures
            self.pos >= self.bytes().len() ==> c.is_none(),
            self.pos < self.bytes().len() ==> c == Some(byte_char(self.bytes()[self.pos as int])),
    {
        if self.pos >= self.data.len() {
            None
        } else {
            Some(self.data.index(self.pos) as char)
        }
    }

    pub fn peek_nth(&self, n: usize) -> (c: Option<char>)
        requires
            self.pos + n <= usize::MAX,
        ensures
            self.pos + n >= self.bytes().len() ==> c.is_none(),
            self.pos + n < self.bytes().len() ==> c == Some(byte_char(self.bytes()[self.pos + n])),
    {
        let f = self.pos + n;
        if f >= self.data.len() {
            None
        } else {
            Some(self.data.index(f) as char)
        }
    }

    /// The character `n` bytes before the current position.
    pub fn prev(&self, n: usize) -> (c: Option<char>)
        ensures
            (1 <= n <= self.pos && self.pos - n < self.bytes().len()) ==> c == Some(
                byte_char(self.bytes()[self.pos - n]),
            ),
            !(1 <= n <= self.pos && self.pos - n < self.bytes().len()) ==> c.is_none(),
    {
        if n >= 1 && n <= self.pos && self.pos - n < self.data.len() {
            Some(self.data.index(self.pos - n) as char)
        } else {
            None
        }
    }

    pub fn skip_chars(&mut self, n: usize)
        requires
            old(self).pos + n <= usize::MAX,
        ensures
            final(self).pos == old(self).pos + n,
            final(self).data == old(self).data,
    {
        self.pos = self.pos + n;
    }

    /// Moves past the next occurrence of the byte (or to the end of the input).
    pub fn skip_until_after(&mut self, character: u8)
        ensures
            final(self).data == old(self).data,
            old(self).pos >= old(self).bytes().len() ==> final(self).pos == old(self).pos,
            old(self).pos < old(self).bytes().len() ==> old(self).pos < final(self).pos <= old(self).bytes().len(),
            old(self).pos < old(self).bytes().len() ==> forall|k: int|
                old(self).pos <= k < final(self).pos - 1 ==> old(self).bytes()[k] != character,
            old(self).pos < old(self).bytes().len() && final(self).pos < old(self).bytes().len()
                ==> old(self).bytes()[final(self).pos - 1] == character,
    {
        let ghost start = self.pos;
        while self.pos < self.data.len()
            invariant
                self.data == old(self).data,
                start == old(self).pos,
                start <= self.pos <= self.bytes().len() || (start == self.pos),
                forall|k: int| start <= k < self.pos ==> self.bytes()[k] != character,
            decreases self.bytes().len() - self.pos,
        {
            if self.data.index(self.pos) == character {
                self.pos = self.pos + 1;
                return;
            }
            self.pos = self.pos + 1;
        }
    }

    /// Moves past the first pair of neighbouring bytes for which the condition
    /// holds; without such a pair, stops at the last byte.
    pub fn skip_until_bool<F: Fn(u8, u8) -> bool>(&mut self, condition: F)
        requires
            old(self).bytes().len() >= 1,
            forall|a: u8, b: u8| call_requires(condition, (a, b)),
        ensures
            final(self).data == old(self).data,
            old(self).pos + 1 >= old(self).bytes().len() ==> final(self).pos == old(self).pos,
            old(self).pos + 1 < old(self).bytes().len() ==> {
                let d = old(self).bytes();
                let p = final(self).pos as int;
                &&& old(self).pos < p <= d.len()
                &&& ((p == d.len() - 1 && forall|k: int|
                    old(self).pos <= k < p ==> call_ensures(condition, (#[trigger] d[k], d[k + 1]), false))
                    || (p >= old(self).pos + 2 && call_ensures(condition, (d[p - 2], d[p - 1]), true)
                    && forall|k: int| old(self).pos <= k < p - 2 ==> call_ensures(condition, (#[trigger] d[k], d[k + 1]), false)))
            },
    {
        let len = self.data.len() - 1;
        let ghost start = self.pos;
        let ghost d = self.bytes();
        if self.pos >= len {
            return;
        }
        while self.pos < len
            invariant
                self.data == old(self).data,
                d == self.bytes(),
                start == old(self).pos,
                start < len,
                start <= self.pos <= len,
                len + 1 == d.len(),
                d.len() <= usize::MAX,
                forall|a: u8, b: u8| call_requires(condition, (a, b)),
                forall|k: int| start <= k < self.pos ==> call_ensures(condition, (#[trigger] d[k], d[k + 1]), false),
            decreases len - self.pos,
        {
            let a = self.data.index(self.pos);
            let b = self.data.index(self.pos + 1);
            let hit = condition(a, b);
            if hit {
                self.pos = self.pos + 2;
                return;
            }
            self.pos = self.pos + 1;
        }
    }

    /// Consumes one byte and tells whether it is the given one.
    pub fn expect_next(&mut self, character: u8) -> (r: bool)
        ensures
            final(self).data == old(self).data,
            old(self).pos >= old(self).bytes().len() ==> !r && final(self).pos == old(self).pos,
            old(self).pos < old(self).bytes().len() ==> final(self).pos == old(self).pos + 1 && r == (
            old(self).bytes()[old(self).pos as int] == character),
    {
        if self.pos >= self.data.len() {
            false
        } else {
            let item = self.data.index(self.pos);
            self.pos = self.pos + 1;
            item == character
        }
    }

    /// Whether the byte `step` places after the current position is the given one.
    pub fn is_next(&self, character: u8, step: usize) -> (r: bool)
        ensures
            r == (self.pos < self.bytes().len() && self.pos + step < self.bytes().len()
                && self.bytes()[self.pos + step] == character),
    {
        if self.pos >= self.data.len() || step >= self.data.len() - self.pos {
            false
        } else {
            self.data.index(self.pos + step) == character
        }
    }

    pub fn is_eof(&self) -> (r: bool)
        ensures
            r == (self.pos >= self.bytes().len()),
    {
        self.pos >= self.data.len()
    }

    pub fn range(&self, start: usize) -> (r: Range<usize>)
        ensures
            r.start == start,
            r.end == self.pos,
    {
        Range { start, end: self.pos }
    }

    /// The one-byte range at the current position.
    pub fn range_here(&self) -> (r: Range<usize>)
        requires
            self.pos < usize::MAX,
        ensures
            r.start == self.pos,
            r.end == self.pos + 1,
    {
        Range { start: self.pos, end: self.pos + 1 }
    }

    /// The next character; the position moves past it.
    pub fn next(&mut self) -> (c: Option<char>)
        ensures
            final(self).data == old(self).data,
            old(self).pos >= old(self).bytes().len() ==> c.is_none() && final(self).pos == old(self).pos,
            old(self).pos < old(self).bytes().len() ==> c == Some(byte_char(old(self).bytes()[old(self).pos as int]))
                && final(self).pos == old(self).pos + 1,
    {
        if self.pos >= self.data.len() {
            None
        } else {
            let item = self.data.index(self.pos) as char;
            self.pos = self.pos + 1;
            Some(item)
        }
    }
}

} // verus!
