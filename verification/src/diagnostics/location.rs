use vstd::prelude::*;
use vstd::string::*;

verus! {

/// Both `col` and `line` start from 1. If the location doesn't exist, then
/// both are equal to 0.
#[derive(PartialEq, Eq, Debug, Clone, Default)]
pub struct Location {
    pub col: usize,
    pub line: usize,
}

/// Byte lengths of the given lines.
pub open spec fn line_lengths(text: Seq<&str>) -> Seq<int> {
    text.map_values(|l: &str| l.spec_bytes().len() as int)
}

/// Total number of bytes covered by the lines, each followed by a line ending.
pub open spec fn text_span(lens: Seq<int>, line_endings: int) -> int
    decreases lens.len(),
{
    if lens.len() == 0 {
        0
    } else {
        text_span(lens.drop_last(), line_endings) + lens.last() + line_endings
    }
}

/// The location of byte offset `pos` when the lines, starting at line `i` whose
/// first byte is at offset `start`, are scanned in order: the first line whose
/// span `[start, start + len]` contains `pos` gives the location.
pub open spec fn spec_loc(lens: Seq<int>, line_endings: int, pos: int, i: int, start: int) -> (int, int)
    decreases lens.len() - i,
{
    if i < 0 || i >= lens.len() {
        (0, 0)
    } else if start <= pos <= start + lens[i] {
        (pos - start + 1, i + 1)
    } else {
        spec_loc(lens, line_endings, pos, i + 1, start + lens[i] + line_endings)
    }
}

pub proof fn lemma_text_span_prefix(lens: Seq<int>, le: int, i: int)
    requires
        0 <= i <= lens.len(),
        le >= 0,
        forall|k: int| 0 <= k < lens.len() ==> lens[k] >= 0,
    ensures
        0 <= text_span(lens.take(i), le) <= text_span(lens, le),
    decreases lens.len(),
{
    if lens.len() == 0 {
        assert(lens.take(i) =~= lens);
    } else if i == lens.len() {
        assert(lens.take(i) =~= lens);
        lemma_text_span_prefix(lens.drop_last(), le, lens.len() - 1);
        assert(lens.drop_last().take(lens.len() - 1) =~= lens.drop_last());
    } else {
        lemma_text_span_prefix(lens.drop_last(), le, i);
        assert(lens.drop_last().take(i) =~= lens.take(i));
    }
}

pub proof fn lemma_text_span_step(lens: Seq<int>, le: int, i: int)
    requires
        0 <= i < lens.len(),
    ensures
        text_span(lens.take(i + 1), le) == text_span(lens.take(i), le) + lens[i] + le,
{
    assert(lens.take(i + 1).drop_last() =~= lens.take(i));
}

pub trait Position {
    fn pos(&self) -> usize;

    fn loc(&self, text: &[&str], line_endings: usize) -> Location
        requires
            line_endings >= 1,
            text_span(line_lengths(text@), line_endings as int) <= usize::MAX,
    ;
}

impl Position for usize {
    fn pos(&self) -> (r: usize)
        ensures
            r == *self,
    {
        *self
    }

    /// Converts a byte offset to a one-based column and line.
    fn loc(&self, text: &[&str], line_endings: usize) -> (res: Location)
        ensures
            (res.col as int, res.line as int) == spec_loc(line_lengths(text@), line_endings as int, *self as int, 0, 0),
    {
        let ghost lens = line_lengths(text@);
        let mut current_ind: usize = 0;
        let mut line_ind: usize = 0;
        proof {
            assert forall|k: int| 0 <= k < lens.len() implies lens[k] >= 0 by {}
            lemma_text_span_prefix(lens, line_endings as int, 0);
            assert(lens.take(0) =~= Seq::<int>::empty());
        }
        while line_ind < text.len()
            invariant
                lens == line_lengths(text@),
                0 <= line_ind <= text@.len(),
                current_ind == text_span(lens.take(line_ind as int), line_endings as int),
                text_span(lens, line_endings as int) <= usize::MAX,
                line_endings >= 1,
                spec_loc(lens, line_endings as int, *self as int, 0, 0)
                    == spec_loc(lens, line_endings as int, *self as int, line_ind as int, current_ind as int),
            decreases text@.len() - line_ind,
        {
            let line = text[line_ind];
            let line_len = line.len();
            proof {
                assert forall|k: int| 0 <= k < lens.len() implies lens[k] >= 0 by {}
                lemma_text_span_step(lens, line_endings as int, line_ind as int);
                lemma_text_span_prefix(lens, line_endings as int, line_ind as int + 1);
                assert(lens[line_ind as int] == line_len);
            }
            let line_end_ind = current_ind + line_len;
            if *self >= current_ind && *self <= line_end_ind {
                return Location { col: (line_len - (line_end_ind - *self)) + 1, line: line_ind + 1 };
            } else {
                current_ind = current_ind + line_len + line_endings;
                line_ind = line_ind + 1;
            }
        }
        Location { col: 0, line: 0 }
    }
}

/// All ranges are **exclusive** at their end.
#[derive(PartialEq, Eq, Debug, Clone, Copy, Default)]
pub struct Range<T: Position> {
    pub start: T,
    pub end: T,
}

impl<T: Position> Range<T> {
    pub fn new(start: T, end: T) -> (r: Self)
        ensures
            r.start == start,
            r.end == end,
    {
        Range { start, end }
    }
}

impl Range<usize> {
    /// The textual form `(start - end)` of a range.
    pub fn to_string(&self) -> (s: String)
        ensures
            s@ == seq!['('] + crate::strings::spec_usize_str(self.start) + seq![' ', '-', ' ']
                + crate::strings::spec_usize_str(self.end) + seq![')'],
    {
        let mut s = String::new();
        s.append("(");
        s.append(crate::strings::usize_to_string(self.start).as_str());
        s.append(" - ");
        s.append(crate::strings::usize_to_string(self.end).as_str());
        s.append(")");
        proof {
            reveal_strlit("(");
            reveal_strlit(" - ");
            reveal_strlit(")");
        }
        s
    }
}

} // verus!
