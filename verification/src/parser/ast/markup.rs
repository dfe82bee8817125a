use vstd::prelude::*;
use vstd::utf8::encode_utf8;
use crate::diagnostics::location::Range;
use crate::parser::ast::model::{ASTInlineKind, ASTText, TextPart};
use crate::parser::input::{eol_scan, first_occurrence};
use crate::strings::{byte_char, lossy_utf8};

verus! {

/// An inline element, as plain values.
pub enum InlineView {
    Bold(TextView),
    Javascript(Seq<char>),
    Italics(TextView),
    Underline(TextView),
    Code(TextView),
    Join,
}

/// Plain text followed by an inline element, as plain values.
pub struct PartView {
    pub before: Seq<char>,
    pub kind: InlineView,
    pub range: Range<usize>,
}

/// Text with inline elements, as plain values.
pub struct TextView {
    pub parts: Seq<PartView>,
    pub tail: Seq<char>,
    pub range: Range<usize>,
}

pub open spec fn inline_view(k: ASTInlineKind) -> InlineView
    decreases k,
{
    match k {
        ASTInlineKind::Bold(t) => InlineView::Bold(text_view(t)),
        ASTInlineKind::Javascript(s) => InlineView::Javascript(s@),
        ASTInlineKind::Italics(t) => InlineView::Italics(text_view(t)),
        ASTInlineKind::Underline(t) => InlineView::Underline(text_view(t)),
        ASTInlineKind::Code(t) => InlineView::Code(text_view(t)),
        ASTInlineKind::Join => InlineView::Join,
    }
}

pub open spec fn parts_view(parts: Seq<TextPart>) -> Seq<PartView>
    decreases parts,
{
    if parts.len() == 0 {
        Seq::empty()
    } else {
        proof {
            assert(decreases_to!(parts => parts.drop_last()));
        }
        parts_view(parts.drop_last()).push(
            PartView { before: parts.last().before@, kind: inline_view(parts.last().text.kind), range: parts.last().text.range },
        )
    }
}

/// One more part, one more view.
pub proof fn lemma_parts_view_push(parts: Seq<TextPart>, part: TextPart)
    ensures
        parts_view(parts.push(part)) == parts_view(parts).push(
            PartView { before: part.before@, kind: inline_view(part.text.kind), range: part.text.range },
        ),
{
    assert(parts.push(part).drop_last() =~= parts);
}

/// The views of the parts, one by one.
pub proof fn lemma_parts_view_index(parts: Seq<TextPart>)
    ensures
        parts_view(parts).len() == parts.len(),
        forall|i: int|
            0 <= i < parts.len() ==> #[trigger] parts_view(parts)[i] == (PartView {
                before: parts[i].before@,
                kind: inline_view(parts[i].text.kind),
                range: parts[i].text.range,
            }),
    decreases parts.len(),
{
    if parts.len() > 0 {
        lemma_parts_view_index(parts.drop_last());
        assert forall|i: int| 0 <= i < parts.len() implies #[trigger] parts_view(parts)[i] == (PartView {
            before: parts[i].before@,
            kind: inline_view(parts[i].text.kind),
            range: parts[i].text.range,
        }) by {
            if i < parts.len() - 1 {
                assert(parts_view(parts)[i] == parts_view(parts.drop_last())[i]);
                assert(parts.drop_last()[i] == parts[i]);
            }
        }
    }
}

pub open spec fn text_view(t: ASTText) -> TextView
    decreases t,
{
    TextView { parts: parts_view(t.parts@), tail: t.tail@, range: t.range }
}

/// Whether the byte at `i` is the character `c`.
pub open spec fn byte_is(data: Seq<u8>, i: int, c: char) -> bool {
    0 <= i < data.len() && byte_char(data[i]) == c
}

/// How far a parser may read: the end of the data and one line ending past it.
pub open spec fn text_limit(data: Seq<u8>, le: int) -> int {
    data.len() + le
}

/// `n` bytes past `pos`, but no further than the limit.
pub open spec fn clamped(pos: int, n: int, limit: int) -> int {
    if pos + n <= limit {
        pos + n
    } else {
        limit
    }
}

/// Where text read from `pos` ends: the first `until` at or after `pos` that
/// some byte follows; where there is none, the end of the data if closing is
/// optional, and 0 (no text) if it is not.
pub open spec fn text_end(data: Seq<u8>, until: Seq<u8>, optional: bool, pos: int) -> int {
    let found = if until.len() + data.len() <= usize::MAX && pos < data.len() {
        first_occurrence(data, until, pos)
    } else {
        None
    };
    match found {
        Some(q) => q,
        None => if optional {
            data.len() as int
        } else {
            0
        },
    }
}

/// Text with inline elements read from `pos` up to where it ends (see
/// `text_end`); `None` where it ends at 0. Gives the text and the position
/// after it.
pub open spec fn spec_text(data: Seq<u8>, le: int, until: Seq<u8>, optional: bool, pos: int) -> Option<
    (TextView, int),
>
    decreases text_limit(data, le) - pos, 1int,
{
    let end = text_end(data, until, optional, pos);
    if le < 1 || pos < 0 || pos > text_limit(data, le) || end == 0 {
        None
    } else {
        Some(text_loop(data, le, pos, end, pos, Seq::empty(), Seq::empty()))
    }
}

/// Text read from `p` on, up to `end`, where it started at `start`, with the
/// parts and plain text read so far. Gives the text and the position after it.
///   - `\` takes the byte after it as it is;
///   - `**...**`, `*...*` and `` `...` `` are bold, italics and code, read
///     as text themselves; where they are not closed, they stay plain text;
///   - `++` joins;
///   - `{...}`, closed on the same line, is javascript; where it is not
///     closed, a `}` stands in the text.
pub open spec fn text_loop(
    data: Seq<u8>,
    le: int,
    start: int,
    end: int,
    p: int,
    parts: Seq<PartView>,
    result: Seq<char>,
) -> (TextView, int)
    decreases text_limit(data, le) - p, 0int,
{
    let done = (TextView { parts, tail: result, range: Range { start: start as usize, end: p as usize } }, p);
    let limit = text_limit(data, le);
    if p >= end || p < 0 || end > data.len() || le < 1 {
        done
    } else {
        let c = byte_char(data[p]);
        if c == '\\' {
            if p + 1 < data.len() {
                text_loop(data, le, start, end, p + 2, parts, result.push(byte_char(data[p + 1])))
            } else {
                text_loop(data, le, start, end, p + 1, parts, result)
            }
        } else if c == '*' && byte_is(data, p + 1, '*') {
            match spec_text(data, le, encode_utf8(seq!['*', '*']), false, p + 2) {
                Some((t, q)) => {
                    let q2 = clamped(q, 2, limit);
                    if p < q2 <= limit {
                        text_loop(
                            data,
                            le,
                            start,
                            end,
                            q2,
                            parts.push(
                                PartView {
                                    before: result,
                                    kind: InlineView::Bold(t),
                                    range: Range { start: p as usize, end: q2 as usize },
                                },
                            ),
                            Seq::empty(),
                        )
                    } else {
                        done
                    }
                },
                None => text_loop(data, le, start, end, p + 2, parts, result + seq!['*', '*']),
            }
        } else if c == '+' && byte_is(data, p + 1, '+') {
            text_loop(
                data,
                le,
                start,
                end,
                p + 2,
                parts.push(
                    PartView {
                        before: result,
                        kind: InlineView::Join,
                        range: Range { start: start as usize, end: (p + 2) as usize },
                    },
                ),
                Seq::empty(),
            )
        } else if c == '*' || c == '`' {
            let until = if c == '*' {
                encode_utf8(seq!['*'])
            } else {
                encode_utf8(seq!['`'])
            };
            match spec_text(data, le, until, false, p + 1) {
                Some((t, q)) => {
                    let q2 = clamped(q, 1, limit);
                    if p < q2 <= limit {
                        text_loop(
                            data,
                            le,
                            start,
                            end,
                            q2,
                            parts.push(
                                PartView {
                                    before: result,
                                    kind: if c == '*' {
                                        InlineView::Italics(t)
                                    } else {
                                        InlineView::Code(t)
                                    },
                                    range: Range { start: p as usize, end: q2 as usize },
                                },
                            ),
                            Seq::empty(),
                        )
                    } else {
                        done
                    }
                },
                None => text_loop(data, le, start, end, p + 1, parts, result.push(c)),
            }
        } else if c == '{' {
            let close = encode_utf8(seq!['}']);
            match eol_scan(data, close, le as usize, p + 1) {
                Some(q) => {
                    let q2 = q + close.len();
                    if p < q2 <= limit {
                        text_loop(
                            data,
                            le,
                            start,
                            end,
                            q2,
                            parts.push(
                                PartView {
                                    before: result,
                                    kind: InlineView::Javascript(lossy_utf8(data.subrange(p + 1, q))),
                                    range: Range { start: start as usize, end: q2 as usize },
                                },
                            ),
                            Seq::empty(),
                        )
                    } else {
                        done
                    }
                },
                None => text_loop(data, le, start, end, p + 1, parts, result.push('}')),
            }
        } else {
            text_loop(data, le, start, end, p + 1, parts, result.push(c))
        }
    }
}

} // verus!
