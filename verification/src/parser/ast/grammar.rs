use vstd::prelude::*;
use crate::diagnostics::diagnostic::{Diagnostic, DiagnosticVariants, diag_views, spec_format_diagnostic};
use crate::diagnostics::location::Range;
use vstd::utf8::encode_utf8;
use crate::parser::ast::markup::{PartView, TextView, byte_is, clamped, parts_view, spec_text, text_view};
use crate::parser::ast::model::{ASTAttribute, ASTBlock, ASTChoice, ASTInlineKind};
use crate::parser::ast::{path_end, path_segments};
use crate::parser::ast::model::spec_canonicalize;
use crate::parser::input::{next_eol, run_length, scan_until, lemma_run_length, lemma_scan_until};
use crate::strings::{lossy_utf8, spec_trim, spec_usize_str};
use crate::parser::ast::utils::VecStack;
use crate::parser::input::eol_at;
use crate::strings::byte_char;

verus! {

/// An attribute, as plain values.
pub struct AttrView {
    pub name: Seq<char>,
    pub parameters: Seq<Seq<char>>,
    pub range: Range<usize>,
}

pub open spec fn attr_view(a: ASTAttribute) -> AttrView {
    AttrView { name: a.name@, parameters: a.parameters@.map_values(|s: String| s@), range: a.range }
}

pub open spec fn attrs_view(v: Seq<ASTAttribute>) -> Seq<AttrView> {
    v.map_values(|a: ASTAttribute| attr_view(a))
}

pub open spec fn stack_view(v: Seq<Vec<ASTAttribute>>) -> Seq<Seq<AttrView>> {
    v.map_values(|a: Vec<ASTAttribute>| attrs_view(a@))
}

/// What a parser keeps besides its data: where it is, the diagnostics so
/// far, the attributes waiting for a block, and how many paths it has seen.
pub struct PState {
    pub pos: int,
    pub diags: Seq<(Range<usize>, Seq<char>, DiagnosticVariants)>,
    pub attrs: Seq<Seq<AttrView>>,
    pub headers: u32,
}

impl PState {
    pub open spec fn at(self, pos: int) -> PState {
        PState { pos, ..self }
    }

    /// The state with one more error.
    pub open spec fn error(self, msg: Seq<char>, range: Range<usize>) -> PState {
        PState { diags: self.diags.push((range, msg, DiagnosticVariants::Error)), ..self }
    }

    /// The attributes waiting for the next block, taken out (none where none wait).
    pub open spec fn pop_attrs(self) -> (Seq<AttrView>, PState) {
        if self.attrs.len() == 0 {
            (Seq::empty(), self)
        } else {
            (self.attrs.last(), PState { attrs: self.attrs.drop_last(), ..self })
        }
    }
}

pub open spec fn parser_state(pos: usize, diags: Seq<Diagnostic>, attrs: VecStack<ASTAttribute>, headers: u32) -> PState {
    PState { pos: pos as int, diags: diag_views(diags), attrs: stack_view(attrs.data@), headers }
}

pub proof fn lemma_stack_pop(stack: Seq<Vec<ASTAttribute>>)
    requires
        stack.len() > 0,
    ensures
        stack_view(stack.drop_last()) == stack_view(stack).drop_last(),
        attrs_view(stack.last()@) == stack_view(stack).last(),
{
    assert(stack_view(stack.drop_last()) =~= stack_view(stack).drop_last());
}

pub proof fn lemma_stack_push(stack: Seq<Vec<ASTAttribute>>, v: Vec<ASTAttribute>)
    ensures
        stack_view(stack.push(v)) == stack_view(stack).push(attrs_view(v@)),
{
    assert(stack_view(stack.push(v)) =~= stack_view(stack).push(attrs_view(v@)));
}

/// The message of a missing closing character.
pub open spec fn missing_closing_msg(closing: Seq<char>) -> Seq<char> {
    spec_format_diagnostic("Missing closing character '$'."@, seq![closing])
}

/// The characters a parameter of an attribute may hold.
pub open spec fn is_list_char(c: char) -> bool {
    ||| ('0' <= c && c <= '9')
    ||| ('a' <= c && c <= 'z')
    ||| ('A' <= c && c <= 'Z')
    ||| c == '_'
    ||| c == ' '
    ||| c == '-'
    ||| c == '>'
    ||| c == '#'
    ||| c == '@'
    ||| c == '$'
    ||| c == '*'
    ||| c == '^'
    ||| c == '.'
}

/// A list of parameters read from `st.pos` on, where it started at
/// `start`, with the parameters read so far: they are separated by `,`
/// (a space after it is skipped) and closed by `until`; at any other
/// character, or at the end of the line, the list ends with an error.
pub open spec fn string_list_loop(
    data: Seq<u8>,
    le: usize,
    until: char,
    start: int,
    st: PState,
    result: Seq<Seq<char>>,
    current: Seq<char>,
) -> (Seq<Seq<char>>, PState)
    decreases data.len() - st.pos,
{
    let p = st.pos;
    if p < 0 || p >= data.len() || eol_at(data, p, le) {
        (result, st.error(missing_closing_msg(seq![until]), Range { start: start as usize, end: p as usize }))
    } else {
        let c = byte_char(data[p]);
        if c == ',' {
            let p2 = if byte_is(data, p + 1, ' ') {
                p + 2
            } else {
                p + 1
            };
            string_list_loop(data, le, until, start, st.at(p2), result.push(current), Seq::empty())
        } else if is_list_char(c) {
            string_list_loop(data, le, until, start, st.at(p + 1), result, current.push(c))
        } else if c == until {
            (result.push(current), st.at(p + 1))
        } else {
            (result, st.error(missing_closing_msg(seq![until]), Range { start: start as usize, end: p as usize }))
        }
    }
}

pub open spec fn spec_string_list(data: Seq<u8>, le: usize, until: char, st: PState) -> (Seq<Seq<char>>, PState) {
    string_list_loop(data, le, until, st.pos, st, Seq::empty(), Seq::empty())
}

/// Attributes read from `st.pos` on, where the list started at `start`:
/// names, each maybe with parameters in `(...)`, separated by `,` and
/// closed by `]`; at the end of the line the list ends with an error.
pub open spec fn attributes_loop(
    data: Seq<u8>,
    le: usize,
    start: int,
    st: PState,
    name: Seq<char>,
    last_start: int,
    params: Seq<Seq<char>>,
    attrs: Seq<AttrView>,
) -> (Seq<AttrView>, PState)
    decreases data.len() - st.pos,
{
    let p = st.pos;
    if p < 0 || p >= data.len() || eol_at(data, p, le) {
        (attrs, st.error(missing_closing_msg(seq![']']), Range { start: start as usize, end: p as usize }))
    } else {
        let c = byte_char(data[p]);
        if c == ']' {
            (
                attrs.push(
                    AttrView { name, parameters: params, range: Range { start: last_start as usize, end: (p + 1) as usize } },
                ),
                st.at(p + 1),
            )
        } else if c == ',' {
            let p2 = if byte_is(data, p + 1, ' ') {
                p + 2
            } else {
                p + 1
            };
            attributes_loop(
                data,
                le,
                start,
                st.at(p2),
                Seq::empty(),
                p2,
                Seq::empty(),
                attrs.push(
                    AttrView { name, parameters: params, range: Range { start: last_start as usize, end: p2 as usize } },
                ),
            )
        } else if c == '(' {
            let (ps, st2) = spec_string_list(data, le, ')', st.at(p + 1));
            if p < st2.pos <= data.len() {
                attributes_loop(data, le, start, st2, name, last_start, ps, attrs)
            } else {
                (attrs, st2)
            }
        } else {
            attributes_loop(data, le, start, st.at(p + 1), name.push(c), last_start, params, attrs)
        }
    }
}

pub open spec fn spec_attributes(data: Seq<u8>, le: usize, st: PState) -> (Seq<AttrView>, PState) {
    attributes_loop(data, le, st.pos, st, Seq::empty(), st.pos, Seq::empty(), Seq::empty())
}

/// A block, as plain values.
pub enum BlockView {
    Paragraph { parts: Seq<PartView>, tail: Seq<char>, attributes: Seq<AttrView>, range: Range<usize> },
    CodeBlock { language: Seq<char>, text: Seq<char>, attributes: Seq<AttrView>, range: Range<usize> },
    ChoiceGroup(GroupView),
    Divert { path: Seq<Seq<char>>, attributes: Seq<AttrView>, range: Range<usize> },
    Match {
        matched: Seq<char>,
        kind: Option<Seq<char>>,
        choices: Seq<ChoiceView>,
        direct_children: Seq<BlockView>,
        attributes: Seq<AttrView>,
        range: Range<usize>,
    },
    Header {
        title: Seq<char>,
        title_range: Range<usize>,
        canonical_title: Seq<char>,
        children: Seq<BlockView>,
        depth: u8,
        id: u32,
        attributes: Seq<AttrView>,
        range: Range<usize>,
    },
}

/// A choice, as plain values.
pub struct ChoiceView {
    pub text: TextView,
    pub children: Seq<BlockView>,
    pub condition: Option<(Seq<char>, Seq<char>)>,
    pub attributes: Seq<AttrView>,
    pub range: Range<usize>,
}

/// A group of choices, as plain values.
pub struct GroupView {
    pub choices: Seq<ChoiceView>,
    pub attributes: Seq<AttrView>,
    pub range: Range<usize>,
}

/// What reading one choice gives.
pub enum ChoiceStepView {
    Parsed(ChoiceView),
    /// A match arm whose text is not inline javascript.
    Rejected,
    /// The choice ends before its condition or its text.
    Incomplete,
}

pub open spec fn block_view(b: ASTBlock) -> BlockView
    decreases b,
{
    match b {
        ASTBlock::Paragraph(p) => BlockView::Paragraph {
            parts: parts_view(p.parts@),
            tail: p.tail@,
            attributes: attrs_view(p.attributes@),
            range: p.range,
        },
        ASTBlock::CodeBlock(c) => BlockView::CodeBlock {
            language: c.language@,
            text: c.text@,
            attributes: attrs_view(c.attributes@),
            range: c.range,
        },
        ASTBlock::ChoiceGroup(g) => BlockView::ChoiceGroup(
            GroupView { choices: choices_view(g.choices@), attributes: attrs_view(g.attributes@), range: g.range },
        ),
        ASTBlock::Divert(d) => BlockView::Divert {
            path: d.path@.map_values(|s: String| s@),
            attributes: attrs_view(d.attributes@),
            range: d.range,
        },
        ASTBlock::Match(m) => BlockView::Match {
            matched: m.matched@,
            kind: match m.kind {
                Some(k) => Some(k@),
                None => None,
            },
            choices: choices_view(m.choices@),
            direct_children: blocks_view(m.direct_children@),
            attributes: attrs_view(m.attributes@),
            range: m.range,
        },
        ASTBlock::Header(h) => BlockView::Header {
            title: h.title.text@,
            title_range: h.title.range,
            canonical_title: h.canonical_title@,
            children: blocks_view(h.children@),
            depth: h.depth,
            id: h.id,
            attributes: attrs_view(h.attributes@),
            range: h.range,
        },
    }
}

pub open spec fn blocks_view(bs: Seq<ASTBlock>) -> Seq<BlockView>
    decreases bs,
{
    if bs.len() == 0 {
        Seq::empty()
    } else {
        proof {
            assert(decreases_to!(bs => bs.drop_last()));
        }
        blocks_view(bs.drop_last()).push(block_view(bs.last()))
    }
}

pub open spec fn choice_view(c: ASTChoice) -> ChoiceView
    decreases c,
{
    ChoiceView {
        text: text_view(c.text),
        children: blocks_view(c.children@),
        condition: match c.condition {
            Some(pair) => Some((pair.0@, pair.1@)),
            None => None,
        },
        attributes: attrs_view(c.attributes@),
        range: c.range,
    }
}

pub open spec fn choices_view(cs: Seq<ASTChoice>) -> Seq<ChoiceView>
    decreases cs,
{
    if cs.len() == 0 {
        Seq::empty()
    } else {
        proof {
            assert(decreases_to!(cs => cs.drop_last()));
        }
        choices_view(cs.drop_last()).push(choice_view(cs.last()))
    }
}

pub proof fn lemma_blocks_view_len(bs: Seq<ASTBlock>)
    ensures
        blocks_view(bs).len() == bs.len(),
    decreases bs.len(),
{
    if bs.len() > 0 {
        lemma_blocks_view_len(bs.drop_last());
    }
}

pub proof fn lemma_blocks_view_push(bs: Seq<ASTBlock>, b: ASTBlock)
    ensures
        blocks_view(bs.push(b)) == blocks_view(bs).push(block_view(b)),
{
    assert(bs.push(b).drop_last() =~= bs);
}

pub proof fn lemma_choices_view_push(cs: Seq<ASTChoice>, c: ASTChoice)
    ensures
        choices_view(cs.push(c)) == choices_view(cs).push(choice_view(c)),
{
    assert(cs.push(c).drop_last() =~= cs);
}

/// How far a parser may read: the end of the data and one line ending past it.
pub open spec fn lim(data: Seq<u8>, le: usize) -> int {
    data.len() + le
}

/// The bytes of a line ending.
pub open spec fn eol_bytes(le: usize) -> Seq<u8> {
    if le == 1 {
        encode_utf8(seq!['\n'])
    } else {
        encode_utf8(seq!['\r', '\n'])
    }
}

/// The indentation depth of the spaces at `p`: four spaces a level.
pub open spec fn indent_at(data: Seq<u8>, p: int) -> u8 {
    ((run_length(data, p, 32u8) % 256) / 4) as u8
}

/// A paragraph: text up to the end of the line, then past the line ending.
pub open spec fn spec_paragraph(data: Seq<u8>, le: usize, st: PState) -> Option<(TextView, PState)> {
    match spec_text(data, le as int, eol_bytes(le), true, st.pos) {
        Some(res) => Some((res.0, st.at(clamped(res.1, le as int, lim(data, le))))),
        None => None,
    }
}

pub open spec fn nested_header_msg() -> Seq<char> {
    spec_format_diagnostic("Path start cannot be inside options."@, Seq::empty())
}

pub open spec fn header_size_msg(level: u8) -> Seq<char> {
    spec_format_diagnostic("Path should be one ($) level deeper than it's parent."@, seq![spec_usize_str(level as usize)])
}

pub open spec fn no_condition_msg() -> Seq<char> {
    spec_format_diagnostic("Match options cannot have conditions."@, Seq::empty())
}

pub open spec fn required_js_msg() -> Seq<char> {
    spec_format_diagnostic("Match condition must be a javascript inline expression."@, Seq::empty())
}

/// One block read from `st.pos` at indentation `depth`, with the state after
/// it; `None` at the end of the data or where the block is incomplete.
///   - `#[...]` gathers attributes for the next block, which is then read;
///   - `#`s start a path, which holds the blocks up to the next path of the
///     same or a lower number of `#`s;
///   - three backticks start code, up to three more;
///   - `@{...}` is a match, `@{:kind ...}` with children;
///   - `->` diverts along a path;
///   - `-` starts a group of choices;
///   - `//` is a comment to the end of the line;
///   - spaces and line feeds are skipped;
///   - anything else is a paragraph, unless it is empty.
pub open spec fn spec_block(data: Seq<u8>, le: usize, depth: u8, st: PState) -> (Option<BlockView>, PState)
    decreases lim(data, le) - st.pos, 3int,
{
    let p = st.pos;
    if p < 0 || p > lim(data, le) || le < 1 || p >= data.len() {
        (None, st)
    } else {
        let c = byte_char(data[p]);
        if c == '#' {
            if byte_is(data, p + 1, '[') {
                let (attrs, st2) = spec_attributes(data, le, st.at(p + 2));
                let st3 = PState { attrs: st2.attrs.push(attrs), ..st2 };
                if p < st3.pos <= lim(data, le) {
                    spec_block(data, le, depth, st3)
                } else {
                    (None, st3)
                }
            } else {
                header_block(data, le, depth, st)
            }
        } else if c == '`' && byte_is(data, p + 1, '`') && byte_is(data, p + 2, '`') {
            let q = p + 3;
            let eol = next_eol(data, q, le);
            let language = lossy_utf8(data.subrange(q, eol));
            let q2 = eol + le;
            if q2 > data.len() {
                (None, st.at(q2))
            } else {
                let close = encode_utf8(seq!['`', '`', '`']);
                match scan_until(data, close, q2) {
                    None => (None, st.at(data.len() as int)),
                    Some(j) => {
                        let text = lossy_utf8(data.subrange(q2, j - close.len()));
                        let q3 = next_eol(data, j, le) + le;
                        let (attrs, st4) = st.at(q3).pop_attrs();
                        (
                            Some(
                                BlockView::CodeBlock {
                                    language,
                                    text,
                                    attributes: attrs,
                                    range: Range { start: p as usize, end: q3 as usize },
                                },
                            ),
                            st4,
                        )
                    },
                }
            }
        } else if c == '@' && byte_is(data, p + 1, '{') {
            let q = p + 2;
            let space = encode_utf8(seq![' ']);
            let close = encode_utf8(seq!['}']);
            let kq: (Option<Seq<char>>, int) = if byte_is(data, q, ':') {
                match scan_until(data, space, q + 1) {
                    Some(j) => (Some(lossy_utf8(data.subrange(q + 1, j - space.len()))), j),
                    None => (None, data.len() as int),
                }
            } else {
                (None, q)
            };
            let kind = kq.0;
            let q1 = kq.1;
            match scan_until(data, close, q1) {
                None => (None, st.at(data.len() as int)),
                Some(j) => {
                    let matched = lossy_utf8(data.subrange(q1, j - close.len()));
                    let (attrs, st2) = st.at(j).pop_attrs();
                    let range = Range { start: p as usize, end: j as usize };
                    let q3 = next_eol(data, j, le) + le;
                    if p < q3 <= lim(data, le) {
                        if kind is Some {
                            let (children, st3) = spec_children(data, le, depth.wrapping_add(1), st2.at(q3));
                            (
                                Some(
                                    BlockView::Match {
                                        matched,
                                        kind,
                                        choices: Seq::empty(),
                                        direct_children: children,
                                        attributes: attrs,
                                        range,
                                    },
                                ),
                                st3,
                            )
                        } else {
                            let (group, st3) = spec_choice_list(data, le, depth, true, false, st2.at(q3));
                            match group {
                                Some(g) => (
                                    Some(
                                        BlockView::Match {
                                            matched,
                                            kind,
                                            choices: g.choices,
                                            direct_children: Seq::empty(),
                                            attributes: attrs,
                                            range,
                                        },
                                    ),
                                    st3,
                                ),
                                None => (None, st3),
                            }
                        }
                    } else {
                        (None, st2.at(q3))
                    }
                },
            }
        } else if c == '-' && byte_is(data, p + 1, '>') {
            let q = p + 2;
            let q1 = if byte_is(data, q, ' ') {
                q + 1
            } else {
                q
            };
            let q2 = path_end(data, q1, le);
            let path = path_segments(data.subrange(q1, q2), seq![], seq![]);
            let q3 = next_eol(data, q2, le) + le;
            let (attrs, st2) = st.at(q3).pop_attrs();
            (
                Some(
                    BlockView::Divert {
                        path,
                        attributes: attrs,
                        range: Range { start: p as usize, end: q2 as usize },
                    },
                ),
                st2,
            )
        } else if c == '-' {
            let (group, st2) = spec_choice_list(data, le, depth, false, true, st);
            match group {
                Some(g) => (Some(BlockView::ChoiceGroup(g)), st2),
                None => (None, st2),
            }
        } else if c == '/' && byte_is(data, p + 1, '/') {
            let q = next_eol(data, p, le) + le;
            if p < q <= lim(data, le) {
                spec_block(data, le, depth, st.at(q))
            } else {
                (None, st.at(q))
            }
        } else if c == ' ' || c == '\n' {
            spec_block(data, le, depth, st.at(p + 1))
        } else {
            match spec_paragraph(data, le, st) {
                None => (None, st),
                Some(res) => {
                    let t = res.0;
                    let st2 = res.1;
                    if t.tail.len() == 0 && t.parts.len() == 0 {
                        (None, st2)
                    } else {
                        let (attrs, st3) = st2.pop_attrs();
                        (
                            Some(
                                BlockView::Paragraph { parts: t.parts, tail: t.tail, attributes: attrs, range: t.range },
                            ),
                            st3,
                        )
                    }
                },
            }
        }
    }
}

/// A path: the title, then the blocks it holds.
pub open spec fn header_block(data: Seq<u8>, le: usize, depth: u8, st: PState) -> (Option<BlockView>, PState)
    decreases lim(data, le) - st.pos, 2int,
{
    let p = st.pos;
    if p < 0 || p >= data.len() || le < 1 {
        (None, st)
    } else {
        let st1 = if depth != 0 {
            st.at(p + 1).error(nested_header_msg(), Range { start: p as usize, end: (p + 1) as usize })
        } else {
            st.at(p + 1)
        };
        let run = run_length(data, p + 1, 35u8);
        let header_depth = 1 + run;
        let q = p + 1 + run;
        let eol = next_eol(data, q, le);
        let q2 = eol + le;
        let title = spec_trim(lossy_utf8(data.subrange(q, eol)));
        let st2 = PState { headers: st.headers.wrapping_add(1), ..st1.at(q2) };
        let (attrs, st3) = st2.pop_attrs();
        if p < q2 <= lim(data, le) {
            let (children, st4) = header_loop(data, le, depth, header_depth, st3, Seq::empty());
            (
                Some(
                    BlockView::Header {
                        title,
                        title_range: Range { start: p as usize, end: q2 as usize },
                        canonical_title: spec_canonicalize(title),
                        children,
                        depth: header_depth as u8,
                        id: st.headers,
                        attributes: attrs,
                        range: Range { start: p as usize, end: st4.pos as usize },
                    },
                ),
                st4,
            )
        } else {
            (None, st3)
        }
    }
}

/// The blocks of a path, from `st.pos` up to the next path of the same or a
/// lower number of `#`s; a path among them that is more than one level
/// deeper is reported.
pub open spec fn header_loop(
    data: Seq<u8>,
    le: usize,
    depth: u8,
    header_depth: int,
    st: PState,
    children: Seq<BlockView>,
) -> (Seq<BlockView>, PState)
    decreases lim(data, le) - st.pos, 4int,
{
    let p = st.pos;
    let hash_count = if p <= data.len() {
        run_length(data, p, 35u8)
    } else {
        0
    };
    if p < 0 || p > lim(data, le) {
        (children, st)
    } else if hash_count > 0 && hash_count <= header_depth {
        (children, st)
    } else {
        let (b, st2) = spec_block(data, le, depth, st);
        match b {
            None => (children, st2),
            Some(block) => {
                let st3 = match block {
                    BlockView::Header { depth: hd, title_range, .. } => if hd.wrapping_sub(1) > (header_depth as u8) {
                        st2.error(header_size_msg(hd.wrapping_sub(1)), title_range)
                    } else {
                        st2
                    },
                    _ => st2,
                };
                if p < st3.pos <= lim(data, le) {
                    header_loop(data, le, depth, header_depth, st3, children.push(block))
                } else {
                    (children.push(block), st3)
                }
            },
        }
    }
}

/// The blocks indented by `depth` levels from `st.pos` on.
pub open spec fn spec_children(data: Seq<u8>, le: usize, depth: u8, st: PState) -> (Seq<BlockView>, PState)
    decreases lim(data, le) - st.pos, 5int,
{
    children_loop(data, le, depth, st, Seq::empty())
}

pub open spec fn children_loop(data: Seq<u8>, le: usize, depth: u8, st: PState, res: Seq<BlockView>) -> (
    Seq<BlockView>,
    PState,
)
    decreases lim(data, le) - st.pos, 4int,
{
    let p = st.pos;
    if p < 0 || p > lim(data, le) || p >= data.len() {
        (res, st)
    } else if depth != indent_at(data, p) {
        (res, st)
    } else {
        proof {
            lemma_run_length(data, p, 32u8);
        }
        let p2 = p + run_length(data, p, 32u8);
        let (b, st2) = spec_block(data, le, depth, st.at(p2));
        match b {
            None => (res, st2),
            Some(block) => if p < st2.pos <= lim(data, le) {
                children_loop(data, le, depth, st2, res.push(block))
            } else {
                (res.push(block), st2)
            },
        }
    }
}

/// A group of choices (or the arms of a match, where `require_js`) at
/// indentation `depth`, with the attributes that wait.
pub open spec fn spec_choice_list(
    data: Seq<u8>,
    le: usize,
    depth: u8,
    require_js: bool,
    skip_depth_check: bool,
    st: PState,
) -> (Option<GroupView>, PState)
    decreases lim(data, le) - st.pos, 2int,
{
    let (attrs, st1) = st.pop_attrs();
    choice_loop(data, le, depth, require_js, skip_depth_check, attrs, st.pos, st1, Seq::empty())
}

pub open spec fn choice_loop(
    data: Seq<u8>,
    le: usize,
    depth: u8,
    require_js: bool,
    skip_depth_check: bool,
    attrs: Seq<AttrView>,
    start: int,
    st: PState,
    choices: Seq<ChoiceView>,
) -> (Option<GroupView>, PState)
    decreases lim(data, le) - st.pos, 1int,
{
    let p = st.pos;
    let group = |end: int| GroupView { choices, attributes: attrs, range: Range { start: start as usize, end: end as usize } };
    if p < 0 || p > lim(data, le) || p >= data.len() {
        (Some(group(p)), st)
    } else if (!skip_depth_check || choices.len() > 0) && depth != indent_at(data, p) {
        (Some(group(p)), st)
    } else {
        proof {
            lemma_run_length(data, p, 32u8);
        }
        let p2 = if !skip_depth_check || choices.len() > 0 {
            p + run_length(data, p, 32u8)
        } else {
            p
        };
        if p2 >= data.len() {
            (None, st.at(p2))
        } else if byte_char(data[p2]) != '-' {
            (Some(group(p2)), st.at(p2))
        } else {
            let (step, st2) = spec_choice(data, le, depth, require_js, st.at(p2));
            match step {
                ChoiceStepView::Incomplete => (None, st2),
                ChoiceStepView::Rejected => if p < st2.pos <= lim(data, le) {
                    choice_loop(data, le, depth, require_js, skip_depth_check, attrs, start, st2, choices)
                } else {
                    (None, st2)
                },
                ChoiceStepView::Parsed(c) => if p < st2.pos <= lim(data, le) {
                    choice_loop(data, le, depth, require_js, skip_depth_check, attrs, start, st2, choices.push(c))
                } else {
                    (None, st2)
                },
            }
        }
    }
}


/// Whether a choice's text starts with inline javascript.
pub open spec fn starts_with_js(c: ChoiceView) -> bool {
    c.text.parts.len() > 0 && c.text.parts[0].kind is Javascript
}

/// Where arms are required to be inline javascript, a choice that is kept
/// starts with inline javascript, and one that is left out ends with the
/// diagnostic that says so.
pub proof fn law_match_arm_step(data: Seq<u8>, le: usize, depth: u8, st: PState)
    ensures
        spec_choice(data, le, depth, true, st).0 matches ChoiceStepView::Parsed(c) ==> starts_with_js(c),
        spec_choice(data, le, depth, true, st).0 is Rejected ==> {
            let d = spec_choice(data, le, depth, true, st).1.diags;
            d.len() > 0 && d.last().1 == required_js_msg() && d.last().2 == DiagnosticVariants::Error
        },
{
}

proof fn lemma_choice_loop_js(
    data: Seq<u8>,
    le: usize,
    depth: u8,
    skip_depth_check: bool,
    attrs: Seq<AttrView>,
    start: int,
    st: PState,
    choices: Seq<ChoiceView>,
)
    requires
        forall|i: int| 0 <= i < choices.len() ==> starts_with_js(#[trigger] choices[i]),
    ensures
        choice_loop(data, le, depth, true, skip_depth_check, attrs, start, st, choices).0 matches Some(g) ==> forall|i: int|
            0 <= i < g.choices.len() ==> starts_with_js(#[trigger] g.choices[i]),
    decreases lim(data, le) - st.pos,
{
    let p = st.pos;
    if p < 0 || p > lim(data, le) || p >= data.len() {
    } else if (!skip_depth_check || choices.len() > 0) && depth != indent_at(data, p) {
    } else {
        lemma_run_length(data, p, 32u8);
        let p2 = if !skip_depth_check || choices.len() > 0 {
            p + run_length(data, p, 32u8)
        } else {
            p
        };
        if p2 >= data.len() {
        } else if byte_char(data[p2]) != '-' {
        } else {
            let (step, st2) = spec_choice(data, le, depth, true, st.at(p2));
            law_match_arm_step(data, le, depth, st.at(p2));
            match step {
                ChoiceStepView::Incomplete => {},
                ChoiceStepView::Rejected => if p < st2.pos <= lim(data, le) {
                    lemma_choice_loop_js(data, le, depth, skip_depth_check, attrs, start, st2, choices);
                },
                ChoiceStepView::Parsed(c) => if p < st2.pos <= lim(data, le) {
                    assert forall|i: int| 0 <= i < choices.push(c).len() implies starts_with_js(#[trigger] choices.push(c)[i]) by {
                        if i < choices.len() {
                            assert(choices.push(c)[i] == choices[i]);
                        }
                    }
                    lemma_choice_loop_js(data, le, depth, skip_depth_check, attrs, start, st2, choices.push(c));
                },
            }
        }
    }
}

/// In a match, every arm kept starts with inline javascript.
pub proof fn law_match_arms_start_with_js(data: Seq<u8>, le: usize, depth: u8, skip_depth_check: bool, st: PState)
    ensures
        spec_choice_list(data, le, depth, true, skip_depth_check, st).0 matches Some(g) ==> forall|i: int|
            0 <= i < g.choices.len() ==> starts_with_js(#[trigger] g.choices[i]),
{
    let (attrs, st1) = st.pop_attrs();
    lemma_choice_loop_js(data, le, depth, skip_depth_check, attrs, st.pos, st1, Seq::empty());
}

/// One choice, from its `-`: attributes, a condition `{:kind condition}`,
/// the text, and the blocks indented one level deeper.
pub open spec fn spec_choice(data: Seq<u8>, le: usize, depth: u8, require_js: bool, st: PState) -> (
    ChoiceStepView,
    PState,
)
    decreases lim(data, le) - st.pos, 0int,
{
    let p = st.pos;
    if p < 0 || p >= data.len() || le < 1 {
        (ChoiceStepView::Incomplete, st)
    } else {
        let q = if byte_is(data, p + 1, ' ') {
            p + 2
        } else {
            p + 1
        };
        let (attrs, st1) = if byte_is(data, q, '#') && byte_is(data, q + 1, '[') {
            spec_attributes(data, le, st.at(q + 2))
        } else {
            (Seq::empty(), st.at(q))
        };
        let q1 = st1.pos;
        if !(p < q1 <= data.len()) {
            (ChoiceStepView::Incomplete, st1)
        } else if byte_is(data, q1, '{') && byte_is(data, q1 + 1, ':') {
            let st2 = if require_js {
                st1.error(no_condition_msg(), Range { start: q1 as usize, end: (q1 + 1) as usize })
            } else {
                st1
            };
            let space = encode_utf8(seq![' ']);
            let close = encode_utf8(seq!['}']);
            match scan_until(data, space, q1 + 2) {
                None => (ChoiceStepView::Incomplete, st2.at(data.len() as int)),
                Some(j1) => match scan_until(data, close, j1) {
                    None => (ChoiceStepView::Incomplete, st2.at(data.len() as int)),
                    Some(j2) => {
                        proof {
                            lemma_scan_until(data, space, q1 + 2);
                            lemma_scan_until(data, close, j1);
                        }
                        choice_rest(
                        data,
                        le,
                        depth,
                        require_js,
                        attrs,
                        Some(
                            (
                                lossy_utf8(data.subrange(q1 + 2, j1 - space.len())),
                                lossy_utf8(data.subrange(j1, j2 - close.len())),
                            ),
                        ),
                        st2.at(j2),
                    )
                    },
                },
            }
        } else {
            choice_rest(data, le, depth, require_js, attrs, None, st1)
        }
    }
}

/// The rest of a choice, from after its condition: its text and children.
pub open spec fn choice_rest(
    data: Seq<u8>,
    le: usize,
    depth: u8,
    require_js: bool,
    attrs: Seq<AttrView>,
    condition: Option<(Seq<char>, Seq<char>)>,
    st: PState,
) -> (ChoiceStepView, PState)
    decreases lim(data, le) - st.pos, 0int,
{
    let q = st.pos;
    let q1 = if byte_is(data, q, ' ') {
        q + 1
    } else {
        q
    };
    match spec_paragraph(data, le, st.at(q1)) {
        None => (ChoiceStepView::Incomplete, st.at(q1)),
        Some(res) => {
            let t = res.0;
            let st2 = res.1;
            if require_js && (t.parts.len() == 0 || !(t.parts[0].kind is Javascript)) {
                (
                    ChoiceStepView::Rejected,
                    st2.error(required_js_msg(), Range { start: q1 as usize, end: st2.pos as usize }),
                )
            } else if q < st2.pos <= lim(data, le) {
                let (children, st3) = spec_children(data, le, depth.wrapping_add(1), st2);
                (
                    ChoiceStepView::Parsed(
                        ChoiceView {
                            text: t,
                            children,
                            condition,
                            attributes: attrs,
                            range: Range { start: q1 as usize, end: st3.pos as usize },
                        },
                    ),
                    st3,
                )
            } else {
                (ChoiceStepView::Incomplete, st2)
            }
        },
    }
}

/// The blocks of the whole text.
pub open spec fn parse_loop(data: Seq<u8>, le: usize, st: PState, res: Seq<BlockView>) -> (Seq<BlockView>, PState)
    decreases lim(data, le) - st.pos,
{
    let p = st.pos;
    if p < 0 || p > lim(data, le) || p >= data.len() {
        (res, st)
    } else {
        let (b, st2) = spec_block(data, le, 0, st);
        let res2 = match b {
            Some(block) => res.push(block),
            None => res,
        };
        if p < st2.pos <= lim(data, le) {
            parse_loop(data, le, st2, res2)
        } else {
            (res2, st2)
        }
    }
}

/// The blocks of a whole text and the diagnostics found, reading from the
/// start with nothing seen yet.
pub open spec fn spec_parse(data: Seq<u8>, le: usize) -> (Seq<BlockView>, Seq<(Range<usize>, Seq<char>, DiagnosticVariants)>) {
    let res = parse_loop(data, le, PState { pos: 0, diags: Seq::empty(), attrs: Seq::empty(), headers: 0 }, Seq::empty());
    (res.0, res.1.diags)
}

} // verus!
