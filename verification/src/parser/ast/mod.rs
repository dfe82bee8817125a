pub mod utils;
pub mod model;
pub mod markup;
pub mod grammar;

use vstd::prelude::*;
use vstd::string::*;
use vstd::utf8::encode_utf8;
use crate::diagnostics::diagnostic::{Diagnostic, DiagnosticMessage, DiagnosticVariants, diag_views, lemma_diag_views_push, str_views};
use crate::diagnostics::location::Range;
use crate::parser::input::{InputConsumer, ParsingContext, eol_at, next_eol, run_length, scan_until, lemma_first_occurrence};
use crate::strings::{byte_char, lossy_utf8, push_char, spec_trim, spec_usize_str, str_bytes, trim, usize_to_string};
use self::model::{
    ASTAttribute, ASTBlock, ASTChoice, ASTChoiceGroup, ASTCodeBlock, ASTDivert, ASTHeader, ASTInline,
    ASTInlineKind, ASTMatch, ASTParagraph, ASTPlainText, ASTText, TextPart,
};
use self::utils::{ExtendedOption, MoveVector, VecStack, resolve_line_endings};
use self::grammar::{stack_view, parse_loop, spec_parse, header_block, nested_header_msg, choice_rest, indent_at, BlockView, ChoiceStepView, ChoiceView, GroupView, block_view, blocks_view, choice_view, choices_view, children_loop, choice_loop, header_loop, lemma_blocks_view_push, lemma_choices_view_push, spec_block, spec_children, spec_choice, spec_choice_list, lemma_stack_pop, lemma_stack_push, eol_bytes, spec_paragraph, attr_view, is_list_char, PState, parser_state, missing_closing_msg, spec_string_list, string_list_loop, spec_attributes, attributes_loop, attrs_view, AttrView};
use self::markup::{lemma_parts_view_index, InlineView, PartView, byte_is, clamped, lemma_parts_view_push, spec_text, text_end, text_limit, text_loop, text_view, parts_view};

verus! {

/// The diagnostics the story parser reports.
pub struct Diagnostics;

impl Diagnostics {
    pub fn required_js() -> (d: DiagnosticMessage)
        ensures
            d.code@ == "P1001"@,
            d.message@ == "Match condition must be a javascript inline expression."@,
    {
        DiagnosticMessage { code: "P1001", message: "Match condition must be a javascript inline expression." }
    }

    pub fn missing_closing() -> (d: DiagnosticMessage)
        ensures
            d.code@ == "P1002"@,
            d.message@ == "Missing closing character '$'."@,
    {
        DiagnosticMessage { code: "P1002", message: "Missing closing character '$'." }
    }

    pub fn nested_header() -> (d: DiagnosticMessage)
        ensures
            d.code@ == "P1003"@,
            d.message@ == "Path start cannot be inside options."@,
    {
        DiagnosticMessage { code: "P1003", message: "Path start cannot be inside options." }
    }

    pub fn incorrect_header_size() -> (d: DiagnosticMessage)
        ensures
            d.code@ == "P1004"@,
            d.message@ == "Path should be one ($) level deeper than it's parent."@,
    {
        DiagnosticMessage { code: "P1004", message: "Path should be one ($) level deeper than it's parent." }
    }

    pub fn no_condition() -> (d: DiagnosticMessage)
        ensures
            d.code@ == "P1005"@,
            d.message@ == "Match options cannot have conditions."@,
    {
        DiagnosticMessage { code: "P1005", message: "Match options cannot have conditions." }
    }
}

/// The outcome of parsing one choice.
enum ChoiceStep {
    Parsed(ASTChoice),
    /// A match arm whose text is not inline javascript; it is reported and left out.
    Rejected,
    /// The choice ends before its condition or text is complete.
    Incomplete,
}

pub enum InlineTextParseResult {
    FoundClosing(ASTText),
    NotFoundOptional(ASTText),
    NotFound,
}

/// Whether a byte may appear in a divert path (a letter, a digit, `_` or `.`).
pub open spec fn is_path_access_byte(b: u8) -> bool {
    (48u8 <= b <= 57u8) || (97u8 <= b <= 122u8) || b == 95u8 || (65u8 <= b <= 90u8) || b == 46u8
}

/// The character a path byte stands for: capital letters become small.
pub open spec fn path_byte_char(b: u8) -> char {
    if 65u8 <= b <= 90u8 {
        ((b as u32) + 32) as char
    } else {
        b as char
    }
}

/// The end of the divert path starting at `i`: the first byte that is not a
/// path byte, or where a line ending or the end of the data comes.
pub open spec fn path_end(data: Seq<u8>, i: int, le: usize) -> int
    decreases data.len() - i,
{
    if i >= data.len() || eol_at(data, i, le) || !is_path_access_byte(data[i]) {
        i
    } else {
        path_end(data, i + 1, le)
    }
}

/// The segments of a path written in the bytes `bytes`, `cur` being the
/// segment read so far and `acc` the segments before it: each `.` ends a
/// segment; a last empty segment is left out.
pub open spec fn path_segments(bytes: Seq<u8>, cur: Seq<char>, acc: Seq<Seq<char>>) -> Seq<Seq<char>>
    decreases bytes.len(),
{
    if bytes.len() == 0 {
        if cur.len() == 0 { acc } else { acc.push(cur) }
    } else if bytes[0] == 46u8 {
        path_segments(bytes.drop_first(), seq![], acc.push(cur))
    } else {
        path_segments(bytes.drop_first(), cur.push(path_byte_char(bytes[0])), acc)
    }
}

/// Segments joined back with a `.` between each two.
pub open spec fn join_dots(segs: Seq<Seq<char>>) -> Seq<char>
    decreases segs.len(),
{
    if segs.len() == 0 {
        seq![]
    } else if segs.len() == 1 {
        segs[0]
    } else {
        join_dots(segs.drop_last()) + seq!['.'] + segs.last()
    }
}

/// The characters of a path's bytes, upper-case letters made lower-case.
pub open spec fn path_text(bytes: Seq<u8>) -> Seq<char> {
    Seq::new(bytes.len(), |i: int| path_byte_char(bytes[i]))
}

proof fn lemma_join_dots_push(segs: Seq<Seq<char>>, x: Seq<char>)
    ensures
        join_dots(segs.push(x)) == if segs.len() == 0 { x } else { join_dots(segs) + seq!['.'] + x },
{
    assert(segs.push(x).drop_last() =~= segs);
}

proof fn lemma_path_segments_join(bytes: Seq<u8>, cur: Seq<char>, acc: Seq<Seq<char>>)
    requires
        (bytes.len() > 0 && bytes.last() != 46u8) || (bytes.len() == 0 && cur.len() > 0),
    ensures
        join_dots(path_segments(bytes, cur, acc)) == join_dots(acc.push(cur + path_text(bytes))),
    decreases bytes.len(),
{
    if bytes.len() == 0 {
        assert(cur + path_text(bytes) =~= cur);
    } else {
        let rest = bytes.drop_first();
        assert(path_byte_char(46u8) == '.');
        if bytes[0] == 46u8 {
            assert(rest.len() > 0 && rest.last() == bytes.last());
            lemma_path_segments_join(rest, seq![], acc.push(cur));
            lemma_join_dots_push(acc.push(cur), seq![] + path_text(rest));
            lemma_join_dots_push(acc, cur);
            lemma_join_dots_push(acc, cur + path_text(bytes));
            assert(cur + path_text(bytes) =~= cur + seq!['.'] + path_text(rest));
            assert(seq![] + path_text(rest) =~= path_text(rest));
            if acc.len() == 0 {
                assert(join_dots(acc.push(cur).push(path_text(rest))) =~= cur + seq!['.'] + path_text(rest));
            } else {
                assert(join_dots(acc.push(cur).push(path_text(rest))) =~= join_dots(acc) + seq!['.'] + (cur + seq!['.'] + path_text(rest)));
            }
        } else {
            if rest.len() > 0 {
                assert(rest.last() == bytes.last());
            }
            lemma_path_segments_join(rest, cur.push(path_byte_char(bytes[0])), acc);
            assert(cur.push(path_byte_char(bytes[0])) + path_text(rest) =~= cur + path_text(bytes));
        }
    }
}

/// Each `.` in a divert path ends a segment that is kept: joining the
/// segments back with `.` gives the path's text (letters in lower case),
/// wherever the path does not end with a `.`.
pub proof fn law_path_segments_round_trip(bytes: Seq<u8>)
    requires
        bytes.len() > 0,
        bytes.last() != 46u8,
    ensures
        join_dots(path_segments(bytes, seq![], seq![])) == path_text(bytes),
{
    lemma_path_segments_join(bytes, seq![], seq![]);
    lemma_join_dots_push(seq![], seq![] + path_text(bytes));
    assert(seq![] + path_text(bytes) =~= path_text(bytes));
}

/// How many `.` bytes the bytes hold.
pub open spec fn dot_count(bytes: Seq<u8>) -> nat
    decreases bytes.len(),
{
    if bytes.len() == 0 {
        0
    } else {
        (if bytes[0] == 46u8 { 1nat } else { 0nat }) + dot_count(bytes.drop_first())
    }
}

proof fn lemma_path_segments_count(bytes: Seq<u8>, cur: Seq<char>, acc: Seq<Seq<char>>)
    requires
        (bytes.len() > 0 && bytes.last() != 46u8) || (bytes.len() == 0 && cur.len() > 0),
    ensures
        path_segments(bytes, cur, acc).len() == acc.len() + dot_count(bytes) + 1,
    decreases bytes.len(),
{
    if bytes.len() > 0 {
        let rest = bytes.drop_first();
        if bytes[0] == 46u8 {
            assert(rest.len() > 0 && rest.last() == bytes.last());
            lemma_path_segments_count(rest, seq![], acc.push(cur));
        } else {
            if rest.len() > 0 {
                assert(rest.last() == bytes.last());
            }
            lemma_path_segments_count(rest, cur.push(path_byte_char(bytes[0])), acc);
        }
    }
}

/// A divert path that does not end with a `.` has one segment more than it
/// has dots: no `.` is dropped and none merges two segments.
pub proof fn law_path_segment_count(bytes: Seq<u8>)
    requires
        bytes.len() > 0,
        bytes.last() != 46u8,
    ensures
        path_segments(bytes, seq![], seq![]).len() == dot_count(bytes) + 1,
{
    lemma_path_segments_count(bytes, seq![], seq![]);
}

pub proof fn lemma_path_end(data: Seq<u8>, i: int, le: usize)
    requires
        0 <= i <= data.len(),
    ensures
        i <= path_end(data, i, le) <= data.len(),
        forall|k: int| i <= k < path_end(data, i, le) ==> is_path_access_byte(#[trigger] data[k]) && !eol_at(data, k, le),
    decreases data.len() - i,
{
    if i < data.len() && !eol_at(data, i, le) && is_path_access_byte(data[i]) {
        lemma_path_end(data, i + 1, le);
    }
}

pub open spec fn strings_view(v: Seq<String>) -> Seq<Seq<char>> {
    v.map_values(|s: String| s@)
}

/// Parses the text of a story into blocks.
pub struct Parser<'a> {
    pub input: InputConsumer<'a>,
    pub collected_attributes: VecStack<ASTAttribute>,
    pub header_counter: u32,
}

impl<'a> Parser<'a> {
    /// How far the position may go: the end of the data and one line ending past it.
    pub open spec fn limit(&self) -> int {
        self.input.data@.len() + self.input.ctx.line_endings
    }

    pub open spec fn wf(&self) -> bool {
        &&& self.input.ctx.line_endings >= 1
        &&& self.input.data@.len() + 2 * self.input.ctx.line_endings + 16 <= usize::MAX
        &&& self.input.pos <= self.limit()
    }

    /// Where the parser is, with its diagnostics, waiting attributes and path count.
    pub open spec fn pstate(&self) -> PState {
        parser_state(self.input.pos, self.input.ctx.diagnostics@, self.collected_attributes, self.header_counter)
    }

    pub open spec fn remaining(&self) -> int {
        self.limit() - self.input.pos
    }

    /// The parser still reads the same data, with the same line endings, from
    /// no earlier a position, and is well formed.
    pub open spec fn follows(&self, before: &Self) -> bool {
        &&& self.input.data == before.input.data
        &&& self.input.ctx.line_endings == before.input.ctx.line_endings
        &&& self.input.pos >= before.input.pos
        &&& self.wf()
    }

    pub fn new(text: &'a str, ctx: ParsingContext) -> (r: Self)
        requires
            ctx.line_endings >= 1,
            text.spec_bytes().len() + 2 * ctx.line_endings + 16 <= usize::MAX,
        ensures
            r.wf(),
            r.input.pos == 0,
            r.input.data@ == text.spec_bytes(),
            r.input.ctx == ctx,
            r.header_counter == 0,
            r.collected_attributes.data@.len() == 0,
    {
        Parser { input: InputConsumer::new(text, ctx), collected_attributes: VecStack::new(), header_counter: 0 }
    }

    /// Moves `n` bytes ahead, but never past the limit.
    fn advance(&mut self, n: usize)
        requires
            old(self).wf(),
        ensures
            final(self).follows(old(self)),
            final(self).input.pos == if old(self).input.pos + n <= old(self).limit() {
                old(self).input.pos + n
            } else {
                old(self).limit()
            },
            final(self).input.ctx == old(self).input.ctx,
            final(self).collected_attributes == old(self).collected_attributes,
            final(self).header_counter == old(self).header_counter,
    {
        let limit = self.input.data.len() + self.input.ctx.line_endings;
        if n <= limit - self.input.pos {
            self.input.pos = self.input.pos + n;
        } else {
            self.input.pos = limit;
        }
    }

    fn report(&mut self, d: Diagnostic)
        ensures
            d.variant == DiagnosticVariants::Error ==> final(self).pstate() == old(self).pstate().error(d.msg@, d.range),
            final(self).input.data == old(self).input.data,
            final(self).input.pos == old(self).input.pos,
            final(self).input.ctx.line_endings == old(self).input.ctx.line_endings,
            final(self).input.ctx.diagnostics@ == old(self).input.ctx.diagnostics@.push(d),
            final(self).collected_attributes == old(self).collected_attributes,
            final(self).header_counter == old(self).header_counter,
    {
        proof {
            lemma_diag_views_push(self.input.ctx.diagnostics@, d);
        }
        self.input.ctx.diagnostics.push(d);
    }

    /// Takes out the attributes that wait for the next block.
    fn pop_attributes(&mut self) -> (r: Vec<ASTAttribute>)
        ensures
            (attrs_view(r@), final(self).pstate()) == old(self).pstate().pop_attrs(),
            final(self).input == old(self).input,
            final(self).header_counter == old(self).header_counter,
    {
        proof {
            if self.collected_attributes.data@.len() > 0 {
                lemma_stack_pop(self.collected_attributes.data@);
            }
        }
        let ghost before = self.collected_attributes.data@;
        let r = self.collected_attributes.pop_vec();
        assert(before.len() == 0 ==> attrs_view(r@) =~= Seq::<AttrView>::empty());
        r
    }

    /// Keeps attributes for the next block.
    fn push_attributes(&mut self, attrs: Vec<ASTAttribute>)
        ensures
            final(self).pstate() == (PState { attrs: old(self).pstate().attrs.push(attrs_view(attrs@)), ..old(self).pstate() }),
            final(self).input == old(self).input,
            final(self).header_counter == old(self).header_counter,
    {
        proof {
            lemma_stack_push(self.collected_attributes.data@, attrs);
        }
        self.collected_attributes.push_vec(attrs);
    }

    /// Parses one block at the current position; `None` where there is none
    /// (at the end of the text, or where the block is incomplete); see
    /// `spec_block`.
    #[verifier::rlimit(80)]
    #[verifier::spinoff_prover]
    pub fn parse_block(&mut self, depth: u8) -> (r: Option<ASTBlock>)
        requires
            old(self).wf(),
        ensures
            final(self).follows(old(self)),
            r.is_some() ==> final(self).input.pos > old(self).input.pos,
            (opt_block_view(r), final(self).pstate()) == spec_block(
                old(self).input.data@,
                old(self).input.ctx.line_endings,
                depth,
                old(self).pstate(),
            ),
        decreases old(self).remaining(), 3int,
    {
        let ghost data = self.input.data@;
        let ghost le = self.input.ctx.line_endings;
        let ghost st0 = self.pstate();
        let token = self.input.peek()?;
        let start = self.input.pos;
        proof {
            reveal_strlit("```");
            reveal_strlit(" ");
            reveal_strlit("}");
        }
        assert("```"@ =~= seq!['`', '`', '`']);
        assert(" "@ =~= seq![' ']);
        assert(str_bytes("```") == encode_utf8(seq!['`', '`', '`']));
        assert(str_bytes(" ") == encode_utf8(seq![' ']));
        assert("}"@ =~= seq!['}']);
        assert(str_bytes("}") == encode_utf8(seq!['}']));
        match token {
            '#' => {
                self.input.skip();
                if self.input.peek().is('[') {
                    self.input.skip();
                    let attrs = self.parse_attributes();
                    self.push_attributes(attrs);
                    let r = self.parse_block(depth);
                    return r;
                }
                if depth != 0 {
                    let range = self.input.range_here(start);
                    let args: Vec<&str> = Vec::new();
                    assert(str_views(args@) =~= Seq::<Seq<char>>::empty());
                    self.report(Diagnostic::error(&Diagnostics::nested_header(), range, args));
                }
                let ghost p = start as int;
                let ghost st1 = self.pstate();
                assert(st1 == (if depth != 0 {
                    st0.at(p + 1).error(nested_header_msg(), Range { start: p as usize, end: (p + 1) as usize })
                } else {
                    st0.at(p + 1)
                }));
                let header_depth = 1 + self.input.count_while('#');
                assert(header_depth == 1 + run_length(data, p + 1, 35u8));
                let ghost q = self.input.pos as int;
                let header_id = self.header_counter;
                self.header_counter = self.header_counter.wrapping_add(1);
                let raw_title = self.input.consume_until_end_of_line();
                let ghost q2 = self.input.pos as int;
                assert(q2 == next_eol(data, q, le) + le);
                let header_text = trim(raw_title.as_str());
                assert(header_text@ == spec_trim(lossy_utf8(data.subrange(q, next_eol(data, q, le)))));
                let canonical_title = ASTHeader::canonicalize_name(header_text.as_str());
                let title = ASTPlainText { text: header_text, range: self.input.range_here(start) };
                let ghost st2 = self.pstate();
                assert(st2 == (PState { headers: st0.headers.wrapping_add(1), ..st1.at(q2) }));
                let attributes = self.pop_attributes();
                assert(spec_block(data, le, depth, st0) == header_block(data, le, depth, st0));
                let mut children: Vec<ASTBlock> = Vec::new();
                let ghost answer = header_loop(data, le, depth, header_depth as int, self.pstate(), Seq::empty());
                assert(blocks_view(children@) =~= Seq::<BlockView>::empty());
                loop
                    invariant_except_break
                        header_loop(data, le, depth, header_depth as int, self.pstate(), blocks_view(children@)) == answer,
                    invariant
                        self.follows(old(self)),
                        self.input.pos > old(self).input.pos,
                        data == self.input.data@,
                        le == self.input.ctx.line_endings,
                    ensures
                        self.follows(old(self)),
                        self.input.pos > old(self).input.pos,
                        data == self.input.data@,
                        le == self.input.ctx.line_endings,
                        answer == (blocks_view(children@), self.pstate()),
                    decreases self.remaining(),
                {
                    let ghost st = self.pstate();
                    let ghost cv = blocks_view(children@);
                    let hash_count = if self.input.pos <= self.input.data.len() {
                        self.input.count('#')
                    } else {
                        0
                    };
                    if hash_count > 0 && hash_count <= header_depth {
                        break;
                    }
                    match self.parse_block(depth) {
                        Some(block) => {
                            if let ASTBlock::Header(header) = &block {
                                let child_level = header.depth.wrapping_sub(1);
                                if child_level > (#[verifier::truncate] (header_depth as u8)) {
                                    let level = usize_to_string(child_level as usize);
                                    let range = header.title.range;
                                    let args = vec![level.as_str()];
                                    assert(str_views(args@) =~= seq![spec_usize_str(child_level as usize)]);
                                    self.report(
                                        Diagnostic::error(&Diagnostics::incorrect_header_size(), range, args),
                                    );
                                }
                            }
                            let ghost gb = block;
                            let ghost old_children = children@;
                            children.push(block);
                            proof {
                                lemma_blocks_view_push(old_children, gb);
                            }
                        },
                        None => break,
                    }
                }
                let range = self.input.range_here(start);
                let b = ASTBlock::Header(
                    ASTHeader {
                        canonical_title,
                        title,
                        depth: #[verifier::truncate] (header_depth as u8),
                        attributes,
                        children,
                        range,
                        id: header_id,
                    },
                );
                proof { assert(spec_block(data, le, depth, st0) == (Some(block_view(b)), self.pstate())); }
                Some(b)
            },
            '`' if self.input.peek_n(1).is('`') && self.input.peek_n(2).is('`') => {
                self.input.skip_n(3);
                let language = self.input.consume_until_end_of_line();
                if self.input.pos > self.input.data.len() {
                    return None;
                }
                let code = self.input.consume_until("```")?;
                self.input.skip_until_end_of_line();
                let attributes = self.pop_attributes();
                let range = self.input.range_here(start);
                let b = ASTBlock::CodeBlock(ASTCodeBlock { language, text: code, attributes, range });
                proof { assert(spec_block(data, le, depth, st0) == (Some(block_view(b)), self.pstate())); }
                Some(b)
            },
            '@' if self.input.peek_n(1).is('{') => {
                self.input.skip_n(2);
                let kind = if self.input.peek().is(':') {
                    self.input.skip();
                    self.input.consume_until(" ")
                } else {
                    None
                };
                let matched = self.input.consume_until("}")?;
                let attributes = self.pop_attributes();
                let range = self.input.range_here(start);
                let direct_children = if kind.is_some() {
                    self.input.skip_until_end_of_line();
                    self.parse_children(depth.wrapping_add(1))
                } else {
                    Vec::new()
                };
                let choices = if kind.is_none() {
                    self.input.skip_until_end_of_line();
                    self.parse_choice_list(depth, true, false)?.choices
                } else {
                    Vec::new()
                };
                assert(kind.is_some() ==> choices_view(choices@) =~= Seq::<ChoiceView>::empty());
                assert(kind.is_none() ==> blocks_view(direct_children@) =~= Seq::<BlockView>::empty());
                let b = ASTBlock::Match(ASTMatch { matched, attributes, range, direct_children, choices, kind });
                proof { assert(spec_block(data, le, depth, st0) == (Some(block_view(b)), self.pstate())); }
                Some(b)
            },
            '-' if self.input.peek_n(1).is('>') => {
                self.input.skip_n(2);
                if self.input.peek().is(' ') {
                    self.input.skip();
                }
                let path = self.parse_path_access();
                let range = self.input.range_here(start);
                self.input.consume_until_end_of_line();
                let attributes = self.pop_attributes();
                let b = ASTBlock::Divert(ASTDivert { path, range, attributes });
                proof { assert(spec_block(data, le, depth, st0) == (Some(block_view(b)), self.pstate())); }
                Some(b)
            },
            '-' => {
                let group = self.parse_choice_list(depth, false, true)?;
                let b = ASTBlock::ChoiceGroup(group);
                proof { assert(spec_block(data, le, depth, st0) == (Some(block_view(b)), self.pstate())); }
                Some(b)
            },
            '/' if self.input.peek_n(1).is('/') => {
                self.input.skip_until_end_of_line();
                let r = self.parse_block(depth);
                r
            },
            ' ' | '\n' => {
                self.input.skip();
                let r = self.parse_block(depth);
                r
            },
            _ => {
                let paragraph = self.parse_paragraph()?;
                if paragraph.tail.unicode_len() == 0 && paragraph.parts.len() == 0 {
                    None
                } else {
                    let attributes = self.pop_attributes();
                    let b = ASTBlock::Paragraph(
                        ASTParagraph {
                            parts: paragraph.parts,
                            tail: paragraph.tail,
                            range: paragraph.range,
                            attributes,
                        },
                    );
                    proof { assert(spec_block(data, le, depth, st0) == (Some(block_view(b)), self.pstate())); }
                    Some(b)
                }
            },
        }
    }

    /// Parses the choices of a group (or the arms of a match, where
    /// `require_js`) at indentation `current_depth`. `skip_depth_check`
    /// skips the indentation check of the first line only, whose
    /// indentation may already have been read. See `spec_choice_list`.
    #[verifier::rlimit(60)]
    #[verifier::spinoff_prover]
    pub fn parse_choice_list(&mut self, current_depth: u8, require_js: bool, skip_depth_check: bool) -> (r: Option<ASTChoiceGroup>)
        requires
            old(self).wf(),
        ensures
            final(self).follows(old(self)),
            skip_depth_check && old(self).input.pos < old(self).input.data@.len()
                && old(self).input.data@[old(self).input.pos as int] == 45u8 ==> final(self).input.pos > old(self).input.pos,
            (opt_group_view(r), final(self).pstate()) == spec_choice_list(
                old(self).input.data@,
                old(self).input.ctx.line_endings,
                current_depth,
                require_js,
                skip_depth_check,
                old(self).pstate(),
            ),
        decreases old(self).remaining(), 2int,
    {
        let ghost data = self.input.data@;
        let ghost le = self.input.ctx.line_endings;
        let mut choices: Vec<ASTChoice> = Vec::new();
        let attributes = self.pop_attributes();
        let start = self.input.pos;
        let ghost answer = spec_choice_list(data, le, current_depth, require_js, skip_depth_check, old(self).pstate());
        assert(choices_view(choices@) =~= Seq::<ChoiceView>::empty());
        while !self.input.is_eof()
            invariant_except_break
                choice_loop(
                    data,
                    le,
                    current_depth,
                    require_js,
                    skip_depth_check,
                    attrs_view(attributes@),
                    start as int,
                    self.pstate(),
                    choices_view(choices@),
                ) == answer,
            invariant
                self.follows(old(self)),
                start == old(self).input.pos,
                data == self.input.data@,
                le == self.input.ctx.line_endings,
                skip_depth_check && start < self.input.data@.len() && self.input.data@[start as int] == 45u8
                    ==> self.input.pos > start || (self.input.pos == start && choices@.len() == 0),
                answer == spec_choice_list(data, le, current_depth, require_js, skip_depth_check, old(self).pstate()),
            ensures
                self.follows(old(self)),
                data == self.input.data@,
                le == self.input.ctx.line_endings,
                skip_depth_check && start < self.input.data@.len() && self.input.data@[start as int] == 45u8
                    ==> self.input.pos > start,
                answer == (
                    Some(
                        GroupView {
                            choices: choices_view(choices@),
                            attributes: attrs_view(attributes@),
                            range: Range { start, end: self.input.pos },
                        },
                    ),
                    self.pstate(),
                ),
                answer == spec_choice_list(data, le, current_depth, require_js, skip_depth_check, old(self).pstate()),
            decreases self.remaining(),
        {
            let ghost cv = choices_view(choices@);
            let ghost st = self.pstate();
            let ghost av = attrs_view(attributes@);
            if !skip_depth_check || choices.len() > 0 {
                let ident = self.input.get_identation();
                if current_depth != ident.0 {
                    assert(indent_at(data, st.pos) == ident.0);
                    break;
                }
                self.input.set_pos(ident.1);
            }
            let ghost st2 = self.pstate();
            match self.input.peek()? {
                '-' => {
                    match self.parse_choice(current_depth, require_js) {
                        ChoiceStep::Parsed(choice) => {
                            let ghost gc = choice;
                            assert(spec_choice(data, le, current_depth, require_js, st2) == (ChoiceStepView::Parsed(choice_view(gc)), self.pstate()));
                            assert(choice_loop(data, le, current_depth, require_js, skip_depth_check, av, start as int, st, cv)
                                == choice_loop(data, le, current_depth, require_js, skip_depth_check, av, start as int, self.pstate(), cv.push(choice_view(gc))));
                            let ghost old_choices = choices@;
                            choices.push(choice);
                            proof {
                                lemma_choices_view_push(old_choices, gc);
                            }
                        },
                        ChoiceStep::Rejected => {
                            assert(spec_choice(data, le, current_depth, require_js, st2) == (ChoiceStepView::Rejected, self.pstate()));
                            assert(choice_loop(data, le, current_depth, require_js, skip_depth_check, av, start as int, st, cv)
                                == choice_loop(data, le, current_depth, require_js, skip_depth_check, av, start as int, self.pstate(), cv));
                        },
                        ChoiceStep::Incomplete => {
                            assert(spec_choice(data, le, current_depth, require_js, st2) == (ChoiceStepView::Incomplete, self.pstate()));
                            return None;
                        },
                    }
                },
                _ => break,
            }
        }
        let range = self.input.range_here(start);
        Some(ASTChoiceGroup { choices, range, attributes })
    }

    /// Parses one choice; the current position holds its `-`. See `spec_choice`.
    #[verifier::rlimit(60)]
    fn parse_choice(&mut self, current_depth: u8, require_js: bool) -> (r: ChoiceStep)
        requires
            old(self).wf(),
            old(self).input.pos < old(self).input.data@.len(),
        ensures
            final(self).follows(old(self)),
            final(self).input.pos > old(self).input.pos,
            (step_view(r), final(self).pstate()) == spec_choice(
                old(self).input.data@,
                old(self).input.ctx.line_endings,
                current_depth,
                require_js,
                old(self).pstate(),
            ),
        decreases old(self).remaining(), 1int,
    {
        let ghost data = self.input.data@;
        let ghost le = self.input.ctx.line_endings;
        proof {
            reveal_strlit(" ");
            reveal_strlit("}");
        }
        assert(" "@ =~= seq![' ']);
        assert(str_bytes(" ") == encode_utf8(seq![' ']));
        assert("}"@ =~= seq!['}']);
        assert(str_bytes("}") == encode_utf8(seq!['}']));
        self.input.skip();
        if self.input.peek().is(' ') {
            self.input.skip();
        }
        let attributes = if self.input.peek().is('#') && self.input.peek_n(1).is('[') {
            self.input.skip_n(2);
            self.parse_attributes()
        } else {
            let v: Vec<ASTAttribute> = Vec::new();
            assert(attrs_view(v@) =~= Seq::<AttrView>::empty());
            v
        };
        if self.input.peek().is('{') && self.input.peek_n(1).is(':') {
            if require_js {
                let range = self.input.range_single();
                let args: Vec<&str> = Vec::new();
                assert(str_views(args@) =~= Seq::<Seq<char>>::empty());
                self.report(Diagnostic::error(&Diagnostics::no_condition(), range, args));
            }
            self.input.skip_n(2);
            let kind = match self.input.consume_until(" ") {
                Some(k) => k,
                None => return ChoiceStep::Incomplete,
            };
            let cond = match self.input.consume_until("}") {
                Some(c) => c,
                None => return ChoiceStep::Incomplete,
            };
            self.parse_choice_rest(current_depth, require_js, attributes, Some((kind, cond)))
        } else {
            self.parse_choice_rest(current_depth, require_js, attributes, None)
        }
    }

    /// The rest of a choice, after its condition: its text and children. See `choice_rest`.
    fn parse_choice_rest(
        &mut self,
        current_depth: u8,
        require_js: bool,
        attributes: Vec<ASTAttribute>,
        condition: Option<(String, String)>,
    ) -> (r: ChoiceStep)
        requires
            old(self).wf(),
            old(self).input.pos <= old(self).input.data@.len(),
        ensures
            final(self).follows(old(self)),
            (step_view(r), final(self).pstate()) == choice_rest(
                old(self).input.data@,
                old(self).input.ctx.line_endings,
                current_depth,
                require_js,
                attrs_view(attributes@),
                cond_view(condition),
                old(self).pstate(),
            ),
        decreases old(self).remaining(), 0int,
    {
        if self.input.peek().is(' ') {
            self.input.skip();
        }
        let start = self.input.pos;
        let text = match self.parse_paragraph() {
            Some(t) => t,
            None => return ChoiceStep::Incomplete,
        };
        proof {
            lemma_parts_view_index(text.parts@);
        }
        if require_js && (text.parts.len() == 0 || !is_javascript(&text.parts[0].text.kind)) {
            let range = self.input.range_here(start);
            let args: Vec<&str> = Vec::new();
            assert(str_views(args@) =~= Seq::<Seq<char>>::empty());
            self.report(Diagnostic::error(&Diagnostics::required_js(), range, args));
            return ChoiceStep::Rejected;
        }
        let children = self.parse_children(current_depth.wrapping_add(1));
        let range = self.input.range_here(start);
        ChoiceStep::Parsed(ASTChoice { text, children, attributes, condition, range })
    }

    /// Parses the blocks indented by `depth` levels that follow; see `spec_children`.
    pub fn parse_children(&mut self, depth: u8) -> (r: Vec<ASTBlock>)
        requires
            old(self).wf(),
        ensures
            final(self).follows(old(self)),
            (blocks_view(r@), final(self).pstate()) == spec_children(
                old(self).input.data@,
                old(self).input.ctx.line_endings,
                depth,
                old(self).pstate(),
            ),
        decreases old(self).remaining(), 4int,
    {
        let ghost data = self.input.data@;
        let ghost le = self.input.ctx.line_endings;
        let mut res: Vec<ASTBlock> = Vec::new();
        let ghost answer = spec_children(data, le, depth, self.pstate());
        assert(blocks_view(res@) =~= Seq::<BlockView>::empty());
        while !self.input.is_eof()
            invariant_except_break
                children_loop(data, le, depth, self.pstate(), blocks_view(res@)) == answer,
            invariant
                self.follows(old(self)),
                data == self.input.data@,
                le == self.input.ctx.line_endings,
                answer == spec_children(data, le, depth, old(self).pstate()),
            ensures
                self.follows(old(self)),
                answer == (blocks_view(res@), self.pstate()),
                answer == spec_children(data, le, depth, old(self).pstate()),
            decreases self.remaining(),
        {
            let ghost st = self.pstate();
            let ghost rv = blocks_view(res@);
            let ident = self.input.get_identation();
            if depth != ident.0 {
                break;
            }
            self.input.set_pos(ident.1);
            let ghost st2 = self.pstate();
            assert(st2 == st.at(ident.1 as int));
            assert(indent_at(data, st.pos) == ident.0);
            match self.parse_block(depth) {
                Some(block) => {
                    let ghost gb = block;
                    assert(spec_block(data, le, depth, st2) == (Some(block_view(gb)), self.pstate()));
                    assert(children_loop(data, le, depth, st, rv) == children_loop(
                        data,
                        le,
                        depth,
                        self.pstate(),
                        rv.push(block_view(gb)),
                    ));
                    let ghost old_res = res@;
                    res.push(block);
                    proof {
                        lemma_blocks_view_push(old_res, gb);
                    }
                },
                None => {
                    assert(spec_block(data, le, depth, st2) == (None::<BlockView>, self.pstate()));
                    assert(children_loop(data, le, depth, st, rv) == (rv, self.pstate()));
                    break;
                },
            }
        }
        res
    }

    /// Parses the rest of a line as text and moves past the line ending;
    /// see `spec_paragraph`.
    pub fn parse_paragraph(&mut self) -> (r: Option<ASTText>)
        requires
            old(self).wf(),
            old(self).input.pos <= old(self).input.data@.len(),
        ensures
            final(self).follows(old(self)),
            r.is_some() ==> final(self).input.pos > old(self).input.pos,
            match spec_paragraph(old(self).input.data@, old(self).input.ctx.line_endings, old(self).pstate()) {
                Some(res) => r is Some && text_view(r->0) == res.0 && final(self).pstate() == res.1,
                None => r is None && final(self).pstate() == old(self).pstate(),
            },
    {
        let le = self.input.ctx.line_endings;
        let until = resolve_line_endings(le);
        assert(str_bytes(until) == eol_bytes(le));
        match self.parse_text(until, true) {
            Some(text) => {
                self.advance(le);
                Some(text)
            },
            None => None,
        }
    }

    /// Reads a divert path: segments of letters, digits and `_` separated by
    /// `.`, capital letters made small; it ends at the first other byte or at
    /// the end of the line.
    pub fn parse_path_access(&mut self) -> (paths: Vec<String>)
        requires
            old(self).wf(),
            old(self).input.pos <= old(self).input.data@.len(),
        ensures
            final(self).follows(old(self)),
            final(self).input.pos == path_end(old(self).input.data@, old(self).input.pos as int, old(self).input.ctx.line_endings),
            final(self).input.pos <= final(self).input.data@.len(),
            strings_view(paths@) == path_segments(
                old(self).input.data@.subrange(old(self).input.pos as int, final(self).input.pos as int),
                seq![],
                seq![],
            ),
            final(self).input.ctx == old(self).input.ctx,
            final(self).collected_attributes == old(self).collected_attributes,
            final(self).header_counter == old(self).header_counter,
    {
        let ghost data = self.input.data@;
        let ghost le = self.input.ctx.line_endings;
        let ghost start = self.input.pos as int;
        let mut paths: Vec<String> = Vec::new();
        let mut current_path = String::new();
        proof {
            lemma_path_end(data, start, le);
            assert(strings_view(paths@) =~= Seq::<Seq<char>>::empty());
        }
        while !self.input.is_eol()
            invariant
                self.follows(old(self)),
                data == self.input.data@,
                le == self.input.ctx.line_endings,
                start == old(self).input.pos,
                start <= self.input.pos <= path_end(data, start, le),
                path_end(data, start, le) == path_end(data, self.input.pos as int, le),
                path_end(data, start, le) <= data.len(),
                self.input.ctx == old(self).input.ctx,
                self.collected_attributes == old(self).collected_attributes,
                self.header_counter == old(self).header_counter,
                path_segments(data.subrange(start, path_end(data, start, le)), seq![], seq![])
                    == path_segments(data.subrange(self.input.pos as int, path_end(data, start, le)), current_path@, strings_view(paths@)),
            ensures
                self.input.pos == path_end(data, start, le),
            decreases data.len() - self.input.pos,
        {
            let ghost p = self.input.pos as int;
            let ghost e = path_end(data, start, le);
            let b = self.input.data[self.input.pos];
            proof {
                lemma_path_end(data, p, le);
                if is_path_access_byte(b) {
                    lemma_path_end(data, p + 1, le);
                    assert(path_end(data, p, le) == path_end(data, p + 1, le));
                    assert(data.subrange(p, e).drop_first() =~= data.subrange(p + 1, e));
                    assert(data.subrange(p, e)[0] == b);
                } else {
                    assert(path_end(data, p, le) == p);
                }
            }
            let ch = self.input.force_next();
            if (48u8 <= b && b <= 57u8) || (97u8 <= b && b <= 122u8) || b == 95u8 {
                push_char(&mut current_path, ch);
            } else if 65u8 <= b && b <= 90u8 {
                push_char(&mut current_path, ((b + 32u8) as char));
            } else if b == 46u8 {
                let ghost pv = strings_view(paths@);
                let ghost cv = current_path@;
                paths.push(current_path);
                current_path = String::new();
                proof {
                    assert(strings_view(paths@) =~= pv.push(cv));
                }
            } else {
                self.input.back(1);
                break;
            }
        }
        if current_path.unicode_len() > 0 {
            paths.push(current_path);
        }
        paths
    }

    /// Reads a comma-separated list of parameters closed by `until`; see
    /// `spec_string_list`.
    pub fn parse_string_list(&mut self, until: char) -> (result: Vec<String>)
        requires
            old(self).wf(),
            old(self).input.pos <= old(self).input.data@.len(),
        ensures
            final(self).follows(old(self)),
            final(self).input.pos <= final(self).input.data@.len(),
            final(self).input.ctx.line_endings == old(self).input.ctx.line_endings,
            (strings_view(result@), final(self).pstate()) == spec_string_list(
                old(self).input.data@,
                old(self).input.ctx.line_endings,
                until,
                old(self).pstate(),
            ),
    {
        let ghost data = self.input.data@;
        let ghost le = self.input.ctx.line_endings;
        let mut result: Vec<String> = Vec::new();
        let mut current = String::new();
        let start = self.input.pos;
        let ghost answer = spec_string_list(data, le, until, self.pstate());
        assert(strings_view(result@) =~= Seq::<Seq<char>>::empty());
        while !self.input.is_eol()
            invariant
                self.follows(old(self)),
                self.input.pos <= self.input.data@.len(),
                start == old(self).input.pos,
                data == self.input.data@,
                le == self.input.ctx.line_endings,
                string_list_loop(data, le, until, start as int, self.pstate(), strings_view(result@), current@)
                    == answer,
                answer == spec_string_list(old(self).input.data@, old(self).input.ctx.line_endings, until, old(self).pstate()),
            ensures
                self.follows(old(self)),
                self.input.pos <= self.input.data@.len(),
                data == self.input.data@,
                le == self.input.ctx.line_endings,
                answer == (strings_view(result@), self.pstate().error(missing_closing_msg(seq![until]), Range { start, end: self.input.pos })),
            decreases self.input.data@.len() - self.input.pos,
        {
            let ghost st = self.pstate();
            let ghost rv = strings_view(result@);
            let character = self.input.force_next();
            if character == ',' {
                if self.input.peek().is(' ') {
                    self.input.skip();
                }
                let ghost cv = current@;
                result.push(current);
                current = String::new();
                assert(strings_view(result@) =~= rv.push(cv));
            } else if ('0' <= character && character <= '9') || ('a' <= character && character <= 'z') || ('A' <= character
                && character <= 'Z') || character == '_' || character == ' ' || character == '-' || character == '>'
                || character == '#' || character == '@' || character == '$' || character == '*' || character == '^'
                || character == '.' {
                push_char(&mut current, character);
            } else if character == until {
                let ghost cv = current@;
                result.push(current);
                assert(strings_view(result@) =~= rv.push(cv));
                assert(self.pstate() == st.at(st.pos + 1));
                assert(!is_list_char(character));
                assert(string_list_loop(data, le, until, start as int, st, rv, cv) == (rv.push(cv), st.at(st.pos + 1)));
                return result;
            } else {
                self.input.back(1);
                break;
            }
        }
        let range = self.input.range_here(start);
        let mut closing = String::new();
        push_char(&mut closing, until);
        let args = vec![closing.as_str()];
        assert(str_views(args@) =~= seq![seq![until]]);
        let d = Diagnostic::error(&Diagnostics::missing_closing(), range, args);
        self.report(d);
        result
    }

    /// Reads `name(params), name, ...]`, the part of an attribute list after
    /// `#[`; see `spec_attributes`.
    pub fn parse_attributes(&mut self) -> (attributes: Vec<ASTAttribute>)
        requires
            old(self).wf(),
            old(self).input.pos <= old(self).input.data@.len(),
        ensures
            final(self).follows(old(self)),
            final(self).input.pos <= final(self).input.data@.len(),
            final(self).input.ctx.line_endings == old(self).input.ctx.line_endings,
            (attrs_view(attributes@), final(self).pstate()) == spec_attributes(
                old(self).input.data@,
                old(self).input.ctx.line_endings,
                old(self).pstate(),
            ),
    {
        let ghost data = self.input.data@;
        let ghost le = self.input.ctx.line_endings;
        let mut current_att = String::new();
        let mut last_start = self.input.pos;
        let mut parameters: Vec<String> = Vec::new();
        let mut attributes: Vec<ASTAttribute> = Vec::new();
        let start = self.input.pos;
        let ghost answer = spec_attributes(data, le, self.pstate());
        assert(strings_view(parameters@) =~= Seq::<Seq<char>>::empty());
        assert(attrs_view(attributes@) =~= Seq::<AttrView>::empty());
        proof {
            reveal_strlit("]");
        }
        while !self.input.is_eol()
            invariant
                self.follows(old(self)),
                self.input.pos <= self.input.data@.len(),
                start == old(self).input.pos,
                data == self.input.data@,
                le == self.input.ctx.line_endings,
                "]"@ == seq![']'],
                attributes_loop(
                    data,
                    le,
                    start as int,
                    self.pstate(),
                    current_att@,
                    last_start as int,
                    strings_view(parameters@),
                    attrs_view(attributes@),
                ) == answer,
                answer == spec_attributes(old(self).input.data@, old(self).input.ctx.line_endings, old(self).pstate()),
            ensures
                self.follows(old(self)),
                self.input.pos <= self.input.data@.len(),
                data == self.input.data@,
                le == self.input.ctx.line_endings,
                "]"@ == seq![']'],
                answer == (attrs_view(attributes@), self.pstate().error(missing_closing_msg(seq![']']), Range { start, end: self.input.pos })),
                answer == spec_attributes(old(self).input.data@, old(self).input.ctx.line_endings, old(self).pstate()),
            decreases self.input.data@.len() - self.input.pos,
        {
            let ghost st = self.pstate();
            let ghost av = attrs_view(attributes@);
            let ghost pv = strings_view(parameters@);
            let ghost nv = current_att@;
            let c = self.input.force_next();
            if c == ']' {
                let range = self.input.range_here(last_start);
                let params = parameters.clone_and_empty();
                let attr = ASTAttribute { name: current_att, parameters: params, range };
                let ghost ga = attr;
                attributes.push(attr);
                assert(attrs_view(attributes@) =~= av.push(attr_view(ga)));
                assert(self.pstate() == st.at(st.pos + 1));
                return attributes;
            } else if c == ',' {
                if self.input.peek().is(' ') {
                    self.input.skip();
                }
                let range = self.input.range_here(last_start);
                let params = parameters.clone_and_empty();
                let attr = ASTAttribute { name: current_att, parameters: params, range };
                let ghost ga = attr;
                attributes.push(attr);
                assert(attrs_view(attributes@) =~= av.push(attr_view(ga)));
                current_att = String::new();
                last_start = self.input.pos;
                assert(strings_view(parameters@) =~= Seq::<Seq<char>>::empty());
            } else if c == '(' {
                parameters = self.parse_string_list(')');
            } else {
                push_char(&mut current_att, c);
            }
        }
        let range = self.input.range_here(start);
        let args = vec!["]"];
        assert(str_views(args@) =~= seq![seq![']']]);
        let d = Diagnostic::error(&Diagnostics::missing_closing(), range, args);
        self.report(d);
        attributes
    }

    /// Parses text with inline elements up to the first `until` (or, where
    /// `optional`, to the end of the data where there is none); see
    /// `spec_text` for what it reads.
    pub fn parse_text(&mut self, until: &str, optional: bool) -> (r: Option<ASTText>)
        requires
            old(self).wf(),
        ensures
            final(self).follows(old(self)),
            final(self).input.ctx == old(self).input.ctx,
            final(self).collected_attributes == old(self).collected_attributes,
            final(self).header_counter == old(self).header_counter,
            match spec_text(
                old(self).input.data@,
                old(self).input.ctx.line_endings as int,
                str_bytes(until),
                optional,
                old(self).input.pos as int,
            ) {
                Some(res) => r is Some && text_view(r->0) == res.0 && final(self).input.pos == res.1,
                None => r is None && final(self).input.pos == old(self).input.pos,
            },
        decreases old(self).remaining(),
    {
        let ghost data = self.input.data@;
        let ghost le = self.input.ctx.line_endings as int;
        let mut parts: Vec<TextPart> = Vec::new();
        let mut result = String::new();
        let start = self.input.pos;
        let until_bytes = until.as_bytes();
        let found = if until_bytes.len() <= usize::MAX - self.input.data.len() {
            self.input.get_pos_of(until)
        } else {
            None
        };
        let pos_end = match found {
            Some(p) => p,
            None => if optional {
                self.input.data.len()
            } else {
                0
            },
        };
        proof {
            lemma_first_occurrence(data, str_bytes(until), start as int);
        }
        assert(pos_end == text_end(data, str_bytes(until), optional, start as int));
        if pos_end == 0 {
            return None;
        }
        let ghost answer = text_loop(data, le, start as int, pos_end as int, start as int, Seq::empty(), Seq::empty());
        proof {
            reveal_strlit("**");
            reveal_strlit("*");
            reveal_strlit("`");
            reveal_strlit("}");
            assert(parts_view(parts@) =~= Seq::<PartView>::empty());
        }
        while self.input.pos < pos_end
            invariant
                self.follows(old(self)),
                self.input.ctx == old(self).input.ctx,
                self.collected_attributes == old(self).collected_attributes,
                self.header_counter == old(self).header_counter,
                data == self.input.data@,
                le == self.input.ctx.line_endings as int,
                start == old(self).input.pos,
                0 < pos_end <= self.input.data@.len(),
                "**"@ == seq!['*', '*'],
                "*"@ == seq!['*'],
                "`"@ == seq!['`'],
                "}"@ == seq!['}'],
                text_loop(data, le, start as int, pos_end as int, self.input.pos as int, parts_view(parts@), result@)
                    == answer,
            decreases self.remaining(),
        {
            let ghost p = self.input.pos as int;
            let ghost pv = parts_view(parts@);
            let ghost res0 = result@;
            let c = self.input.force_next();
            if c == '\\' {
                if self.input.pos < self.input.data.len() {
                    let escaped = self.input.force_next();
                    push_char(&mut result, escaped);
                }
                assert(text_loop(data, le, start as int, pos_end as int, self.input.pos as int, parts_view(parts@), result@) == text_loop(data, le, start as int, pos_end as int, p, pv, res0));

            } else if c == '*' && self.input.peek().is('*') {
                let here = self.input.pos - 1;
                self.input.skip();
                assert(str_bytes("**") == encode_utf8(seq!['*', '*']));
                let ghost nested = spec_text(data, le, encode_utf8(seq!['*', '*']), false, p + 2);
                match self.parse_text("**", false) {
                    Some(text) => {
                        assert(nested is Some);
                        let ghost tv = nested.unwrap().0;
                        let ghost q = nested.unwrap().1;
                        assert(text_view(text) == tv);
                        assert(self.input.pos == q);
                        self.advance(2);
                        let ghost q2 = clamped(q, 2, text_limit(data, le));
                        assert(self.input.pos == q2);
                        assert(p < q2 <= text_limit(data, le));
                        let range = self.input.range_here(here);
                        let part = TextPart { before: result.clone(), text: ASTInline { kind: ASTInlineKind::Bold(text), range } };
                        let ghost old_parts = parts@;
                        let ghost gp = part;
                        parts.push(part);
                        proof {
                            lemma_parts_view_push(old_parts, gp);
                        }
                        result = String::new();
                        assert(parts_view(parts@) == pv.push(PartView { before: res0, kind: InlineView::Bold(tv), range: Range { start: p as usize, end: q2 as usize } }));
                        assert(text_loop(data, le, start as int, pos_end as int, self.input.pos as int, parts_view(parts@), result@) == text_loop(data, le, start as int, pos_end as int, p, pv, res0));
                    },
                    None => {
                        result.append("**");
                        assert(text_loop(data, le, start as int, pos_end as int, self.input.pos as int, parts_view(parts@), result@) == text_loop(data, le, start as int, pos_end as int, p, pv, res0));
                    },
                }
            } else if c == '+' && self.input.peek().is('+') {
                self.input.skip();
                let range = self.input.range_here(start);
                let part = TextPart { before: result.clone(), text: ASTInline { kind: ASTInlineKind::Join, range } };
                let ghost old_parts = parts@;
                let ghost gp = part;
                parts.push(part);
                proof {
                    lemma_parts_view_push(old_parts, gp);
                }
                result = String::new();
                assert(byte_is(data, p + 1, '+'));
                assert(parts_view(parts@) == pv.push(PartView { before: res0, kind: InlineView::Join, range: Range { start: start, end: (p + 2) as usize } }));
                assert(self.input.pos == p + 2);
                assert(text_loop(data, le, start as int, pos_end as int, self.input.pos as int, parts_view(parts@), result@) == text_loop(data, le, start as int, pos_end as int, p, pv, res0));
            } else if c == '*' {
                let here = self.input.pos - 1;
                match self.parse_text("*", false) {
                    Some(text) => {
                        self.advance(1);
                        let range = self.input.range_here(here);
                        let part = TextPart { before: result.clone(), text: ASTInline { kind: ASTInlineKind::Italics(text), range } };
                        let ghost old_parts = parts@;
                        let ghost gp = part;
                        parts.push(part);
                        proof {
                            lemma_parts_view_push(old_parts, gp);
                        }
                        result = String::new();
                        assert(text_loop(data, le, start as int, pos_end as int, self.input.pos as int, parts_view(parts@), result@) == text_loop(data, le, start as int, pos_end as int, p, pv, res0));
                    },
                    None => {
                        push_char(&mut result, '*');
                        assert(text_loop(data, le, start as int, pos_end as int, self.input.pos as int, parts_view(parts@), result@) == text_loop(data, le, start as int, pos_end as int, p, pv, res0));
                    },
                }
            } else if c == '`' {
                let here = self.input.pos - 1;
                match self.parse_text("`", false) {
                    Some(text) => {
                        self.advance(1);
                        let range = self.input.range_here(here);
                        let part = TextPart { before: result.clone(), text: ASTInline { kind: ASTInlineKind::Code(text), range } };
                        let ghost old_parts = parts@;
                        let ghost gp = part;
                        parts.push(part);
                        proof {
                            lemma_parts_view_push(old_parts, gp);
                        }
                        result = String::new();
                        assert(text_loop(data, le, start as int, pos_end as int, self.input.pos as int, parts_view(parts@), result@) == text_loop(data, le, start as int, pos_end as int, p, pv, res0));
                    },
                    None => {
                        push_char(&mut result, '`');
                        assert(text_loop(data, le, start as int, pos_end as int, self.input.pos as int, parts_view(parts@), result@) == text_loop(data, le, start as int, pos_end as int, p, pv, res0));
                    },
                }
            } else if c == '{' {
                assert("}"@ =~= seq!['}']);
        assert(str_bytes("}") == encode_utf8(seq!['}']));
                assert(self.input.ctx.line_endings == le as usize);
                match self.input.consume_until_of_eol("}") {
                    Some(text) => {
                        let range = self.input.range_here(start);
                        let part = TextPart { before: result.clone(), text: ASTInline { kind: ASTInlineKind::Javascript(text), range } };
                        let ghost old_parts = parts@;
                        let ghost gp = part;
                        parts.push(part);
                        proof {
                            lemma_parts_view_push(old_parts, gp);
                        }
                        result = String::new();
                        assert(text_loop(data, le, start as int, pos_end as int, self.input.pos as int, parts_view(parts@), result@) == text_loop(data, le, start as int, pos_end as int, p, pv, res0));
                    },
                    None => {
                        push_char(&mut result, '}');
                        assert(text_loop(data, le, start as int, pos_end as int, self.input.pos as int, parts_view(parts@), result@) == text_loop(data, le, start as int, pos_end as int, p, pv, res0));
                    },
                }
            } else {
                push_char(&mut result, c);
                assert(text_loop(data, le, start as int, pos_end as int, self.input.pos as int, parts_view(parts@), result@) == text_loop(data, le, start as int, pos_end as int, p, pv, res0));
            }
        }
        let range = self.input.range_here(start);
        Some(ASTText { parts, tail: result, range })
    }

    /// Parses the whole text into blocks, and hands back the context with the
    /// diagnostics that were found; see `parse_loop`.
    pub fn parse(self) -> (r: (Vec<ASTBlock>, ParsingContext))
        requires
            self.wf(),
        ensures
            r.1.line_endings == self.input.ctx.line_endings,
            blocks_view(r.0@) == parse_loop(self.input.data@, self.input.ctx.line_endings, self.pstate(), Seq::empty()).0,
            diag_views(r.1.diagnostics@) == parse_loop(self.input.data@, self.input.ctx.line_endings, self.pstate(), Seq::empty()).1.diags,
    {
        let ghost data = self.input.data@;
        let ghost answer = parse_loop(self.input.data@, self.input.ctx.line_endings, self.pstate(), Seq::empty());
        let mut parser = self;
        let ghost le = parser.input.ctx.line_endings;
        let mut res: Vec<ASTBlock> = Vec::new();
        assert(blocks_view(res@) =~= Seq::<BlockView>::empty());
        while !parser.input.is_eof()
            invariant_except_break
                parse_loop(data, le, parser.pstate(), blocks_view(res@)) == answer,
            invariant
                parser.wf(),
                parser.input.ctx.line_endings == le,
                parser.input.data@ == data,
            ensures
                parser.input.ctx.line_endings == le,
                answer == (blocks_view(res@), parser.pstate()),
            decreases parser.remaining(),
        {
            let ghost st = parser.pstate();
            let ghost rv = blocks_view(res@);
            let before = parser.input.pos;
            if let Some(block) = parser.parse_block(0) {
                let ghost gb = block;
                let ghost old_res = res@;
                res.push(block);
                proof {
                    lemma_blocks_view_push(old_res, gb);
                }
            }
            if parser.input.pos == before {
                break;
            }
        }
        (res, parser.input.ctx)
    }

    /// Parses a text with the given line endings; hands back the blocks and
    /// the diagnostics. See `spec_parse`.
    pub fn parse_str(text: &str, line_endings: usize) -> (r: (Vec<ASTBlock>, Vec<Diagnostic>))
        requires
            line_endings >= 1,
            text.spec_bytes().len() + 2 * line_endings + 16 <= usize::MAX,
        ensures
            blocks_view(r.0@) == spec_parse(text.spec_bytes(), line_endings).0,
            diag_views(r.1@) == spec_parse(text.spec_bytes(), line_endings).1,
    {
        let parser = Parser::new(text, ParsingContext::new(line_endings));
        proof {
            assert(diag_views(parser.input.ctx.diagnostics@) =~= Seq::empty());
            assert(stack_view(parser.collected_attributes.data@) =~= Seq::empty());
            assert(parser.pstate() == (PState { pos: 0, diags: Seq::empty(), attrs: Seq::empty(), headers: 0 }));
        }
        let (blocks, ctx) = parser.parse();
        (blocks, ctx.diagnostics)
    }
}

pub open spec fn opt_block_view(r: Option<ASTBlock>) -> Option<BlockView> {
    match r {
        Some(b) => Some(block_view(b)),
        None => None,
    }
}

pub open spec fn opt_group_view(r: Option<ASTChoiceGroup>) -> Option<GroupView> {
    match r {
        Some(g) => Some(GroupView { choices: choices_view(g.choices@), attributes: attrs_view(g.attributes@), range: g.range }),
        None => None,
    }
}

pub open spec fn cond_view(c: Option<(String, String)>) -> Option<(Seq<char>, Seq<char>)> {
    match c {
        Some(pair) => Some((pair.0@, pair.1@)),
        None => None,
    }
}

spec fn step_view(s: ChoiceStep) -> ChoiceStepView {
    match s {
        ChoiceStep::Parsed(c) => ChoiceStepView::Parsed(choice_view(c)),
        ChoiceStep::Rejected => ChoiceStepView::Rejected,
        ChoiceStep::Incomplete => ChoiceStepView::Incomplete,
    }
}

/// Whether an inline element is inline javascript.
pub fn is_javascript(kind: &ASTInlineKind) -> (r: bool)
    ensures
        r == (*kind is Javascript),
{
    match kind {
        ASTInlineKind::Javascript(_) => true,
        _ => false,
    }
}

} // verus!
