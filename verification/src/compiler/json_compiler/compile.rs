use vstd::prelude::*;
use vstd::string::*;
use vstd::utf8::encode_utf8;
use crate::compiler::base::BlobId;
use crate::compiler::json_compiler::JSONCompilerContext;
use crate::compiler::path::Path;
use crate::compiler::visitors::rebuilder::{Rebuilder, opt_view, rebuilt_program, spec_transform, transform_js};
use crate::compiler::visitors::variable_collector::{KindView, VariableCollector, store_view, vc_run};
use crate::compiler::visitors::variable_collector::variable::{AssignmentStore, Variable, stored_from};
use crate::diagnostics::diagnostic::{Diagnostic, DiagnosticVariants, diag_view, diag_views, lemma_diag_views_len};
use crate::js_parser::parser::parsed_js;
use crate::js_parser::parser::ast::lemma_expr_views;
use crate::js_parser::tokenizer::DiagView;
use crate::parser::ast::model::{inline_kind_raw, spec_canonicalize};
use crate::diagnostics::location::Range;
use crate::js_parser::parser::JsParser;
use crate::parser::ast::model::{
    ASTAttribute, ASTBlock, ASTChoice, ASTChoiceGroup, ASTCodeBlock, ASTDivert, ASTHeader, ASTInline,
    ASTInlineKind, ASTMatch, ASTParagraph, ASTText, TextPart,
};
use crate::strings::{push_char, spec_usize_str, usize_to_string};

verus! {

// ---------------------------------------------------------------- plain values

/// A character as it stands inside a JSON string: line breaks and quotes are escaped.
pub open spec fn json_escape_char(c: char) -> Seq<char> {
    if c == '\n' {
        seq!['\\', 'n']
    } else if c == '\r' {
        seq!['\\', 'r']
    } else if c == '"' {
        seq!['\\', '"']
    } else {
        seq![c]
    }
}

pub open spec fn json_escape(s: Seq<char>) -> Seq<char>
    decreases s.len(),
{
    if s.len() == 0 {
        seq![]
    } else {
        json_escape(s.drop_last()) + json_escape_char(s.last())
    }
}

/// A string as a JSON string.
pub open spec fn json_str(s: Seq<char>) -> Seq<char> {
    seq!['"'] + json_escape(s) + seq!['"']
}

/// A range as a JSON object.
pub open spec fn json_range(r: Range<usize>) -> Seq<char> {
    "{\"start\":"@ + spec_usize_str(r.start) + ",\"end\":"@ + spec_usize_str(r.end) + "}"@
}

/// Items joined with commas.
pub open spec fn join_commas(items: Seq<Seq<char>>) -> Seq<char>
    decreases items.len(),
{
    if items.len() == 0 {
        seq![]
    } else if items.len() == 1 {
        items[0]
    } else {
        join_commas(items.drop_last()) + seq![','] + items.last()
    }
}

/// Strings as a JSON array of strings.
pub open spec fn json_strs(v: Seq<String>) -> Seq<char> {
    seq!['['] + join_commas(v.map_values(|s: String| json_str(s@))) + seq![']']
}

/// An attribute as a JSON object.
pub open spec fn json_attribute(a: ASTAttribute) -> Seq<char> {
    "{\"name\":"@ + json_str(a.name@) + ",\"parameters\":"@ + json_strs(a.parameters@) + ",\"range\":"@
        + json_range(a.range) + "}"@
}

/// Attributes as a JSON array.
pub open spec fn json_attributes(v: Seq<ASTAttribute>) -> Seq<char> {
    seq!['['] + join_commas(v.map_values(|a: ASTAttribute| json_attribute(a))) + seq![']']
}

/// Writes something as JSON that cannot fail to be written.
pub trait JSONSafeCompilable {
    /// The JSON text of the value.
    spec fn json_text(&self) -> Seq<char>;

    fn safe_compile(&self) -> (s: String)
        ensures
            s@ == self.json_text(),
    ;
}

/// Escapes a string and puts it in quotes.
pub fn safe_str(s: &str) -> (r: String)
    ensures
        r@ == json_str(s@),
{
    let mut out = String::new();
    push_char(&mut out, '"');
    let n = s.unicode_len();
    let mut i: usize = 0;
    while i < n
        invariant
            n == s@.len(),
            0 <= i <= n,
            out@ == seq!['"'] + json_escape(s@.take(i as int)),
        decreases n - i,
    {
        let c = s.get_char(i);
        assert(s@.take(i + 1).drop_last() =~= s@.take(i as int));
        if c == '\n' {
            push_char(&mut out, '\\');
            push_char(&mut out, 'n');
        } else if c == '\r' {
            push_char(&mut out, '\\');
            push_char(&mut out, 'r');
        } else if c == '"' {
            push_char(&mut out, '\\');
            push_char(&mut out, '"');
        } else {
            push_char(&mut out, c);
        }
        assert(out@ =~= seq!['"'] + json_escape(s@.take(i + 1)));
        i = i + 1;
    }
    push_char(&mut out, '"');
    assert(s@.take(n as int) =~= s@);
    assert(out@ =~= json_str(s@));
    out
}

pub fn safe_range(r: &Range<usize>) -> (s: String)
    ensures
        s@ == json_range(*r),
{
    let mut s = String::new();
    s.append("{\"start\":");
    s.append(usize_to_string(r.start).as_str());
    s.append(",\"end\":");
    s.append(usize_to_string(r.end).as_str());
    s.append("}");
    assert(s@ =~= json_range(*r));
    s
}

pub fn safe_strings(v: &Vec<String>) -> (s: String)
    ensures
        s@ == json_strs(v@),
{
    let ghost items = v@.map_values(|x: String| json_str(x@));
    let mut inner = String::new();
    let mut i: usize = 0;
    while i < v.len()
        invariant
            0 <= i <= v@.len(),
            items == v@.map_values(|x: String| json_str(x@)),
            inner@ == join_commas(items.take(i as int)),
        decreases v@.len() - i,
    {
        let part = safe_str(v[i].as_str());
        if i > 0 {
            push_char(&mut inner, ',');
        }
        inner.append(part.as_str());
        proof {
            let t = items.take(i + 1);
            assert(t.drop_last() =~= items.take(i as int));
            assert(t.last() == items[i as int]);
            assert(inner@ =~= join_commas(t));
        }
        i = i + 1;
    }
    assert(items.take(v@.len() as int) =~= items);
    let mut s = String::new();
    push_char(&mut s, '[');
    s.append(inner.as_str());
    push_char(&mut s, ']');
    assert(s@ =~= json_strs(v@));
    s
}

pub fn safe_attribute(a: &ASTAttribute) -> (s: String)
    ensures
        s@ == json_attribute(*a),
{
    let mut s = String::new();
    s.append("{\"name\":");
    s.append(safe_str(a.name.as_str()).as_str());
    s.append(",\"parameters\":");
    s.append(safe_strings(&a.parameters).as_str());
    s.append(",\"range\":");
    s.append(safe_range(&a.range).as_str());
    s.append("}");
    assert(s@ =~= json_attribute(*a));
    s
}

pub fn safe_attributes(v: &Vec<ASTAttribute>) -> (s: String)
    ensures
        s@ == json_attributes(v@),
{
    let ghost items = v@.map_values(|x: ASTAttribute| json_attribute(x));
    let mut inner = String::new();
    let mut i: usize = 0;
    while i < v.len()
        invariant
            0 <= i <= v@.len(),
            items == v@.map_values(|x: ASTAttribute| json_attribute(x)),
            inner@ == join_commas(items.take(i as int)),
        decreases v@.len() - i,
    {
        let part = safe_attribute(&v[i]);
        if i > 0 {
            push_char(&mut inner, ',');
        }
        inner.append(part.as_str());
        proof {
            let t = items.take(i + 1);
            assert(t.drop_last() =~= items.take(i as int));
            assert(t.last() == items[i as int]);
            assert(inner@ =~= join_commas(t));
        }
        i = i + 1;
    }
    assert(items.take(v@.len() as int) =~= items);
    let mut s = String::new();
    push_char(&mut s, '[');
    s.append(inner.as_str());
    push_char(&mut s, ']');
    assert(s@ =~= json_attributes(v@));
    s
}

/// An optional string as JSON: `null` where there is none.
pub fn safe_opt_str(o: &Option<String>) -> (s: String)
    ensures
        s@ == (match o {
            Some(x) => json_str(x@),
            None => "null"@,
        }),
{
    match o {
        Some(x) => safe_str(x.as_str()),
        None => String::from_str("null"),
    }
}

impl JSONSafeCompilable for String {
    open spec fn json_text(&self) -> Seq<char> {
        json_str(self@)
    }

    fn safe_compile(&self) -> (s: String) {
        safe_str(self.as_str())
    }
}

impl JSONSafeCompilable for Range<usize> {
    open spec fn json_text(&self) -> Seq<char> {
        json_range(*self)
    }

    fn safe_compile(&self) -> (s: String) {
        safe_range(self)
    }
}

impl JSONSafeCompilable for ASTAttribute {
    open spec fn json_text(&self) -> Seq<char> {
        json_attribute(*self)
    }

    fn safe_compile(&self) -> (s: String) {
        safe_attribute(self)
    }
}

impl JSONSafeCompilable for Vec<String> {
    open spec fn json_text(&self) -> Seq<char> {
        json_strs(self@)
    }

    fn safe_compile(&self) -> (s: String) {
        safe_strings(self)
    }
}

impl JSONSafeCompilable for Vec<ASTAttribute> {
    open spec fn json_text(&self) -> Seq<char> {
        json_attributes(self@)
    }

    fn safe_compile(&self) -> (s: String) {
        safe_attributes(self)
    }
}

impl JSONSafeCompilable for Option<String> {
    open spec fn json_text(&self) -> Seq<char> {
        match self {
            Some(x) => json_str(x@),
            None => "null"@,
        }
    }

    fn safe_compile(&self) -> (s: String) {
        safe_opt_str(self)
    }
}


// ---------------------------------------------------------------- story nodes

/// Exact JSON of a code block.
pub open spec fn json_code_block(c: ASTCodeBlock) -> Seq<char> {
    "{\"kind\":1,\"code\":"@ + json_str(c.text@) + ",\"language\":"@ + json_str(c.language@) + ",\"range\":"@
        + json_range(c.range) + ",\"attributes\":"@ + json_attributes(c.attributes@) + "}"@
}

/// The JSON of a code block carries its text under `code` and its language
/// under `language`: it starts with `{"kind":1,"code":`, the text as a JSON
/// string, `,"language":`, and the language as a JSON string.
pub proof fn law_code_block_fields(c: ASTCodeBlock)
    ensures
        ({
            let head = "{\"kind\":1,\"code\":"@;
            let mid = ",\"language\":"@;
            let j = json_code_block(c);
            let t = json_str(c.text@);
            let l = json_str(c.language@);
            let a = head.len() as int;
            let b = a + t.len();
            let m = b + mid.len();
            let e = m + l.len();
            &&& j.len() >= e
            &&& j.subrange(0, a) == head
            &&& j.subrange(a, b) == t
            &&& j.subrange(b, m) == mid
            &&& j.subrange(m, e) == l
        }),
{
    let head = "{\"kind\":1,\"code\":"@;
    let mid = ",\"language\":"@;
    let t = json_str(c.text@);
    let l = json_str(c.language@);
    let rest = ",\"range\":"@ + json_range(c.range) + ",\"attributes\":"@ + json_attributes(c.attributes@) + "}"@;
    let j = json_code_block(c);
    let a = head.len() as int;
    let b = a + t.len();
    let m = b + mid.len();
    let e = m + l.len();
    assert(j =~= head + t + mid + l + rest);
    assert(j.subrange(0, a) =~= head);
    assert(j.subrange(a, b) =~= t);
    assert(j.subrange(b, m) =~= mid);
    assert(j.subrange(m, e) =~= l);
}

/// Exact JSON of a divert.
pub open spec fn json_divert(d: ASTDivert) -> Seq<char> {
    "{\"kind\":3,\"path\":"@ + json_strs(d.path@) + ",\"range\":"@ + json_range(d.range) + ",\"attributes\":"@
        + json_attributes(d.attributes@) + "}"@
}

/// Every string of an array is written, as a JSON string and in order: no
/// string gives `[]`, one string gives it alone in brackets, and one more
/// string at the end adds `,` and that string before the closing bracket.
pub proof fn law_json_strs_items(v: Seq<String>, x: String)
    ensures
        json_strs(seq![]) == seq!['[', ']'],
        json_strs(seq![x]) == seq!['['] + json_str(x@) + seq![']'],
        v.len() > 0 ==> json_strs(v.push(x)) == json_strs(v).drop_last() + seq![','] + json_str(x@) + seq![']'],
{
    assert(Seq::<String>::empty().map_values(|s: String| json_str(s@)) =~= Seq::<Seq<char>>::empty());
    assert(seq![x].map_values(|s: String| json_str(s@)) =~= seq![json_str(x@)]);
    assert(seq!['['] + Seq::<char>::empty() + seq![']'] =~= seq!['[', ']']);
    if v.len() > 0 {
        let items = v.push(x).map_values(|s: String| json_str(s@));
        let before = v.map_values(|s: String| json_str(s@));
        assert(items.drop_last() =~= before);
        assert(items.last() == json_str(x@));
        let jb = join_commas(before);
        assert((seq!['['] + jb + seq![']']).drop_last() =~= seq!['['] + jb);
        assert(json_strs(v.push(x)) =~= seq!['['] + jb + seq![','] + json_str(x@) + seq![']']);
    }
}

/// The JSON of a divert carries its whole path under `path`: it starts with
/// `{"kind":3,"path":` and the path's names as a JSON array of strings.
pub proof fn law_divert_json_path(d: ASTDivert)
    ensures
        ({
            let head = "{\"kind\":3,\"path\":"@;
            let j = json_divert(d);
            let p = json_strs(d.path@);
            &&& j.len() >= head.len() + p.len()
            &&& j.subrange(0, head.len() as int) == head
            &&& j.subrange(head.len() as int, (head.len() + p.len()) as int) == p
        }),
{
    let head = "{\"kind\":3,\"path\":"@;
    let p = json_strs(d.path@);
    let rest = ",\"range\":"@ + json_range(d.range) + ",\"attributes\":"@ + json_attributes(d.attributes@) + "}"@;
    let j = json_divert(d);
    assert(j =~= head + p + rest);
    assert(j.subrange(0, head.len() as int) =~= head);
    assert(j.subrange(head.len() as int, (head.len() + p.len()) as int) =~= p);
}

/// The condition of a choice keeps its modifier under `modifier` and its text
/// under `text`, in that order, inside the JSON string it is written as.
pub proof fn law_condition_fields(m: String, t: String)
    ensures
        ({
            let head = "{\"modifier\":"@;
            let mid = ",\"text\":"@;
            let jm = json_str(m@);
            let jt = json_str(t@);
            json_condition(Some((m, t))) == json_str(head + jm + mid + jt + "}"@)
        }),
        json_condition(None) == "null"@,
{
}

/// Writes a node of a story as JSON; compiling inline javascript may fail
/// with its diagnostics.
pub trait JSONCompilable {
    /// What compiling gives: the JSON text or the diagnostics, where `prefix`
    /// is what identifiers of inline javascript are prefixed with.
    spec fn json_result(&self, prefix: Option<Seq<char>>) -> Result<Seq<char>, Seq<DiagView>>;

    fn compile(&self, ctx: &mut JSONCompilerContext, file_id: BlobId) -> (r: Result<String, Vec<Diagnostic>>)
        ensures
            result_view(r) == self.json_result(opt_view(old(ctx).prefix_js_idents)),
            final(ctx).prefix_js_idents == old(ctx).prefix_js_idents,
    ;
}

/// `kind`, `code`, `language`, `range` and `attributes` of a code block.
pub fn compile_code_block(c: &ASTCodeBlock) -> (s: String)
    ensures
        s@ == json_code_block(*c),
{
    let mut s = String::new();
    s.append("{\"kind\":1,\"code\":");
    s.append(safe_str(c.text.as_str()).as_str());
    s.append(",\"language\":");
    s.append(safe_str(c.language.as_str()).as_str());
    s.append(",\"range\":");
    s.append(safe_range(&c.range).as_str());
    s.append(",\"attributes\":");
    s.append(safe_attributes(&c.attributes).as_str());
    s.append("}");
    assert(s@ =~= json_code_block(*c));
    s
}

/// `kind`, `path`, `range` and `attributes` of a divert.
pub fn compile_divert(d: &ASTDivert) -> (s: String)
    ensures
        s@ == json_divert(*d),
{
    let mut s = String::new();
    s.append("{\"kind\":3,\"path\":");
    s.append(safe_strings(&d.path).as_str());
    s.append(",\"range\":");
    s.append(safe_range(&d.range).as_str());
    s.append(",\"attributes\":");
    s.append(safe_attributes(&d.attributes).as_str());
    s.append("}");
    assert(s@ =~= json_divert(*d));
    s
}


// ---------------------------------------------------------------- what a story compiles to

/// What compiling gives, as plain values: the JSON text, or the diagnostics.
pub open spec fn result_view(r: Result<String, Vec<Diagnostic>>) -> Result<Seq<char>, Seq<DiagView>> {
    match r {
        Ok(s) => Ok(s@),
        Err(e) => Err(diag_views(e@)),
    }
}

/// `a + b`, at most the largest `usize`.
pub open spec fn sat_add(a: int, b: int) -> int {
    if a + b <= usize::MAX { a + b } else { usize::MAX as int }
}

/// `a - b`, at least zero.
pub open spec fn sat_sub(a: int, b: int) -> int {
    if a >= b { a - b } else { 0 }
}

/// A diagnostic of inline javascript that starts at `start`, moved into the
/// text: past the opening brace, its end before the closing one.
pub open spec fn shifted_diag(x: DiagView, start: int) -> DiagView {
    (
        Range { start: sat_add(sat_add(start, x.0.start as int), 1) as usize, end: sat_sub(sat_add(start, x.0.end as int), 1) as usize },
        x.1,
        x.2,
    )
}

pub open spec fn shifted_diags(v: Seq<DiagView>, start: int) -> Seq<DiagView> {
    Seq::new(v.len(), |i: int| shifted_diag(v[i], start))
}

/// A text object around compiled parts.
pub open spec fn json_text_of(parts: Seq<char>, t: ASTText) -> Seq<char> {
    "{\"parts\":"@ + parts + ",\"tail\":"@ + json_str(t.tail@) + ",\"range\":"@ + json_range(t.range) + "}"@
}

/// An inline element with text, after `head` that gives its kind, around its compiled text.
pub open spec fn json_marked(head: Seq<char>, text: Seq<char>, t: ASTText) -> Seq<char> {
    head + text + ",\"range\":"@ + json_range(t.range) + "}"@
}

/// A compiled text part.
pub open spec fn part_item(p: TextPart, x: Seq<char>) -> Seq<char> {
    "{\"before\":"@ + json_str(p.before@) + ",\"text\":"@ + x + "}"@
}

/// A compiled arm of a match, with its rebuilt code and compiled children.
pub open spec fn arm_item(c: ASTChoice, code: Seq<char>, children: Seq<char>) -> Seq<char> {
    "{\"text\":\""@ + code + "\",\"children\":"@ + children + ",\"range\":"@ + json_range(c.range) + ",\"attributes\":"@
        + json_attributes(c.attributes@) + "}"@
}

/// A compiled path under its canonical title.
pub open spec fn path_item(h: ASTHeader, x: Seq<char>) -> Seq<char> {
    seq!['"'] + spec_canonicalize(h.title.text@) + "\": "@ + x
}

/// Inline elements: bold `0`, italics `1`, underline `2`, code `3` with
/// their text; join `4`; javascript `5` as the rebuilt code, or the
/// diagnostics of parsing it, moved into the text.
pub open spec fn jv_inline(i: ASTInline, px: Option<Seq<char>>) -> Result<Seq<char>, Seq<DiagView>>
    decreases i, 0int,
{
    match i.kind {
        ASTInlineKind::Bold(t) => match jv_text(t, px) {
            Ok(x) => Ok(json_marked("{\"kind\":0,\"text\":"@, x, t)),
            Err(e) => Err(e),
        },
        ASTInlineKind::Italics(t) => match jv_text(t, px) {
            Ok(x) => Ok(json_marked("{\"kind\":1,\"text\":"@, x, t)),
            Err(e) => Err(e),
        },
        ASTInlineKind::Underline(t) => match jv_text(t, px) {
            Ok(x) => Ok(json_marked("{\"kind\":2,\"text\":"@, x, t)),
            Err(e) => Err(e),
        },
        ASTInlineKind::Code(t) => match jv_text(t, px) {
            Ok(x) => Ok(json_marked("{\"kind\":3,\"text\":"@, x, t)),
            Err(e) => Err(e),
        },
        ASTInlineKind::Join => Ok("{\"kind\":4,\"range\":"@ + json_range(i.range) + "}"@),
        ASTInlineKind::Javascript(code) => {
            let d = encode_utf8(code@);
            let p = parsed_js(d);
            if p.1.len() > 0 {
                Err(shifted_diags(p.1, i.range.start as int))
            } else {
                Ok("{\"kind\":5,\"text\":\""@ + rebuilt_program(p.0, d, px) + "\",\"range\":"@ + json_range(i.range) + "}"@)
            }
        },
    }
}

/// The compiled text parts: the plain text before each inline element and the element.
pub open spec fn jv_part_items(parts: Seq<TextPart>, px: Option<Seq<char>>) -> Result<Seq<Seq<char>>, Seq<DiagView>>
    decreases parts, 1int,
{
    if parts.len() == 0 {
        Ok(seq![])
    } else {
        match jv_part_items(parts.drop_last(), px) {
            Err(e) => Err(e),
            Ok(v) => match jv_inline(parts[parts.len() - 1].text, px) {
                Err(e) => Err(e),
                Ok(x) => Ok(v.push(part_item(parts[parts.len() - 1], x))),
            },
        }
    }
}

/// Text parts as a JSON array.
pub open spec fn jv_parts(parts: Seq<TextPart>, px: Option<Seq<char>>) -> Result<Seq<char>, Seq<DiagView>>
    decreases parts, 2int,
{
    match jv_part_items(parts, px) {
        Ok(v) => Ok(seq!['['] + join_commas(v) + seq![']']),
        Err(e) => Err(e),
    }
}

/// `parts`, `tail` and `range` of a text.
pub open spec fn jv_text(t: ASTText, px: Option<Seq<char>>) -> Result<Seq<char>, Seq<DiagView>>
    decreases t, 3int,
{
    match jv_parts(t.parts@, px) {
        Ok(x) => Ok(json_text_of(x, t)),
        Err(e) => Err(e),
    }
}

/// Paragraphs are of kind `0`.
pub open spec fn jv_paragraph(p: ASTParagraph, px: Option<Seq<char>>) -> Result<Seq<char>, Seq<DiagView>>
    decreases p, 3int,
{
    match jv_parts(p.parts@, px) {
        Ok(x) => Ok("{\"kind\":0,\"parts\":"@ + x + ",\"tail\":"@ + json_str(p.tail@) + ",\"range\":"@ + json_range(p.range)
            + ",\"attributes\":"@ + json_attributes(p.attributes@) + "}"@),
        Err(e) => Err(e),
    }
}

/// The condition of a choice: an object as a JSON string, or `null`.
pub open spec fn json_condition(c: Option<(String, String)>) -> Seq<char> {
    match c {
        Some(p) => json_str("{\"modifier\":"@ + json_str(p.0@) + ",\"text\":"@ + json_str(p.1@) + "}"@),
        None => "null"@,
    }
}

/// A choice: its text, children, range, attributes and condition.
pub open spec fn jv_choice(c: ASTChoice, px: Option<Seq<char>>) -> Result<Seq<char>, Seq<DiagView>>
    decreases c, 4int,
{
    match jv_text(c.text, px) {
        Err(e) => Err(e),
        Ok(t) => match jv_blocks(c.children@, px) {
            Err(e) => Err(e),
            Ok(b) => Ok("{\"text\":"@ + t + ",\"children\":"@ + b + ",\"range\":"@ + json_range(c.range) + ",\"attributes\":"@
                + json_attributes(c.attributes@) + ",\"condition\":"@ + json_condition(c.condition) + "}"@),
        },
    }
}

pub open spec fn jv_choice_items(v: Seq<ASTChoice>, px: Option<Seq<char>>) -> Result<Seq<Seq<char>>, Seq<DiagView>>
    decreases v, 5int,
{
    if v.len() == 0 {
        Ok(seq![])
    } else {
        match jv_choice_items(v.drop_last(), px) {
            Err(e) => Err(e),
            Ok(items) => match jv_choice(v[v.len() - 1], px) {
                Err(e) => Err(e),
                Ok(x) => Ok(items.push(x)),
            },
        }
    }
}

/// Choice groups are of kind `2`.
pub open spec fn jv_choice_group(g: ASTChoiceGroup, px: Option<Seq<char>>) -> Result<Seq<char>, Seq<DiagView>>
    decreases g, 6int,
{
    match jv_choice_items(g.choices@, px) {
        Err(e) => Err(e),
        Ok(items) => Ok("{\"kind\":2,\"choices\":"@ + seq!['['] + join_commas(items) + seq![']'] + ",\"range\":"@
            + json_range(g.range) + ",\"attributes\":"@ + json_attributes(g.attributes@) + "}"@),
    }
}

/// The javascript an arm of a match tests: the raw text of its first inline element.
pub open spec fn arm_code(c: ASTChoice) -> Seq<char> {
    if c.text.parts@.len() > 0 {
        inline_kind_raw(c.text.parts@[0].text.kind)
    } else {
        seq![]
    }
}

/// An arm of a match: its rebuilt code, children, range and attributes.
pub open spec fn jv_arm(c: ASTChoice, px: Option<Seq<char>>) -> Result<Seq<char>, Seq<DiagView>>
    decreases c, 4int,
{
    match spec_transform(encode_utf8(arm_code(c)), px) {
        Err(e) => Err(e),
        Ok(code) => match jv_blocks(c.children@, px) {
            Err(e) => Err(e),
            Ok(b) => Ok(arm_item(c, code, b)),
        },
    }
}

/// The arms of a match.
pub open spec fn jv_arm_items(v: Seq<ASTChoice>, px: Option<Seq<char>>) -> Result<Seq<Seq<char>>, Seq<DiagView>>
    decreases v, 5int,
{
    if v.len() == 0 {
        Ok(seq![])
    } else {
        match jv_arm_items(v.drop_last(), px) {
            Err(e) => Err(e),
            Ok(items) => match jv_arm(v[v.len() - 1], px) {
                Err(e) => Err(e),
                Ok(x) => Ok(items.push(x)),
            },
        }
    }
}

/// Matches are of kind `4`: the condition and the arms as rebuilt javascript.
pub open spec fn jv_match(m: ASTMatch, px: Option<Seq<char>>) -> Result<Seq<char>, Seq<DiagView>>
    decreases m, 6int,
{
    match jv_arm_items(m.choices@, px) {
        Err(e) => Err(e),
        Ok(items) => match spec_transform(encode_utf8(m.matched@), px) {
            Err(e) => Err(e),
            Ok(cond) => Ok("{\"kind\":4,\"condition\":\""@ + cond + "\",\"modifier\":"@ + (match m.kind {
                Some(x) => json_str(x@),
                None => "null"@,
            }) + ",\"arms\":"@ + seq!['['] + join_commas(items) + seq![']'] + "}"@),
        },
    }
}

/// The paths among the children, each its canonical title and the path compiled.
pub open spec fn jv_path_items(v: Seq<ASTBlock>, px: Option<Seq<char>>) -> Result<Seq<Seq<char>>, Seq<DiagView>>
    decreases v, 5int,
{
    if v.len() == 0 {
        Ok(seq![])
    } else {
        match jv_path_items(v.drop_last(), px) {
            Err(e) => Err(e),
            Ok(items) => match v[v.len() - 1] {
                ASTBlock::Header(h) => match jv_header(h, px) {
                    Err(e) => Err(e),
                    Ok(x) => Ok(items.push(path_item(h, x))),
                },
                _ => Ok(items),
            },
        }
    }
}

/// The children that are no paths, compiled.
pub open spec fn jv_other_items(v: Seq<ASTBlock>, px: Option<Seq<char>>) -> Result<Seq<Seq<char>>, Seq<DiagView>>
    decreases v, 8int,
{
    if v.len() == 0 {
        Ok(seq![])
    } else {
        match jv_other_items(v.drop_last(), px) {
            Err(e) => Err(e),
            Ok(items) => match v[v.len() - 1] {
                ASTBlock::Header(_) => Ok(items),
                _ => match jv_block(v[v.len() - 1], px) {
                    Err(e) => Err(e),
                    Ok(x) => Ok(items.push(x)),
                },
            },
        }
    }
}

/// A path: its title, canonical title, the paths under it by canonical
/// title, its range, and its other children.
pub open spec fn jv_header(h: ASTHeader, px: Option<Seq<char>>) -> Result<Seq<char>, Seq<DiagView>>
    decreases h, 6int,
{
    match jv_path_items(h.children@, px) {
        Err(e) => Err(e),
        Ok(paths) => match jv_other_items(h.children@, px) {
            Err(e) => Err(e),
            Ok(others) => Ok("{\"title\":"@ + json_str(h.title.text@) + ",\"canonicalTitle\":"@ + json_str(
                spec_canonicalize(h.title.text@),
            ) + ",\"childPaths\":{"@ + join_commas(paths) + "},\"range\":"@ + json_range(h.range) + ",\"children\":"@
                + seq!['['] + join_commas(others) + seq![']'] + "}"@),
        },
    }
}

/// What compiling an inline element does to the gathered variables: a join
/// leaves them as they are, and so does javascript that does not parse; the
/// assignments of javascript that parses are stored as `file_id`'s.
pub open spec fn js_gathered(
    i: ASTInline,
    file_id: BlobId,
    before: Seq<(String, Variable)>,
    after: Seq<(String, Variable)>,
) -> bool {
    match i.kind {
        ASTInlineKind::Join => after == before,
        ASTInlineKind::Javascript(code) => {
            let d = encode_utf8(code@);
            let p = parsed_js(d);
            if p.1.len() > 0 {
                after == before
            } else {
                exists|store: AssignmentStore|
                    #![trigger store_view(store)]
                    store_view(store) == vc_run(
                        Map::new(|k: Seq<char>| true, |k: Seq<char>| Seq::<(KindView, Range<usize>)>::empty()),
                        p.0,
                        p.0.len() as int,
                        d,
                        Range { start: sat_add(i.range.start as int, 1) as usize, end: sat_sub(i.range.end as int, 1) as usize },
                    ) && stored_from(before, after, file_id, store.0@)
            }
        },
        _ => true,
    }
}

/// A block, by its kind.
pub open spec fn jv_block(b: ASTBlock, px: Option<Seq<char>>) -> Result<Seq<char>, Seq<DiagView>>
    decreases b, 7int,
{
    match b {
        ASTBlock::Header(h) => jv_header(h, px),
        ASTBlock::Paragraph(p) => jv_paragraph(p, px),
        ASTBlock::CodeBlock(c) => Ok(json_code_block(c)),
        ASTBlock::ChoiceGroup(g) => jv_choice_group(g, px),
        ASTBlock::Divert(d) => Ok(json_divert(d)),
        ASTBlock::Match(m) => jv_match(m, px),
    }
}

pub open spec fn jv_block_items(v: Seq<ASTBlock>, px: Option<Seq<char>>) -> Result<Seq<Seq<char>>, Seq<DiagView>>
    decreases v, 8int,
{
    if v.len() == 0 {
        Ok(seq![])
    } else {
        match jv_block_items(v.drop_last(), px) {
            Err(e) => Err(e),
            Ok(items) => match jv_block(v[v.len() - 1], px) {
                Err(e) => Err(e),
                Ok(x) => Ok(items.push(x)),
            },
        }
    }
}

/// Blocks as a JSON array.
pub open spec fn jv_blocks(v: Seq<ASTBlock>, px: Option<Seq<char>>) -> Result<Seq<char>, Seq<DiagView>>
    decreases v, 9int,
{
    match jv_block_items(v, px) {
        Err(e) => Err(e),
        Ok(items) => Ok(seq!['['] + join_commas(items) + seq![']']),
    }
}

/// A copy of the name prefix.
fn copy_prefix(o: &Option<String>) -> (r: Option<String>)
    ensures
        opt_view(r) == opt_view(*o),
{
    match o {
        Some(s) => Some(s.clone()),
        None => None,
    }
}

/// Moves the ranges of javascript diagnostics into the text: past the
/// opening brace of the inline element, the end before its closing one.
fn shift_diagnostics(diagnostics: &Vec<Diagnostic>, start: usize) -> (r: Vec<Diagnostic>)
    ensures
        r@.len() == diagnostics@.len(),
        forall|i: int| 0 <= i < r@.len() ==> (#[trigger] r@[i]).msg@ == diagnostics@[i].msg@,
        diag_views(r@) == shifted_diags(diag_views(diagnostics@), start as int),
{
    let mut out: Vec<Diagnostic> = Vec::new();
    let mut i: usize = 0;
    while i < diagnostics.len()
        invariant
            0 <= i <= diagnostics@.len(),
            out@.len() == i,
            forall|j: int| 0 <= j < i ==> (#[trigger] out@[j]).msg@ == diagnostics@[j].msg@,
            forall|j: int| 0 <= j < i ==> #[trigger] diag_view(out@[j]) == shifted_diag(diag_view(diagnostics@[j]), start as int),
        decreases diagnostics@.len() - i,
    {
        let d = &diagnostics[i];
        let range = Range::new(
            start.saturating_add(d.range.start).saturating_add(1),
            start.saturating_add(d.range.end).saturating_sub(1),
        );
        let v = match d.variant {
            DiagnosticVariants::Suggestion => DiagnosticVariants::Suggestion,
            DiagnosticVariants::Warning => DiagnosticVariants::Warning,
            DiagnosticVariants::Error => DiagnosticVariants::Error,
        };
        out.push(Diagnostic { msg: d.msg.clone(), variant: v, range });
        proof {
            assert(diag_view(out@[i as int]) == shifted_diag(diag_view(diagnostics@[i as int]), start as int));
        }
        i = i + 1;
    }
    proof {
        lemma_diag_views_len(out@);
        lemma_diag_views_len(diagnostics@);
        assert(diag_views(out@) =~= shifted_diags(diag_views(diagnostics@), start as int));
    }
    out
}

/// An inline element with text: `head`, which gives its kind, then its
/// compiled text and its range.
fn compile_marked(head: &str, text: &ASTText, ctx: &mut JSONCompilerContext, file_id: BlobId) -> (r: Result<String, Vec<Diagnostic>>)
    ensures
        r matches Err(d) ==> d@.len() > 0,
        final(ctx).prefix_js_idents == old(ctx).prefix_js_idents,
        result_view(r) == match jv_text(*text, opt_view(old(ctx).prefix_js_idents)) {
            Ok(x) => Ok(json_marked(head@, x, *text)),
            Err(e) => Err(e),
        },
    decreases text, 4int,
{
    let t = match compile_text(text, ctx, file_id) {
        Ok(t) => t,
        Err(e) => { return Err(e); },
    };
    let mut s = String::new();
    s.append(head);
    s.append(t.as_str());
    s.append(",\"range\":");
    s.append(safe_range(&text.range).as_str());
    s.append("}");
    proof {
        assert(s@ =~= json_marked(head@, t@, *text));
    }
    Ok(s)
}

/// Inline javascript: rebuilt, after its assignments were gathered into the
/// context; or the diagnostics of parsing it, moved into the text.
fn compile_javascript(inline: &ASTInline, code: &String, ctx: &mut JSONCompilerContext, file_id: BlobId) -> (r: Result<String, Vec<Diagnostic>>)
    requires
        inline.kind == ASTInlineKind::Javascript(*code),
    ensures
        r matches Err(d) ==> d@.len() > 0,
        final(ctx).prefix_js_idents == old(ctx).prefix_js_idents,
        result_view(r) == jv_inline(*inline, opt_view(old(ctx).prefix_js_idents)),
        js_gathered(*inline, file_id, old(ctx).variables.0@, final(ctx).variables.0@),
{
    let (expressions, diagnostics, input) = JsParser::parse(code.as_str());
    proof {
        lemma_diag_views_len(diagnostics@);
    }
    if diagnostics.len() > 0 {
        return Err(shift_diagnostics(&diagnostics, inline.range.start));
    }
    let start_pos = Range::new(inline.range.start.saturating_add(1), inline.range.end.saturating_sub(1));
    let (store, input) = VariableCollector::run(input, start_pos, &expressions);
    let ghost st = store;
    ctx.variables.insert(file_id, store);
    proof {
        lemma_expr_views(expressions@);
        assert(start_pos == Range { start: sat_add(inline.range.start as int, 1) as usize, end: sat_sub(inline.range.end as int, 1) as usize });
        assert(store_view(st) == vc_run(
            Map::new(|k: Seq<char>| true, |k: Seq<char>| Seq::<(KindView, Range<usize>)>::empty()),
            parsed_js(encode_utf8(code@)).0,
            parsed_js(encode_utf8(code@)).0.len() as int,
            encode_utf8(code@),
            Range { start: sat_add(inline.range.start as int, 1) as usize, end: sat_sub(inline.range.end as int, 1) as usize },
        ));
    }
    let rebuilt_code = Rebuilder::run(input, expressions.as_slice(), copy_prefix(&ctx.prefix_js_idents));
    let mut s = String::new();
    s.append("{\"kind\":5,\"text\":\"");
    s.append(rebuilt_code.as_str());
    s.append("\",\"range\":");
    s.append(safe_range(&inline.range).as_str());
    s.append("}");
    proof {
        assert(s@ =~= jv_inline(*inline, opt_view(old(ctx).prefix_js_idents))->Ok_0);
    }
    Ok(s)
}

/// Inline elements: bold `0`, italics `1`, underline `2`, code `3` with
/// their text; join `4`; javascript `5`, rebuilt, after its assignments were
/// gathered into the context.
pub fn compile_inline(inline: &ASTInline, ctx: &mut JSONCompilerContext, file_id: BlobId) -> (r: Result<String, Vec<Diagnostic>>)
    ensures
        r matches Err(d) ==> d@.len() > 0,
        final(ctx).prefix_js_idents == old(ctx).prefix_js_idents,
        result_view(r) == jv_inline(*inline, opt_view(old(ctx).prefix_js_idents)),
        js_gathered(*inline, file_id, old(ctx).variables.0@, final(ctx).variables.0@),
    decreases inline, 0int,
{
    match &inline.kind {
        ASTInlineKind::Bold(text) => compile_marked("{\"kind\":0,\"text\":", text, ctx, file_id),
        ASTInlineKind::Italics(text) => compile_marked("{\"kind\":1,\"text\":", text, ctx, file_id),
        ASTInlineKind::Underline(text) => compile_marked("{\"kind\":2,\"text\":", text, ctx, file_id),
        ASTInlineKind::Code(text) => compile_marked("{\"kind\":3,\"text\":", text, ctx, file_id),
        ASTInlineKind::Join => {
            let mut s = String::new();
            s.append("{\"kind\":4,\"range\":");
            s.append(safe_range(&inline.range).as_str());
            s.append("}");
            Ok(s)
        },
        ASTInlineKind::Javascript(code) => compile_javascript(inline, code, ctx, file_id),
    }
}

/// `parts`, `tail` and `range` of a text.
pub fn compile_text(text: &ASTText, ctx: &mut JSONCompilerContext, file_id: BlobId) -> (r: Result<String, Vec<Diagnostic>>)
    ensures
        r matches Err(d) ==> d@.len() > 0,
        final(ctx).prefix_js_idents == old(ctx).prefix_js_idents,
        result_view(r) == jv_text(*text, opt_view(old(ctx).prefix_js_idents)),
    decreases text, 3int,
{
    let parts = match compile_parts(&text.parts, ctx, file_id) {
        Ok(p) => p,
        Err(e) => { return Err(e); },
    };
    let mut s = String::new();
    s.append("{\"parts\":");
    s.append(parts.as_str());
    s.append(",\"tail\":");
    s.append(safe_str(text.tail.as_str()).as_str());
    s.append(",\"range\":");
    s.append(safe_range(&text.range).as_str());
    s.append("}");
    proof {
        assert(s@ =~= json_text_of(parts@, *text));
    }
    Ok(s)
}

/// Text parts: the plain text `before` and the inline element after it.
#[verifier::spinoff_prover]
#[verifier::rlimit(100)]
pub fn compile_parts(parts: &Vec<TextPart>, ctx: &mut JSONCompilerContext, file_id: BlobId) -> (r: Result<String, Vec<Diagnostic>>)
    ensures
        r matches Err(d) ==> d@.len() > 0,
        final(ctx).prefix_js_idents == old(ctx).prefix_js_idents,
        result_view(r) == jv_parts(parts@, opt_view(old(ctx).prefix_js_idents)),
    decreases parts, 2int,
{
    let ghost px = opt_view(ctx.prefix_js_idents);
    let mut s = String::new();
    push_char(&mut s, '[');
    let mut i: usize = 0;
    let ghost mut items: Seq<Seq<char>> = seq![];
    proof {
        assert(parts@.take(0) =~= Seq::<TextPart>::empty());
    }
    while i < parts.len()
        invariant
            0 <= i <= parts@.len(),
            ctx.prefix_js_idents == old(ctx).prefix_js_idents,
            px == opt_view(old(ctx).prefix_js_idents),
            jv_part_items(parts@.take(i as int), px) == Ok::<Seq<Seq<char>>, Seq<DiagView>>(items),
            s@ == seq!['['] + join_commas(items),
            items.len() == i,
        decreases parts@.len() - i,
    {
        proof {
            assert(decreases_to!(parts => parts@[i as int]));
        }
        let part = &parts[i];
        proof {
            lemma_part_items_step(parts@, i as int, px);
        }
        let x = match compile_inline(&part.text, ctx, file_id) {
            Ok(x) => x,
            Err(e) => {
                proof {
                    lemma_part_items_err(parts@, i + 1, px);
                    assert(parts@.take(parts@.len() as int) =~= parts@);
                }
                return Err(e);
            },
        };
        if i > 0 {
            push_char(&mut s, ',');
        }
        s.append("{\"before\":");
        s.append(safe_str(part.before.as_str()).as_str());
        s.append(",\"text\":");
        s.append(x.as_str());
        s.append("}");
        proof {
            let item = part_item(*part, x@);
            lemma_join_push(items, item);
            items = items.push(item);
            assert(s@ =~= seq!['['] + join_commas(items));
        }
        i = i + 1;
    }
    push_char(&mut s, ']');
    proof {
        assert(parts@.take(parts@.len() as int) =~= parts@);
        assert(jv_part_items(parts@, px) == Ok::<Seq<Seq<char>>, Seq<DiagView>>(items));
        assert(s@ =~= seq!['['] + join_commas(items) + seq![']']);
        assert(jv_parts(parts@, px) == Ok::<Seq<char>, Seq<DiagView>>(seq!['['] + join_commas(items) + seq![']']));
    }
    Ok(s)
}

/// Paragraphs are of kind `0`.
pub fn compile_paragraph(p: &ASTParagraph, ctx: &mut JSONCompilerContext, file_id: BlobId) -> (r: Result<String, Vec<Diagnostic>>)
    ensures
        r matches Err(d) ==> d@.len() > 0,
        final(ctx).prefix_js_idents == old(ctx).prefix_js_idents,
        result_view(r) == jv_paragraph(*p, opt_view(old(ctx).prefix_js_idents)),
    decreases p, 3int,
{
    let parts = match compile_parts(&p.parts, ctx, file_id) {
        Ok(x) => x,
        Err(e) => { return Err(e); },
    };
    let mut s = String::new();
    s.append("{\"kind\":0,\"parts\":");
    s.append(parts.as_str());
    s.append(",\"tail\":");
    s.append(safe_str(p.tail.as_str()).as_str());
    s.append(",\"range\":");
    s.append(safe_range(&p.range).as_str());
    s.append(",\"attributes\":");
    s.append(safe_attributes(&p.attributes).as_str());
    s.append("}");
    proof {
        assert(s@ =~= jv_paragraph(*p, opt_view(old(ctx).prefix_js_idents))->Ok_0);
    }
    Ok(s)
}

/// A choice: its text, children, range, attributes and condition; the
/// condition, itself an object, stands as a string.
#[verifier::spinoff_prover]
#[verifier::rlimit(100)]
pub fn compile_choice(c: &ASTChoice, ctx: &mut JSONCompilerContext, file_id: BlobId) -> (r: Result<String, Vec<Diagnostic>>)
    ensures
        r matches Err(d) ==> d@.len() > 0,
        final(ctx).prefix_js_idents == old(ctx).prefix_js_idents,
        result_view(r) == jv_choice(*c, opt_view(old(ctx).prefix_js_idents)),
    decreases c, 4int,
{
    let text = match compile_text(&c.text, ctx, file_id) {
        Ok(x) => x,
        Err(e) => { return Err(e); },
    };
    let children = match compile_blocks(&c.children, ctx, file_id) {
        Ok(x) => x,
        Err(e) => { return Err(e); },
    };
    let mut s = String::new();
    s.append("{\"text\":");
    s.append(text.as_str());
    s.append(",\"children\":");
    s.append(children.as_str());
    s.append(",\"range\":");
    s.append(safe_range(&c.range).as_str());
    s.append(",\"attributes\":");
    s.append(safe_attributes(&c.attributes).as_str());
    s.append(",\"condition\":");
    match &c.condition {
        Some(cond) => {
            let mut obj = String::new();
            obj.append("{\"modifier\":");
            obj.append(safe_str(cond.0.as_str()).as_str());
            obj.append(",\"text\":");
            obj.append(safe_str(cond.1.as_str()).as_str());
            obj.append("}");
            s.append(safe_str(obj.as_str()).as_str());
            proof {
                assert(obj@ =~= "{\"modifier\":"@ + json_str(cond.0@) + ",\"text\":"@ + json_str(cond.1@) + "}"@);
            }
        },
        None => {
            s.append("null");
        },
    }
    s.append("}");
    proof {
        assert(s@ =~= jv_choice(*c, opt_view(old(ctx).prefix_js_idents))->Ok_0);
    }
    Ok(s)
}

/// Choice groups are of kind `2`.
#[verifier::spinoff_prover]
#[verifier::rlimit(100)]
pub fn compile_choice_group(g: &ASTChoiceGroup, ctx: &mut JSONCompilerContext, file_id: BlobId) -> (r: Result<String, Vec<Diagnostic>>)
    ensures
        r matches Err(d) ==> d@.len() > 0,
        final(ctx).prefix_js_idents == old(ctx).prefix_js_idents,
        result_view(r) == jv_choice_group(*g, opt_view(old(ctx).prefix_js_idents)),
    decreases g, 6int,
{
    let choices = match compile_choices(&g.choices, ctx, file_id) {
        Ok(x) => x,
        Err(e) => { return Err(e); },
    };
    let mut s = String::new();
    s.append("{\"kind\":2,\"choices\":");
    s.append(choices.as_str());
    s.append(",\"range\":");
    s.append(safe_range(&g.range).as_str());
    s.append(",\"attributes\":");
    s.append(safe_attributes(&g.attributes).as_str());
    s.append("}");
    proof {
        assert(s@ =~= jv_choice_group(*g, opt_view(old(ctx).prefix_js_idents))->Ok_0);
    }
    Ok(s)
}

#[verifier::spinoff_prover]
#[verifier::rlimit(100)]
pub fn compile_choices(v: &Vec<ASTChoice>, ctx: &mut JSONCompilerContext, file_id: BlobId) -> (r: Result<String, Vec<Diagnostic>>)
    ensures
        r matches Err(d) ==> d@.len() > 0,
        final(ctx).prefix_js_idents == old(ctx).prefix_js_idents,
        result_view(r) == match jv_choice_items(v@, opt_view(old(ctx).prefix_js_idents)) {
            Ok(items) => Ok(seq!['['] + join_commas(items) + seq![']']),
            Err(e) => Err(e),
        },
    decreases v, 5int,
{
    let ghost px = opt_view(ctx.prefix_js_idents);
    let mut s = String::new();
    push_char(&mut s, '[');
    let mut i: usize = 0;
    let ghost mut items: Seq<Seq<char>> = seq![];
    proof {
        assert(v@.take(0) =~= Seq::<ASTChoice>::empty());
    }
    while i < v.len()
        invariant
            0 <= i <= v@.len(),
            ctx.prefix_js_idents == old(ctx).prefix_js_idents,
            px == opt_view(old(ctx).prefix_js_idents),
            jv_choice_items(v@.take(i as int), px) == Ok::<Seq<Seq<char>>, Seq<DiagView>>(items),
            s@ == seq!['['] + join_commas(items),
            items.len() == i,
        decreases v@.len() - i,
    {
        proof {
            assert(decreases_to!(v => v@[i as int]));
        }
        proof {
            lemma_choice_items_step(v@, i as int, px);
        }
        let x = match compile_choice(&v[i], ctx, file_id) {
            Ok(x) => x,
            Err(e) => {
                proof {
                    lemma_choice_items_err(v@, i + 1, px);
                    assert(v@.take(v@.len() as int) =~= v@);
                    assert(jv_choice_items(v@, px) == Err::<Seq<Seq<char>>, Seq<DiagView>>(diag_views(e@)));
                }
                return Err(e);
            },
        };
        if i > 0 {
            push_char(&mut s, ',');
        }
        s.append(x.as_str());
        proof {
            lemma_join_push(items, x@);
            items = items.push(x@);
            assert(s@ =~= seq!['['] + join_commas(items));
        }
        i = i + 1;
    }
    push_char(&mut s, ']');
    proof {
        assert(v@.take(v@.len() as int) =~= v@);
        assert(jv_choice_items(v@, px) == Ok::<Seq<Seq<char>>, Seq<DiagView>>(items));
        assert(s@ =~= seq!['['] + join_commas(items) + seq![']']);
    }
    Ok(s)
}

/// An arm of a match: its rebuilt code, children, range and attributes.
#[verifier::spinoff_prover]
#[verifier::rlimit(60)]
fn compile_arm(choice: &ASTChoice, ctx: &mut JSONCompilerContext, file_id: BlobId) -> (r: Result<String, Vec<Diagnostic>>)
    ensures
        r matches Err(d) ==> d@.len() > 0,
        final(ctx).prefix_js_idents == old(ctx).prefix_js_idents,
        result_view(r) == jv_arm(*choice, opt_view(old(ctx).prefix_js_idents)),
    decreases choice, 5int,
{
    proof {
        assert(decreases_to!(choice => choice.children));
    }
    let raw = if choice.text.parts.len() > 0 {
        choice.text.parts[0].text.to_raw()
    } else {
        String::new()
    };
    proof {
        assert(raw@ == arm_code(*choice));
    }
    let code = match transform_js(raw.as_str(), copy_prefix(&ctx.prefix_js_idents)) {
        Ok(x) => x,
        Err(e) => { return Err(e); },
    };
    let children = match compile_blocks(&choice.children, ctx, file_id) {
        Ok(x) => x,
        Err(e) => { return Err(e); },
    };
    let mut item = String::new();
    item.append("{\"text\":\"");
    item.append(code.as_str());
    item.append("\",\"children\":");
    item.append(children.as_str());
    item.append(",\"range\":");
    item.append(safe_range(&choice.range).as_str());
    item.append(",\"attributes\":");
    item.append(safe_attributes(&choice.attributes).as_str());
    item.append("}");
    proof {
        assert(item@ =~= arm_item(*choice, code@, children@));
    }
    Ok(item)
}

/// Matches are of kind `4`: the condition and the arms as rebuilt javascript.
#[verifier::spinoff_prover]
#[verifier::rlimit(100)]
pub fn compile_match(m: &ASTMatch, ctx: &mut JSONCompilerContext, file_id: BlobId) -> (r: Result<String, Vec<Diagnostic>>)
    ensures
        r matches Err(d) ==> d@.len() > 0,
        final(ctx).prefix_js_idents == old(ctx).prefix_js_idents,
        result_view(r) == jv_match(*m, opt_view(old(ctx).prefix_js_idents)),
    decreases m, 6int,
{
    let ghost px = opt_view(ctx.prefix_js_idents);
    let mut arms = String::new();
    push_char(&mut arms, '[');
    let mut i: usize = 0;
    let ghost mut items: Seq<Seq<char>> = seq![];
    proof {
        assert(m.choices@.take(0) =~= Seq::<ASTChoice>::empty());
    }
    while i < m.choices.len()
        invariant
            0 <= i <= m.choices@.len(),
            ctx.prefix_js_idents == old(ctx).prefix_js_idents,
            px == opt_view(old(ctx).prefix_js_idents),
            jv_arm_items(m.choices@.take(i as int), px) == Ok::<Seq<Seq<char>>, Seq<DiagView>>(items),
            arms@ == seq!['['] + join_commas(items),
            items.len() == i,
        decreases m.choices@.len() - i,
    {
        proof {
            assert(decreases_to!(m => m.choices@[i as int]));
            lemma_arm_items_step(m.choices@, i as int, px);
        }
        let x = match compile_arm(&m.choices[i], ctx, file_id) {
            Ok(x) => x,
            Err(e) => {
                proof {
                    lemma_arm_items_err(m.choices@, i + 1, px);
                    assert(m.choices@.take(m.choices@.len() as int) =~= m.choices@);
                    assert(jv_arm_items(m.choices@, px) == Err::<Seq<Seq<char>>, Seq<DiagView>>(diag_views(e@)));
                }
                return Err(e);
            },
        };
        if i > 0 {
            push_char(&mut arms, ',');
        }
        arms.append(x.as_str());
        proof {
            lemma_join_push(items, x@);
            items = items.push(x@);
            assert(arms@ =~= seq!['['] + join_commas(items));
        }
        i = i + 1;
    }
    push_char(&mut arms, ']');
    proof {
        assert(m.choices@.take(m.choices@.len() as int) =~= m.choices@);
        assert(jv_arm_items(m.choices@, px) == Ok::<Seq<Seq<char>>, Seq<DiagView>>(items));
    }
    let condition = match transform_js(m.matched.as_str(), copy_prefix(&ctx.prefix_js_idents)) {
        Ok(x) => x,
        Err(e) => { return Err(e); },
    };
    let mut s = String::new();
    s.append("{\"kind\":4,\"condition\":\"");
    s.append(condition.as_str());
    s.append("\",\"modifier\":");
    s.append(safe_opt_str(&m.kind).as_str());
    s.append(",\"arms\":");
    s.append(arms.as_str());
    s.append("}");
    proof {
        assert(s@ =~= jv_match(*m, px)->Ok_0);
    }
    Ok(s)
}

/// A path: its title, canonical title, the paths under it by canonical
/// title, its range, and its other children.
#[verifier::spinoff_prover]
#[verifier::rlimit(100)]
pub fn compile_header(h: &ASTHeader, ctx: &mut JSONCompilerContext, file_id: BlobId) -> (r: Result<String, Vec<Diagnostic>>)
    ensures
        r matches Err(d) ==> d@.len() > 0,
        final(ctx).prefix_js_idents == old(ctx).prefix_js_idents,
        result_view(r) == jv_header(*h, opt_view(old(ctx).prefix_js_idents)),
    decreases h, 6int,
{
    let ghost px = opt_view(ctx.prefix_js_idents);
    let mut header_children = String::new();
    let mut first = true;
    let mut i: usize = 0;
    let ghost mut items: Seq<Seq<char>> = seq![];
    proof {
        assert(h.children@.take(0) =~= Seq::<ASTBlock>::empty());
    }
    while i < h.children.len()
        invariant
            0 <= i <= h.children@.len(),
            ctx.prefix_js_idents == old(ctx).prefix_js_idents,
            px == opt_view(old(ctx).prefix_js_idents),
            jv_path_items(h.children@.take(i as int), px) == Ok::<Seq<Seq<char>>, Seq<DiagView>>(items),
            header_children@ == join_commas(items),
            first == (items.len() == 0),
        decreases h.children@.len() - i,
    {
        proof {
            assert(decreases_to!(h => h.children@[i as int]));
            lemma_path_items_step(h.children@, i as int, px);
        }
        if let ASTBlock::Header(header) = &h.children[i] {
            let x = match compile_header(header, ctx, file_id) {
                Ok(x) => x,
                Err(e) => {
                    proof {
                        lemma_path_items_err(h.children@, i + 1, px);
                        assert(h.children@.take(h.children@.len() as int) =~= h.children@);
                    }
                    return Err(e);
                },
            };
            if !first {
                push_char(&mut header_children, ',');
            }
            first = false;
            push_char(&mut header_children, '"');
            header_children.append(Path::canonicalize_name(header.title.text.as_str()).as_str());
            header_children.append("\": ");
            header_children.append(x.as_str());
            proof {
                let item = path_item(*header, x@);
                lemma_join_push(items, item);
                items = items.push(item);
                assert(header_children@ =~= join_commas(items));
            }
        }
        i = i + 1;
    }
    proof {
        assert(h.children@.take(h.children@.len() as int) =~= h.children@);
    }
    let mut others = String::new();
    push_char(&mut others, '[');
    let mut first_other = true;
    let mut j: usize = 0;
    let ghost mut others_items: Seq<Seq<char>> = seq![];
    while j < h.children.len()
        invariant
            0 <= j <= h.children@.len(),
            ctx.prefix_js_idents == old(ctx).prefix_js_idents,
            px == opt_view(old(ctx).prefix_js_idents),
            jv_path_items(h.children@, px) == Ok::<Seq<Seq<char>>, Seq<DiagView>>(items),
            header_children@ == join_commas(items),
            jv_other_items(h.children@.take(j as int), px) == Ok::<Seq<Seq<char>>, Seq<DiagView>>(others_items),
            others@ == seq!['['] + join_commas(others_items),
            first_other == (others_items.len() == 0),
        decreases h.children@.len() - j,
    {
        proof {
            assert(decreases_to!(h => h.children@[j as int]));
            lemma_other_items_step(h.children@, j as int, px);
        }
        let child = &h.children[j];
        let is_header = if let ASTBlock::Header(_) = child { true } else { false };
        if !is_header {
            let x = match compile_block(child, ctx, file_id) {
                Ok(x) => x,
                Err(e) => {
                    proof {
                        lemma_other_items_err(h.children@, j + 1, px);
                        assert(h.children@.take(h.children@.len() as int) =~= h.children@);
                    }
                    return Err(e);
                },
            };
            if !first_other {
                push_char(&mut others, ',');
            }
            first_other = false;
            others.append(x.as_str());
            proof {
                lemma_join_push(others_items, x@);
                others_items = others_items.push(x@);
                assert(others@ =~= seq!['['] + join_commas(others_items));
            }
        }
        j = j + 1;
    }
    push_char(&mut others, ']');
    proof {
        assert(h.children@.take(h.children@.len() as int) =~= h.children@);
    }
    let mut s = String::new();
    s.append("{\"title\":");
    s.append(safe_str(h.title.text.as_str()).as_str());
    s.append(",\"canonicalTitle\":");
    s.append(safe_str(Path::canonicalize_name(h.title.text.as_str()).as_str()).as_str());
    s.append(",\"childPaths\":{");
    s.append(header_children.as_str());
    s.append("},\"range\":");
    s.append(safe_range(&h.range).as_str());
    s.append(",\"children\":");
    s.append(others.as_str());
    s.append("}");
    proof {
        assert(s@ =~= jv_header(*h, px)->Ok_0);
    }
    Ok(s)
}

/// A block, by its kind.
pub fn compile_block(b: &ASTBlock, ctx: &mut JSONCompilerContext, file_id: BlobId) -> (r: Result<String, Vec<Diagnostic>>)
    ensures
        r matches Err(d) ==> d@.len() > 0,
        final(ctx).prefix_js_idents == old(ctx).prefix_js_idents,
        result_view(r) == jv_block(*b, opt_view(old(ctx).prefix_js_idents)),
    decreases b, 7int,
{
    match b {
        ASTBlock::Header(header) => compile_header(header, ctx, file_id),
        ASTBlock::Paragraph(paragraph) => compile_paragraph(paragraph, ctx, file_id),
        ASTBlock::CodeBlock(code) => Ok(compile_code_block(code)),
        ASTBlock::ChoiceGroup(group) => compile_choice_group(group, ctx, file_id),
        ASTBlock::Divert(divert) => Ok(compile_divert(divert)),
        ASTBlock::Match(match_exp) => compile_match(match_exp, ctx, file_id),
    }
}

/// Blocks as a JSON array; the first that fails gives its diagnostics.
#[verifier::spinoff_prover]
#[verifier::rlimit(100)]
pub fn compile_blocks(v: &Vec<ASTBlock>, ctx: &mut JSONCompilerContext, file_id: BlobId) -> (r: Result<String, Vec<Diagnostic>>)
    ensures
        r matches Err(d) ==> d@.len() > 0,
        final(ctx).prefix_js_idents == old(ctx).prefix_js_idents,
        result_view(r) == jv_blocks(v@, opt_view(old(ctx).prefix_js_idents)),
    decreases v, 9int,
{
    let ghost px = opt_view(ctx.prefix_js_idents);
    let mut s = String::new();
    push_char(&mut s, '[');
    let mut i: usize = 0;
    let ghost mut items: Seq<Seq<char>> = seq![];
    proof {
        assert(v@.take(0) =~= Seq::<ASTBlock>::empty());
    }
    while i < v.len()
        invariant
            0 <= i <= v@.len(),
            ctx.prefix_js_idents == old(ctx).prefix_js_idents,
            px == opt_view(old(ctx).prefix_js_idents),
            jv_block_items(v@.take(i as int), px) == Ok::<Seq<Seq<char>>, Seq<DiagView>>(items),
            s@ == seq!['['] + join_commas(items),
            items.len() == i,
        decreases v@.len() - i,
    {
        proof {
            assert(decreases_to!(v => v@[i as int]));
        }
        proof {
            lemma_block_items_step(v@, i as int, px);
        }
        let x = match compile_block(&v[i], ctx, file_id) {
            Ok(x) => x,
            Err(e) => {
                proof {
                    lemma_blocks_fail(v@, i as int, px, diag_views(e@));
                }
                return Err(e);
            },
        };
        if i > 0 {
            push_char(&mut s, ',');
        }
        s.append(x.as_str());
        proof {
            lemma_join_push(items, x@);
            items = items.push(x@);
            assert(s@ =~= seq!['['] + join_commas(items));
        }
        i = i + 1;
    }
    push_char(&mut s, ']');
    proof {
        assert(v@.take(v@.len() as int) =~= v@);
        assert(jv_block_items(v@, px) == Ok::<Seq<Seq<char>>, Seq<DiagView>>(items));
        assert(s@ =~= seq!['['] + join_commas(items) + seq![']']);
    }
    Ok(s)
}

pub proof fn lemma_join_push(items: Seq<Seq<char>>, x: Seq<char>)
    ensures
        join_commas(items.push(x)) == if items.len() == 0 { x } else { join_commas(items) + seq![','] + x },
{
    assert(items.push(x).drop_last() =~= items);
}

pub proof fn lemma_part_items_err(v: Seq<TextPart>, n: int, px: Option<Seq<char>>)
    requires
        0 <= n <= v.len(),
        jv_part_items(v.take(n), px) is Err,
    ensures
        jv_part_items(v, px) == jv_part_items(v.take(n), px),
    decreases v.len() - n,
{
    if n == v.len() {
        assert(v.take(n) =~= v);
    } else {
        assert(v.take(n + 1).drop_last() =~= v.take(n));
        lemma_part_items_err(v, n + 1, px);
    }
}

pub proof fn lemma_choice_items_err(v: Seq<ASTChoice>, n: int, px: Option<Seq<char>>)
    requires
        0 <= n <= v.len(),
        jv_choice_items(v.take(n), px) is Err,
    ensures
        jv_choice_items(v, px) == jv_choice_items(v.take(n), px),
    decreases v.len() - n,
{
    if n == v.len() {
        assert(v.take(n) =~= v);
    } else {
        assert(v.take(n + 1).drop_last() =~= v.take(n));
        lemma_choice_items_err(v, n + 1, px);
    }
}

pub proof fn lemma_arm_items_err(v: Seq<ASTChoice>, n: int, px: Option<Seq<char>>)
    requires
        0 <= n <= v.len(),
        jv_arm_items(v.take(n), px) is Err,
    ensures
        jv_arm_items(v, px) == jv_arm_items(v.take(n), px),
    decreases v.len() - n,
{
    if n == v.len() {
        assert(v.take(n) =~= v);
    } else {
        assert(v.take(n + 1).drop_last() =~= v.take(n));
        lemma_arm_items_err(v, n + 1, px);
    }
}

pub proof fn lemma_path_items_err(v: Seq<ASTBlock>, n: int, px: Option<Seq<char>>)
    requires
        0 <= n <= v.len(),
        jv_path_items(v.take(n), px) is Err,
    ensures
        jv_path_items(v, px) == jv_path_items(v.take(n), px),
    decreases v.len() - n,
{
    if n == v.len() {
        assert(v.take(n) =~= v);
    } else {
        assert(v.take(n + 1).drop_last() =~= v.take(n));
        lemma_path_items_err(v, n + 1, px);
    }
}

pub proof fn lemma_other_items_err(v: Seq<ASTBlock>, n: int, px: Option<Seq<char>>)
    requires
        0 <= n <= v.len(),
        jv_other_items(v.take(n), px) is Err,
    ensures
        jv_other_items(v, px) == jv_other_items(v.take(n), px),
    decreases v.len() - n,
{
    if n == v.len() {
        assert(v.take(n) =~= v);
    } else {
        assert(v.take(n + 1).drop_last() =~= v.take(n));
        lemma_other_items_err(v, n + 1, px);
    }
}

/// Where the block at `i` fails and those before it compile, the blocks fail
/// with its diagnostics.
pub proof fn lemma_blocks_fail(v: Seq<ASTBlock>, i: int, px: Option<Seq<char>>, e: Seq<DiagView>)
    requires
        0 <= i < v.len(),
        jv_block_items(v.take(i), px) is Ok,
        jv_block(v[i], px) == Err::<Seq<char>, Seq<DiagView>>(e),
    ensures
        jv_blocks(v, px) == Err::<Seq<char>, Seq<DiagView>>(e),
{
    lemma_block_items_step(v, i, px);
    lemma_block_items_err(v, i + 1, px);
}

pub proof fn lemma_block_items_err(v: Seq<ASTBlock>, n: int, px: Option<Seq<char>>)
    requires
        0 <= n <= v.len(),
        jv_block_items(v.take(n), px) is Err,
    ensures
        jv_block_items(v, px) == jv_block_items(v.take(n), px),
    decreases v.len() - n,
{
    if n == v.len() {
        assert(v.take(n) =~= v);
    } else {
        assert(v.take(n + 1).drop_last() =~= v.take(n));
        lemma_block_items_err(v, n + 1, px);
    }
}

pub proof fn lemma_part_items_step(v: Seq<TextPart>, i: int, px: Option<Seq<char>>)
    requires
        0 <= i < v.len(),
    ensures
        jv_part_items(v.take(i + 1), px) == match jv_part_items(v.take(i), px) {
            Err(e) => Err(e),
            Ok(items) => match jv_inline(v[i].text, px) {
            Err(e) => Err(e),
            Ok(x) => Ok(items.push(part_item(v[i], x))),
        },
        },
{
    assert(v.take(i + 1).drop_last() =~= v.take(i));
    assert(v.take(i + 1)[i] == v[i]);
}

pub proof fn lemma_choice_items_step(v: Seq<ASTChoice>, i: int, px: Option<Seq<char>>)
    requires
        0 <= i < v.len(),
    ensures
        jv_choice_items(v.take(i + 1), px) == match jv_choice_items(v.take(i), px) {
            Err(e) => Err(e),
            Ok(items) => match jv_choice(v[i], px) {
            Err(e) => Err(e),
            Ok(x) => Ok(items.push(x)),
        },
        },
{
    assert(v.take(i + 1).drop_last() =~= v.take(i));
    assert(v.take(i + 1)[i] == v[i]);
}

pub proof fn lemma_arm_items_step(v: Seq<ASTChoice>, i: int, px: Option<Seq<char>>)
    requires
        0 <= i < v.len(),
    ensures
        jv_arm_items(v.take(i + 1), px) == match jv_arm_items(v.take(i), px) {
            Err(e) => Err(e),
            Ok(items) => match jv_arm(v[i], px) {
                Err(e) => Err(e),
                Ok(x) => Ok(items.push(x)),
            },
        },
{
    assert(v.take(i + 1).drop_last() =~= v.take(i));
    assert(v.take(i + 1)[i] == v[i]);
}

pub proof fn lemma_path_items_step(v: Seq<ASTBlock>, i: int, px: Option<Seq<char>>)
    requires
        0 <= i < v.len(),
    ensures
        jv_path_items(v.take(i + 1), px) == match jv_path_items(v.take(i), px) {
            Err(e) => Err(e),
            Ok(items) => match v[i] {
            ASTBlock::Header(h) => match jv_header(h, px) {
                Err(e) => Err(e),
                Ok(x) => Ok(items.push(path_item(h, x))),
            },
            _ => Ok(items),
        },
        },
{
    assert(v.take(i + 1).drop_last() =~= v.take(i));
    assert(v.take(i + 1)[i] == v[i]);
}

pub proof fn lemma_other_items_step(v: Seq<ASTBlock>, i: int, px: Option<Seq<char>>)
    requires
        0 <= i < v.len(),
    ensures
        jv_other_items(v.take(i + 1), px) == match jv_other_items(v.take(i), px) {
            Err(e) => Err(e),
            Ok(items) => match v[i] {
            ASTBlock::Header(_) => Ok(items),
            _ => match jv_block(v[i], px) {
                Err(e) => Err(e),
                Ok(x) => Ok(items.push(x)),
            },
        },
        },
{
    assert(v.take(i + 1).drop_last() =~= v.take(i));
    assert(v.take(i + 1)[i] == v[i]);
}

pub proof fn lemma_block_items_step(v: Seq<ASTBlock>, i: int, px: Option<Seq<char>>)
    requires
        0 <= i < v.len(),
    ensures
        jv_block_items(v.take(i + 1), px) == match jv_block_items(v.take(i), px) {
            Err(e) => Err(e),
            Ok(items) => match jv_block(v[i], px) {
            Err(e) => Err(e),
            Ok(x) => Ok(items.push(x)),
        },
        },
{
    assert(v.take(i + 1).drop_last() =~= v.take(i));
    assert(v.take(i + 1)[i] == v[i]);
}

impl JSONCompilable for ASTHeader {
    open spec fn json_result(&self, prefix: Option<Seq<char>>) -> Result<Seq<char>, Seq<DiagView>> {
        jv_header(*self, prefix)
    }

    fn compile(&self, ctx: &mut JSONCompilerContext, file_id: BlobId) -> (r: Result<String, Vec<Diagnostic>>) {
        compile_header(self, ctx, file_id)
    }
}

impl JSONCompilable for ASTInline {
    open spec fn json_result(&self, prefix: Option<Seq<char>>) -> Result<Seq<char>, Seq<DiagView>> {
        jv_inline(*self, prefix)
    }

    fn compile(&self, ctx: &mut JSONCompilerContext, file_id: BlobId) -> (r: Result<String, Vec<Diagnostic>>)
        ensures
            js_gathered(*self, file_id, old(ctx).variables.0@, final(ctx).variables.0@),
    {
        compile_inline(self, ctx, file_id)
    }
}

impl JSONCompilable for ASTText {
    open spec fn json_result(&self, prefix: Option<Seq<char>>) -> Result<Seq<char>, Seq<DiagView>> {
        jv_text(*self, prefix)
    }

    fn compile(&self, ctx: &mut JSONCompilerContext, file_id: BlobId) -> (r: Result<String, Vec<Diagnostic>>) {
        compile_text(self, ctx, file_id)
    }
}

impl JSONCompilable for ASTParagraph {
    open spec fn json_result(&self, prefix: Option<Seq<char>>) -> Result<Seq<char>, Seq<DiagView>> {
        jv_paragraph(*self, prefix)
    }

    fn compile(&self, ctx: &mut JSONCompilerContext, file_id: BlobId) -> (r: Result<String, Vec<Diagnostic>>) {
        compile_paragraph(self, ctx, file_id)
    }
}

impl JSONCompilable for ASTCodeBlock {
    open spec fn json_result(&self, prefix: Option<Seq<char>>) -> Result<Seq<char>, Seq<DiagView>> {
        Ok(json_code_block(*self))
    }

    fn compile(&self, ctx: &mut JSONCompilerContext, file_id: BlobId) -> (r: Result<String, Vec<Diagnostic>>) {
        Ok(compile_code_block(self))
    }
}

impl JSONCompilable for ASTChoice {
    open spec fn json_result(&self, prefix: Option<Seq<char>>) -> Result<Seq<char>, Seq<DiagView>> {
        jv_choice(*self, prefix)
    }

    fn compile(&self, ctx: &mut JSONCompilerContext, file_id: BlobId) -> (r: Result<String, Vec<Diagnostic>>) {
        compile_choice(self, ctx, file_id)
    }
}

impl JSONCompilable for ASTChoiceGroup {
    open spec fn json_result(&self, prefix: Option<Seq<char>>) -> Result<Seq<char>, Seq<DiagView>> {
        jv_choice_group(*self, prefix)
    }

    fn compile(&self, ctx: &mut JSONCompilerContext, file_id: BlobId) -> (r: Result<String, Vec<Diagnostic>>) {
        compile_choice_group(self, ctx, file_id)
    }
}

impl JSONCompilable for ASTDivert {
    open spec fn json_result(&self, prefix: Option<Seq<char>>) -> Result<Seq<char>, Seq<DiagView>> {
        Ok(json_divert(*self))
    }

    fn compile(&self, ctx: &mut JSONCompilerContext, file_id: BlobId) -> (r: Result<String, Vec<Diagnostic>>) {
        Ok(compile_divert(self))
    }
}

impl JSONCompilable for ASTMatch {
    open spec fn json_result(&self, prefix: Option<Seq<char>>) -> Result<Seq<char>, Seq<DiagView>> {
        jv_match(*self, prefix)
    }

    fn compile(&self, ctx: &mut JSONCompilerContext, file_id: BlobId) -> (r: Result<String, Vec<Diagnostic>>) {
        compile_match(self, ctx, file_id)
    }
}

impl JSONCompilable for ASTBlock {
    open spec fn json_result(&self, prefix: Option<Seq<char>>) -> Result<Seq<char>, Seq<DiagView>> {
        jv_block(*self, prefix)
    }

    fn compile(&self, ctx: &mut JSONCompilerContext, file_id: BlobId) -> (r: Result<String, Vec<Diagnostic>>) {
        compile_block(self, ctx, file_id)
    }
}

impl JSONCompilable for Vec<ASTBlock> {
    open spec fn json_result(&self, prefix: Option<Seq<char>>) -> Result<Seq<char>, Seq<DiagView>> {
        jv_blocks(self@, prefix)
    }

    fn compile(&self, ctx: &mut JSONCompilerContext, file_id: BlobId) -> (r: Result<String, Vec<Diagnostic>>) {
        compile_blocks(self, ctx, file_id)
    }
}

} // verus!
