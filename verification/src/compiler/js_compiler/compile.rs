use vstd::prelude::*;
use vstd::string::*;
use vstd::utf8::encode_utf8;
use crate::compiler::js_compiler::{JSBootstrapVars, JSCompilerContext};
use crate::compiler::json_compiler::compile::arm_code;
use crate::compiler::path::{Path, found_prefix, names_of, resolve};
use crate::compiler::visitors::magic_vars_collector::{GatherState, MagicVarCollector, MagicVariableCollectorContext, gather_view, gs_run};
use crate::compiler::visitors::rebuilder::{Rebuilder, rebuilt_program, spec_transform, transform_js};
use crate::diagnostics::diagnostic::{Diagnostic, DiagnosticMessage, DiagnosticVariants, diag_view, diag_views, lemma_diag_views_len, spec_format_diagnostic, str_views};
use crate::js_parser::parser::parsed_js;
use crate::js_parser::parser::ast::{expr_views, lemma_expr_views};
use crate::js_parser::tokenizer::DiagView;
use crate::parser::ast::model::{TextPart, spec_canonicalize};
use crate::diagnostics::location::Range;
use crate::js_parser::parser::JsParser;
use crate::parser::ast::model::{
    ASTAttribute, ASTBlock, ASTChoice, ASTChoiceGroup, ASTCodeBlock, ASTDivert, ASTHeader, ASTInline,
    ASTInlineKind, ASTMatch, ASTParagraph, ASTText,
};
use crate::strings::{push_char, spec_usize_str, usize_to_string};

verus! {

/// The diagnostics of compiling to javascript.
pub struct Diagnostics;

impl Diagnostics {
    pub fn unknown_child_path() -> (d: DiagnosticMessage)
        ensures
            d.code@ == "C1001"@,
            d.message@ == "\"$\" is not a sub-path of \"$\"."@,
    {
        DiagnosticMessage { code: "C1001", message: "\"$\" is not a sub-path of \"$\"." }
    }

    pub fn unknown_path() -> (d: DiagnosticMessage)
        ensures
            d.code@ == "C1002"@,
            d.message@ == "\"$\" is not a path."@,
    {
        DiagnosticMessage { code: "C1002", message: "\"$\" is not a path." }
    }
}

/// Writes a node of a story as javascript; may fail with diagnostics.
pub trait JSCompilable {
    /// What compiling gives, as javascript or diagnostics, and the magic
    /// variables after it, from the settings `env` and the magic variables `st`.
    spec fn js_compiled(&self, env: JsEnv, st: GatherState) -> (Result<Seq<char>, Seq<DiagView>>, GatherState);

    fn compile(&self, ctx: &mut JSCompilerContext) -> (r: Result<String, Vec<Diagnostic>>)
        ensures
            js_env(*final(ctx)) == js_env(*old(ctx)),
            (js_result(r), mv(final(ctx).magic_variables)) == self.js_compiled(js_env(*old(ctx)), mv(old(ctx).magic_variables)),
    ;
}

/// Writes a value as javascript that cannot fail to be written.
pub trait JSSafeCompilable {
    /// The javascript text of the value.
    spec fn js_text(&self) -> Seq<char>;

    fn safe_compile(&self) -> (s: String)
        ensures
            s@ == self.js_text(),
    ;
}

/// A string in double quotes, as it is.
pub open spec fn quoted(s: Seq<char>) -> Seq<char> {
    seq!['"'] + s + seq!['"']
}

pub fn quote(s: &str) -> (r: String)
    ensures
        r@ == quoted(s@),
{
    let mut r = String::new();
    push_char(&mut r, '"');
    r.append(s);
    push_char(&mut r, '"');
    r
}

impl JSSafeCompilable for String {
    open spec fn js_text(&self) -> Seq<char> {
        quoted(self@)
    }

    fn safe_compile(&self) -> (s: String) {
        quote(self.as_str())
    }
}

impl JSSafeCompilable for Vec<String> {
    open spec fn js_text(&self) -> Seq<char> {
        seq!['['] + joined(self@.map_values(|x: String| x@), seq![',']) + seq![']']
    }

    fn safe_compile(&self) -> (s: String) {
        join_list(self)
    }
}

/// Items joined with `sep`.
pub open spec fn joined(items: Seq<Seq<char>>, sep: Seq<char>) -> Seq<char>
    decreases items.len(),
{
    if items.len() == 0 {
        seq![]
    } else if items.len() == 1 {
        items[0]
    } else {
        joined(items.drop_last(), sep) + sep + items.last()
    }
}

/// Strings joined with commas, in square brackets.
pub fn join_list(v: &Vec<String>) -> (s: String)
    ensures
        s@ == seq!['['] + joined(v@.map_values(|x: String| x@), seq![',']) + seq![']'],
{
    let ghost items = v@.map_values(|x: String| x@);
    let mut s = String::new();
    push_char(&mut s, '[');
    let mut i: usize = 0;
    while i < v.len()
        invariant
            0 <= i <= v@.len(),
            items == v@.map_values(|x: String| x@),
            s@ == seq!['['] + joined(items.take(i as int), seq![',']),
        decreases v@.len() - i,
    {
        if i > 0 {
            push_char(&mut s, ',');
        }
        s.append(v[i].as_str());
        proof {
            let t = items.take(i + 1);
            assert(t.drop_last() =~= items.take(i as int));
            assert(s@ =~= seq!['['] + joined(t, seq![',']));
        }
        i = i + 1;
    }
    push_char(&mut s, ']');
    assert(items.take(v@.len() as int) =~= items);
    s
}

/// The parameters of an attribute, each quoted, joined with commas.
pub open spec fn js_params(p: Seq<String>) -> Seq<char> {
    joined(p.map_values(|x: String| quoted(x@)), seq![','])
}

/// An attribute as a javascript object.
pub open spec fn js_attribute(a: ASTAttribute) -> Seq<char> {
    "{name:"@ + quoted(a.name@) + ",params:["@ + js_params(a.parameters@) + "]}"@
}

/// Attributes as a javascript array.
pub open spec fn js_attributes(v: Seq<ASTAttribute>) -> Seq<char> {
    seq!['['] + joined(v.map_values(|a: ASTAttribute| js_attribute(a)), seq![',']) + seq![']']
}

fn compile_params(p: &Vec<String>) -> (s: String)
    ensures
        s@ == js_params(p@),
{
    let ghost items = p@.map_values(|x: String| quoted(x@));
    let mut s = String::new();
    let mut i: usize = 0;
    while i < p.len()
        invariant
            0 <= i <= p@.len(),
            items == p@.map_values(|x: String| quoted(x@)),
            s@ == joined(items.take(i as int), seq![',']),
        decreases p@.len() - i,
    {
        if i > 0 {
            push_char(&mut s, ',');
        }
        s.append(quote(p[i].as_str()).as_str());
        proof {
            let t = items.take(i + 1);
            assert(t.drop_last() =~= items.take(i as int));
            assert(s@ =~= joined(t, seq![',']));
        }
        i = i + 1;
    }
    assert(items.take(p@.len() as int) =~= items);
    s
}

pub fn compile_attribute(a: &ASTAttribute) -> (s: String)
    ensures
        s@ == js_attribute(*a),
{
    let mut s = String::new();
    s.append("{name:");
    s.append(quote(a.name.as_str()).as_str());
    s.append(",params:[");
    s.append(compile_params(&a.parameters).as_str());
    s.append("]}");
    assert(s@ =~= js_attribute(*a));
    s
}

pub fn compile_attributes(v: &Vec<ASTAttribute>) -> (s: String)
    ensures
        s@ == js_attributes(v@),
{
    let ghost items = v@.map_values(|a: ASTAttribute| js_attribute(a));
    let mut s = String::new();
    push_char(&mut s, '[');
    let mut i: usize = 0;
    while i < v.len()
        invariant
            0 <= i <= v@.len(),
            items == v@.map_values(|a: ASTAttribute| js_attribute(a)),
            s@ == seq!['['] + joined(items.take(i as int), seq![',']),
        decreases v@.len() - i,
    {
        if i > 0 {
            push_char(&mut s, ',');
        }
        s.append(compile_attribute(&v[i]).as_str());
        proof {
            let t = items.take(i + 1);
            assert(t.drop_last() =~= items.take(i as int));
            assert(s@ =~= seq!['['] + joined(t, seq![',']));
        }
        i = i + 1;
    }
    push_char(&mut s, ']');
    assert(items.take(v@.len() as int) =~= items);
    s
}

/// The code of a block with its backticks escaped.
pub open spec fn escape_backticks(s: Seq<char>) -> Seq<char>
    decreases s.len(),
{
    if s.len() == 0 {
        seq![]
    } else {
        escape_backticks(s.drop_last()) + if s.last() == '`' {
            seq!['\\', '`']
        } else {
            seq![s.last()]
        }
    }
}

/// A code block as a call of the code block function.
pub open spec fn js_code_block(c: ASTCodeBlock, f: Seq<char>) -> Seq<char> {
    f + "(`"@ + escape_backticks(c.text@) + "`,"@ + quoted(c.language@) + seq![','] + js_attributes(c.attributes@)
        + seq![')']
}

/// Escaping backticks works character by character: the escape of two texts
/// one after the other is the escape of the first and then of the second; a
/// backtick becomes `\`` and any other character stays as it is.
pub proof fn law_escape_backticks_concat(a: Seq<char>, b: Seq<char>, c: char)
    ensures
        escape_backticks(a + b) == escape_backticks(a) + escape_backticks(b),
        escape_backticks(seq![c]) == if c == '`' { seq!['\\', '`'] } else { seq![c] },
    decreases b.len(),
{
    assert(seq![c].drop_last() =~= Seq::<char>::empty());
    assert(escape_backticks(Seq::<char>::empty()) == Seq::<char>::empty());
    assert(escape_backticks(seq![c]) =~= escape_backticks(Seq::<char>::empty()) + if c == '`' {
        seq!['\\', '`']
    } else {
        seq![c]
    });
    if b.len() == 0 {
        assert(a + b =~= a);
        assert(escape_backticks(b) =~= Seq::<char>::empty());
    } else {
        law_escape_backticks_concat(a, b.drop_last(), c);
        assert((a + b).drop_last() =~= a + b.drop_last());
        assert((a + b).last() == b.last());
    }
}

/// The call for a code block hands over the block's escaped text first and
/// its language, quoted, second: after the function's name and `` (` `` come
/// the escaped text, then `` `, `` and the quoted language.
pub proof fn law_code_block_call_args(c: ASTCodeBlock, f: Seq<char>)
    ensures
        ({
            let j = js_code_block(c, f);
            let t = escape_backticks(c.text@);
            let l = quoted(c.language@);
            let a = f.len() + 2;
            let b = a + t.len();
            let m = b + 2;
            let e = m + l.len();
            &&& j.len() >= e
            &&& j.subrange(0, f.len() as int) == f
            &&& j.subrange(a as int, b as int) == t
            &&& j.subrange(m as int, e as int) == l
        }),
{
    let t = escape_backticks(c.text@);
    let l = quoted(c.language@);
    let rest = seq![','] + js_attributes(c.attributes@) + seq![')'];
    let j = js_code_block(c, f);
    let a = f.len() + 2;
    let b = a + t.len();
    let m = b + 2;
    let e = m + l.len();
    reveal_strlit("(`");
    reveal_strlit("`,");
    assert(j =~= f + "(`"@ + t + "`,"@ + l + rest);
    assert(j.subrange(0, f.len() as int) =~= f);
    assert(j.subrange(a as int, b as int) =~= t);
    assert(j.subrange(m as int, e as int) =~= l);
}

/// Every parameter of an attribute is written, quoted and in order: none
/// gives nothing, one gives it quoted, and one more at the end adds `,` and
/// that parameter quoted.
pub proof fn law_params_items(p: Seq<String>, x: String)
    ensures
        js_params(seq![]) == Seq::<char>::empty(),
        js_params(seq![x]) == quoted(x@),
        p.len() > 0 ==> js_params(p.push(x)) == js_params(p) + seq![','] + quoted(x@),
{
    assert(Seq::<String>::empty().map_values(|s: String| quoted(s@)) =~= Seq::<Seq<char>>::empty());
    assert(seq![x].map_values(|s: String| quoted(s@)) =~= seq![quoted(x@)]);
    if p.len() > 0 {
        let items = p.push(x).map_values(|s: String| quoted(s@));
        assert(items.drop_last() =~= p.map_values(|s: String| quoted(s@)));
        assert(items.last() == quoted(x@));
    }
}

pub fn js_code_block_of(c: &ASTCodeBlock, codeblock_fn: &str) -> (s: String)
    ensures
        s@ == js_code_block(*c, codeblock_fn@),
{
    let mut s = String::new();
    s.append(codeblock_fn);
    s.append("(`");
    let n = c.text.as_str().unicode_len();
    let mut escaped = String::new();
    let mut i: usize = 0;
    while i < n
        invariant
            n == c.text@.len(),
            0 <= i <= n,
            escaped@ == escape_backticks(c.text@.take(i as int)),
        decreases n - i,
    {
        let ch = c.text.as_str().get_char(i);
        assert(c.text@.take(i + 1).drop_last() =~= c.text@.take(i as int));
        if ch == '`' {
            push_char(&mut escaped, '\\');
            push_char(&mut escaped, '`');
        } else {
            push_char(&mut escaped, ch);
        }
        assert(escaped@ =~= escape_backticks(c.text@.take(i + 1)));
        i = i + 1;
    }
    assert(c.text@.take(n as int) =~= c.text@);
    s.append(escaped.as_str());
    s.append("`,");
    s.append(quote(c.language.as_str()).as_str());
    push_char(&mut s, ',');
    s.append(compile_attributes(&c.attributes).as_str());
    push_char(&mut s, ')');
    assert(s@ =~= js_code_block(*c, codeblock_fn@));
    s
}

/// Every name of a divert's path is written, quoted and in order: no path
/// gives nothing, one name gives that name quoted, and one more name at the
/// end adds `, ` and that name quoted at the end.
pub proof fn law_divert_path_names(p: Seq<String>, x: String)
    ensures
        js_divert_path(seq![]) == Seq::<char>::empty(),
        js_divert_path(seq![x]) == quoted(x@),
        p.len() > 0 ==> js_divert_path(p.push(x)) == js_divert_path(p) + seq![',', ' '] + quoted(x@),
{
    assert(Seq::<String>::empty().map_values(|s: String| quoted(s@)) =~= Seq::<Seq<char>>::empty());
    assert(seq![x].map_values(|s: String| quoted(s@)) =~= seq![quoted(x@)]);
    if p.len() > 0 {
        let items = p.push(x).map_values(|s: String| quoted(s@));
        assert(items.drop_last() =~= p.map_values(|s: String| quoted(s@)));
        assert(items.last() == quoted(x@));
    }
}

/// The path of a divert, each name quoted, joined with `, `.
pub open spec fn js_divert_path(p: Seq<String>) -> Seq<char> {
    joined(p.map_values(|x: String| quoted(x@)), seq![',', ' '])
}

// ---------------------------------------------------------------- what a story compiles to

/// What compiling reads from the context and does not change: the names of
/// the functions the compiled code calls, the paths of the story, whether
/// the magic variables are well formed, and the diagnostics kept so far.
pub struct JsEnv {
    pub bootstrap: JSBootstrapVars,
    pub paths: Path,
    pub valid: bool,
    pub diagnostics: Seq<Diagnostic>,
}

pub open spec fn js_env(c: JSCompilerContext) -> JsEnv {
    JsEnv { bootstrap: c.bootstrap, paths: c.paths, valid: c.magic_variables.wf(), diagnostics: c.diagnostics@ }
}

/// The magic variables of a context as plain values.
pub open spec fn mv(c: MagicVariableCollectorContext) -> GatherState {
    gather_view(c, seq![])
}

/// What compiling gives, as plain values: the javascript, or the diagnostics.
pub open spec fn js_result(r: Result<String, Vec<Diagnostic>>) -> Result<Seq<char>, Seq<DiagView>> {
    match r {
        Ok(s) => Ok(s@),
        Err(e) => Err(diag_views(e@)),
    }
}

/// A divert: a call of the divert function where the path exists among the
/// known paths; otherwise the first name that is missing is reported.
pub open spec fn jsv_divert(d: ASTDivert, env: JsEnv) -> Result<Seq<char>, Seq<DiagView>> {
    if d.path@.len() == 0 {
        Err(seq![(d.range, spec_format_diagnostic("\"$\" is not a path."@, seq![""@]), DiagnosticVariants::Error)])
    } else if resolve(env.paths, names_of(d.path@)).is_some() {
        Ok(env.bootstrap.divert_fn@ + "(["@ + js_divert_path(d.path@) + "])"@)
    } else {
        let i = found_prefix(env.paths, names_of(d.path@));
        Err(seq![(d.range, if i == 0 {
            spec_format_diagnostic("\"$\" is not a path."@, seq![d.path@[0]@])
        } else {
            spec_format_diagnostic("\"$\" is not a sub-path of \"$\"."@, seq![d.path@[i]@, d.path@[i - 1]@])
        }, DiagnosticVariants::Error)])
    }
}

/// A gathered assignment as a javascript object.
pub open spec fn gathered_item(p: (Seq<char>, u8)) -> Seq<char> {
    "{name: "@ + quoted(p.0) + ", type: "@ + spec_usize_str(p.1 as usize) + seq!['}']
}

/// Inline javascript: a call of the inline javascript function with the
/// rebuilt code and the assignments it makes; the magic variables are gathered
/// first where they are well formed. Or the diagnostics of parsing it.
pub open spec fn jsv_javascript(code: Seq<char>, env: JsEnv, st: GatherState) -> (Result<Seq<char>, Seq<DiagView>>, GatherState) {
    let d = encode_utf8(code);
    let p = parsed_js(d);
    if p.1.len() > 0 {
        (Err(p.1), st)
    } else {
        let g0 = GatherState { collected: seq![], ..st };
        let g = if env.valid { gs_run(g0, p.0, p.0.len() as int, d) } else { g0 };
        let items = Seq::new(g.collected.len(), |k: int| gathered_item(g.collected[k]));
        (
            Ok("${"@ + env.bootstrap.inline_js_fn@ + seq!['('] + quoted(rebuilt_program(p.0, d, None)) + seq![','] + seq!['[']
                + joined(items, seq![',']) + seq![']'] + ")}"@),
            GatherState { collected: seq![], ..g },
        )
    }
}

/// Inline elements: bold, italics and underline as tags, code in escaped
/// backticks, javascript as a call of the inline javascript function.
pub open spec fn jsv_inline(i: ASTInline, env: JsEnv, st: GatherState) -> (Result<Seq<char>, Seq<DiagView>>, GatherState)
    decreases i, 0int,
{
    match i.kind {
        ASTInlineKind::Bold(t) => match jsv_text(t, env, st) {
            (Ok(x), s1) => (Ok("<b>"@ + x + "</b>"@), s1),
            (Err(e), s1) => (Err(e), s1),
        },
        ASTInlineKind::Italics(t) => match jsv_text(t, env, st) {
            (Ok(x), s1) => (Ok("<i>"@ + x + "</i>"@), s1),
            (Err(e), s1) => (Err(e), s1),
        },
        ASTInlineKind::Underline(t) => match jsv_text(t, env, st) {
            (Ok(x), s1) => (Ok("<u>"@ + x + "</u>"@), s1),
            (Err(e), s1) => (Err(e), s1),
        },
        ASTInlineKind::Code(t) => match jsv_text(t, env, st) {
            (Ok(x), s1) => (Ok("\\`"@ + x + "\\`"@), s1),
            (Err(e), s1) => (Err(e), s1),
        },
        ASTInlineKind::Join => (Ok(seq![]), st),
        ASTInlineKind::Javascript(code) => jsv_javascript(code@, env, st),
    }
}

/// Text parts, each the plain text before an inline element and the element compiled.
pub open spec fn jsv_parts(parts: Seq<TextPart>, env: JsEnv, st: GatherState) -> (Result<Seq<char>, Seq<DiagView>>, GatherState)
    decreases parts, 1int,
{
    if parts.len() == 0 {
        (Ok(seq![]), st)
    } else {
        match jsv_parts(parts.drop_last(), env, st) {
            (Err(e), s1) => (Err(e), s1),
            (Ok(acc), s1) => match jsv_inline(parts[parts.len() - 1].text, env, s1) {
                (Err(e), s2) => (Err(e), s2),
                (Ok(x), s2) => (Ok(acc + parts[parts.len() - 1].before@ + x), s2),
            },
        }
    }
}

/// Text: its parts, then the tail.
pub open spec fn jsv_text(t: ASTText, env: JsEnv, st: GatherState) -> (Result<Seq<char>, Seq<DiagView>>, GatherState)
    decreases t, 2int,
{
    if t.parts@.len() == 0 {
        (Ok(t.tail@), st)
    } else {
        match jsv_parts(t.parts@, env, st) {
            (Ok(x), s1) => (Ok(x + t.tail@), s1),
            (Err(e), s1) => (Err(e), s1),
        }
    }
}

/// A paragraph as a call of the paragraph function with its text in backticks and its attributes.
pub open spec fn jsv_paragraph(p: ASTParagraph, env: JsEnv, st: GatherState) -> (Result<Seq<char>, Seq<DiagView>>, GatherState)
    decreases p, 2int,
{
    match jsv_parts(p.parts@, env, st) {
        (Ok(x), s1) => (Ok(env.bootstrap.paragraph_fn@ + "(`"@ + x + p.tail@ + "`,"@ + js_attributes(p.attributes@) + seq![')']), s1),
        (Err(e), s1) => (Err(e), s1),
    }
}

/// A choice as an object with its text, quoted, and its children.
pub open spec fn jsv_choice(c: ASTChoice, env: JsEnv, st: GatherState) -> (Result<Seq<char>, Seq<DiagView>>, GatherState)
    decreases c, 3int,
{
    match jsv_text(c.text, env, st) {
        (Err(e), s1) => (Err(e), s1),
        (Ok(t), s1) => match jsv_blocks(c.children@, env, s1) {
            (Err(e), s2) => (Err(e), s2),
            (Ok(b), s2) => (Ok("{text:"@ + quoted(t) + ",children:"@ + b + seq!['}']), s2),
        },
    }
}

pub open spec fn jsv_choice_items(v: Seq<ASTChoice>, env: JsEnv, st: GatherState) -> (Result<Seq<Seq<char>>, Seq<DiagView>>, GatherState)
    decreases v, 4int,
{
    if v.len() == 0 {
        (Ok(seq![]), st)
    } else {
        match jsv_choice_items(v.drop_last(), env, st) {
            (Err(e), s1) => (Err(e), s1),
            (Ok(items), s1) => match jsv_choice(v[v.len() - 1], env, s1) {
                (Err(e), s2) => (Err(e), s2),
                (Ok(x), s2) => (Ok(items.push(x)), s2),
            },
        }
    }
}

/// A choice group as a call of the choice group function.
pub open spec fn jsv_choice_group(g: ASTChoiceGroup, env: JsEnv, st: GatherState) -> (Result<Seq<char>, Seq<DiagView>>, GatherState)
    decreases g, 5int,
{
    match jsv_choice_items(g.choices@, env, st) {
        (Err(e), s1) => (Err(e), s1),
        (Ok(items), s1) => (Ok(env.bootstrap.choice_group_fn@ + seq!['('] + seq!['['] + joined(items, seq![',']) + seq![']']
            + ", "@ + js_attributes(g.attributes@) + seq![')']), s1),
    }
}

/// An arm of a match: its rebuilt code, quoted, and its children.
pub open spec fn jsv_arm(c: ASTChoice, env: JsEnv, st: GatherState) -> (Result<Seq<char>, Seq<DiagView>>, GatherState)
    decreases c, 3int,
{
    match spec_transform(encode_utf8(arm_code(c)), None) {
        Err(e) => (Err(e), st),
        Ok(code) => match jsv_blocks(c.children@, env, st) {
            (Err(e), s1) => (Err(e), s1),
            (Ok(b), s1) => (Ok("{text:"@ + quoted(code) + ", children:"@ + b + seq!['}']), s1),
        },
    }
}

pub open spec fn jsv_arm_items(v: Seq<ASTChoice>, env: JsEnv, st: GatherState) -> (Result<Seq<Seq<char>>, Seq<DiagView>>, GatherState)
    decreases v, 4int,
{
    if v.len() == 0 {
        (Ok(seq![]), st)
    } else {
        match jsv_arm_items(v.drop_last(), env, st) {
            (Err(e), s1) => (Err(e), s1),
            (Ok(items), s1) => match jsv_arm(v[v.len() - 1], env, s1) {
                (Err(e), s2) => (Err(e), s2),
                (Ok(x), s2) => (Ok(items.push(x)), s2),
            },
        }
    }
}

/// A match as a call of the match function with the rebuilt condition, the
/// arms, the direct children and the modifier.
pub open spec fn jsv_match(m: ASTMatch, env: JsEnv, st: GatherState) -> (Result<Seq<char>, Seq<DiagView>>, GatherState)
    decreases m, 5int,
{
    match jsv_arm_items(m.choices@, env, st) {
        (Err(e), s1) => (Err(e), s1),
        (Ok(items), s1) => match spec_transform(encode_utf8(m.matched@), None) {
            Err(e) => (Err(e), s1),
            Ok(cond) => match jsv_blocks(m.direct_children@, env, s1) {
                (Err(e), s2) => (Err(e), s2),
                (Ok(direct), s2) => (Ok(env.bootstrap.match_fn@ + seq!['('] + quoted(cond) + seq![','] + seq!['['] + joined(items, seq![','])
                    + seq![']'] + seq![','] + direct + seq![','] + (match m.kind {
                    Some(k) => k@,
                    None => "\"\""@,
                }) + seq![')']), s2),
            },
        },
    }
}

/// The paths among the children, each its canonical title and the path compiled.
pub open spec fn jsv_path_items(v: Seq<ASTBlock>, env: JsEnv, st: GatherState) -> (Result<Seq<Seq<char>>, Seq<DiagView>>, GatherState)
    decreases v, 4int,
{
    if v.len() == 0 {
        (Ok(seq![]), st)
    } else {
        match jsv_path_items(v.drop_last(), env, st) {
            (Err(e), s1) => (Err(e), s1),
            (Ok(items), s1) => match v[v.len() - 1] {
                ASTBlock::Header(h) => match jsv_header(h, env, s1) {
                    (Err(e), s2) => (Err(e), s2),
                    (Ok(x), s2) => (Ok(items.push(spec_canonicalize(h.title.text@) + ": "@ + x)), s2),
                },
                _ => (Ok(items), s1),
            },
        }
    }
}

/// The children that are no paths, compiled.
pub open spec fn jsv_other_items(v: Seq<ASTBlock>, env: JsEnv, st: GatherState) -> (Result<Seq<Seq<char>>, Seq<DiagView>>, GatherState)
    decreases v, 7int,
{
    if v.len() == 0 {
        (Ok(seq![]), st)
    } else {
        match jsv_other_items(v.drop_last(), env, st) {
            (Err(e), s1) => (Err(e), s1),
            (Ok(items), s1) => match v[v.len() - 1] {
                ASTBlock::Header(_) => (Ok(items), s1),
                _ => match jsv_block(v[v.len() - 1], env, s1) {
                    (Err(e), s2) => (Err(e), s2),
                    (Ok(x), s2) => (Ok(items.push(x)), s2),
                },
            },
        }
    }
}

/// A path as a call of the path function on an object with its title, its
/// canonical title, its sub-paths and its other children.
pub open spec fn jsv_header(h: ASTHeader, env: JsEnv, st: GatherState) -> (Result<Seq<char>, Seq<DiagView>>, GatherState)
    decreases h, 5int,
{
    match jsv_path_items(h.children@, env, st) {
        (Err(e), s1) => (Err(e), s1),
        (Ok(paths), s1) => match jsv_other_items(h.children@, env, s1) {
            (Err(e), s2) => (Err(e), s2),
            (Ok(others), s2) => (Ok(env.bootstrap.path_fn@ + "({title:"@ + quoted(h.title.text@) + ",canonicalTitle:"@
                + quoted(spec_canonicalize(h.title.text@)) + ",childPaths:"@ + seq!['{'] + joined(paths, seq![',']) + "},children:"@
                + seq!['['] + joined(others, seq![',']) + seq![']'] + "})"@), s2),
        },
    }
}

/// A block, by its kind.
pub open spec fn jsv_block(b: ASTBlock, env: JsEnv, st: GatherState) -> (Result<Seq<char>, Seq<DiagView>>, GatherState)
    decreases b, 6int,
{
    match b {
        ASTBlock::ChoiceGroup(g) => jsv_choice_group(g, env, st),
        ASTBlock::CodeBlock(c) => (Ok(js_code_block(c, env.bootstrap.codeblock_fn@)), st),
        ASTBlock::Header(h) => jsv_header(h, env, st),
        ASTBlock::Match(m) => jsv_match(m, env, st),
        ASTBlock::Paragraph(p) => jsv_paragraph(p, env, st),
        ASTBlock::Divert(d) => (jsv_divert(d, env), st),
    }
}

pub open spec fn jsv_block_items(v: Seq<ASTBlock>, env: JsEnv, st: GatherState) -> (Result<Seq<Seq<char>>, Seq<DiagView>>, GatherState)
    decreases v, 7int,
{
    if v.len() == 0 {
        (Ok(seq![]), st)
    } else {
        match jsv_block_items(v.drop_last(), env, st) {
            (Err(e), s1) => (Err(e), s1),
            (Ok(items), s1) => match jsv_block(v[v.len() - 1], env, s1) {
                (Err(e), s2) => (Err(e), s2),
                (Ok(x), s2) => (Ok(items.push(x)), s2),
            },
        }
    }
}

/// Blocks as a javascript array.
pub open spec fn jsv_blocks(v: Seq<ASTBlock>, env: JsEnv, st: GatherState) -> (Result<Seq<char>, Seq<DiagView>>, GatherState)
    decreases v, 8int,
{
    match jsv_block_items(v, env, st) {
        (Err(e), s1) => (Err(e), s1),
        (Ok(items), s1) => (Ok(seq!['['] + joined(items, seq![',']) + seq![']']), s1),
    }
}


/// A divert: a call of the divert function where the path exists among the
/// known paths; otherwise the first name that is missing is reported.
pub fn js_divert(d: &ASTDivert, ctx: &mut JSCompilerContext) -> (r: Result<String, Vec<Diagnostic>>)
    ensures
        *final(ctx) == *old(ctx),
        js_result(r) == jsv_divert(*d, js_env(*old(ctx))),
        d.path@.len() >= 1 ==> (r.is_ok() <==> resolve(old(ctx).paths, names_of(d.path@)).is_some()),
        r matches Ok(s) ==> s@ == old(ctx).bootstrap.divert_fn@ + "(["@ + js_divert_path(d.path@) + "])"@,
        r matches Err(e) ==> e@.len() == 1,
        r matches Err(e) ==> d.path@.len() >= 1 && found_prefix(old(ctx).paths, names_of(d.path@)) == 0 ==> e@[0].msg@
            == spec_format_diagnostic("\"$\" is not a path."@, seq![d.path@[0]@]),
        r matches Err(e) ==> d.path@.len() >= 1 && found_prefix(old(ctx).paths, names_of(d.path@)) > 0 ==> {
            let i = found_prefix(old(ctx).paths, names_of(d.path@));
            e@[0].msg@ == spec_format_diagnostic("\"$\" is not a sub-path of \"$\"."@, seq![d.path@[i]@, d.path@[i - 1]@])
        },
{
    if d.path.len() == 0 {
        let mut vars: Vec<&str> = Vec::new();
        vars.push("");
        let mut errs: Vec<Diagnostic> = Vec::new();
        errs.push(Diagnostic::error(&Diagnostics::unknown_path(), d.range, vars));
        proof {
            assert(str_views(vars@) =~= seq![""@]);
            assert(diag_views(errs@) =~= seq![diag_view(errs@[0])]);
        }
        return Err(errs);
    }
    proof {
        crate::compiler::path::law_resolve_found_prefix(ctx.paths, names_of(d.path@));
    }
    match ctx.paths.try_get_child_by_path(&d.path) {
        Ok(_) => {
            let ghost items = d.path@.map_values(|x: String| quoted(x@));
            let mut inner = String::new();
            let mut i: usize = 0;
            while i < d.path.len()
                invariant
                    0 <= i <= d.path@.len(),
                    items == d.path@.map_values(|x: String| quoted(x@)),
                    inner@ == joined(items.take(i as int), seq![',', ' ']),
                decreases d.path@.len() - i,
            {
                if i > 0 {
                    inner.append(", ");
                }
                inner.append(quote(d.path[i].as_str()).as_str());
                proof {
                    reveal_strlit(", ");
                    let t = items.take(i + 1);
                    assert(t.drop_last() =~= items.take(i as int));
                    assert(inner@ =~= joined(t, seq![',', ' ']));
                }
                i = i + 1;
            }
            assert(items.take(d.path@.len() as int) =~= items);
            let mut s = String::new();
            s.append(ctx.bootstrap.divert_fn);
            s.append("([");
            s.append(inner.as_str());
            s.append("])");
            Ok(s)
        },
        Err(ind) => {
            let mut errs: Vec<Diagnostic> = Vec::new();
            if ind == 0 {
                let mut vars: Vec<&str> = Vec::new();
                vars.push(d.path[0].as_str());
                assert(str_views(vars@) =~= seq![d.path@[0]@]);
                errs.push(Diagnostic::error(&Diagnostics::unknown_path(), d.range, vars));
            } else {
                let mut vars: Vec<&str> = Vec::new();
                vars.push(d.path[ind].as_str());
                vars.push(d.path[ind - 1].as_str());
                assert(str_views(vars@) =~= seq![d.path@[ind as int]@, d.path@[ind - 1]@]);
                errs.push(Diagnostic::error(&Diagnostics::unknown_child_path(), d.range, vars));
            }
            proof {
                assert(diag_views(errs@) =~= seq![diag_view(errs@[0])]);
            }
            Err(errs)
        },
    }
}

/// Inline elements: bold, italics and underline as tags, code in escaped
/// backticks, javascript as a call of the inline javascript function with
/// the rebuilt code and the variables it assigns.
pub fn js_inline(inline: &ASTInline, ctx: &mut JSCompilerContext) -> (r: Result<String, Vec<Diagnostic>>)
    ensures
        r matches Err(d) ==> d@.len() > 0,
        js_env(*final(ctx)) == js_env(*old(ctx)),
        (js_result(r), mv(final(ctx).magic_variables)) == jsv_inline(*inline, js_env(*old(ctx)), mv(old(ctx).magic_variables)),
    decreases inline, 0int,
{
    match &inline.kind {
        ASTInlineKind::Bold(text) => js_marked("<b>", "</b>", text, ctx),
        ASTInlineKind::Italics(text) => js_marked("<i>", "</i>", text, ctx),
        ASTInlineKind::Underline(text) => js_marked("<u>", "</u>", text, ctx),
        ASTInlineKind::Code(text) => js_marked("\\`", "\\`", text, ctx),
        ASTInlineKind::Join => {
            let s = String::new();
            proof {
                assert(s@ =~= Seq::<char>::empty());
            }
            Ok(s)
        },
        ASTInlineKind::Javascript(code) => js_javascript(inline, code, ctx),
    }
}

/// A text between an opening and a closing mark.
fn js_marked(open: &str, close: &str, text: &ASTText, ctx: &mut JSCompilerContext) -> (r: Result<String, Vec<Diagnostic>>)
    ensures
        r matches Err(d) ==> d@.len() > 0,
        js_env(*final(ctx)) == js_env(*old(ctx)),
        (js_result(r), mv(final(ctx).magic_variables)) == match jsv_text(*text, js_env(*old(ctx)), mv(old(ctx).magic_variables)) {
            (Ok(x), s1) => (Ok(open@ + x + close@), s1),
            (Err(e), s1) => (Err(e), s1),
        },
    decreases text, 3int,
{
    let t = match js_text(text, ctx) {
        Ok(t) => t,
        Err(e) => { return Err(e); },
    };
    let mut s = String::new();
    s.append(open);
    s.append(t.as_str());
    s.append(close);
    proof {
        assert(s@ =~= open@ + t@ + close@);
    }
    Ok(s)
}

/// Inline javascript: a call of the inline javascript function with the
/// rebuilt code and the assignments it makes, or the diagnostics of parsing it.
#[verifier::spinoff_prover]
#[verifier::rlimit(100)]
fn js_javascript(inline: &ASTInline, code: &String, ctx: &mut JSCompilerContext) -> (r: Result<String, Vec<Diagnostic>>)
    requires
        inline.kind == ASTInlineKind::Javascript(*code),
    ensures
        r matches Err(d) ==> d@.len() > 0,
        js_env(*final(ctx)) == js_env(*old(ctx)),
        (js_result(r), mv(final(ctx).magic_variables)) == jsv_javascript(code@, js_env(*old(ctx)), mv(old(ctx).magic_variables)),
{
    let ghost env = js_env(*ctx);
    let ghost st = mv(ctx.magic_variables);
    let text = code.as_str();
    proof {
        assert(text.spec_bytes() == encode_utf8(code@));
    }
    let (expressions, diagnostics, input) = JsParser::parse(text);
    proof {
        lemma_diag_views_len(diagnostics@);
    }
    if diagnostics.len() > 0 {
        return Err(diagnostics);
    }
    let mut magic = MagicVariableCollectorContext::new();
    std::mem::swap(&mut magic, &mut ctx.magic_variables);
    let ghost m0 = magic;
    let start_pos = Range::new(inline.range.start.saturating_add(1), inline.range.end.saturating_sub(1));
    let valid = magic.is_valid();
    let mut collector = MagicVarCollector::new(input, start_pos, magic);
    proof {
        assert(collector.collected@ =~= Seq::<(String, u8)>::empty());
        assert(gather_view(m0, collector.collected@) =~= GatherState { collected: seq![], ..st });
    }
    if valid {
        collector.run(&expressions);
    }
    let ghost g = gather_view(collector.ctx, collector.collected@);
    let gathered = gathered_list(&collector.collected);
    proof {
        assert(Seq::new(collector.collected@.len(), |k: int| gathered_item((collector.collected@[k].0@, collector.collected@[k].1)))
            =~= Seq::new(g.collected.len(), |k: int| gathered_item(g.collected[k])));
    }
    let MagicVarCollector { input, collected: _, start_pos: _, ctx: magic } = collector;
    ctx.magic_variables = magic;
    let rebuilt_code = Rebuilder::run(input, expressions.as_slice(), None);
    let mut s = String::new();
    s.append("${");
    s.append(ctx.bootstrap.inline_js_fn);
    push_char(&mut s, '(');
    s.append(quote(rebuilt_code.as_str()).as_str());
    push_char(&mut s, ',');
    s.append(gathered.as_str());
    s.append(")}");
    proof {
        let d = encode_utf8(code@);
        let p = parsed_js(d);
        assert(p.0 == expr_views(expressions@));
        lemma_expr_views(expressions@);
        assert(p.1.len() == 0);
        let g0 = GatherState { collected: seq![], ..st };
        assert(env.valid == valid);
        assert(g == (if env.valid { gs_run(g0, p.0, p.0.len() as int, d) } else { g0 }));
        assert(rebuilt_code@ == rebuilt_program(p.0, d, None));
        assert(mv(ctx.magic_variables) =~= GatherState { collected: seq![], ..g });
        assert(s@ =~= jsv_javascript(code@, env, st).0->Ok_0);
    }
    Ok(s)
}

/// The assignments gathered, as a javascript array of objects.
fn gathered_list(collected: &Vec<(String, u8)>) -> (s: String)
    ensures
        s@ == seq!['['] + joined(
            Seq::new(collected@.len(), |k: int| gathered_item((collected@[k].0@, collected@[k].1))),
            seq![','],
        ) + seq![']'],
{
    let mut gathered: Vec<String> = Vec::new();
    let mut i: usize = 0;
    while i < collected.len()
        invariant
            0 <= i <= collected@.len(),
            gathered@.len() == i,
            forall|k: int| 0 <= k < i ==> (#[trigger] gathered@[k])@ == gathered_item((collected@[k].0@, collected@[k].1)),
        decreases collected@.len() - i,
    {
        let mut item = String::new();
        item.append("{name: ");
        item.append(quote(collected[i].0.as_str()).as_str());
        item.append(", type: ");
        item.append(usize_to_string(collected[i].1 as usize).as_str());
        push_char(&mut item, '}');
        proof {
            assert(item@ =~= gathered_item((collected@[i as int].0@, collected@[i as int].1)));
        }
        gathered.push(item);
        i = i + 1;
    }
    let s = join_list(&gathered);
    proof {
        assert(gathered@.map_values(|x: String| x@) =~= Seq::new(
            collected@.len(),
            |k: int| gathered_item((collected@[k].0@, collected@[k].1)),
        ));
    }
    s
}

/// Text parts, each the plain text before an inline element and the element compiled.
fn js_parts(parts: &Vec<TextPart>, ctx: &mut JSCompilerContext) -> (r: Result<String, Vec<Diagnostic>>)
    ensures
        r matches Err(d) ==> d@.len() > 0,
        js_env(*final(ctx)) == js_env(*old(ctx)),
        (js_result(r), mv(final(ctx).magic_variables)) == jsv_parts(parts@, js_env(*old(ctx)), mv(old(ctx).magic_variables)),
    decreases parts, 1int,
{
    let ghost env = js_env(*ctx);
    let ghost st0 = mv(ctx.magic_variables);
    let mut result = String::new();
    let mut i: usize = 0;
    proof {
        assert(parts@.take(0) =~= Seq::<TextPart>::empty());
    }
    while i < parts.len()
        invariant
            0 <= i <= parts@.len(),
            env == js_env(*old(ctx)),
            st0 == mv(old(ctx).magic_variables),
            js_env(*ctx) == env,
            jsv_parts(parts@.take(i as int), env, st0) == (Ok::<Seq<char>, Seq<DiagView>>(result@), mv(ctx.magic_variables)),
        decreases parts@.len() - i,
    {
        proof {
            assert(decreases_to!(parts => parts@[i as int]));
            lemma_jsv_parts_step(parts@, i as int, env, st0);
        }
        let x = match js_inline(&parts[i].text, ctx) {
            Ok(x) => x,
            Err(e) => {
                proof {
                    lemma_jsv_parts_err(parts@, i + 1, env, st0);
                    assert(parts@.take(parts@.len() as int) =~= parts@);
                }
                return Err(e);
            },
        };
        result.append(parts[i].before.as_str());
        result.append(x.as_str());
        i = i + 1;
    }
    proof {
        assert(parts@.take(parts@.len() as int) =~= parts@);
    }
    Ok(result)
}

/// Text: its parts, each the plain text before an inline element and the
/// element compiled, then the tail.
pub fn js_text(text: &ASTText, ctx: &mut JSCompilerContext) -> (r: Result<String, Vec<Diagnostic>>)
    ensures
        r matches Err(d) ==> d@.len() > 0,
        text.parts@.len() == 0 ==> (r matches Ok(s) && s@ == text.tail@),
        js_env(*final(ctx)) == js_env(*old(ctx)),
        (js_result(r), mv(final(ctx).magic_variables)) == jsv_text(*text, js_env(*old(ctx)), mv(old(ctx).magic_variables)),
    decreases text, 2int,
{
    if text.parts.len() == 0 {
        return Ok(text.tail.clone());
    }
    let mut result = match js_parts(&text.parts, ctx) {
        Ok(x) => x,
        Err(e) => { return Err(e); },
    };
    result.append(text.tail.as_str());
    Ok(result)
}

/// A path as a call of the path function on an object with its title, its
/// canonical title, its sub-paths and its other children.
#[verifier::spinoff_prover]
#[verifier::rlimit(100)]
pub fn js_header(h: &ASTHeader, ctx: &mut JSCompilerContext) -> (r: Result<String, Vec<Diagnostic>>)
    ensures
        r matches Err(d) ==> d@.len() > 0,
        js_env(*final(ctx)) == js_env(*old(ctx)),
        (js_result(r), mv(final(ctx).magic_variables)) == jsv_header(*h, js_env(*old(ctx)), mv(old(ctx).magic_variables)),
    decreases h, 5int,
{
    let ghost env = js_env(*ctx);
    let ghost st0 = mv(ctx.magic_variables);
    let mut header_children: Vec<String> = Vec::new();
    let mut others: Vec<String> = Vec::new();
    let mut i: usize = 0;
    proof {
        assert(h.children@.take(0) =~= Seq::<ASTBlock>::empty());
        assert(header_children@.map_values(|x: String| x@) =~= Seq::<Seq<char>>::empty());
    }
    while i < h.children.len()
        invariant
            0 <= i <= h.children@.len(),
            env == js_env(*old(ctx)),
            st0 == mv(old(ctx).magic_variables),
            js_env(*ctx) == env,
            jsv_path_items(h.children@.take(i as int), env, st0) == (
                Ok::<Seq<Seq<char>>, Seq<DiagView>>(header_children@.map_values(|x: String| x@)),
                mv(ctx.magic_variables),
            ),
        decreases h.children@.len() - i,
    {
        proof {
            assert(decreases_to!(h => h.children@[i as int]));
            lemma_jsv_path_items_step(h.children@, i as int, env, st0);
        }
        if let ASTBlock::Header(header) = &h.children[i] {
            let x = match js_header(header, ctx) {
                Ok(x) => x,
                Err(e) => {
                    proof {
                        lemma_jsv_path_items_err(h.children@, i + 1, env, st0);
                        assert(h.children@.take(h.children@.len() as int) =~= h.children@);
                    }
                    return Err(e);
                },
            };
            let mut entry = Path::canonicalize_name(header.title.text.as_str());
            entry.append(": ");
            entry.append(x.as_str());
            let ghost before = header_children@;
            header_children.push(entry);
            proof {
                assert(header_children@.map_values(|x: String| x@) =~= before.map_values(|x: String| x@).push(
                    spec_canonicalize(header.title.text@) + ": "@ + x@,
                ));
            }
        }
        i = i + 1;
    }
    proof {
        assert(h.children@.take(h.children@.len() as int) =~= h.children@);
    }
    let ghost st1 = mv(ctx.magic_variables);
    let mut j: usize = 0;
    proof {
        assert(h.children@.take(0) =~= Seq::<ASTBlock>::empty());
        assert(others@.map_values(|x: String| x@) =~= Seq::<Seq<char>>::empty());
    }
    while j < h.children.len()
        invariant
            0 <= j <= h.children@.len(),
            env == js_env(*old(ctx)),
            st0 == mv(old(ctx).magic_variables),
            js_env(*ctx) == env,
            jsv_path_items(h.children@, env, st0) == (
                Ok::<Seq<Seq<char>>, Seq<DiagView>>(header_children@.map_values(|x: String| x@)),
                st1,
            ),
            jsv_other_items(h.children@.take(j as int), env, st1) == (
                Ok::<Seq<Seq<char>>, Seq<DiagView>>(others@.map_values(|x: String| x@)),
                mv(ctx.magic_variables),
            ),
        decreases h.children@.len() - j,
    {
        proof {
            assert(decreases_to!(h => h.children@[j as int]));
            lemma_jsv_other_items_step(h.children@, j as int, env, st1);
        }
        let child = &h.children[j];
        let is_header = if let ASTBlock::Header(_) = child { true } else { false };
        if !is_header {
            let x = match js_block(child, ctx) {
                Ok(x) => x,
                Err(e) => {
                    proof {
                        lemma_jsv_other_items_err(h.children@, j + 1, env, st1);
                        assert(h.children@.take(h.children@.len() as int) =~= h.children@);
                    }
                    return Err(e);
                },
            };
            let ghost before = others@;
            others.push(x);
            proof {
                assert(others@.map_values(|x: String| x@) =~= before.map_values(|x: String| x@).push(x@));
            }
        }
        j = j + 1;
    }
    proof {
        assert(h.children@.take(h.children@.len() as int) =~= h.children@);
    }
    let mut s = String::new();
    s.append(ctx.bootstrap.path_fn);
    s.append("({title:");
    s.append(quote(h.title.text.as_str()).as_str());
    s.append(",canonicalTitle:");
    s.append(quote(Path::canonicalize_name(h.title.text.as_str()).as_str()).as_str());
    s.append(",childPaths:");
    let children_obj = join_list(&header_children);
    let inner = strip_brackets(&children_obj);
    proof {
        lemma_strip_list(joined(header_children@.map_values(|x: String| x@), seq![',']));
    }
    push_char(&mut s, '{');
    s.append(inner.as_str());
    s.append("},children:");
    s.append(join_list(&others).as_str());
    s.append("})");
    proof {
        assert(s@ =~= jsv_header(*h, env, st0).0->Ok_0);
    }
    Ok(s)
}

/// A list written by `join_list` without its brackets.
fn strip_brackets(s: &String) -> (r: String)
    ensures
        r@ == (if s@.len() < 2 { Seq::<char>::empty() } else { s@.subrange(1, s@.len() - 1) }),
{
    let n = s.as_str().unicode_len();
    let mut r = String::new();
    if n < 2 {
        proof {
            assert(r@ =~= Seq::<char>::empty());
        }
        return r;
    }
    let mut i: usize = 1;
    while i < n - 1
        invariant
            n == s@.len(),
            1 <= i <= n - 1,
            r@ == s@.subrange(1, i as int),
        decreases n - 1 - i,
    {
        push_char(&mut r, s.as_str().get_char(i));
        proof {
            assert(r@ =~= s@.subrange(1, i + 1));
        }
        i = i + 1;
    }
    r
}

pub proof fn lemma_strip_list(j: Seq<char>)
    ensures
        (seq!['['] + j + seq![']']).subrange(1, (seq!['['] + j + seq![']']).len() - 1) == j,
{
    assert((seq!['['] + j + seq![']']).subrange(1, (seq!['['] + j + seq![']']).len() - 1) =~= j);
}

/// A paragraph as a call of the paragraph function with its text in backticks and its attributes.
pub fn js_paragraph(p: &ASTParagraph, ctx: &mut JSCompilerContext) -> (r: Result<String, Vec<Diagnostic>>)
    ensures
        r matches Err(d) ==> d@.len() > 0,
        js_env(*final(ctx)) == js_env(*old(ctx)),
        (js_result(r), mv(final(ctx).magic_variables)) == jsv_paragraph(*p, js_env(*old(ctx)), mv(old(ctx).magic_variables)),
    decreases p, 2int,
{
    let mut result = match js_parts(&p.parts, ctx) {
        Ok(x) => x,
        Err(e) => { return Err(e); },
    };
    result.append(p.tail.as_str());
    let mut s = String::new();
    s.append(ctx.bootstrap.paragraph_fn);
    s.append("(`");
    s.append(result.as_str());
    s.append("`,");
    s.append(compile_attributes(&p.attributes).as_str());
    push_char(&mut s, ')');
    proof {
        assert(s@ =~= jsv_paragraph(*p, js_env(*old(ctx)), mv(old(ctx).magic_variables)).0->Ok_0);
    }
    Ok(s)
}

/// A choice as an object with its text, quoted, and its children.
pub fn js_choice(c: &ASTChoice, ctx: &mut JSCompilerContext) -> (r: Result<String, Vec<Diagnostic>>)
    ensures
        r matches Err(d) ==> d@.len() > 0,
        js_env(*final(ctx)) == js_env(*old(ctx)),
        (js_result(r), mv(final(ctx).magic_variables)) == jsv_choice(*c, js_env(*old(ctx)), mv(old(ctx).magic_variables)),
    decreases c, 3int,
{
    let text = match js_text(&c.text, ctx) {
        Ok(x) => x,
        Err(e) => { return Err(e); },
    };
    let children = match js_blocks(&c.children, ctx) {
        Ok(x) => x,
        Err(e) => { return Err(e); },
    };
    let mut s = String::new();
    s.append("{text:");
    s.append(quote(text.as_str()).as_str());
    s.append(",children:");
    s.append(children.as_str());
    push_char(&mut s, '}');
    proof {
        assert(s@ =~= "{text:"@ + quoted(text@) + ",children:"@ + children@ + seq!['}']);
    }
    Ok(s)
}

/// A choice group as a call of the choice group function.
#[verifier::spinoff_prover]
#[verifier::rlimit(100)]
pub fn js_choice_group(g: &ASTChoiceGroup, ctx: &mut JSCompilerContext) -> (r: Result<String, Vec<Diagnostic>>)
    ensures
        r matches Err(d) ==> d@.len() > 0,
        js_env(*final(ctx)) == js_env(*old(ctx)),
        (js_result(r), mv(final(ctx).magic_variables)) == jsv_choice_group(*g, js_env(*old(ctx)), mv(old(ctx).magic_variables)),
    decreases g, 5int,
{
    let ghost env = js_env(*ctx);
    let ghost st0 = mv(ctx.magic_variables);
    let mut choices: Vec<String> = Vec::new();
    let mut i: usize = 0;
    proof {
        assert(g.choices@.take(0) =~= Seq::<ASTChoice>::empty());
        assert(choices@.map_values(|x: String| x@) =~= Seq::<Seq<char>>::empty());
    }
    while i < g.choices.len()
        invariant
            0 <= i <= g.choices@.len(),
            env == js_env(*old(ctx)),
            st0 == mv(old(ctx).magic_variables),
            js_env(*ctx) == env,
            jsv_choice_items(g.choices@.take(i as int), env, st0) == (
                Ok::<Seq<Seq<char>>, Seq<DiagView>>(choices@.map_values(|x: String| x@)),
                mv(ctx.magic_variables),
            ),
        decreases g.choices@.len() - i,
    {
        proof {
            assert(decreases_to!(g => g.choices@[i as int]));
            lemma_jsv_choice_items_step(g.choices@, i as int, env, st0);
        }
        let x = match js_choice(&g.choices[i], ctx) {
            Ok(x) => x,
            Err(e) => {
                proof {
                    lemma_jsv_choice_items_err(g.choices@, i + 1, env, st0);
                    assert(g.choices@.take(g.choices@.len() as int) =~= g.choices@);
                }
                return Err(e);
            },
        };
        let ghost before = choices@;
        choices.push(x);
        proof {
            assert(choices@.map_values(|x: String| x@) =~= before.map_values(|x: String| x@).push(x@));
        }
        i = i + 1;
    }
    proof {
        assert(g.choices@.take(g.choices@.len() as int) =~= g.choices@);
    }
    let mut s = String::new();
    s.append(ctx.bootstrap.choice_group_fn);
    push_char(&mut s, '(');
    s.append(join_list(&choices).as_str());
    s.append(", ");
    s.append(compile_attributes(&g.attributes).as_str());
    push_char(&mut s, ')');
    proof {
        assert(s@ =~= jsv_choice_group(*g, env, st0).0->Ok_0);
    }
    Ok(s)
}

/// An arm of a match: its rebuilt code, quoted, and its children.
fn js_arm(choice: &ASTChoice, ctx: &mut JSCompilerContext) -> (r: Result<String, Vec<Diagnostic>>)
    ensures
        r matches Err(d) ==> d@.len() > 0,
        js_env(*final(ctx)) == js_env(*old(ctx)),
        (js_result(r), mv(final(ctx).magic_variables)) == jsv_arm(*choice, js_env(*old(ctx)), mv(old(ctx).magic_variables)),
    decreases choice, 4int,
{
    proof {
        assert(decreases_to!(choice => choice.children));
    }
    let raw = if choice.text.parts.len() > 0 {
        choice.text.parts[0].text.to_raw()
    } else {
        String::new()
    };
    proof {
        assert(raw@ == arm_code(*choice));
    }
    let code = match transform_js(raw.as_str(), None) {
        Ok(x) => x,
        Err(e) => { return Err(e); },
    };
    let children = match js_blocks(&choice.children, ctx) {
        Ok(x) => x,
        Err(e) => { return Err(e); },
    };
    let mut item = String::new();
    item.append("{text:");
    item.append(quote(code.as_str()).as_str());
    item.append(", children:");
    item.append(children.as_str());
    push_char(&mut item, '}');
    proof {
        assert(item@ =~= "{text:"@ + quoted(code@) + ", children:"@ + children@ + seq!['}']);
    }
    Ok(item)
}

/// A match as a call of the match function with the rebuilt condition, the
/// arms, the direct children and the modifier.
#[verifier::spinoff_prover]
#[verifier::rlimit(100)]
pub fn js_match(m: &ASTMatch, ctx: &mut JSCompilerContext) -> (r: Result<String, Vec<Diagnostic>>)
    ensures
        r matches Err(d) ==> d@.len() > 0,
        js_env(*final(ctx)) == js_env(*old(ctx)),
        (js_result(r), mv(final(ctx).magic_variables)) == jsv_match(*m, js_env(*old(ctx)), mv(old(ctx).magic_variables)),
    decreases m, 5int,
{
    let ghost env = js_env(*ctx);
    let ghost st0 = mv(ctx.magic_variables);
    let mut choices: Vec<String> = Vec::new();
    let mut i: usize = 0;
    proof {
        assert(m.choices@.take(0) =~= Seq::<ASTChoice>::empty());
        assert(choices@.map_values(|x: String| x@) =~= Seq::<Seq<char>>::empty());
    }
    while i < m.choices.len()
        invariant
            0 <= i <= m.choices@.len(),
            env == js_env(*old(ctx)),
            st0 == mv(old(ctx).magic_variables),
            js_env(*ctx) == env,
            jsv_arm_items(m.choices@.take(i as int), env, st0) == (
                Ok::<Seq<Seq<char>>, Seq<DiagView>>(choices@.map_values(|x: String| x@)),
                mv(ctx.magic_variables),
            ),
        decreases m.choices@.len() - i,
    {
        proof {
            assert(decreases_to!(m => m.choices@[i as int]));
            lemma_jsv_arm_items_step(m.choices@, i as int, env, st0);
        }
        let x = match js_arm(&m.choices[i], ctx) {
            Ok(x) => x,
            Err(e) => {
                proof {
                    lemma_jsv_arm_items_err(m.choices@, i + 1, env, st0);
                    assert(m.choices@.take(m.choices@.len() as int) =~= m.choices@);
                }
                return Err(e);
            },
        };
        let ghost before = choices@;
        choices.push(x);
        proof {
            assert(choices@.map_values(|x: String| x@) =~= before.map_values(|x: String| x@).push(x@));
        }
        i = i + 1;
    }
    proof {
        assert(m.choices@.take(m.choices@.len() as int) =~= m.choices@);
    }
    let condition = match transform_js(m.matched.as_str(), None) {
        Ok(x) => x,
        Err(e) => { return Err(e); },
    };
    let direct = match js_blocks(&m.direct_children, ctx) {
        Ok(x) => x,
        Err(e) => { return Err(e); },
    };
    let mut s = String::new();
    s.append(ctx.bootstrap.match_fn);
    push_char(&mut s, '(');
    s.append(quote(condition.as_str()).as_str());
    push_char(&mut s, ',');
    s.append(join_list(&choices).as_str());
    push_char(&mut s, ',');
    s.append(direct.as_str());
    push_char(&mut s, ',');
    match &m.kind {
        Some(kind) => s.append(kind.as_str()),
        None => s.append("\"\""),
    }
    push_char(&mut s, ')');
    proof {
        assert(s@ =~= jsv_match(*m, env, st0).0->Ok_0);
    }
    Ok(s)
}

/// A block, by its kind.
pub fn js_block(b: &ASTBlock, ctx: &mut JSCompilerContext) -> (r: Result<String, Vec<Diagnostic>>)
    ensures
        r matches Err(d) ==> d@.len() > 0,
        js_env(*final(ctx)) == js_env(*old(ctx)),
        (js_result(r), mv(final(ctx).magic_variables)) == jsv_block(*b, js_env(*old(ctx)), mv(old(ctx).magic_variables)),
    decreases b, 6int,
{
    match b {
        ASTBlock::ChoiceGroup(block) => js_choice_group(block, ctx),
        ASTBlock::CodeBlock(block) => Ok(js_code_block_of(block, ctx.bootstrap.codeblock_fn)),
        ASTBlock::Header(block) => js_header(block, ctx),
        ASTBlock::Match(block) => js_match(block, ctx),
        ASTBlock::Paragraph(block) => js_paragraph(block, ctx),
        ASTBlock::Divert(divert) => js_divert(divert, ctx),
    }
}

/// Blocks as a javascript array; the first that fails gives its diagnostics.
#[verifier::spinoff_prover]
#[verifier::rlimit(100)]
pub fn js_blocks(v: &Vec<ASTBlock>, ctx: &mut JSCompilerContext) -> (r: Result<String, Vec<Diagnostic>>)
    ensures
        r matches Err(d) ==> d@.len() > 0,
        js_env(*final(ctx)) == js_env(*old(ctx)),
        (js_result(r), mv(final(ctx).magic_variables)) == jsv_blocks(v@, js_env(*old(ctx)), mv(old(ctx).magic_variables)),
    decreases v, 7int,
{
    let ghost env = js_env(*ctx);
    let ghost st0 = mv(ctx.magic_variables);
    let mut items: Vec<String> = Vec::new();
    let mut i: usize = 0;
    proof {
        assert(v@.take(0) =~= Seq::<ASTBlock>::empty());
        assert(items@.map_values(|x: String| x@) =~= Seq::<Seq<char>>::empty());
    }
    while i < v.len()
        invariant
            0 <= i <= v@.len(),
            env == js_env(*old(ctx)),
            st0 == mv(old(ctx).magic_variables),
            js_env(*ctx) == env,
            jsv_block_items(v@.take(i as int), env, st0) == (
                Ok::<Seq<Seq<char>>, Seq<DiagView>>(items@.map_values(|x: String| x@)),
                mv(ctx.magic_variables),
            ),
        decreases v@.len() - i,
    {
        proof {
            assert(decreases_to!(v => v@[i as int]));
            lemma_jsv_block_items_step(v@, i as int, env, st0);
        }
        let x = match js_block(&v[i], ctx) {
            Ok(x) => x,
            Err(e) => {
                proof {
                    lemma_jsv_block_items_err(v@, i + 1, env, st0);
                    assert(v@.take(v@.len() as int) =~= v@);
                }
                return Err(e);
            },
        };
        let ghost before = items@;
        items.push(x);
        proof {
            assert(items@.map_values(|x: String| x@) =~= before.map_values(|x: String| x@).push(x@));
        }
        i = i + 1;
    }
    proof {
        assert(v@.take(v@.len() as int) =~= v@);
    }
    Ok(join_list(&items))
}

pub proof fn lemma_jsv_parts_step(v: Seq<TextPart>, i: int, env: JsEnv, st: GatherState)
    requires
        0 <= i < v.len(),
    ensures
        jsv_parts(v.take(i + 1), env, st) == match jsv_parts(v.take(i), env, st) {
            (Err(e), s1) => (Err(e), s1),
            (Ok(acc), s1) => match jsv_inline(v[i].text, env, s1) {
                (Err(e), s2) => (Err(e), s2),
                (Ok(x), s2) => (Ok(acc + v[i].before@ + x), s2),
            },
        },
{
    assert(v.take(i + 1).drop_last() =~= v.take(i));
    assert(v.take(i + 1)[i] == v[i]);
}

pub proof fn lemma_jsv_parts_err(v: Seq<TextPart>, n: int, env: JsEnv, st: GatherState)
    requires
        0 <= n <= v.len(),
        jsv_parts(v.take(n), env, st).0 is Err,
    ensures
        jsv_parts(v, env, st) == jsv_parts(v.take(n), env, st),
    decreases v.len() - n,
{
    if n == v.len() {
        assert(v.take(n) =~= v);
    } else {
        assert(v.take(n + 1).drop_last() =~= v.take(n));
        lemma_jsv_parts_err(v, n + 1, env, st);
    }
}

pub proof fn lemma_jsv_choice_items_step(v: Seq<ASTChoice>, i: int, env: JsEnv, st: GatherState)
    requires
        0 <= i < v.len(),
    ensures
        jsv_choice_items(v.take(i + 1), env, st) == match jsv_choice_items(v.take(i), env, st) {
            (Err(e), s1) => (Err(e), s1),
            (Ok(acc), s1) => match jsv_choice(v[i], env, s1) {
                (Err(e), s2) => (Err(e), s2),
                (Ok(x), s2) => (Ok(acc.push(x)), s2),
            },
        },
{
    assert(v.take(i + 1).drop_last() =~= v.take(i));
    assert(v.take(i + 1)[i] == v[i]);
}

pub proof fn lemma_jsv_choice_items_err(v: Seq<ASTChoice>, n: int, env: JsEnv, st: GatherState)
    requires
        0 <= n <= v.len(),
        jsv_choice_items(v.take(n), env, st).0 is Err,
    ensures
        jsv_choice_items(v, env, st) == jsv_choice_items(v.take(n), env, st),
    decreases v.len() - n,
{
    if n == v.len() {
        assert(v.take(n) =~= v);
    } else {
        assert(v.take(n + 1).drop_last() =~= v.take(n));
        lemma_jsv_choice_items_err(v, n + 1, env, st);
    }
}

pub proof fn lemma_jsv_arm_items_step(v: Seq<ASTChoice>, i: int, env: JsEnv, st: GatherState)
    requires
        0 <= i < v.len(),
    ensures
        jsv_arm_items(v.take(i + 1), env, st) == match jsv_arm_items(v.take(i), env, st) {
            (Err(e), s1) => (Err(e), s1),
            (Ok(acc), s1) => match jsv_arm(v[i], env, s1) {
                (Err(e), s2) => (Err(e), s2),
                (Ok(x), s2) => (Ok(acc.push(x)), s2),
            },
        },
{
    assert(v.take(i + 1).drop_last() =~= v.take(i));
    assert(v.take(i + 1)[i] == v[i]);
}

pub proof fn lemma_jsv_arm_items_err(v: Seq<ASTChoice>, n: int, env: JsEnv, st: GatherState)
    requires
        0 <= n <= v.len(),
        jsv_arm_items(v.take(n), env, st).0 is Err,
    ensures
        jsv_arm_items(v, env, st) == jsv_arm_items(v.take(n), env, st),
    decreases v.len() - n,
{
    if n == v.len() {
        assert(v.take(n) =~= v);
    } else {
        assert(v.take(n + 1).drop_last() =~= v.take(n));
        lemma_jsv_arm_items_err(v, n + 1, env, st);
    }
}

pub proof fn lemma_jsv_path_items_step(v: Seq<ASTBlock>, i: int, env: JsEnv, st: GatherState)
    requires
        0 <= i < v.len(),
    ensures
        jsv_path_items(v.take(i + 1), env, st) == match jsv_path_items(v.take(i), env, st) {
            (Err(e), s1) => (Err(e), s1),
            (Ok(acc), s1) => match v[i] {
                ASTBlock::Header(h) => match jsv_header(h, env, s1) {
                    (Err(e), s2) => (Err(e), s2),
                    (Ok(x), s2) => (Ok(acc.push(spec_canonicalize(h.title.text@) + ": "@ + x)), s2),
                },
                _ => (Ok(acc), s1),
            },
        },
{
    assert(v.take(i + 1).drop_last() =~= v.take(i));
    assert(v.take(i + 1)[i] == v[i]);
}

pub proof fn lemma_jsv_path_items_err(v: Seq<ASTBlock>, n: int, env: JsEnv, st: GatherState)
    requires
        0 <= n <= v.len(),
        jsv_path_items(v.take(n), env, st).0 is Err,
    ensures
        jsv_path_items(v, env, st) == jsv_path_items(v.take(n), env, st),
    decreases v.len() - n,
{
    if n == v.len() {
        assert(v.take(n) =~= v);
    } else {
        assert(v.take(n + 1).drop_last() =~= v.take(n));
        lemma_jsv_path_items_err(v, n + 1, env, st);
    }
}

pub proof fn lemma_jsv_other_items_step(v: Seq<ASTBlock>, i: int, env: JsEnv, st: GatherState)
    requires
        0 <= i < v.len(),
    ensures
        jsv_other_items(v.take(i + 1), env, st) == match jsv_other_items(v.take(i), env, st) {
            (Err(e), s1) => (Err(e), s1),
            (Ok(acc), s1) => match v[i] {
                ASTBlock::Header(_) => (Ok(acc), s1),
                _ => match jsv_block(v[i], env, s1) {
                    (Err(e), s2) => (Err(e), s2),
                    (Ok(x), s2) => (Ok(acc.push(x)), s2),
                },
            },
        },
{
    assert(v.take(i + 1).drop_last() =~= v.take(i));
    assert(v.take(i + 1)[i] == v[i]);
}

pub proof fn lemma_jsv_other_items_err(v: Seq<ASTBlock>, n: int, env: JsEnv, st: GatherState)
    requires
        0 <= n <= v.len(),
        jsv_other_items(v.take(n), env, st).0 is Err,
    ensures
        jsv_other_items(v, env, st) == jsv_other_items(v.take(n), env, st),
    decreases v.len() - n,
{
    if n == v.len() {
        assert(v.take(n) =~= v);
    } else {
        assert(v.take(n + 1).drop_last() =~= v.take(n));
        lemma_jsv_other_items_err(v, n + 1, env, st);
    }
}

pub proof fn lemma_jsv_block_items_step(v: Seq<ASTBlock>, i: int, env: JsEnv, st: GatherState)
    requires
        0 <= i < v.len(),
    ensures
        jsv_block_items(v.take(i + 1), env, st) == match jsv_block_items(v.take(i), env, st) {
            (Err(e), s1) => (Err(e), s1),
            (Ok(acc), s1) => match jsv_block(v[i], env, s1) {
                (Err(e), s2) => (Err(e), s2),
                (Ok(x), s2) => (Ok(acc.push(x)), s2),
            },
        },
{
    assert(v.take(i + 1).drop_last() =~= v.take(i));
    assert(v.take(i + 1)[i] == v[i]);
}

pub proof fn lemma_jsv_block_items_err(v: Seq<ASTBlock>, n: int, env: JsEnv, st: GatherState)
    requires
        0 <= n <= v.len(),
        jsv_block_items(v.take(n), env, st).0 is Err,
    ensures
        jsv_block_items(v, env, st) == jsv_block_items(v.take(n), env, st),
    decreases v.len() - n,
{
    if n == v.len() {
        assert(v.take(n) =~= v);
    } else {
        assert(v.take(n + 1).drop_last() =~= v.take(n));
        lemma_jsv_block_items_err(v, n + 1, env, st);
    }
}

impl JSCompilable for ASTInline {
    open spec fn js_compiled(&self, env: JsEnv, st: GatherState) -> (Result<Seq<char>, Seq<DiagView>>, GatherState) {
        jsv_inline(*self, env, st)
    }

    fn compile(&self, ctx: &mut JSCompilerContext) -> (r: Result<String, Vec<Diagnostic>>) {
        js_inline(self, ctx)
    }
}

impl JSCompilable for ASTText {
    open spec fn js_compiled(&self, env: JsEnv, st: GatherState) -> (Result<Seq<char>, Seq<DiagView>>, GatherState) {
        jsv_text(*self, env, st)
    }

    fn compile(&self, ctx: &mut JSCompilerContext) -> (r: Result<String, Vec<Diagnostic>>) {
        js_text(self, ctx)
    }
}

impl JSCompilable for ASTHeader {
    open spec fn js_compiled(&self, env: JsEnv, st: GatherState) -> (Result<Seq<char>, Seq<DiagView>>, GatherState) {
        jsv_header(*self, env, st)
    }

    fn compile(&self, ctx: &mut JSCompilerContext) -> (r: Result<String, Vec<Diagnostic>>) {
        js_header(self, ctx)
    }
}

impl JSCompilable for ASTParagraph {
    open spec fn js_compiled(&self, env: JsEnv, st: GatherState) -> (Result<Seq<char>, Seq<DiagView>>, GatherState) {
        jsv_paragraph(*self, env, st)
    }

    fn compile(&self, ctx: &mut JSCompilerContext) -> (r: Result<String, Vec<Diagnostic>>) {
        js_paragraph(self, ctx)
    }
}

impl JSCompilable for ASTCodeBlock {
    open spec fn js_compiled(&self, env: JsEnv, st: GatherState) -> (Result<Seq<char>, Seq<DiagView>>, GatherState) {
        (Ok(js_code_block(*self, env.bootstrap.codeblock_fn@)), st)
    }

    fn compile(&self, ctx: &mut JSCompilerContext) -> (r: Result<String, Vec<Diagnostic>>) {
        Ok(js_code_block_of(self, ctx.bootstrap.codeblock_fn))
    }
}

impl JSCompilable for ASTDivert {
    open spec fn js_compiled(&self, env: JsEnv, st: GatherState) -> (Result<Seq<char>, Seq<DiagView>>, GatherState) {
        (jsv_divert(*self, env), st)
    }

    fn compile(&self, ctx: &mut JSCompilerContext) -> (r: Result<String, Vec<Diagnostic>>) {
        js_divert(self, ctx)
    }
}

impl JSCompilable for ASTMatch {
    open spec fn js_compiled(&self, env: JsEnv, st: GatherState) -> (Result<Seq<char>, Seq<DiagView>>, GatherState) {
        jsv_match(*self, env, st)
    }

    fn compile(&self, ctx: &mut JSCompilerContext) -> (r: Result<String, Vec<Diagnostic>>) {
        js_match(self, ctx)
    }
}

impl JSCompilable for ASTChoiceGroup {
    open spec fn js_compiled(&self, env: JsEnv, st: GatherState) -> (Result<Seq<char>, Seq<DiagView>>, GatherState) {
        jsv_choice_group(*self, env, st)
    }

    fn compile(&self, ctx: &mut JSCompilerContext) -> (r: Result<String, Vec<Diagnostic>>) {
        js_choice_group(self, ctx)
    }
}

impl JSCompilable for ASTChoice {
    open spec fn js_compiled(&self, env: JsEnv, st: GatherState) -> (Result<Seq<char>, Seq<DiagView>>, GatherState) {
        jsv_choice(*self, env, st)
    }

    fn compile(&self, ctx: &mut JSCompilerContext) -> (r: Result<String, Vec<Diagnostic>>) {
        js_choice(self, ctx)
    }
}

impl JSCompilable for ASTBlock {
    open spec fn js_compiled(&self, env: JsEnv, st: GatherState) -> (Result<Seq<char>, Seq<DiagView>>, GatherState) {
        jsv_block(*self, env, st)
    }

    fn compile(&self, ctx: &mut JSCompilerContext) -> (r: Result<String, Vec<Diagnostic>>) {
        js_block(self, ctx)
    }
}

impl JSCompilable for Vec<ASTBlock> {
    open spec fn js_compiled(&self, env: JsEnv, st: GatherState) -> (Result<Seq<char>, Seq<DiagView>>, GatherState) {
        jsv_blocks(self@, env, st)
    }

    fn compile(&self, ctx: &mut JSCompilerContext) -> (r: Result<String, Vec<Diagnostic>>) {
        js_blocks(self, ctx)
    }
}

impl JSCompilable for Vec<ASTAttribute> {
    open spec fn js_compiled(&self, env: JsEnv, st: GatherState) -> (Result<Seq<char>, Seq<DiagView>>, GatherState) {
        (Ok(js_attributes(self@)), st)
    }

    fn compile(&self, ctx: &mut JSCompilerContext) -> (r: Result<String, Vec<Diagnostic>>) {
        Ok(compile_attributes(self))
    }
}

} // verus!
