use vstd::prelude::*;
use vstd::string::*;
use crate::diagnostics::diagnostic::{Diagnostic, diag_views, lemma_diag_views_len};
use crate::js_parser::parser::{start_state};
use crate::js_parser::parser::grammar::p_all;
use crate::js_parser::tokenizer::DiagView;
use crate::diagnostics::location::Range;
use crate::js_parser::input::InputPresenter;
use crate::js_parser::parser::JsParser;
use crate::js_parser::parser::ast::{ASTAccessContent, ASTExpression, ExprView, expr_view, expr_views, lemma_expr_views, wf_expr};
use crate::js_parser::tokenizer::{TokenKind, op_text};
use crate::parser::ast::model::str_eq;
use crate::strings::lossy_utf8;

verus! {

/// The text of the input in `start..end`.
pub open spec fn slice_text(d: Seq<u8>, start: int, end: int) -> Seq<char> {
    lossy_utf8(d.subrange(start, end))
}

/// A name as rebuilt: with the prefix and a dot before it, unless it is the
/// prefix itself, `window`, `location` or `document`.
pub open spec fn rebuilt_ident(d: Seq<u8>, r: Range<usize>, prefix: Option<Seq<char>>) -> Seq<char> {
    let t = slice_text(d, r.start as int, r.end as int);
    match prefix {
        Some(p) => if t != p && t != "window"@ && t != "location"@ && t != "document"@ {
            p + seq!['.'] + t
        } else {
            t
        },
        None => t,
    }
}

/// The javascript an expression is rebuilt into.
pub open spec fn rebuilt(e: ExprView, d: Seq<u8>, prefix: Option<Seq<char>>) -> Seq<char>
    decreases e, 0int,
{
    match e {
        ExprView::String(r) => seq!['\\', '"'] + slice_text(d, r.start + 1, r.end - 1) + seq!['\\', '"'],
        ExprView::Number(r) => slice_text(d, r.start as int, r.end as int),
        ExprView::Boolean(r) => slice_text(d, r.start as int, r.end as int),
        ExprView::Identifier(r) => rebuilt_ident(d, r, prefix),
        ExprView::Binary(op, l, r, _) => rebuilt(*l, d, prefix) + op_text(op) + rebuilt(*r, d, prefix),
        ExprView::Unary(op, x, _) => op_text(op) + rebuilt(*x, d, prefix),
        ExprView::AccessName(name, x, _) => rebuilt_base(*x, d, prefix) + seq!['.'] + slice_text(
            d,
            name.start as int,
            name.end as int,
        ),
        ExprView::AccessExpr(a, x, _) => rebuilt_base(*x, d, prefix) + seq!['['] + rebuilt(*a, d, prefix) + seq![']'],
        ExprView::ArrayLit(els, _) => seq!['['] + rebuilt_list(els, d, prefix) + seq![']'],
        ExprView::New(x, args, _) => seq!['n', 'e', 'w', ' '] + rebuilt(*x, d, prefix) + seq!['('] + rebuilt_list(
            args,
            d,
            prefix,
        ) + seq![')'],
        ExprView::Call(x, args, _) => rebuilt(*x, d, prefix) + seq!['('] + rebuilt_list(args, d, prefix) + seq![')'],
        ExprView::Ternary(c, l, r, _) => rebuilt(*c, d, prefix) + seq!['?'] + rebuilt(*l, d, prefix) + seq![':']
            + rebuilt(*r, d, prefix),
    }
}

/// A conditional expression is rebuilt with its parts in place: the condition,
/// `?`, the branch taken when the condition holds (the one written right
/// after `?`), `:`, and the other branch. So the rebuilt code starts with the
/// rebuilt condition and `?`, the then-branch comes before the else-branch,
/// and the two are told apart by the `:` between them.
pub proof fn law_rebuilt_ternary_keeps_branches(
    c: ExprView,
    then_branch: ExprView,
    else_branch: ExprView,
    r: Range<usize>,
    d: Seq<u8>,
    prefix: Option<Seq<char>>,
)
    ensures
        ({
            let out = rebuilt(ExprView::Ternary(Box::new(c), Box::new(then_branch), Box::new(else_branch), r), d, prefix);
            let k = rebuilt(c, d, prefix).len() as int;
            let m = rebuilt(then_branch, d, prefix).len() as int;
            &&& out.len() == k + 1 + m + 1 + rebuilt(else_branch, d, prefix).len()
            &&& out.subrange(0, k) == rebuilt(c, d, prefix)
            &&& out[k] == '?'
            &&& out.subrange(k + 1, k + 1 + m) == rebuilt(then_branch, d, prefix)
            &&& out[k + 1 + m] == ':'
            &&& out.subrange(k + 2 + m, out.len() as int) == rebuilt(else_branch, d, prefix)
        }),
{
    let out = rebuilt(ExprView::Ternary(Box::new(c), Box::new(then_branch), Box::new(else_branch), r), d, prefix);
    let a = rebuilt(c, d, prefix);
    let b = rebuilt(then_branch, d, prefix);
    let e = rebuilt(else_branch, d, prefix);
    assert(out == a + seq!['?'] + b + seq![':'] + e);
    let k = a.len() as int;
    let m = b.len() as int;
    assert(out.subrange(0, k) =~= a);
    assert(out.subrange(k + 1, k + 1 + m) =~= b);
    assert(out.subrange(k + 2 + m, out.len() as int) =~= e);
}

/// A binary expression is rebuilt with its operands in place: the rebuilt
/// left operand, the operator, then the rebuilt right operand.
pub proof fn law_rebuilt_binary_operands(
    op: TokenKind,
    l: ExprView,
    r: ExprView,
    rg: Range<usize>,
    d: Seq<u8>,
    prefix: Option<Seq<char>>,
)
    ensures
        ({
            let out = rebuilt(ExprView::Binary(op, Box::new(l), Box::new(r), rg), d, prefix);
            let k = rebuilt(l, d, prefix).len() as int;
            let o = op_text(op).len() as int;
            &&& out.len() == k + o + rebuilt(r, d, prefix).len()
            &&& out.subrange(0, k) == rebuilt(l, d, prefix)
            &&& out.subrange(k, k + o) == op_text(op)
            &&& out.subrange(k + o, out.len() as int) == rebuilt(r, d, prefix)
        }),
{
    let out = rebuilt(ExprView::Binary(op, Box::new(l), Box::new(r), rg), d, prefix);
    let a = rebuilt(l, d, prefix);
    let b = rebuilt(r, d, prefix);
    assert(out == a + op_text(op) + b);
    let k = a.len() as int;
    let o = op_text(op).len() as int;
    assert(out.subrange(0, k) =~= a);
    assert(out.subrange(k, k + o) =~= op_text(op));
    assert(out.subrange(k + o, out.len() as int) =~= b);
}

/// Arguments and array elements are rebuilt one by one, in order, with a
/// comma between each two: none gives nothing, one gives it rebuilt, and one
/// more at the end adds `,` and that one rebuilt.
pub proof fn law_rebuilt_list_items(es: Seq<ExprView>, x: ExprView, d: Seq<u8>, prefix: Option<Seq<char>>)
    ensures
        rebuilt_list(seq![], d, prefix) == Seq::<char>::empty(),
        rebuilt_list(seq![x], d, prefix) == rebuilt(x, d, prefix),
        es.len() > 0 ==> rebuilt_list(es.push(x), d, prefix) == rebuilt_list(es, d, prefix) + seq![','] + rebuilt(x, d, prefix),
{
    if es.len() > 0 {
        assert(es.push(x).drop_last() =~= es);
    }
}

/// A call is rebuilt as the rebuilt callee followed by its arguments in
/// parentheses.
pub proof fn law_rebuilt_call(f: ExprView, args: Seq<ExprView>, rg: Range<usize>, d: Seq<u8>, prefix: Option<Seq<char>>)
    ensures
        rebuilt(ExprView::Call(Box::new(f), args, rg), d, prefix) == rebuilt(f, d, prefix) + seq!['('] + rebuilt_list(args, d, prefix)
            + seq![')'],
{
}

/// The object of a property access as rebuilt: a name as a name, anything else as itself.
pub open spec fn rebuilt_base(x: ExprView, d: Seq<u8>, prefix: Option<Seq<char>>) -> Seq<char>
    decreases x, 1int,
{
    match x {
        ExprView::Identifier(r) => rebuilt_ident(d, r, prefix),
        _ => rebuilt(x, d, prefix),
    }
}

/// The expressions rebuilt and joined with commas.
pub open spec fn rebuilt_list(es: Seq<ExprView>, d: Seq<u8>, prefix: Option<Seq<char>>) -> Seq<char>
    decreases es, 0int,
{
    if es.len() == 0 {
        seq![]
    } else if es.len() == 1 {
        rebuilt(es[0], d, prefix)
    } else {
        rebuilt_list(es.drop_last(), d, prefix) + seq![','] + rebuilt(es.last(), d, prefix)
    }
}

/// The expressions rebuilt and joined with semicolons.
pub open spec fn rebuilt_program(es: Seq<ExprView>, d: Seq<u8>, prefix: Option<Seq<char>>) -> Seq<char>
    decreases es.len(),
{
    if es.len() == 0 {
        seq![]
    } else if es.len() == 1 {
        rebuilt(es[0], d, prefix)
    } else {
        rebuilt_program(es.drop_last(), d, prefix) + seq![';'] + rebuilt(es.last(), d, prefix)
    }
}

pub open spec fn opt_view(o: Option<String>) -> Option<Seq<char>> {
    match o {
        Some(s) => Some(s@),
        None => None,
    }
}

/// Receives JSParsed content, returns a **valid**
/// javascript string which can be evaled.
pub struct Rebuilder<'a> {
    input: InputPresenter<'a>,
    /// Prefixes all global identifiers with a property access,
    /// so for example if this property is set to "this",
    /// All variables will have `this.` before them.
    /// This excludes variables like "window", "document" and "location"
    prefix_idents: Option<String>,
}

impl<'a> Rebuilder<'a> {
    /// Rebuilds the expressions, joined with semicolons.
    pub fn run(input: InputPresenter<'a>, exps: &[ASTExpression], prefix_idents: Option<String>) -> (s: String)
        requires
            forall|i: int| 0 <= i < exps@.len() ==> wf_expr(#[trigger] exps@[i], input.data@.len() as int),
        ensures
            s@ == rebuilt_program(expr_views(exps@), input.data@, opt_view(prefix_idents)),
    {
        let ghost d = input.data@;
        let ghost p = opt_view(prefix_idents);
        let rebuilder = Rebuilder { prefix_idents, input };
        let mut output = String::new();
        let mut i: usize = 0;
        while i < exps.len()
            invariant
                rebuilder.input.data@ == d,
                opt_view(rebuilder.prefix_idents) == p,
                0 <= i <= exps@.len(),
                forall|j: int| 0 <= j < exps@.len() ==> wf_expr(#[trigger] exps@[j], d.len() as int),
                output@ == rebuilt_program(expr_views(exps@.take(i as int)), d, p),
            decreases exps@.len() - i,
        {
            let part = rebuilder.stringify_exp(&exps[i]);
            if i > 0 {
                output.append(";");
            }
            output.append(part.as_str());
            proof {
                reveal_strlit(";");
                let t = exps@.take(i + 1);
                assert(t.drop_last() =~= exps@.take(i as int));
                assert(t.last() == exps@[i as int]);
                lemma_expr_views(t);
                lemma_expr_views(t.drop_last());
                assert(expr_views(t).drop_last() == expr_views(t.drop_last()));
                assert(output@ =~= rebuilt_program(expr_views(t), d, p));
            }
            i = i + 1;
        }
        assert(exps@.take(exps@.len() as int) =~= exps@);
        output
    }

    fn stringify_vec_of_expr(&self, vector: &Vec<ASTExpression>) -> (s: String)
        requires
            forall|i: int| 0 <= i < vector@.len() ==> wf_expr(#[trigger] vector@[i], self.input.data@.len() as int),
        ensures
            s@ == rebuilt_list(expr_views(vector@), self.input.data@, opt_view(self.prefix_idents)),
        decreases vector, 0int,
    {
        let ghost d = self.input.data@;
        let ghost p = opt_view(self.prefix_idents);
        let mut output = String::new();
        let mut i: usize = 0;
        while i < vector.len()
            invariant
                0 <= i <= vector@.len(),
                forall|j: int| 0 <= j < vector@.len() ==> wf_expr(#[trigger] vector@[j], d.len() as int),
                d == self.input.data@,
                p == opt_view(self.prefix_idents),
                output@ == rebuilt_list(expr_views(vector@.take(i as int)), d, p),
            decreases vector@.len() - i,
        {
            proof {
                assert(decreases_to!(vector => vector@[i as int]));
            }
            let part = self.stringify_exp(&vector[i]);
            if i > 0 {
                output.append(",");
            }
            output.append(part.as_str());
            proof {
                reveal_strlit(",");
                let t = vector@.take(i + 1);
                assert(t.drop_last() =~= vector@.take(i as int));
                assert(t.last() == vector@[i as int]);
                lemma_expr_views(t);
                lemma_expr_views(t.drop_last());
                assert(expr_views(t).drop_last() == expr_views(t.drop_last()));
                assert(output@ =~= rebuilt_list(expr_views(t), d, p));
            }
            i = i + 1;
        }
        assert(vector@.take(vector@.len() as int) =~= vector@);
        output
    }

    fn resolve_ident(&self, range: &Range<usize>) -> (s: String)
        requires
            range.start <= range.end <= self.input.data@.len(),
        ensures
            s@ == rebuilt_ident(self.input.data@, *range, opt_view(self.prefix_idents)),
    {
        let ident_text = self.input.from_range(range);
        match &self.prefix_idents {
            Some(prefix) => {
                let t = ident_text.as_str();
                let keep = str_eq(t, prefix.as_str()) || str_eq(t, "window") || str_eq(t, "location") || str_eq(
                    t,
                    "document",
                );
                if !keep {
                    let mut s = prefix.clone();
                    s.append(".");
                    s.append(t);
                    proof {
                        reveal_strlit(".");
                    }
                    s
                } else {
                    ident_text
                }
            },
            None => ident_text,
        }
    }

    fn stringify_exp(&self, exp: &ASTExpression) -> (s: String)
        requires
            wf_expr(*exp, self.input.data@.len() as int),
        ensures
            s@ == rebuilt(expr_view(*exp), self.input.data@, opt_view(self.prefix_idents)),
        decreases exp, 1int,
    {
        let mut out = String::new();
        match exp {
            ASTExpression::String(str) => {
                out.append("\\\"");
                let inner = self.input.from_range(&Range::new(str.range.start + 1, str.range.end - 1));
                out.append(inner.as_str());
                out.append("\\\"");
                proof {
                    reveal_strlit("\\\"");
                }
            },
            ASTExpression::Number(num) => {
                out = self.input.from_range(&num.range);
            },
            ASTExpression::Boolean(b) => {
                out = self.input.from_range(&b.range);
            },
            ASTExpression::Identifier(ident) => {
                out = self.resolve_ident(&ident.range);
            },
            ASTExpression::Binary(binary) => {
                out = self.stringify_exp(&binary.left);
                out.append(binary.operator.as_text());
                let right = self.stringify_exp(&binary.right);
                out.append(right.as_str());
            },
            ASTExpression::Unary(unary) => {
                out.append(unary.operator.as_text());
                let e = self.stringify_exp(&unary.expression);
                out.append(e.as_str());
            },
            ASTExpression::Access(access) => {
                assert(wf_expr(access.expression, self.input.data@.len() as int));
                let str_exp = match &access.expression {
                    ASTExpression::Identifier(ident) => self.resolve_ident(&ident.range),
                    _ => self.stringify_exp(&access.expression),
                };
                assert(str_exp@ == rebuilt_base(expr_view(access.expression), self.input.data@, opt_view(self.prefix_idents)));
                out = str_exp;
                match &access.accessor {
                    ASTAccessContent::Expression(x) => {
                        out.append("[");
                        let inner = self.stringify_exp(x);
                        out.append(inner.as_str());
                        out.append("]");
                        proof {
                            reveal_strlit("[");
                            reveal_strlit("]");
                        }
                    },
                    ASTAccessContent::Identifier(ident) => {
                        out.append(".");
                        let name = self.input.from_range(&ident.range);
                        out.append(name.as_str());
                        proof {
                            reveal_strlit(".");
                        }
                    },
                }
            },
            ASTExpression::ArrayLit(lit) => {
                out.append("[");
                let inner = self.stringify_vec_of_expr(&lit.elements);
                out.append(inner.as_str());
                out.append("]");
                proof {
                    reveal_strlit("[");
                    reveal_strlit("]");
                }
            },
            ASTExpression::New(new) => {
                out.append("new ");
                let e = self.stringify_exp(&new.expression);
                out.append(e.as_str());
                out.append("(");
                let args = self.stringify_vec_of_expr(&new.arguments);
                out.append(args.as_str());
                out.append(")");
                proof {
                    reveal_strlit("new ");
                    reveal_strlit("(");
                    reveal_strlit(")");
                }
            },
            ASTExpression::Call(call) => {
                out = self.stringify_exp(&call.expression);
                out.append("(");
                let args = self.stringify_vec_of_expr(&call.arguments);
                out.append(args.as_str());
                out.append(")");
                proof {
                    reveal_strlit("(");
                    reveal_strlit(")");
                }
            },
            ASTExpression::Ternary(ternary) => {
                out = self.stringify_exp(&ternary.condition);
                out.append("?");
                let l = self.stringify_exp(&ternary.left);
                out.append(l.as_str());
                out.append(":");
                let r = self.stringify_exp(&ternary.right);
                out.append(r.as_str());
                proof {
                    reveal_strlit("?");
                    reveal_strlit(":");
                }
            },
        }
        proof {
            assert(out@ =~= rebuilt(expr_view(*exp), self.input.data@, opt_view(self.prefix_idents)));
        }
        out
    }
}

/// What parsing and rebuilding javascript gives: the rebuilt code, or the
/// diagnostics of the parse where there are any.
pub open spec fn spec_transform(d: Seq<u8>, prefix: Option<Seq<char>>) -> Result<Seq<char>, Seq<DiagView>> {
    if d.len() + 4 > usize::MAX {
        Ok(seq![])
    } else {
        let r = p_all(d, start_state(), seq![]);
        if r.1.diags.len() == 0 {
            Ok(rebuilt_program(r.0, d, prefix))
        } else {
            Err(r.1.diags)
        }
    }
}

/// Parses javascript and rebuilds it; gives the diagnostics of the parse instead where there are any.
pub fn transform_js(input: &str, prefix_idents: Option<String>) -> (r: Result<String, Vec<Diagnostic>>)
    ensures
        r matches Err(d) ==> d@.len() > 0,
        match r {
            Ok(s) => spec_transform(input.spec_bytes(), opt_view(prefix_idents)) == Ok::<Seq<char>, Seq<DiagView>>(s@),
            Err(e) => spec_transform(input.spec_bytes(), opt_view(prefix_idents)) == Err::<Seq<char>, Seq<DiagView>>(diag_views(e@)),
        },
{
    let (result, diagnostics, input) = JsParser::parse(input);
    proof {
        lemma_diag_views_len(diagnostics@);
    }
    if diagnostics.len() == 0 {
        let s = Rebuilder::run(input, result.as_slice(), prefix_idents);
        proof {
            if input.data@.len() + 4 > usize::MAX {
                assert(expr_views(result@) =~= Seq::<ExprView>::empty());
            }
        }
        Ok(s)
    } else {
        Err(diagnostics)
    }
}

} // verus!
