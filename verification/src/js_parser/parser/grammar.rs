use vstd::prelude::*;
use crate::diagnostics::diagnostic::spec_format_diagnostic;
use crate::diagnostics::location::Range;
use crate::js_parser::parser::ast::ExprView;
use crate::js_parser::parser::spec_prec;
use crate::js_parser::tokenizer::{DiagView, Token, TokenKind, Tokenizer, error_at, lex};
use crate::strings::lossy_utf8;

verus! {

/// The tokenizer's state as plain values: the input position, the token that
/// was looked at and not yet handed out, where the last token handed out
/// ends, and the diagnostics so far.
#[verifier::ext_equal]
pub struct TState {
    pub pos: int,
    pub last: Option<Token>,
    pub last_end: int,
    pub diags: Seq<DiagView>,
}

pub open spec fn tstate(t: Tokenizer) -> TState {
    TState {
        pos: t.input.pos as int,
        last: t.last_token,
        last_end: t.last_end as int,
        diags: crate::diagnostics::diagnostic::diag_views(t.diagnostics@),
    }
}

/// What is left to lex; every token handed out lowers it.
pub open spec fn tm(d: Seq<u8>, s: TState) -> nat {
    if s.pos <= d.len() {
        (2 * (d.len() - s.pos) + if s.last.is_some() { 1int } else { 0int }) as nat
    } else {
        0
    }
}

/// The next token, the position after it and the diagnostics of lexing it.
pub open spec fn t_peeked(d: Seq<u8>, s: TState) -> (Option<Token>, int, Seq<DiagView>) {
    if s.last.is_some() {
        (s.last, s.pos, seq![])
    } else {
        lex(d, s.pos)
    }
}

/// Looks at the next token, which stays to be handed out.
pub open spec fn t_peek(d: Seq<u8>, s: TState) -> (Option<Token>, TState) {
    let p = t_peeked(d, s);
    (p.0, TState { pos: p.1, last: p.0, last_end: s.last_end, diags: s.diags + p.2 })
}

/// Hands out the next token.
pub open spec fn t_next(d: Seq<u8>, s: TState) -> (Option<Token>, TState) {
    let p = t_peeked(d, s);
    (p.0, TState {
        pos: p.1,
        last: None,
        last_end: match p.0 {
            Some(t) => t.range.end as int,
            None => s.last_end,
        },
        diags: s.diags + p.2,
    })
}

/// Hands out the next token if it is of kind `k`; otherwise reports that
/// `what` was expected, at the position, and leaves the token.
pub open spec fn t_expect(d: Seq<u8>, s: TState, k: TokenKind, what: Seq<char>) -> (Option<Token>, TState) {
    let p = t_peeked(d, s);
    if p.0 matches Some(tok) && tok.kind == k {
        t_next(d, s)
    } else {
        (None, TState {
            pos: p.1,
            last: p.0,
            last_end: s.last_end,
            diags: (s.diags + p.2).push(error_at(p.1, p.1 + 1, spec_format_diagnostic("Expected $."@, seq![what]))),
        })
    }
}

/// The state once a diagnostic was reported.
pub open spec fn t_report(s: TState, x: DiagView) -> TState {
    TState { pos: s.pos, last: s.last, last_end: s.last_end, diags: s.diags.push(x) }
}

/// The range of an expression.
pub open spec fn ev_range(e: ExprView) -> Range<usize> {
    match e {
        ExprView::String(r) => r,
        ExprView::Number(r) => r,
        ExprView::Boolean(r) => r,
        ExprView::Identifier(r) => r,
        ExprView::Binary(_, _, _, r) => r,
        ExprView::Unary(_, _, r) => r,
        ExprView::Call(_, _, r) => r,
        ExprView::ArrayLit(_, r) => r,
        ExprView::AccessName(_, _, r) => r,
        ExprView::AccessExpr(_, _, r) => r,
        ExprView::New(_, _, r) => r,
        ExprView::Ternary(_, _, _, r) => r,
    }
}

/// The range from `start` to the end of the last token handed out.
pub open spec fn upto(start: int, s: TState) -> Range<usize> {
    Range { start: start as usize, end: s.last_end as usize }
}

/// The operators that start a unary expression.
pub open spec fn is_unary_start(k: TokenKind) -> bool {
    k == TokenKind::ExclamationOp || k == TokenKind::PlusOp || k == TokenKind::MinusOp || k == TokenKind::DotDotDotOp
        || k == TokenKind::VoidKeyword
}

/// Extends `left` with the binary operators that bind more strongly than
/// `left_prec`: each operator's right side is an operand with what follows
/// it, extended with the operators that bind more strongly than that one.
pub open spec fn p_binary(d: Seq<u8>, s: TState, left: ExprView, left_prec: u8) -> (Option<ExprView>, TState)
    decreases tm(d, s), 1int,
{
    let (next, s1) = t_peek(d, s);
    match next {
        None => (Some(left), s1),
        Some(tok) => {
            let right_prec = spec_prec(tok.kind);
            if right_prec == 0 || right_prec <= left_prec {
                (Some(left), s1)
            } else {
                let (op, s2) = t_next(d, s1);
                match op {
                    None => (Some(left), s2),
                    Some(op) => if tm(d, s2) >= tm(d, s) {
                        (Some(left), s2)
                    } else {
                        let (exp, s3) = p_single(d, s2, true);
                        match exp {
                            None => (Some(left), s3),
                            Some(exp) => if tm(d, s3) >= tm(d, s2) {
                                (Some(left), s3)
                            } else {
                                let (right, s4) = p_binary(d, s3, exp, right_prec);
                                match right {
                                    None => (None, s4),
                                    Some(right) => if tm(d, s4) > tm(d, s3) {
                                        (None, s4)
                                    } else {
                                        let bin = ExprView::Binary(
                                            op.kind,
                                            Box::new(left),
                                            Box::new(right),
                                            upto(ev_range(left).start as int, s4),
                                        );
                                        p_binary(d, s4, bin, left_prec)
                                    },
                                }
                            },
                        }
                    },
                }
            }
        },
    }
}

/// Expressions separated by `sep` up to the token `end`; stops early at
/// something that is no expression. `first` says that none was read yet.
pub open spec fn p_list_loop(
    d: Seq<u8>,
    s: TState,
    acc: Seq<ExprView>,
    first: bool,
    sep: TokenKind,
    end: TokenKind,
) -> (Seq<ExprView>, TState)
    decreases tm(d, s), 4int,
{
    let (next, s1) = t_peek(d, s);
    if next matches Some(t) && t.kind == end {
        (acc, s1)
    } else {
        let s2 = if first { s1 } else { t_expect(d, s1, sep, ","@).1 };
        if tm(d, s2) > tm(d, s) {
            (acc, s2)
        } else {
            let (e, s3) = p_full(d, s2);
            match e {
                None => (acc, s3),
                Some(x) => if tm(d, s3) >= tm(d, s) {
                    (acc.push(x), s3)
                } else {
                    p_list_loop(d, s3, acc.push(x), false, sep, end)
                },
            }
        }
    }
}

/// A list of expressions, then the token `end`, which is expected as `end_str`.
pub open spec fn p_list(d: Seq<u8>, s: TState, sep: TokenKind, end: TokenKind, end_str: Seq<char>) -> (Seq<ExprView>, TState)
    decreases tm(d, s), 5int,
{
    let (v, s1) = p_list_loop(d, s, seq![], true, sep, end);
    (v, t_expect(d, s1, end, end_str).1)
}

/// What follows an expression that started at `start`: calls, property
/// accesses and a conditional.
pub open spec fn p_suffix(d: Seq<u8>, s: TState, tok: ExprView, start: int) -> (Option<ExprView>, TState)
    decreases tm(d, s), 1int,
{
    let (next, s1) = t_peek(d, s);
    match next {
        None => (Some(tok), s1),
        Some(t) => {
            let s2 = t_next(d, s1).1;
            if tm(d, s2) >= tm(d, s) {
                (Some(tok), s2)
            } else if t.kind == TokenKind::ParanthesisOpenPunc {
                p_call_rest(d, s2, tok, start)
            } else if t.kind == TokenKind::DotOp {
                p_dot_rest(d, s2, tok, start)
            } else if t.kind == TokenKind::SquareBracketOpenPunc {
                p_index_rest(d, s2, tok, start)
            } else if t.kind == TokenKind::QuestionOp {
                p_ternary_rest(d, s2, tok, start)
            } else {
                (Some(tok), s1)
            }
        },
    }
}

/// The arguments of a call whose `(` was handed out, then what follows the call.
pub open spec fn p_call_rest(d: Seq<u8>, s: TState, tok: ExprView, start: int) -> (Option<ExprView>, TState)
    decreases tm(d, s), 7int,
{
    let (args, s1) = p_list(d, s, TokenKind::CommaPunc, TokenKind::ParanthesisClosePunc, ")"@);
    if tm(d, s1) > tm(d, s) {
        (None, s1)
    } else {
        p_suffix(d, s1, ExprView::Call(Box::new(tok), args, upto(start, s1)), start)
    }
}

/// The name of a property whose `.` was handed out, then what follows the access.
pub open spec fn p_dot_rest(d: Seq<u8>, s: TState, tok: ExprView, start: int) -> (Option<ExprView>, TState)
    decreases tm(d, s), 7int,
{
    let (ident, s1) = t_expect(d, s, TokenKind::Identifier, "identifier"@);
    match ident {
        None => (None, s1),
        Some(ident) => if tm(d, s1) > tm(d, s) {
            (None, s1)
        } else {
            p_suffix(d, s1, ExprView::AccessName(ident.range, Box::new(tok), upto(start, s1)), start)
        },
    }
}

/// The property expression of an access whose `[` was handed out, its `]`,
/// then what follows the access.
pub open spec fn p_index_rest(d: Seq<u8>, s: TState, tok: ExprView, start: int) -> (Option<ExprView>, TState)
    decreases tm(d, s), 7int,
{
    let (exp, s1) = p_full(d, s);
    match exp {
        None => (None, s1),
        Some(exp) => {
            let (close, s2) = t_expect(d, s1, TokenKind::SquareBracketClosePunc, "]"@);
            if close.is_none() || tm(d, s2) > tm(d, s) {
                (None, s2)
            } else {
                p_suffix(d, s2, ExprView::AccessExpr(Box::new(exp), Box::new(tok), upto(start, s2)), start)
            }
        },
    }
}

/// The two branches of a conditional whose `?` was handed out.
pub open spec fn p_ternary_rest(d: Seq<u8>, s: TState, tok: ExprView, start: int) -> (Option<ExprView>, TState)
    decreases tm(d, s), 7int,
{
    let (left, s1) = p_full(d, s);
    match left {
        None => (None, s1),
        Some(left) => {
            let (colon, s2) = t_expect(d, s1, TokenKind::ColonOp, "colon"@);
            if colon.is_none() || tm(d, s2) > tm(d, s) {
                (None, s2)
            } else {
                let (right, s3) = p_full(d, s2);
                match right {
                    None => (None, s3),
                    Some(right) => (
                        Some(ExprView::Ternary(Box::new(tok), Box::new(left), Box::new(right), upto(start, s3))),
                        s3,
                    ),
                }
            }
        },
    }
}

/// The operand that starts with `token`, which was just handed out: a
/// literal, a name, a unary operation, an array, a parenthesised or `new`
/// expression; a token that starts none is reported as unknown.
pub open spec fn p_operand(d: Seq<u8>, s1: TState, token: Token) -> (Option<ExprView>, TState)
    decreases tm(d, s1), 6int,
{
    let start = token.range.start as int;
    let k = token.kind;
    if k == TokenKind::String {
        (Some(ExprView::String(token.range)), s1)
    } else if k == TokenKind::Number {
        (Some(ExprView::Number(token.range)), s1)
    } else if k == TokenKind::Identifier {
        (Some(ExprView::Identifier(token.range)), s1)
    } else if k == TokenKind::FalseKeyword || k == TokenKind::TrueKeyword {
        (Some(ExprView::Boolean(token.range)), s1)
    } else if is_unary_start(k) {
        let (x, s2) = p_expect_single(d, s1, "an expression"@, true);
        match x {
            None => (None, s2),
            Some(x) => (Some(ExprView::Unary(k, Box::new(x), upto(start, s2))), s2),
        }
    } else if k == TokenKind::SquareBracketOpenPunc {
        let (els, s2) = p_list(d, s1, TokenKind::CommaPunc, TokenKind::SquareBracketClosePunc, "]"@);
        (Some(ExprView::ArrayLit(els, upto(start, s2))), s2)
    } else if k == TokenKind::ParanthesisOpenPunc {
        let (x, s2) = p_full(d, s1);
        match x {
            None => (None, s2),
            Some(x) => {
                let (close, s3) = t_expect(d, s2, TokenKind::ParanthesisClosePunc, ")"@);
                if close.is_none() {
                    (None, s3)
                } else {
                    (Some(x), s3)
                }
            },
        }
    } else if k == TokenKind::NewKeyword {
        let (x, s2) = p_single(d, s1, false);
        match x {
            None => (None, s2),
            Some(x) => {
                let (nx, s3) = t_peek(d, s2);
                if nx matches Some(t) && t.kind == TokenKind::ParanthesisOpenPunc {
                    let s4 = t_next(d, s3).1;
                    if tm(d, s4) > tm(d, s1) {
                        (None, s4)
                    } else {
                        let (args, s5) = p_list(d, s4, TokenKind::CommaPunc, TokenKind::ParanthesisClosePunc, ")"@);
                        (Some(ExprView::New(Box::new(x), args, upto(start, s5))), s5)
                    }
                } else {
                    (Some(ExprView::New(Box::new(x), seq![], upto(start, s3))), s3)
                }
            },
        }
    } else {
        let msg = spec_format_diagnostic("Unknown token $."@, seq![lossy_utf8(d.subrange(start, token.range.end as int))]);
        (None, t_report(s1, error_at(start, token.range.end as int, msg)))
    }
}

/// One operand; with `suffix`, also what follows it.
pub open spec fn p_single(d: Seq<u8>, s: TState, suffix: bool) -> (Option<ExprView>, TState)
    decreases tm(d, s), 2int,
{
    let (token, s1) = t_next(d, s);
    match token {
        None => (None, s1),
        Some(token) => if tm(d, s1) >= tm(d, s) {
            (None, s1)
        } else {
            let (e, s2) = p_operand(d, s1, token);
            match e {
                None => (None, s2),
                Some(e) => if suffix && tm(d, s2) < tm(d, s) {
                    p_suffix(d, s2, e, token.range.start as int)
                } else {
                    (Some(e), s2)
                },
            }
        },
    }
}

/// An operand with what follows it, then the binary operations after it.
pub open spec fn p_full(d: Seq<u8>, s: TState) -> (Option<ExprView>, TState)
    decreases tm(d, s), 3int,
{
    let (x, s1) = p_single(d, s, true);
    match x {
        None => (None, s1),
        Some(x) => if tm(d, s1) >= tm(d, s) {
            (Some(x), s1)
        } else {
            p_binary(d, s1, x, 0)
        },
    }
}

/// An operand; where there is none, `msg` is reported as expected, at the position.
pub open spec fn p_expect_single(d: Seq<u8>, s: TState, msg: Seq<char>, suffix: bool) -> (Option<ExprView>, TState)
    decreases tm(d, s), 3int,
{
    let (x, s1) = p_single(d, s, suffix);
    match x {
        Some(_) => (x, s1),
        None => (None, t_report(s1, error_at(s1.pos, s1.pos + 1, spec_format_diagnostic("Expected $."@, seq![msg])))),
    }
}

/// Expressions separated by semicolons, from state `s`, after `acc`.
pub open spec fn p_all(d: Seq<u8>, s: TState, acc: Seq<ExprView>) -> (Seq<ExprView>, TState)
    decreases tm(d, s),
{
    let (x, s1) = p_full(d, s);
    match x {
        None => (acc, s1),
        Some(x) => {
            let (nx, s2) = t_peek(d, s1);
            if nx matches Some(t) && t.kind == TokenKind::SemicolonPunc {
                let s3 = t_next(d, s2).1;
                if tm(d, s3) >= tm(d, s) {
                    (acc.push(x), s3)
                } else {
                    p_all(d, s3, acc.push(x))
                }
            } else {
                (acc.push(x), s2)
            }
        },
    }
}

} // verus!
