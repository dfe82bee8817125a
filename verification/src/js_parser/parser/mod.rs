pub mod ast;
pub mod grammar;

use vstd::prelude::*;
use vstd::string::*;
use crate::diagnostics::diagnostic::{Diagnostic, DiagnosticMessage, diag_view, diag_views, lemma_diag_views_len};
use crate::js_parser::input::InputPresenter;
use crate::js_parser::tokenizer::{Token, TokenKind, Tokenizer, DiagView};
use self::ast::{
    ASTAccess, ASTAccessContent, ASTArray, ASTBinary, ASTBoolean, ASTCall, ASTExpression, ASTIdentifier, ASTNew,
    ASTNumber, ASTString, ASTTernary, ASTUnary, ExprView, expr_view, expr_views, wf_expr,
};
use self::grammar::{
    TState, ev_range, p_all, p_binary, p_call_rest, p_dot_rest, p_index_rest, p_ternary_rest, p_expect_single, p_full, p_list, p_list_loop, p_operand, p_single, p_suffix, t_expect, t_next,
    t_peek, t_report, tm, tstate, upto,
};

verus! {

/// The diagnostics the javascript parser reports.
pub struct Diagnostics;

impl Diagnostics {
    pub fn unknown_token() -> (d: DiagnosticMessage)
        ensures
            d.code@ == "JSP2001"@,
            d.message@ == "Unknown token $."@,
    {
        DiagnosticMessage { code: "JSP2001", message: "Unknown token $." }
    }

    pub fn expected() -> (d: DiagnosticMessage)
        ensures
            d.code@ == "JSP2002"@,
            d.message@ == "Expected $."@,
    {
        DiagnosticMessage { code: "JSP2002", message: "Expected $." }
    }
}


/// The binding strength of a binary operator; 0 for a token that is none.
pub open spec fn spec_prec(k: TokenKind) -> u8 {
    match k {
        TokenKind::StarStarOp => 13,
        TokenKind::StarOp | TokenKind::SlashOp | TokenKind::PercentOp => 12,
        TokenKind::PlusOp | TokenKind::MinusOp => 11,
        TokenKind::LessThanOp | TokenKind::LessThanEqualsOp | TokenKind::GreaterThanOp
        | TokenKind::GreaterThanEqualsOp => 9,
        TokenKind::EqualsEqualsOp | TokenKind::EqualsEqualsEqualsOp | TokenKind::NotEqualsOp
        | TokenKind::NotEqualsEqualsOp => 8,
        TokenKind::AmpersandAmpersandOp => 4,
        TokenKind::BarBarOp | TokenKind::QuestionQuestionOp => 3,
        TokenKind::PlusEqualsOp | TokenKind::MinusEqualsOp | TokenKind::SlashEqualsOp | TokenKind::StarEqualsOp
        | TokenKind::EqualsOp => 2,
        _ => 0,
    }
}

/// `b` follows `a`: the tokenizer stays well formed over the same input, has
/// no more left to lex, and only adds diagnostics.
pub open spec fn progress(a: Tokenizer, b: Tokenizer) -> bool {
    &&& b.wf()
    &&& b.data() == a.data()
    &&& b.measure() <= a.measure()
    &&& b.last_end >= a.last_end
    &&& b.diagnostics@.len() >= a.diagnostics@.len()
    &&& forall|i: int| 0 <= i < a.diagnostics@.len() ==> #[trigger] diag_view(b.diagnostics@[i]) == diag_view(
        a.diagnostics@[i],
    )
}

/// A parsed expression is well formed and ends where the tokenizer has come
/// to, unless a diagnostic was reported.
pub open spec fn parsed_ok(e: ASTExpression, t: Tokenizer) -> bool {
    (wf_expr(e, t.data().len() as int) && e.spec_range().end <= t.last_end) || t.diagnostics@.len() > 0
}

pub proof fn lemma_views_extend(a: Seq<Diagnostic>, b: Seq<Diagnostic>, x: Seq<DiagView>)
    requires
        diag_views(b) == diag_views(a) + x,
    ensures
        b.len() >= a.len(),
        forall|i: int| 0 <= i < a.len() ==> #[trigger] diag_view(b[i]) == diag_view(a[i]),
{
    lemma_diag_views_len(a);
    lemma_diag_views_len(b);
    assert forall|i: int| 0 <= i < a.len() implies #[trigger] diag_view(b[i]) == diag_view(a[i]) by {
        assert(diag_views(b)[i] == diag_views(a)[i]);
    }
}

/// An expression that may be missing, as a plain value.
pub open spec fn opt_view(e: Option<ASTExpression>) -> Option<ExprView> {
    match e {
        Some(x) => Some(expr_view(x)),
        None => None,
    }
}

pub proof fn lemma_ev_range(e: ASTExpression)
    ensures
        ev_range(expr_view(e)) == e.spec_range(),
{
}

/// Parses expressions of javascript.
pub struct JsParser<'a> {
    pub tokens: Tokenizer<'a>,
}

impl<'a> JsParser<'a> {
    pub fn new(content: &'a str) -> (p: Self)
        requires
            content.spec_bytes().len() + 4 <= usize::MAX,
        ensures
            p.tokens.wf(),
            p.tokens.data() == content.spec_bytes(),
            p.tokens.input.pos == 0,
            p.tokens.last_token.is_none(),
            p.tokens.diagnostics@.len() == 0,
            p.tokens.last_end == 0,
    {
        JsParser { tokens: Tokenizer::new(content) }
    }

    /// The binding strength of a binary operator; 0 for a token that is none.
    pub fn resolve_prec(token: &TokenKind) -> (r: u8)
        ensures
            r == spec_prec(*token),
    {
        match token {
            TokenKind::StarStarOp => 13,
            TokenKind::StarOp | TokenKind::SlashOp | TokenKind::PercentOp => 12,
            TokenKind::PlusOp | TokenKind::MinusOp => 11,
            TokenKind::LessThanOp | TokenKind::LessThanEqualsOp | TokenKind::GreaterThanOp
            | TokenKind::GreaterThanEqualsOp => 9,
            TokenKind::EqualsEqualsOp | TokenKind::EqualsEqualsEqualsOp | TokenKind::NotEqualsOp
            | TokenKind::NotEqualsEqualsOp => 8,
            TokenKind::AmpersandAmpersandOp => 4,
            TokenKind::BarBarOp | TokenKind::QuestionQuestionOp => 3,
            TokenKind::PlusEqualsOp | TokenKind::MinusEqualsOp | TokenKind::SlashEqualsOp | TokenKind::StarEqualsOp
            | TokenKind::EqualsOp => 2,
            _ => 0,
        }
    }

    /// Reports a diagnostic at the parser's level.
    fn report(&mut self, d: Diagnostic)
        requires
            old(self).tokens.wf(),
        ensures
            progress(old(self).tokens, final(self).tokens),
            final(self).tokens.diagnostics@.len() > 0,
            final(self).tokens.measure() == old(self).tokens.measure(),
            final(self).tokens.last_end == old(self).tokens.last_end,
            final(self).tokens.input == old(self).tokens.input,
            final(self).tokens.last_token == old(self).tokens.last_token,
            tstate(final(self).tokens) == t_report(tstate(old(self).tokens), diag_view(d)),
    {
        self.tokens.diagnostics.push(d);
        proof {
            crate::diagnostics::diagnostic::lemma_diag_views_push(old(self).tokens.diagnostics@, d);
        }
    }

    /// Looks at the next token, which stays to be handed out.
    fn peek_token(&mut self) -> (t: Option<Token>)
        requires
            old(self).tokens.wf(),
        ensures
            progress(old(self).tokens, final(self).tokens),
            (t, tstate(final(self).tokens)) == t_peek(old(self).tokens.data(), tstate(old(self).tokens)),
            final(self).tokens.last_token == t,
    {
        let ghost t0 = self.tokens;
        let t = self.tokens.peek();
        proof {
            lemma_views_extend(t0.diagnostics@, self.tokens.diagnostics@, crate::js_parser::tokenizer::peeked(t0).2);
        }
        t
    }

    /// Whether the next token is of the given kind; it stays to be handed out.
    fn next_is(&mut self, kind: TokenKind) -> (r: bool)
        requires
            old(self).tokens.wf(),
        ensures
            progress(old(self).tokens, final(self).tokens),
            r == (t_peek(old(self).tokens.data(), tstate(old(self).tokens)).0 matches Some(t) && t.kind == kind),
            tstate(final(self).tokens) == t_peek(old(self).tokens.data(), tstate(old(self).tokens)).1,
            r ==> final(self).tokens.last_token.is_some(),
    {
        let ghost t0 = self.tokens;
        let r = self.tokens.is_next(kind);
        proof {
            lemma_views_extend(t0.diagnostics@, self.tokens.diagnostics@, crate::js_parser::tokenizer::peeked(t0).2);
        }
        r
    }

    /// Extends `left` with the binary operators that bind more strongly than `left_prec`.
    fn parse_binary(&mut self, left: ASTExpression, left_prec: u8) -> (res: Option<ASTExpression>)
        requires
            old(self).tokens.wf(),
            parsed_ok(left, old(self).tokens),
        ensures
            progress(old(self).tokens, final(self).tokens),
            res.is_some(),
            res matches Some(e) ==> parsed_ok(e, final(self).tokens),
            res matches Some(e) ==> (e == left || (e matches ASTExpression::Binary(b) && spec_prec(b.operator)
                > left_prec)),
            res matches Some(e) ==> e.spec_range().start == left.spec_range().start,
            (opt_view(res), tstate(final(self).tokens)) == p_binary(
                old(self).tokens.data(),
                tstate(old(self).tokens),
                expr_view(left),
                left_prec,
            ),
        decreases old(self).tokens.measure(), 1int,
    {
        let start = left.range().start;
        proof {
            lemma_ev_range(left);
        }
        let next = self.peek_token();
        match next {
            Some(next) => {
                let right_prec = Self::resolve_prec(&next.kind);
                if right_prec == 0 {
                    return Some(left);
                }
                if right_prec > left_prec {
                    let op_token = self.next_token();
                    let op = match op_token {
                        Some(t) => t,
                        None => { return Some(left); },
                    };
                    let exp = match self.parse_single_expression(true) {
                        Some(exp) => exp,
                        None => { return Some(left); },
                    };
                    let right = match self.parse_binary(exp, right_prec) {
                        Some(r) => r,
                        None => { return None; },
                    };
                    let range = self.tokens.range(start);
                    let bin = ASTExpression::Binary(Box::new(ASTBinary { left, right, operator: op.kind, range }));
                    self.parse_binary(bin, left_prec)
                } else {
                    Some(left)
                }
            },
            None => Some(left),
        }
    }

    /// Parses expressions separated by `separator` up to `end_token`, which is
    /// then expected; stops early at something that is no expression.
    fn parse_list(&mut self, separator: TokenKind, end_token: TokenKind, end_token_str: &str) -> (res: Vec<ASTExpression>)
        requires
            old(self).tokens.wf(),
        ensures
            progress(old(self).tokens, final(self).tokens),
            forall|i: int| 0 <= i < res@.len() ==> parsed_ok(#[trigger] res@[i], final(self).tokens),
            (expr_views(res@), tstate(final(self).tokens)) == p_list(
                old(self).tokens.data(),
                tstate(old(self).tokens),
                separator,
                end_token,
                end_token_str@,
            ),
        decreases old(self).tokens.measure(), 5int,
    {
        let mut expressions: Vec<ASTExpression> = Vec::new();
        let mut is_first = true;
        let ghost t0 = self.tokens;
        let ghost d = t0.data();
        loop
            invariant_except_break
                p_list_loop(d, tstate(t0), seq![], true, separator, end_token) == p_list_loop(
                    d,
                    tstate(self.tokens),
                    expr_views(expressions@),
                    is_first,
                    separator,
                    end_token,
                ),
            invariant
                t0 == old(self).tokens,
                d == t0.data(),
                progress(t0, self.tokens),
                forall|i: int| 0 <= i < expressions@.len() ==> parsed_ok(#[trigger] expressions@[i], self.tokens),
                !is_first ==> self.tokens.measure() < t0.measure(),
            ensures
                p_list_loop(d, tstate(t0), seq![], true, separator, end_token) == (
                    expr_views(expressions@),
                    tstate(self.tokens),
                ),
            decreases self.tokens.measure(),
        {
            let ghost ta = self.tokens;
            let at_end = self.next_is(end_token);
            if at_end {
                break;
            }
            if !is_first {
                self.expect(separator, ",");
            }
            let ghost tb = self.tokens;
            proof {
                assert(tstate(tb) == if is_first { t_peek(d, tstate(ta)).1 } else { t_expect(d, t_peek(d, tstate(ta)).1, separator, ","@).1 });
            }
            match self.parse_full_expression() {
                Some(exp) => {
                    let ghost before = expressions@;
                    expressions.push(exp);
                    proof {
                        assert(expressions@.drop_last() =~= before);
                        assert(expr_views(expressions@) == expr_views(before).push(expr_view(exp)));
                    }
                },
                None => {
                    break;
                },
            }
            is_first = false;
        }
        self.expect(end_token, end_token_str);
        expressions
    }

    /// Parses what follows an expression: calls, property accesses and a conditional.
    fn parse_suffix(&mut self, tok: ASTExpression, start: usize) -> (res: Option<ASTExpression>)
        requires
            old(self).tokens.wf(),
            parsed_ok(tok, old(self).tokens),
            start <= tok.spec_range().start || old(self).tokens.diagnostics@.len() > 0,
        ensures
            progress(old(self).tokens, final(self).tokens),
            res matches Some(e) ==> parsed_ok(e, final(self).tokens),
            res matches Some(e) ==> e.spec_range().start == tok.spec_range().start || e.spec_range().start == start,
            (opt_view(res), tstate(final(self).tokens)) == p_suffix(
                old(self).tokens.data(),
                tstate(old(self).tokens),
                expr_view(tok),
                start as int,
            ),
        decreases old(self).tokens.measure(), 1int,
    {
        let token = self.peek_token();
        let token = match token {
            Some(token) => token,
            None => { return Some(tok); },
        };
        if token.kind == TokenKind::ParanthesisOpenPunc {
            self.step();
            self.suffix_call(tok, start)
        } else if token.kind == TokenKind::DotOp {
            self.step();
            self.suffix_dot(tok, start)
        } else if token.kind == TokenKind::SquareBracketOpenPunc {
            self.step();
            self.suffix_index(tok, start)
        } else if token.kind == TokenKind::QuestionOp {
            self.step();
            self.suffix_ternary(tok, start)
        } else {
            Some(tok)
        }
    }

    /// Parses the arguments of a call whose `(` was handed out, then what follows the call.
    fn suffix_call(&mut self, tok: ASTExpression, start: usize) -> (res: Option<ASTExpression>)
        requires
            old(self).tokens.wf(),
            parsed_ok(tok, old(self).tokens),
            start <= tok.spec_range().start || old(self).tokens.diagnostics@.len() > 0,
        ensures
            progress(old(self).tokens, final(self).tokens),
            res matches Some(e) ==> parsed_ok(e, final(self).tokens),
            res matches Some(e) ==> e.spec_range().start == tok.spec_range().start || e.spec_range().start == start,
            (opt_view(res), tstate(final(self).tokens)) == p_call_rest(
                old(self).tokens.data(),
                tstate(old(self).tokens),
                expr_view(tok),
                start as int,
            ),
        decreases old(self).tokens.measure(), 7int,
    {
        let arguments = self.parse_list(TokenKind::CommaPunc, TokenKind::ParanthesisClosePunc, ")");
        let range = self.tokens.range(start);
        self.parse_suffix(ASTExpression::Call(Box::new(ASTCall { expression: tok, arguments, range })), start)
    }

    /// Parses the name of a property whose `.` was handed out, then what follows the access.
    fn suffix_dot(&mut self, tok: ASTExpression, start: usize) -> (res: Option<ASTExpression>)
        requires
            old(self).tokens.wf(),
            parsed_ok(tok, old(self).tokens),
            start <= tok.spec_range().start || old(self).tokens.diagnostics@.len() > 0,
        ensures
            progress(old(self).tokens, final(self).tokens),
            res matches Some(e) ==> parsed_ok(e, final(self).tokens),
            res matches Some(e) ==> e.spec_range().start == tok.spec_range().start || e.spec_range().start == start,
            (opt_view(res), tstate(final(self).tokens)) == p_dot_rest(
                old(self).tokens.data(),
                tstate(old(self).tokens),
                expr_view(tok),
                start as int,
            ),
        decreases old(self).tokens.measure(), 7int,
    {
        let ident = match self.expect(TokenKind::Identifier, "identifier") {
            Some(ident) => ident,
            None => { return None; },
        };
        let range = self.tokens.range(start);
        self.parse_suffix(
            ASTExpression::Access(
                Box::new(ASTAccess {
                    accessor: ASTAccessContent::Identifier(ASTIdentifier { range: ident.range }),
                    expression: tok,
                    range,
                }),
            ),
            start,
        )
    }

    /// Parses the property expression of an access whose `[` was handed out,
    /// its `]`, then what follows the access.
    fn suffix_index(&mut self, tok: ASTExpression, start: usize) -> (res: Option<ASTExpression>)
        requires
            old(self).tokens.wf(),
            parsed_ok(tok, old(self).tokens),
            start <= tok.spec_range().start || old(self).tokens.diagnostics@.len() > 0,
        ensures
            progress(old(self).tokens, final(self).tokens),
            res matches Some(e) ==> parsed_ok(e, final(self).tokens),
            res matches Some(e) ==> e.spec_range().start == tok.spec_range().start || e.spec_range().start == start,
            (opt_view(res), tstate(final(self).tokens)) == p_index_rest(
                old(self).tokens.data(),
                tstate(old(self).tokens),
                expr_view(tok),
                start as int,
            ),
        decreases old(self).tokens.measure(), 7int,
    {
        let exp = match self.parse_full_expression() {
            Some(exp) => exp,
            None => { return None; },
        };
        if self.expect(TokenKind::SquareBracketClosePunc, "]").is_none() {
            return None;
        }
        let range = self.tokens.range(start);
        self.parse_suffix(
            ASTExpression::Access(
                Box::new(ASTAccess { accessor: ASTAccessContent::Expression(exp), expression: tok, range }),
            ),
            start,
        )
    }

    /// Parses the two branches of a conditional whose `?` was handed out.
    #[verifier::spinoff_prover]
    #[verifier::rlimit(60)]
    fn suffix_ternary(&mut self, tok: ASTExpression, start: usize) -> (res: Option<ASTExpression>)
        requires
            old(self).tokens.wf(),
            parsed_ok(tok, old(self).tokens),
            start <= tok.spec_range().start || old(self).tokens.diagnostics@.len() > 0,
        ensures
            progress(old(self).tokens, final(self).tokens),
            res matches Some(e) ==> parsed_ok(e, final(self).tokens),
            res matches Some(e) ==> e.spec_range().start == tok.spec_range().start || e.spec_range().start == start,
            (opt_view(res), tstate(final(self).tokens)) == p_ternary_rest(
                old(self).tokens.data(),
                tstate(old(self).tokens),
                expr_view(tok),
                start as int,
            ),
        decreases old(self).tokens.measure(), 7int,
    {
        let left = match self.parse_full_expression() {
            Some(exp) => exp,
            None => { return None; },
        };
        if self.expect(TokenKind::ColonOp, "colon").is_none() {
            return None;
        }
        let right = match self.parse_full_expression() {
            Some(exp) => exp,
            None => { return None; },
        };
        let range = self.tokens.range(start);
        Some(ASTExpression::Ternary(Box::new(ASTTernary { condition: tok, left, right, range })))
    }

    /// Hands out the token that was looked at.
    fn step(&mut self)
        requires
            old(self).tokens.wf(),
            old(self).tokens.last_token.is_some(),
        ensures
            progress(old(self).tokens, final(self).tokens),
            final(self).tokens.measure() < old(self).tokens.measure(),
            tstate(final(self).tokens) == t_next(old(self).tokens.data(), tstate(old(self).tokens)).1,
    {
        let ghost t0 = self.tokens;
        self.tokens.next();
        proof {
            lemma_views_extend(t0.diagnostics@, self.tokens.diagnostics@, crate::js_parser::tokenizer::peeked(t0).2);
        }
    }

    /// The next token.
    fn next_token(&mut self) -> (t: Option<Token>)
        requires
            old(self).tokens.wf(),
        ensures
            progress(old(self).tokens, final(self).tokens),
            t.is_some() ==> final(self).tokens.measure() < old(self).tokens.measure(),
            t matches Some(tok) ==> old(self).tokens.last_end <= tok.range.start < tok.range.end
                == final(self).tokens.last_end,
            t matches Some(tok) ==> (tok.kind == TokenKind::String ==> tok.range.end - tok.range.start >= 2
                || final(self).tokens.diagnostics@.len() > 0),
            (t, tstate(final(self).tokens)) == t_next(old(self).tokens.data(), tstate(old(self).tokens)),
    {
        let ghost t0 = self.tokens;
        let t = self.tokens.next();
        proof {
            lemma_views_extend(t0.diagnostics@, self.tokens.diagnostics@, crate::js_parser::tokenizer::peeked(t0).2);
        }
        t
    }

    /// Hands out the next token if it is of the given kind; otherwise reports `what` as expected.
    fn expect(&mut self, kind: TokenKind, what: &str) -> (t: Option<Token>)
        requires
            old(self).tokens.wf(),
        ensures
            progress(old(self).tokens, final(self).tokens),
            t.is_some() ==> final(self).tokens.measure() < old(self).tokens.measure(),
            t matches Some(tok) ==> old(self).tokens.last_end <= tok.range.start < tok.range.end
                == final(self).tokens.last_end,
            (t, tstate(final(self).tokens)) == t_expect(old(self).tokens.data(), tstate(old(self).tokens), kind, what@),
    {
        let ghost t0 = self.tokens;
        let t = self.tokens.expect(kind, what);
        proof {
            let pk = crate::js_parser::tokenizer::peeked(t0);
            if pk.0 matches Some(tok) && tok.kind == kind {
                lemma_views_extend(t0.diagnostics@, self.tokens.diagnostics@, pk.2);
            } else {
                let e = crate::js_parser::tokenizer::error_at(
                    pk.1,
                    pk.1 + 1,
                    crate::diagnostics::diagnostic::spec_format_diagnostic("Expected $."@, seq![what@]),
                );
                assert(pk.2.push(e) =~= pk.2 + seq![e]);
                lemma_views_extend(t0.diagnostics@, self.tokens.diagnostics@, pk.2 + seq![e]);
            }
        }
        t
    }

    /// Parses the operand that starts with `token`, which was just handed out.
    #[verifier::spinoff_prover]
    #[verifier::rlimit(80)]
    fn parse_operand(&mut self, token: Token) -> (res: Option<ASTExpression>)
        requires
            old(self).tokens.wf(),
            token.range.start < token.range.end == old(self).tokens.last_end,
            token.kind == TokenKind::String ==> token.range.end - token.range.start >= 2
                || old(self).tokens.diagnostics@.len() > 0,
        ensures
            progress(old(self).tokens, final(self).tokens),
            res matches Some(e) ==> parsed_ok(e, final(self).tokens),
            res matches Some(e) ==> e.spec_range().start >= token.range.start
                || final(self).tokens.diagnostics@.len() > 0,
            (opt_view(res), tstate(final(self).tokens)) == p_operand(
                old(self).tokens.data(),
                tstate(old(self).tokens),
                token,
            ),
        decreases old(self).tokens.measure(), 6int,
    {
        let tok_start = token.range.start;
        let kind = token.kind;
        let ghost d = self.tokens.data();
        let ghost s0 = tstate(self.tokens);
        if kind == TokenKind::String {
            Some(ASTExpression::String(ASTString { range: token.range }))
        } else if kind == TokenKind::Number {
            Some(ASTExpression::Number(ASTNumber { range: token.range }))
        } else if kind == TokenKind::Identifier {
            Some(ASTExpression::Identifier(ASTIdentifier { range: token.range }))
        } else if kind == TokenKind::FalseKeyword || kind == TokenKind::TrueKeyword {
            Some(ASTExpression::Boolean(ASTBoolean { range: token.range }))
        } else if kind == TokenKind::ExclamationOp || kind == TokenKind::PlusOp || kind == TokenKind::MinusOp
            || kind == TokenKind::DotDotDotOp || kind == TokenKind::VoidKeyword {
            let expression = match self.expect_single_expr("an expression", true) {
                Some(e) => e,
                None => { return None; },
            };
            let range = self.tokens.range(tok_start);
            let r = ASTExpression::Unary(Box::new(ASTUnary { operator: kind, expression, range }));
            assert((opt_view(Some(r)), tstate(self.tokens)) == p_operand(d, s0, token));
            Some(r)
        } else if kind == TokenKind::SquareBracketOpenPunc {
            let elements = self.parse_list(TokenKind::CommaPunc, TokenKind::SquareBracketClosePunc, "]");
            let range = self.tokens.range(tok_start);
            let r = ASTExpression::ArrayLit(ASTArray { elements, range });
            assert((opt_view(Some(r)), tstate(self.tokens)) == p_operand(d, s0, token));
            Some(r)
        } else if kind == TokenKind::ParanthesisOpenPunc {
            let exp = match self.parse_full_expression() {
                Some(e) => e,
                None => { return None; },
            };
            if self.expect(TokenKind::ParanthesisClosePunc, ")").is_none() {
                return None;
            }
            assert((opt_view(Some(exp)), tstate(self.tokens)) == p_operand(d, s0, token));
            Some(exp)
        } else if kind == TokenKind::NewKeyword {
            let expression = match self.parse_single_expression(false) {
                Some(e) => e,
                None => { return None; },
            };
            let ghost ta = self.tokens;
            let has_arguments = self.next_is(TokenKind::ParanthesisOpenPunc);
            let ghost tb = self.tokens;
            let arguments = if has_arguments {
                self.step();
                proof {
                    assert(tm(d, tstate(self.tokens)) == self.tokens.measure());
                    assert(tm(d, s0) == old(self).tokens.measure());
                    assert(tstate(self.tokens) == t_next(d, tstate(tb)).1);
                }
                self.parse_list(TokenKind::CommaPunc, TokenKind::ParanthesisClosePunc, ")")
            } else {
                let v: Vec<ASTExpression> = Vec::new();
                proof {
                    assert(expr_views(v@) =~= Seq::<ExprView>::empty());
                }
                v
            };
            let range = self.tokens.range(tok_start);
            let r = ASTExpression::New(Box::new(ASTNew { expression, arguments, range }));
            assert((opt_view(Some(r)), tstate(self.tokens)) == p_operand(d, s0, token));
            Some(r)
        } else {
            let text = self.tokens.input.data.from_range(&token.range);
            let mut vars: Vec<&str> = Vec::new();
            vars.push(text.as_str());
            proof {
                assert(crate::diagnostics::diagnostic::str_views(vars@) =~= seq![text@]);
            }
            let d = Diagnostic::error(&Diagnostics::unknown_token(), token.range, vars);
            self.report(d);
            None
        }
    }

    /// Parses one operand: a literal, a name, a unary operation, an array, a
    /// parenthesised or `new` expression; with `parse_suffix`, also what follows it.
    fn parse_single_expression(&mut self, parse_suffix: bool) -> (res: Option<ASTExpression>)
        requires
            old(self).tokens.wf(),
        ensures
            progress(old(self).tokens, final(self).tokens),
            res.is_some() ==> final(self).tokens.measure() < old(self).tokens.measure(),
            res matches Some(e) ==> parsed_ok(e, final(self).tokens),
            res matches Some(e) ==> e.spec_range().start >= old(self).tokens.last_end
                || final(self).tokens.diagnostics@.len() > 0,
            (opt_view(res), tstate(final(self).tokens)) == p_single(
                old(self).tokens.data(),
                tstate(old(self).tokens),
                parse_suffix,
            ),
        decreases old(self).tokens.measure(), 2int,
    {
        let token = match self.next_token() {
            Some(token) => token,
            None => { return None; },
        };
        let tok_start = token.range.start;
        let ast_token = match self.parse_operand(token) {
            Some(e) => e,
            None => { return None; },
        };
        if parse_suffix {
            self.parse_suffix(ast_token, tok_start)
        } else {
            Some(ast_token)
        }
    }

    /// Parses an operand with its suffixes, then the binary operations that follow.
    fn parse_full_expression(&mut self) -> (res: Option<ASTExpression>)
        requires
            old(self).tokens.wf(),
        ensures
            progress(old(self).tokens, final(self).tokens),
            res.is_some() ==> final(self).tokens.measure() < old(self).tokens.measure(),
            res matches Some(e) ==> parsed_ok(e, final(self).tokens),
            res matches Some(e) ==> e.spec_range().start >= old(self).tokens.last_end
                || final(self).tokens.diagnostics@.len() > 0,
            (opt_view(res), tstate(final(self).tokens)) == p_full(old(self).tokens.data(), tstate(old(self).tokens)),
        decreases old(self).tokens.measure(), 3int,
    {
        match self.parse_single_expression(true) {
            Some(exp) => self.parse_binary(exp, 0),
            None => None,
        }
    }

    /// Parses an operand; reports `msg` as expected where there is none.
    fn expect_single_expr(&mut self, msg: &str, parse_suffix: bool) -> (res: Option<ASTExpression>)
        requires
            old(self).tokens.wf(),
        ensures
            progress(old(self).tokens, final(self).tokens),
            res.is_some() ==> final(self).tokens.measure() < old(self).tokens.measure(),
            res matches Some(e) ==> parsed_ok(e, final(self).tokens),
            res matches Some(e) ==> e.spec_range().start >= old(self).tokens.last_end
                || final(self).tokens.diagnostics@.len() > 0,
            (opt_view(res), tstate(final(self).tokens)) == p_expect_single(
                old(self).tokens.data(),
                tstate(old(self).tokens),
                msg@,
                parse_suffix,
            ),
        decreases old(self).tokens.measure(), 3int,
    {
        let expr = self.parse_single_expression(parse_suffix);
        if expr.is_none() {
            let r = self.tokens.input.range_here();
            let mut vars: Vec<&str> = Vec::new();
            vars.push(msg);
            proof {
                assert(crate::diagnostics::diagnostic::str_views(vars@) =~= seq![msg@]);
            }
            let d = Diagnostic::error(&Diagnostics::expected(), r, vars);
            self.report(d);
        }
        expr
    }

    /// Parses javascript: expressions separated by semicolons. Gives the
    /// expressions, the diagnostics and the input; without diagnostics, every
    /// expression is well formed over the input.
    /// Input too long for its positions to be counted gives nothing.
    pub fn parse(content: &'a str) -> (res: (Vec<ASTExpression>, Vec<Diagnostic>, InputPresenter<'a>))
        ensures
            res.2.data@ == content.spec_bytes(),
            res.1@.len() == 0 ==> forall|i: int|
                0 <= i < res.0@.len() ==> wf_expr(#[trigger] res.0@[i], content.spec_bytes().len() as int),
            content.spec_bytes().len() + 4 <= usize::MAX ==> {
                let r = p_all(content.spec_bytes(), start_state(), seq![]);
                &&& expr_views(res.0@) == r.0
                &&& diag_views(res.1@) == r.1.diags
            },
            content.spec_bytes().len() + 4 > usize::MAX ==> res.0@.len() == 0 && res.1@.len() == 0,
            (expr_views(res.0@), diag_views(res.1@)) == parsed_js(content.spec_bytes()),
    {
        if content.as_bytes().len() > usize::MAX - 4 {
            let es: Vec<ASTExpression> = Vec::new();
            let ds: Vec<Diagnostic> = Vec::new();
            proof {
                assert(expr_views(es@) =~= Seq::<ExprView>::empty());
                assert(diag_views(ds@) =~= Seq::<DiagView>::empty());
            }
            return (es, ds, InputPresenter::new(content));
        }
        let mut parser = JsParser::new(content);
        let ghost len = content.spec_bytes().len() as int;
        let ghost d = content.spec_bytes();
        proof {
            assert(tstate(parser.tokens) == start_state());
        }
        let mut result: Vec<ASTExpression> = Vec::new();
        loop
            invariant_except_break
                p_all(d, start_state(), seq![]) == p_all(d, tstate(parser.tokens), expr_views(result@)),
            invariant
                parser.tokens.wf(),
                parser.tokens.data() == content.spec_bytes(),
                d == content.spec_bytes(),
                len == content.spec_bytes().len(),
                forall|i: int| 0 <= i < result@.len() ==> parsed_ok(#[trigger] result@[i], parser.tokens),
            ensures
                p_all(d, start_state(), seq![]) == (expr_views(result@), tstate(parser.tokens)),
            decreases parser.tokens.measure(),
        {
            let exp = match parser.parse_full_expression() {
                Some(exp) => exp,
                None => { break; },
            };
            let ghost before = result@;
            result.push(exp);
            proof {
                assert(result@.drop_last() =~= before);
                assert(expr_views(result@) == expr_views(before).push(expr_view(exp)));
            }
            let semi = parser.next_is(TokenKind::SemicolonPunc);
            if semi {
                parser.step();
            } else {
                break;
            }
        }
        (result, parser.tokens.diagnostics, parser.tokens.input.data)
    }
}

/// Parsed javascript as plain values: the expressions and the diagnostics;
/// input too long for its positions to be counted gives neither.
pub open spec fn parsed_js(d: Seq<u8>) -> (Seq<ExprView>, Seq<DiagView>) {
    if d.len() + 4 <= usize::MAX {
        let r = p_all(d, start_state(), seq![]);
        (r.0, r.1.diags)
    } else {
        (seq![], seq![])
    }
}

/// The tokenizer's state before anything was lexed.
pub open spec fn start_state() -> TState {
    TState { pos: 0, last: None, last_end: 0, diags: seq![] }
}

} // verus!
