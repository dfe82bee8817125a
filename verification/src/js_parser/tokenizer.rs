use vstd::prelude::*;
use vstd::string::*;
use crate::diagnostics::diagnostic::{
    Diagnostic, DiagnosticMessage, DiagnosticVariants, spec_format_diagnostic, str_views, diag_view, diag_views,
    lemma_diag_views_push, lemma_diag_views_len,
};
use crate::diagnostics::location::Range;
use crate::js_parser::input::{InputConsumer, InputPresenter};
use crate::strings::{byte_char, push_char};

verus! {

/// The diagnostics the javascript tokenizer reports.
pub struct Diagnostics;

impl Diagnostics {
    pub fn end_of_str() -> (d: DiagnosticMessage)
        ensures
            d.code@ == "JSP1001"@,
            d.message@ == "Unexpected end of string."@,
    {
        DiagnosticMessage { code: "JSP1001", message: "Unexpected end of string." }
    }

    pub fn invalid_digit() -> (d: DiagnosticMessage)
        ensures
            d.code@ == "JSP1002"@,
            d.message@ == "Invalid digit '$'."@,
    {
        DiagnosticMessage { code: "JSP1002", message: "Invalid digit '$'." }
    }

    pub fn decimal_point() -> (d: DiagnosticMessage)
        ensures
            d.code@ == "JSP1003"@,
            d.message@ == "Number already has a decimal point."@,
    {
        DiagnosticMessage { code: "JSP1003", message: "Number already has a decimal point." }
    }

    pub fn numeric_separator_at_end() -> (d: DiagnosticMessage)
        ensures
            d.code@ == "JSP1004"@,
            d.message@ == "Numeric separators are not allowed at the end of numeric literals."@,
    {
        DiagnosticMessage {
            code: "JSP1004",
            message: "Numeric separators are not allowed at the end of numeric literals.",
        }
    }
}

#[derive(Clone, Copy, Debug, PartialEq, Eq, Structural)]
pub enum TokenKind {
    String,
    Number,
    Identifier,
    CommaPunc,  // ,
    SemicolonPunc,  // ;
    SquareBracketOpenPunc,  // [
    SquareBracketClosePunc,  // ]
    ParanthesisOpenPunc,  // (
    ParanthesisClosePunc,  // )
    PlusOp,  // +
    MinusOp,  // -
    StarOp,  // *
    StarStarOp,  // **
    SlashOp,  // /
    PercentOp,  // %
    EqualsEqualsEqualsOp,  // ===
    EqualsEqualsOp,  // ==
    NotEqualsOp,  // !=
    NotEqualsEqualsOp,  // !==
    AmpersandAmpersandOp,  // &&
    BarBarOp,  // ||
    QuestionQuestionOp,  // ??
    QuestionOp,  // ?
    ColonOp,  // :
    EqualsOp,  // =
    PlusEqualsOp,  // +=
    MinusEqualsOp,  // -=
    StarEqualsOp,  // *=
    SlashEqualsOp,  // /=
    ExclamationOp,  // !
    DotOp,  // .
    DotDotDotOp,  // ...
    LessThanOp,  // <
    GreaterThanOp,  // >
    LessThanEqualsOp,  // <=
    GreaterThanEqualsOp,  // >=
    StringLitStart,
    VoidKeyword,
    TrueKeyword,
    FalseKeyword,
    NewKeyword,
}


/// The text a token stands for in javascript: operators and punctuation by
/// their symbol, keywords by their word (`void` and `new` with the space that
/// follows them); literals and names have none of their own.
pub open spec fn op_text(k: TokenKind) -> Seq<char> {
    match k {
        TokenKind::String => Seq::<char>::empty(),
        TokenKind::Number => Seq::<char>::empty(),
        TokenKind::Identifier => Seq::<char>::empty(),
        TokenKind::CommaPunc => seq![','],
        TokenKind::SemicolonPunc => seq![';'],
        TokenKind::SquareBracketOpenPunc => seq!['['],
        TokenKind::SquareBracketClosePunc => seq![']'],
        TokenKind::ParanthesisOpenPunc => seq!['('],
        TokenKind::ParanthesisClosePunc => seq![')'],
        TokenKind::PlusOp => seq!['+'],
        TokenKind::MinusOp => seq!['-'],
        TokenKind::StarOp => seq!['*'],
        TokenKind::StarStarOp => seq!['*', '*'],
        TokenKind::SlashOp => seq!['/'],
        TokenKind::PercentOp => seq!['%'],
        TokenKind::EqualsEqualsEqualsOp => seq!['=', '=', '='],
        TokenKind::EqualsEqualsOp => seq!['=', '='],
        TokenKind::NotEqualsOp => seq!['!', '='],
        TokenKind::NotEqualsEqualsOp => seq!['!', '=', '='],
        TokenKind::AmpersandAmpersandOp => seq!['&', '&'],
        TokenKind::BarBarOp => seq!['|', '|'],
        TokenKind::QuestionQuestionOp => seq!['?', '?'],
        TokenKind::QuestionOp => seq!['?'],
        TokenKind::ColonOp => seq![':'],
        TokenKind::EqualsOp => seq!['='],
        TokenKind::PlusEqualsOp => seq!['+', '='],
        TokenKind::MinusEqualsOp => seq!['-', '='],
        TokenKind::StarEqualsOp => seq!['*', '='],
        TokenKind::SlashEqualsOp => seq!['/', '='],
        TokenKind::ExclamationOp => seq!['!'],
        TokenKind::DotOp => seq!['.'],
        TokenKind::DotDotDotOp => seq!['.', '.', '.'],
        TokenKind::LessThanOp => seq!['<'],
        TokenKind::GreaterThanOp => seq!['>'],
        TokenKind::LessThanEqualsOp => seq!['<', '='],
        TokenKind::GreaterThanEqualsOp => seq!['>', '='],
        TokenKind::StringLitStart => seq!['`'],
        TokenKind::VoidKeyword => seq!['v', 'o', 'i', 'd', ' '],
        TokenKind::TrueKeyword => seq!['t', 'r', 'u', 'e'],
        TokenKind::FalseKeyword => seq!['f', 'a', 'l', 's', 'e'],
        TokenKind::NewKeyword => seq!['n', 'e', 'w', ' '],
    }
}

impl TokenKind {
    /// The text the token stands for in javascript.
    pub fn as_text(&self) -> (s: &'static str)
        ensures
            s@ == op_text(*self),
    {
        match self {
            TokenKind::String => {
                proof {
                    reveal_strlit("");
                }
                ""
            },
            TokenKind::Number => {
                proof {
                    reveal_strlit("");
                }
                ""
            },
            TokenKind::Identifier => {
                proof {
                    reveal_strlit("");
                }
                ""
            },
            TokenKind::CommaPunc => {
                proof {
                    reveal_strlit(",");
                }
                ","
            },
            TokenKind::SemicolonPunc => {
                proof {
                    reveal_strlit(";");
                }
                ";"
            },
            TokenKind::SquareBracketOpenPunc => {
                proof {
                    reveal_strlit("[");
                }
                "["
            },
            TokenKind::SquareBracketClosePunc => {
                proof {
                    reveal_strlit("]");
                }
                "]"
            },
            TokenKind::ParanthesisOpenPunc => {
                proof {
                    reveal_strlit("(");
                }
                "("
            },
            TokenKind::ParanthesisClosePunc => {
                proof {
                    reveal_strlit(")");
                }
                ")"
            },
            TokenKind::PlusOp => {
                proof {
                    reveal_strlit("+");
                }
                "+"
            },
            TokenKind::MinusOp => {
                proof {
                    reveal_strlit("-");
                }
                "-"
            },
            TokenKind::StarOp => {
                proof {
                    reveal_strlit("*");
                }
                "*"
            },
            TokenKind::StarStarOp => {
                proof {
                    reveal_strlit("**");
                }
                "**"
            },
            TokenKind::SlashOp => {
                proof {
                    reveal_strlit("/");
                }
                "/"
            },
            TokenKind::PercentOp => {
                proof {
                    reveal_strlit("%");
                }
                "%"
            },
            TokenKind::EqualsEqualsEqualsOp => {
                proof {
                    reveal_strlit("===");
                }
                "==="
            },
            TokenKind::EqualsEqualsOp => {
                proof {
                    reveal_strlit("==");
                }
                "=="
            },
            TokenKind::NotEqualsOp => {
                proof {
                    reveal_strlit("!=");
                }
                "!="
            },
            TokenKind::NotEqualsEqualsOp => {
                proof {
                    reveal_strlit("!==");
                }
                "!=="
            },
            TokenKind::AmpersandAmpersandOp => {
                proof {
                    reveal_strlit("&&");
                }
                "&&"
            },
            TokenKind::BarBarOp => {
                proof {
                    reveal_strlit("||");
                }
                "||"
            },
            TokenKind::QuestionQuestionOp => {
                proof {
                    reveal_strlit("??");
                }
                "??"
            },
            TokenKind::QuestionOp => {
                proof {
                    reveal_strlit("?");
                }
                "?"
            },
            TokenKind::ColonOp => {
                proof {
                    reveal_strlit(":");
                }
                ":"
            },
            TokenKind::EqualsOp => {
                proof {
                    reveal_strlit("=");
                }
                "="
            },
            TokenKind::PlusEqualsOp => {
                proof {
                    reveal_strlit("+=");
                }
                "+="
            },
            TokenKind::MinusEqualsOp => {
                proof {
                    reveal_strlit("-=");
                }
                "-="
            },
            TokenKind::StarEqualsOp => {
                proof {
                    reveal_strlit("*=");
                }
                "*="
            },
            TokenKind::SlashEqualsOp => {
                proof {
                    reveal_strlit("/=");
                }
                "/="
            },
            TokenKind::ExclamationOp => {
                proof {
                    reveal_strlit("!");
                }
                "!"
            },
            TokenKind::DotOp => {
                proof {
                    reveal_strlit(".");
                }
                "."
            },
            TokenKind::DotDotDotOp => {
                proof {
                    reveal_strlit("...");
                }
                "..."
            },
            TokenKind::LessThanOp => {
                proof {
                    reveal_strlit("<");
                }
                "<"
            },
            TokenKind::GreaterThanOp => {
                proof {
                    reveal_strlit(">");
                }
                ">"
            },
            TokenKind::LessThanEqualsOp => {
                proof {
                    reveal_strlit("<=");
                }
                "<="
            },
            TokenKind::GreaterThanEqualsOp => {
                proof {
                    reveal_strlit(">=");
                }
                ">="
            },
            TokenKind::StringLitStart => {
                proof {
                    reveal_strlit("`");
                }
                "`"
            },
            TokenKind::VoidKeyword => {
                proof {
                    reveal_strlit("void ");
                }
                "void "
            },
            TokenKind::TrueKeyword => {
                proof {
                    reveal_strlit("true");
                }
                "true"
            },
            TokenKind::FalseKeyword => {
                proof {
                    reveal_strlit("false");
                }
                "false"
            },
            TokenKind::NewKeyword => {
                proof {
                    reveal_strlit("new ");
                }
                "new "
            },
        }
    }
}

#[derive(Clone, Copy, Debug, PartialEq, Eq)]
pub struct Token {
    pub kind: TokenKind,
    pub range: Range<usize>,
}

#[derive(Clone, Copy, Debug, PartialEq, Eq, Structural)]
pub enum NumberType {
    Binary,  // 0b
    Octal,  // 0o
    Hex,  // 0x
    Decimal,
}

/// A diagnostic as the contracts see it: its range, its message and its kind.
pub type DiagView = (Range<usize>, Seq<char>, DiagnosticVariants);

pub open spec fn error_at(start: int, end: int, msg: Seq<char>) -> DiagView {
    (Range { start: start as usize, end: end as usize }, msg, DiagnosticVariants::Error)
}

pub open spec fn token_at(kind: TokenKind, start: int, end: int) -> Token {
    Token { kind, range: Range { start: start as usize, end: end as usize } }
}

/// Whether the byte at `i` exists and is `b`.
pub open spec fn at(d: Seq<u8>, i: int, b: u8) -> bool {
    0 <= i < d.len() && d[i] == b
}

// ---------------------------------------------------------------- strings

/// The first position at or after `i` holding the byte `b`, or the end of the data.
pub open spec fn find_byte(d: Seq<u8>, i: int, b: u8) -> int
    decreases d.len() - i,
{
    if i < 0 || i >= d.len() || d[i] == b {
        i
    } else {
        find_byte(d, i + 1, b)
    }
}

/// A string literal opened by the quote at `start`: it runs to the next equal
/// quote; without one it runs to the end and is reported.
pub open spec fn lex_string(d: Seq<u8>, start: int) -> (Option<Token>, int, Seq<DiagView>) {
    let k = find_byte(d, start + 1, d[start]);
    if k < d.len() {
        (Some(token_at(TokenKind::String, start, k + 1)), k + 1, seq![])
    } else {
        (Some(token_at(TokenKind::String, start, d.len() as int)), d.len() as int,
            seq![error_at(start, d.len() as int, "Unexpected end of string."@)])
    }
}

// ---------------------------------------------------------------- identifiers

pub open spec fn is_ident_start(c: u8) -> bool {
    (97u8 <= c <= 122u8) || (65u8 <= c <= 90u8) || c == 36u8 || c == 95u8
}

pub open spec fn is_ident_byte(c: u8) -> bool {
    is_ident_start(c) || (48u8 <= c <= 57u8)
}

/// The end of the identifier characters starting at `i`.
pub open spec fn ident_end(d: Seq<u8>, i: int) -> int
    decreases d.len() - i,
{
    if i < 0 || i >= d.len() || !is_ident_byte(d[i]) {
        i
    } else {
        ident_end(d, i + 1)
    }
}

/// The kind of a word: one of the keywords `false`, `true`, `void` and `new`, or an identifier.
pub open spec fn keyword_kind(w: Seq<u8>) -> TokenKind {
    if w.len() == 5 && w[0] == 102u8 && w[1] == 97u8 && w[2] == 108u8 && w[3] == 115u8 && w[4] == 101u8 {
        TokenKind::FalseKeyword
    } else if w.len() == 4 && w[0] == 116u8 && w[1] == 114u8 && w[2] == 117u8 && w[3] == 101u8 {
        TokenKind::TrueKeyword
    } else if w.len() == 4 && w[0] == 118u8 && w[1] == 111u8 && w[2] == 105u8 && w[3] == 100u8 {
        TokenKind::VoidKeyword
    } else if w.len() == 3 && w[0] == 110u8 && w[1] == 101u8 && w[2] == 119u8 {
        TokenKind::NewKeyword
    } else {
        TokenKind::Identifier
    }
}

pub open spec fn lex_ident(d: Seq<u8>, start: int) -> (Option<Token>, int, Seq<DiagView>) {
    let e = ident_end(d, start + 1);
    (Some(token_at(keyword_kind(d.subrange(start, e)), start, e)), e, seq![])
}

// ---------------------------------------------------------------- numbers

pub open spec fn invalid_digit_msg(c: u8) -> Seq<char> {
    spec_format_diagnostic("Invalid digit '$'."@, seq![seq![byte_char(c)]])
}

/// Scans the digits of a number from `i`: where the scan stops, and what it reports.
pub open spec fn number_scan(d: Seq<u8>, i: int, has_dot: bool, ty: NumberType) -> (int, Seq<DiagView>)
    decreases d.len() - i,
{
    if i < 0 || i >= d.len() {
        (i, seq![])
    } else {
        let c = d[i];
        if c == 48u8 {
            number_scan(d, i + 1, has_dot, ty)
        } else if 49u8 <= c <= 57u8 {
            if (ty == NumberType::Binary && c > 49u8) || (ty == NumberType::Octal && c > 55u8) {
                let r = number_scan(d, i + 1, has_dot, NumberType::Decimal);
                (r.0, seq![error_at(i, i + 1, invalid_digit_msg(c))] + r.1)
            } else {
                number_scan(d, i + 1, has_dot, ty)
            }
        } else if ty == NumberType::Hex && ((65u8 <= c <= 70u8) || (97u8 <= c <= 102u8)) {
            number_scan(d, i + 1, has_dot, ty)
        } else if c == 46u8 && ty == NumberType::Decimal {
            if has_dot {
                (i + 1, seq![error_at(i + 1, i + 2, "Number already has a decimal point."@)])
            } else {
                number_scan(d, i + 1, true, ty)
            }
        } else if c == 95u8 {
            number_scan(d, i + 1, has_dot, ty)
        } else {
            (i, seq![])
        }
    }
}

/// The prefix `0x`, `0o` or `0b` of a number starting at `start`: where its
/// digits begin, and the base it names.
pub open spec fn number_prefix(d: Seq<u8>, start: int) -> (int, NumberType) {
    if d[start] == 48u8 && at(d, start + 1, 120u8) {
        (start + 2, NumberType::Hex)
    } else if d[start] == 48u8 && at(d, start + 1, 111u8) {
        (start + 2, NumberType::Octal)
    } else if d[start] == 48u8 && at(d, start + 1, 98u8) {
        (start + 2, NumberType::Binary)
    } else {
        (start + 1, NumberType::Decimal)
    }
}

pub open spec fn lex_number(d: Seq<u8>, start: int) -> (Option<Token>, int, Seq<DiagView>) {
    let p = number_prefix(d, start);
    let s = number_scan(d, p.0, false, p.1);
    let errs = if d[s.0 - 1] == 95u8 {
        s.1.push(error_at(start, s.0, "Numeric separators are not allowed at the end of numeric literals."@))
    } else {
        s.1
    };
    (Some(token_at(TokenKind::Number, start, s.0)), s.0, errs)
}

// ---------------------------------------------------------------- punctuation

/// The punctuation or operator starting at `p`, and where it ends; `None` for
/// a byte that starts no token.
pub open spec fn lex_punct(d: Seq<u8>, p: int) -> (Option<TokenKind>, int) {
    let c = d[p];
    let q = p + 1;
    if c == 96u8 {
        (Some(TokenKind::StringLitStart), q)
    } else if c == 44u8 {
        (Some(TokenKind::CommaPunc), q)
    } else if c == 59u8 {
        (Some(TokenKind::SemicolonPunc), q)
    } else if c == 91u8 {
        (Some(TokenKind::SquareBracketOpenPunc), q)
    } else if c == 93u8 {
        (Some(TokenKind::SquareBracketClosePunc), q)
    } else if c == 40u8 {
        (Some(TokenKind::ParanthesisOpenPunc), q)
    } else if c == 41u8 {
        (Some(TokenKind::ParanthesisClosePunc), q)
    } else if c == 43u8 {
        if at(d, q, 61u8) { (Some(TokenKind::PlusEqualsOp), q + 1) } else { (Some(TokenKind::PlusOp), q) }
    } else if c == 45u8 {
        if at(d, q, 61u8) { (Some(TokenKind::MinusEqualsOp), q + 1) } else { (Some(TokenKind::MinusOp), q) }
    } else if c == 42u8 {
        if at(d, q, 61u8) {
            (Some(TokenKind::StarEqualsOp), q + 1)
        } else if at(d, q, 42u8) {
            (Some(TokenKind::StarStarOp), q + 1)
        } else {
            (Some(TokenKind::StarOp), q)
        }
    } else if c == 47u8 {
        if at(d, q, 61u8) { (Some(TokenKind::SlashEqualsOp), q + 1) } else { (Some(TokenKind::SlashOp), q) }
    } else if c == 37u8 {
        (Some(TokenKind::PercentOp), q)
    } else if c == 61u8 {
        if at(d, q, 61u8) && at(d, q + 1, 61u8) {
            (Some(TokenKind::EqualsEqualsEqualsOp), q + 2)
        } else if at(d, q, 61u8) {
            (Some(TokenKind::EqualsEqualsOp), q + 1)
        } else {
            (Some(TokenKind::EqualsOp), q)
        }
    } else if c == 33u8 {
        if at(d, q, 61u8) && at(d, q + 1, 61u8) {
            (Some(TokenKind::NotEqualsEqualsOp), q + 2)
        } else if at(d, q, 61u8) {
            (Some(TokenKind::NotEqualsOp), q + 1)
        } else {
            (Some(TokenKind::ExclamationOp), q)
        }
    } else if c == 38u8 {
        if at(d, q, 38u8) { (Some(TokenKind::AmpersandAmpersandOp), q + 1) } else { (None, q) }
    } else if c == 124u8 {
        if at(d, q, 124u8) { (Some(TokenKind::BarBarOp), q + 1) } else { (None, q) }
    } else if c == 63u8 {
        if at(d, q, 63u8) { (Some(TokenKind::QuestionQuestionOp), q + 1) } else { (Some(TokenKind::QuestionOp), q) }
    } else if c == 58u8 {
        (Some(TokenKind::ColonOp), q)
    } else if c == 46u8 {
        if at(d, q, 46u8) && at(d, q + 1, 46u8) {
            (Some(TokenKind::DotDotDotOp), q + 2)
        } else {
            (Some(TokenKind::DotOp), q)
        }
    } else if c == 62u8 {
        if at(d, q, 61u8) {
            (Some(TokenKind::GreaterThanEqualsOp), q + 1)
        } else {
            (Some(TokenKind::GreaterThanOp), q)
        }
    } else if c == 60u8 {
        if at(d, q, 61u8) { (Some(TokenKind::LessThanEqualsOp), q + 1) } else { (Some(TokenKind::LessThanOp), q) }
    } else {
        (None, q)
    }
}

// ---------------------------------------------------------------- tokens

/// Lexes one token at `p`: spaces and line breaks before it are skipped; the
/// result is the token (none at the end of the data or for a byte that starts
/// no token), the position after it, and the diagnostics reported.
pub open spec fn lex(d: Seq<u8>, p: int) -> (Option<Token>, int, Seq<DiagView>)
    decreases d.len() - p,
{
    if p < 0 || p >= d.len() {
        (None, p, seq![])
    } else {
        let c = d[p];
        if c == 32u8 || c == 10u8 || c == 13u8 {
            lex(d, p + 1)
        } else if c == 34u8 || c == 39u8 {
            lex_string(d, p)
        } else if 48u8 <= c <= 57u8 {
            lex_number(d, p)
        } else if is_ident_start(c) {
            lex_ident(d, p)
        } else {
            let r = lex_punct(d, p);
            match r.0 {
                Some(kind) => (Some(token_at(kind, p, r.1)), r.1, seq![]),
                None => (None, r.1, seq![]),
            }
        }
    }
}

/// All tokens of the data from `p`, with the diagnostics of the whole scan.
pub open spec fn lex_all(d: Seq<u8>, p: int) -> (Seq<Token>, Seq<DiagView>)
    decreases d.len() - p,
{
    if p < 0 || p >= d.len() {
        (seq![], seq![])
    } else {
        let r = lex(d, p);
        if r.1 <= p {
            (seq![], r.2)
        } else if r.1 >= d.len() {
            (match r.0 {
                Some(t) => seq![t],
                None => seq![],
            }, r.2)
        } else {
            let rest = lex_all(d, r.1);
            (match r.0 {
                Some(t) => seq![t] + rest.0,
                None => rest.0,
            }, r.2 + rest.1)
        }
    }
}

pub proof fn lemma_find_byte(d: Seq<u8>, i: int, b: u8)
    requires
        0 <= i <= d.len(),
    ensures
        i <= find_byte(d, i, b) <= d.len(),
        find_byte(d, i, b) < d.len() ==> d[find_byte(d, i, b)] == b,
        forall|k: int| i <= k < find_byte(d, i, b) ==> d[k] != b,
    decreases d.len() - i,
{
    if i < d.len() && d[i] != b {
        lemma_find_byte(d, i + 1, b);
    }
}

pub proof fn lemma_ident_end(d: Seq<u8>, i: int)
    requires
        0 <= i <= d.len(),
    ensures
        i <= ident_end(d, i) <= d.len(),
        forall|k: int| i <= k < ident_end(d, i) ==> is_ident_byte(#[trigger] d[k]),
    decreases d.len() - i,
{
    if i < d.len() && is_ident_byte(d[i]) {
        lemma_ident_end(d, i + 1);
    }
}

pub proof fn lemma_number_scan(d: Seq<u8>, i: int, has_dot: bool, ty: NumberType)
    requires
        0 <= i <= d.len(),
    ensures
        i <= number_scan(d, i, has_dot, ty).0 <= d.len(),
    decreases d.len() - i,
{
    if i < d.len() {
        let c = d[i];
        if c == 48u8 {
            lemma_number_scan(d, i + 1, has_dot, ty);
        } else if 49u8 <= c <= 57u8 {
            if (ty == NumberType::Binary && c > 49u8) || (ty == NumberType::Octal && c > 55u8) {
                lemma_number_scan(d, i + 1, has_dot, NumberType::Decimal);
            } else {
                lemma_number_scan(d, i + 1, has_dot, ty);
            }
        } else if ty == NumberType::Hex && ((65u8 <= c <= 70u8) || (97u8 <= c <= 102u8)) {
            lemma_number_scan(d, i + 1, has_dot, ty);
        } else if c == 46u8 && ty == NumberType::Decimal {
            if !has_dot {
                lemma_number_scan(d, i + 1, true, ty);
            }
        } else if c == 95u8 {
            lemma_number_scan(d, i + 1, has_dot, ty);
        }
    }
}

/// A lexed token ends after the position it started from, at most one byte past the data.
pub proof fn lemma_lex_bounds(d: Seq<u8>, p: int)
    requires
        0 <= p < d.len(),
        d.len() + 4 <= usize::MAX,
    ensures
        p < lex(d, p).1 <= d.len(),
        lex(d, p).0 matches Some(t) ==> p <= t.range.start < t.range.end && t.range.end == lex(d, p).1,
        lex(d, p).0 matches Some(t) ==> (t.kind == TokenKind::String ==> t.range.end - t.range.start >= 2
            || lex(d, p).2.len() > 0),
    decreases d.len() - p,
{
    let c = d[p];
    if c == 32u8 || c == 10u8 || c == 13u8 {
        if p + 1 < d.len() {
            lemma_lex_bounds(d, p + 1);
        } else {
            assert(lex(d, p + 1).1 == p + 1);
        }
    } else if c == 34u8 || c == 39u8 {
        lemma_find_byte(d, p + 1, c);
    } else if 48u8 <= c <= 57u8 {
        let pre = number_prefix(d, p);
        lemma_number_scan(d, pre.0, false, pre.1);
    } else if is_ident_start(c) {
        lemma_ident_end(d, p + 1);
    }
}


/// The lexer over javascript source.
pub struct Tokenizer<'a> {
    pub input: InputConsumer<'a>,
    /// A token that was looked at and not yet handed out.
    pub last_token: Option<Token>,
    pub diagnostics: Vec<Diagnostic>,
    /// Where the last token that was handed out ends.
    pub last_end: usize,
}

/// What looking at the next token gives from a tokenizer's state: the token,
/// the input position after it, and the diagnostics reported meanwhile.
pub open spec fn peeked(t: Tokenizer) -> (Option<Token>, int, Seq<DiagView>) {
    if t.last_token.is_some() {
        (t.last_token, t.input.pos as int, seq![])
    } else {
        lex(t.data(), t.input.pos as int)
    }
}

/// `after` is `before` once a lexing step `r` that gave `tok` has run.
pub open spec fn lexed(before: Tokenizer, after: Tokenizer, r: (Option<Token>, int, Seq<DiagView>), tok: Option<Token>) -> bool {
    &&& tok == r.0
    &&& after.input.pos == r.1
    &&& diag_views(after.diagnostics@) == diag_views(before.diagnostics@) + r.2
    &&& after.input.data == before.input.data
    &&& after.last_token == before.last_token
    &&& after.last_end == before.last_end
}

impl<'a> Tokenizer<'a> {
    pub open spec fn data(&self) -> Seq<u8> {
        self.input.bytes()
    }

    /// The position never passes one byte beyond the data, and positions cannot overflow.
    /// What is left to lex: every token handed out lowers it.
    pub open spec fn measure(&self) -> int {
        2 * (self.data().len() - self.input.pos) + if self.last_token.is_some() { 1int } else { 0int }
    }

    /// The position stays within the data and cannot overflow; a token that
    /// waits to be handed out ends at the position; a string token that lacks
    /// its closing quote was reported.
    pub open spec fn wf(&self) -> bool {
        &&& self.input.pos <= self.data().len()
        &&& self.data().len() + 4 <= usize::MAX
        &&& self.last_end <= self.input.pos
        &&& (self.last_token matches Some(t) ==> {
            &&& self.last_end <= t.range.start < t.range.end == self.input.pos
            &&& (t.kind == TokenKind::String ==> t.range.end - t.range.start >= 2 || self.diagnostics@.len() > 0)
        })
    }

    pub fn new(content: &'a str) -> (t: Self)
        requires
            content.spec_bytes().len() + 4 <= usize::MAX,
        ensures
            t.wf(),
            t.data() == content.spec_bytes(),
            t.input.pos == 0,
            t.last_token.is_none(),
            t.diagnostics@.len() == 0,
            t.last_end == 0,
    {
        Tokenizer { input: InputConsumer::new(content), last_token: None, diagnostics: Vec::new(), last_end: 0 }
    }

    fn report(&mut self, template: DiagnosticMessage, range: Range<usize>)
        ensures
            diag_views(final(self).diagnostics@) == diag_views(old(self).diagnostics@).push(
                (range, template.message@, DiagnosticVariants::Error),
            ),
            final(self).input == old(self).input,
            final(self).last_token == old(self).last_token,
            final(self).last_end == old(self).last_end,
    {
        let d = Diagnostic::error(&template, range, Vec::new());
        proof {
            lemma_diag_views_push(self.diagnostics@, d);
        }
        self.diagnostics.push(d);
    }

    /// Lexes a string literal whose opening quote was just consumed.
    fn parse_string(&mut self, end_char: u8) -> (t: Option<Token>)
        requires
            old(self).wf(),
            old(self).last_token.is_none(),
            1 <= old(self).input.pos <= old(self).data().len(),
            old(self).data()[old(self).input.pos - 1] == end_char,
        ensures
            final(self).wf(),
            lexed(*old(self), *final(self), lex_string(old(self).data(), old(self).input.pos - 1), t),
    {
        let ghost d = self.data();
        let start = self.input.pos - 1;
        let len = self.input.data.len();
        let mut found = false;
        proof {
            lemma_find_byte(d, start + 1, end_char);
        }
        while self.input.pos < len && !found
            invariant
                self.input.data == old(self).input.data,
                self.diagnostics == old(self).diagnostics,
                self.last_token == old(self).last_token,
                self.last_end == old(self).last_end,
                d == self.data(),
                len == d.len(),
                start + 1 <= self.input.pos <= len,
                found ==> self.input.pos - 1 == find_byte(d, start + 1, end_char),
                !found ==> forall|k: int| start + 1 <= k < self.input.pos ==> d[k] != end_char,
            decreases len - self.input.pos,
        {
            let b = self.input.data.index(self.input.pos);
            self.input.pos = self.input.pos + 1;
            if b == end_char {
                found = true;
                proof {
                    lemma_find_byte_at(d, start + 1, end_char, self.input.pos - 1);
                }
            }
        }
        let ghost before = diag_views(self.diagnostics@);
        if !found {
            proof {
                lemma_find_byte_at(d, start + 1, end_char, len as int);
            }
            let r = self.input.range(start);
            self.report(Diagnostics::end_of_str(), r);
            assert(diag_views(self.diagnostics@) =~= before + seq![error_at(start as int, len as int, "Unexpected end of string."@)]);
        } else {
            assert(diag_views(self.diagnostics@) =~= before + Seq::<DiagView>::empty());
        }
        Some(Token { kind: TokenKind::String, range: self.input.range(start) })
    }

    /// The kind of the word in `start..end`.
    fn word_kind(&self, start: usize, end: usize) -> (k: TokenKind)
        requires
            start <= end <= self.data().len(),
        ensures
            k == keyword_kind(self.data().subrange(start as int, end as int)),
    {
        let ghost w = self.data().subrange(start as int, end as int);
        let n = end - start;
        if n < 3 || n > 5 {
            return TokenKind::Identifier;
        }
        let d = &self.input.data;
        let b0 = d.index(start);
        let b1 = d.index(start + 1);
        let b2 = d.index(start + 2);
        let b3 = if n >= 4 { d.index(start + 3) } else { 0u8 };
        let b4 = if n >= 5 { d.index(start + 4) } else { 0u8 };
        assert(w[0] == b0 && w[1] == b1 && w[2] == b2);
        assert(n >= 4 ==> w[3] == b3);
        assert(n >= 5 ==> w[4] == b4);
        if n == 5 && b0 == 102u8 && b1 == 97u8 && b2 == 108u8 && b3 == 115u8 && b4 == 101u8 {
            TokenKind::FalseKeyword
        } else if n == 4 && b0 == 116u8 && b1 == 114u8 && b2 == 117u8 && b3 == 101u8 {
            TokenKind::TrueKeyword
        } else if n == 4 && b0 == 118u8 && b1 == 111u8 && b2 == 105u8 && b3 == 100u8 {
            TokenKind::VoidKeyword
        } else if n == 3 && b0 == 110u8 && b1 == 101u8 && b2 == 119u8 {
            TokenKind::NewKeyword
        } else {
            TokenKind::Identifier
        }
    }

    /// Lexes a number whose first digit was just consumed.
    fn parse_number(&mut self) -> (t: Option<Token>)
        requires
            old(self).wf(),
            old(self).last_token.is_none(),
            1 <= old(self).input.pos <= old(self).data().len(),
        ensures
            final(self).wf(),
            lexed(*old(self), *final(self), lex_number(old(self).data(), old(self).input.pos - 1), t),
    {
        let ghost d = self.data();
        let ghost base = diag_views(self.diagnostics@);
        let start = self.input.pos - 1;
        let len = self.input.data.len();
        let mut has_dot = false;
        let mut number_type = NumberType::Decimal;
        if self.input.data.index(start) == 48u8 && self.input.pos < len {
            let p = self.input.data.index(self.input.pos);
            if p == 120u8 {
                self.input.pos = self.input.pos + 1;
                number_type = NumberType::Hex;
            } else if p == 111u8 {
                self.input.pos = self.input.pos + 1;
                number_type = NumberType::Octal;
            } else if p == 98u8 {
                self.input.pos = self.input.pos + 1;
                number_type = NumberType::Binary;
            }
        }
        let ghost pre = number_prefix(d, start as int);
        assert(pre.0 == self.input.pos && pre.1 == number_type);
        let ghost total = number_scan(d, pre.0, false, pre.1);
        proof {
            lemma_number_scan(d, pre.0, false, pre.1);
        }
        let mut done = false;
        while !done && self.input.pos < len
            invariant
                self.input.data == old(self).input.data,
                self.last_token == old(self).last_token,
                self.last_end == old(self).last_end,
                d == self.data(),
                len == d.len(),
                len + 4 <= usize::MAX,
                start + 1 <= self.input.pos <= len,
                !done ==> number_scan(d, self.input.pos as int, has_dot, number_type).0 == total.0,
                !done ==> base + total.1 == diag_views(self.diagnostics@) + number_scan(
                    d,
                    self.input.pos as int,
                    has_dot,
                    number_type,
                ).1,
                done ==> self.input.pos == total.0 && base + total.1 == diag_views(self.diagnostics@),
            decreases 2 * (len - self.input.pos) + (if done { 0int } else { 1int }),
        {
            let ghost before = diag_views(self.diagnostics@);
            let ghost i = self.input.pos as int;
            let c = self.input.data.index(self.input.pos);
            if c == 48u8 {
                self.input.pos = self.input.pos + 1;
            } else if 49u8 <= c && c <= 57u8 {
                if (number_type == NumberType::Binary && c > 49u8) || (number_type == NumberType::Octal && c > 55u8) {
                    let mut digit = String::new();
                    push_char(&mut digit, c as char);
                    let mut vars: Vec<&str> = Vec::new();
                    vars.push(digit.as_str());
                    assert(str_views(vars@) =~= seq![seq![byte_char(c)]]);
                    let e = Diagnostic::error(&Diagnostics::invalid_digit(), self.input.range_here(), vars);
                    proof {
                        lemma_diag_views_push(self.diagnostics@, e);
                    }
                    self.diagnostics.push(e);
                    number_type = NumberType::Decimal;
                    proof {
                        let r = number_scan(d, i + 1, has_dot, NumberType::Decimal);
                        assert(seq![error_at(i, i + 1, invalid_digit_msg(c))] + r.1 =~= seq![error_at(i, i + 1, invalid_digit_msg(c))].add(r.1));
                        assert(before.push(error_at(i, i + 1, invalid_digit_msg(c))) + r.1 =~= before + (seq![error_at(i, i + 1, invalid_digit_msg(c))] + r.1));
                    }
                }
                self.input.pos = self.input.pos + 1;
            } else if number_type == NumberType::Hex && ((65u8 <= c && c <= 70u8) || (97u8 <= c && c <= 102u8)) {
                self.input.pos = self.input.pos + 1;
            } else if c == 46u8 && number_type == NumberType::Decimal {
                self.input.pos = self.input.pos + 1;
                if has_dot {
                    let r = self.input.range_here();
                    self.report(Diagnostics::decimal_point(), r);
                    done = true;
                    assert(before.push(error_at(i + 1, i + 2, "Number already has a decimal point."@)) =~= before + seq![error_at(i + 1, i + 2, "Number already has a decimal point."@)]);
                } else {
                    has_dot = true;
                }
            } else if c == 95u8 {
                self.input.pos = self.input.pos + 1;
            } else {
                done = true;
                assert(before + Seq::<DiagView>::empty() =~= before);
            }
        }
        if !done {
            assert(base + total.1 =~= diag_views(self.diagnostics@));
        }
        let ghost mid = diag_views(self.diagnostics@);
        if self.input.data.index(self.input.pos - 1) == 95u8 {
            let r = self.input.range(start);
            self.report(Diagnostics::numeric_separator_at_end(), r);
            assert(diag_views(self.diagnostics@) =~= base + total.1.push(
                error_at(start as int, total.0, "Numeric separators are not allowed at the end of numeric literals."@),
            ));
        }
        Some(Token { kind: TokenKind::Number, range: self.input.range(start) })
    }

    /// Lexes the punctuation or operator whose first byte `c` was just consumed.
    fn punctuation(&mut self, c: u8) -> (k: Option<TokenKind>)
        requires
            old(self).wf(),
            old(self).last_token.is_none(),
            1 <= old(self).input.pos <= old(self).data().len(),
            old(self).data()[old(self).input.pos - 1] == c,
        ensures
            final(self).wf(),
            k == lex_punct(old(self).data(), old(self).input.pos - 1).0,
            final(self).input.pos == lex_punct(old(self).data(), old(self).input.pos - 1).1,
            final(self).input.data == old(self).input.data,
            final(self).diagnostics == old(self).diagnostics,
            final(self).last_token == old(self).last_token,
            final(self).last_end == old(self).last_end,
    {
        if c == 96u8 {
            Some(TokenKind::StringLitStart)
        } else if c == 44u8 {
            Some(TokenKind::CommaPunc)
        } else if c == 59u8 {
            Some(TokenKind::SemicolonPunc)
        } else if c == 91u8 {
            Some(TokenKind::SquareBracketOpenPunc)
        } else if c == 93u8 {
            Some(TokenKind::SquareBracketClosePunc)
        } else if c == 40u8 {
            Some(TokenKind::ParanthesisOpenPunc)
        } else if c == 41u8 {
            Some(TokenKind::ParanthesisClosePunc)
        } else if c == 43u8 {
            if self.input.is_next(61u8, 0) {
                self.input.skip_chars(1);
                Some(TokenKind::PlusEqualsOp)
            } else {
                Some(TokenKind::PlusOp)
            }
        } else if c == 45u8 {
            if self.input.is_next(61u8, 0) {
                self.input.skip_chars(1);
                Some(TokenKind::MinusEqualsOp)
            } else {
                Some(TokenKind::MinusOp)
            }
        } else if c == 42u8 {
            if self.input.is_next(61u8, 0) {
                self.input.skip_chars(1);
                Some(TokenKind::StarEqualsOp)
            } else if self.input.is_next(42u8, 0) {
                self.input.skip_chars(1);
                Some(TokenKind::StarStarOp)
            } else {
                Some(TokenKind::StarOp)
            }
        } else if c == 47u8 {
            if self.input.is_next(61u8, 0) {
                self.input.skip_chars(1);
                Some(TokenKind::SlashEqualsOp)
            } else {
                Some(TokenKind::SlashOp)
            }
        } else if c == 37u8 {
            Some(TokenKind::PercentOp)
        } else if c == 61u8 {
            if self.input.is_next(61u8, 0) && self.input.is_next(61u8, 1) {
                self.input.skip_chars(2);
                Some(TokenKind::EqualsEqualsEqualsOp)
            } else if self.input.is_next(61u8, 0) {
                self.input.skip_chars(1);
                Some(TokenKind::EqualsEqualsOp)
            } else {
                Some(TokenKind::EqualsOp)
            }
        } else if c == 33u8 {
            if self.input.is_next(61u8, 0) && self.input.is_next(61u8, 1) {
                self.input.skip_chars(2);
                Some(TokenKind::NotEqualsEqualsOp)
            } else if self.input.is_next(61u8, 0) {
                self.input.skip_chars(1);
                Some(TokenKind::NotEqualsOp)
            } else {
                Some(TokenKind::ExclamationOp)
            }
        } else if c == 38u8 {
            if self.input.is_next(38u8, 0) {
                self.input.skip_chars(1);
                Some(TokenKind::AmpersandAmpersandOp)
            } else {
                None
            }
        } else if c == 124u8 {
            if self.input.is_next(124u8, 0) {
                self.input.skip_chars(1);
                Some(TokenKind::BarBarOp)
            } else {
                None
            }
        } else if c == 63u8 {
            if self.input.is_next(63u8, 0) {
                self.input.skip_chars(1);
                Some(TokenKind::QuestionQuestionOp)
            } else {
                Some(TokenKind::QuestionOp)
            }
        } else if c == 58u8 {
            Some(TokenKind::ColonOp)
        } else if c == 46u8 {
            if self.input.is_next(46u8, 0) && self.input.is_next(46u8, 1) {
                self.input.skip_chars(2);
                Some(TokenKind::DotDotDotOp)
            } else {
                Some(TokenKind::DotOp)
            }
        } else if c == 62u8 {
            if self.input.is_next(61u8, 0) {
                self.input.skip_chars(1);
                Some(TokenKind::GreaterThanEqualsOp)
            } else {
                Some(TokenKind::GreaterThanOp)
            }
        } else if c == 60u8 {
            if self.input.is_next(61u8, 0) {
                self.input.skip_chars(1);
                Some(TokenKind::LessThanEqualsOp)
            } else {
                Some(TokenKind::LessThanOp)
            }
        } else {
            None
        }
    }

    /// Lexes the token at the input position, skipping spaces and line breaks
    /// before it; gives nothing at the end of the input or for a byte that
    /// starts no token.
    fn consume(&mut self) -> (t: Option<Token>)
        requires
            old(self).wf(),
            old(self).last_token.is_none(),
        ensures
            final(self).wf(),
            lexed(*old(self), *final(self), lex(old(self).data(), old(self).input.pos as int), t),
    {
        let ghost d = self.data();
        let len = self.input.data.len();
        while self.input.pos < len && is_space(self.input.data.index(self.input.pos))
            invariant
                self.input.data == old(self).input.data,
                self.diagnostics == old(self).diagnostics,
                self.last_token == old(self).last_token,
                self.last_end == old(self).last_end,
                d == self.data(),
                len == d.len(),
                len + 4 <= usize::MAX,
                old(self).input.pos <= self.input.pos <= len,
                old(self).last_end <= old(self).input.pos,
                lex(d, self.input.pos as int) == lex(d, old(self).input.pos as int),
            decreases len - self.input.pos,
        {
            self.input.pos = self.input.pos + 1;
        }
        if self.input.pos >= len {
            assert(diag_views(self.diagnostics@) + Seq::<DiagView>::empty() =~= diag_views(self.diagnostics@));
            return None;
        }
        let start = self.input.pos;
        let c = self.input.data.index(start);
        self.input.pos = self.input.pos + 1;
        if c == 34u8 || c == 39u8 {
            return self.parse_string(c);
        }
        if 48u8 <= c && c <= 57u8 {
            return self.parse_number();
        }
        if is_ident_start_exec(c) {
            return self.parse_identifier_or_keyword();
        }
        let kind = self.punctuation(c);
        assert(diag_views(self.diagnostics@) + Seq::<DiagView>::empty() =~= diag_views(self.diagnostics@));
        match kind {
            Some(k) => Some(Token { kind: k, range: self.input.range(start) }),
            None => None,
        }
    }

    /// The next token, which is then handed out.
    pub fn next(&mut self) -> (t: Option<Token>)
        requires
            old(self).wf(),
        ensures
            final(self).wf(),
            t == peeked(*old(self)).0,
            final(self).input.pos == peeked(*old(self)).1,
            diag_views(final(self).diagnostics@) == diag_views(old(self).diagnostics@) + peeked(*old(self)).2,
            final(self).input.data == old(self).input.data,
            final(self).last_token.is_none(),
            final(self).last_end == (match t {
                Some(tok) => tok.range.end,
                None => old(self).last_end,
            }),
            final(self).last_end >= old(self).last_end,
            final(self).measure() <= old(self).measure(),
            t.is_some() ==> final(self).measure() < old(self).measure(),
            t matches Some(tok) ==> old(self).last_end <= tok.range.start < tok.range.end == final(self).input.pos,
            t matches Some(tok) ==> (tok.kind == TokenKind::String ==> tok.range.end - tok.range.start >= 2
                || final(self).diagnostics@.len() > 0),
    {
        proof {
            if self.last_token.is_none() && self.input.pos < self.input.data.data@.len() {
                lemma_lex_bounds(self.data(), self.input.pos as int);
            }
        }
        let t = if self.last_token.is_some() {
            let cached = self.last_token;
            self.last_token = None;
            assert(diag_views(self.diagnostics@) + Seq::<DiagView>::empty() =~= diag_views(self.diagnostics@));
            cached
        } else {
            self.consume()
        };
        if let Some(tok) = t {
            self.last_end = tok.range.end;
        }
        proof {
            lemma_diag_views_len(self.diagnostics@);
            lemma_diag_views_len(old(self).diagnostics@);
        }
        t
    }

    /// The next token, which stays to be handed out.
    pub fn peek(&mut self) -> (t: Option<Token>)
        requires
            old(self).wf(),
        ensures
            final(self).wf(),
            t == peeked(*old(self)).0,
            final(self).last_token == t,
            final(self).input.pos == peeked(*old(self)).1,
            diag_views(final(self).diagnostics@) == diag_views(old(self).diagnostics@) + peeked(*old(self)).2,
            final(self).input.data == old(self).input.data,
            final(self).last_end == old(self).last_end,
            final(self).measure() <= old(self).measure(),
            t matches Some(tok) ==> old(self).last_end <= tok.range.start < tok.range.end == final(self).input.pos,
            t matches Some(tok) ==> (tok.kind == TokenKind::String ==> tok.range.end - tok.range.start >= 2
                || final(self).diagnostics@.len() > 0),
    {
        proof {
            if self.last_token.is_none() && self.input.pos < self.input.data.data@.len() {
                lemma_lex_bounds(self.data(), self.input.pos as int);
            }
        }
        if self.last_token.is_some() {
            assert(diag_views(self.diagnostics@) + Seq::<DiagView>::empty() =~= diag_views(self.diagnostics@));
            self.last_token
        } else {
            let t = self.consume();
            self.last_token = t;
            proof {
                lemma_diag_views_len(self.diagnostics@);
                lemma_diag_views_len(old(self).diagnostics@);
            }
            t
        }
    }

    /// Whether the next token is of the given kind; the token stays to be handed out.
    pub fn is_next(&mut self, kind: TokenKind) -> (r: bool)
        requires
            old(self).wf(),
        ensures
            final(self).wf(),
            r == (peeked(*old(self)).0 matches Some(tok) && tok.kind == kind),
            final(self).measure() <= old(self).measure(),
            final(self).last_token == peeked(*old(self)).0,
            final(self).input.pos == peeked(*old(self)).1,
            diag_views(final(self).diagnostics@) == diag_views(old(self).diagnostics@) + peeked(*old(self)).2,
            final(self).input.data == old(self).input.data,
            final(self).last_end == old(self).last_end,
    {
        match self.peek() {
            Some(tok) => tok.kind == kind,
            None => false,
        }
    }

    pub fn is_eof(&self) -> (r: bool)
        ensures
            r == (self.input.pos >= self.data().len()),
    {
        self.input.is_eof()
    }

    /// The range from `start` to the end of the last token handed out.
    pub fn range(&self, start: usize) -> (r: Range<usize>)
        ensures
            r.start == start,
            r.end == self.last_end,
    {
        Range { start, end: self.last_end }
    }

    /// Hands out the next token if it is of the given kind; otherwise reports
    /// that `what` was expected, at the input position, and leaves the token.
    pub fn expect(&mut self, kind: TokenKind, what: &str) -> (t: Option<Token>)
        requires
            old(self).wf(),
        ensures
            final(self).wf(),
            final(self).input.data == old(self).input.data,
            final(self).input.pos == peeked(*old(self)).1,
            final(self).measure() <= old(self).measure(),
            final(self).last_end >= old(self).last_end,
            t.is_some() ==> final(self).measure() < old(self).measure(),
            t matches Some(tok) ==> old(self).last_end <= tok.range.start < tok.range.end == final(self).last_end,
            peeked(*old(self)).0 matches Some(tok) && tok.kind == kind ==> {
                &&& t == peeked(*old(self)).0
                &&& final(self).last_token.is_none()
                &&& final(self).last_end == peeked(*old(self)).0.unwrap().range.end
                &&& diag_views(final(self).diagnostics@) == diag_views(old(self).diagnostics@) + peeked(*old(self)).2
            },
            !(peeked(*old(self)).0 matches Some(tok) && tok.kind == kind) ==> {
                &&& t.is_none()
                &&& final(self).last_token == peeked(*old(self)).0
                &&& final(self).last_end == old(self).last_end
                &&& diag_views(final(self).diagnostics@) == diag_views(old(self).diagnostics@) + peeked(*old(self)).2.push(
                    error_at(
                        peeked(*old(self)).1,
                        peeked(*old(self)).1 + 1,
                        spec_format_diagnostic("Expected $."@, seq![what@]),
                    ),
                )
            },
    {
        if self.is_next(kind) {
            let ghost mid = *self;
            let t = self.next();
            assert(diag_views(mid.diagnostics@) + Seq::<DiagView>::empty() =~= diag_views(mid.diagnostics@));
            t
        } else {
            let r = self.input.range_here();
            let mut vars: Vec<&str> = Vec::new();
            vars.push(what);
            assert(str_views(vars@) =~= seq![what@]);
            let e = Diagnostic::error(&crate::js_parser::parser::Diagnostics::expected(), r, vars);
            let ghost before = diag_views(self.diagnostics@);
            proof {
                lemma_diag_views_push(self.diagnostics@, e);
            }
            self.diagnostics.push(e);
            None
        }
    }

    /// Lexes a whole piece of javascript: its tokens, the input, and the diagnostics.
    pub fn parse_full<'b>(content: &'b str) -> (res: (Vec<Token>, InputPresenter<'b>, Vec<Diagnostic>))
        requires
            content.spec_bytes().len() + 4 <= usize::MAX,
        ensures
            res.0@ == lex_all(content.spec_bytes(), 0).0,
            diag_views(res.2@) == lex_all(content.spec_bytes(), 0).1,
            res.1.data@ == content.spec_bytes(),
    {
        let mut parser = Tokenizer::new(content);
        let ghost d = parser.data();
        let mut res: Vec<Token> = Vec::new();
        assert(diag_views(parser.diagnostics@) =~= Seq::<DiagView>::empty());
        while !parser.is_eof()
            invariant
                parser.wf(),
                parser.data() == d,
                parser.last_token.is_none(),
                res@ + lex_all(d, parser.input.pos as int).0 == lex_all(d, 0).0,
                diag_views(parser.diagnostics@) + lex_all(d, parser.input.pos as int).1 == lex_all(d, 0).1,
            decreases d.len() + 1 - parser.input.pos,
        {
            let ghost p = parser.input.pos as int;
            let ghost r = lex(d, p);
            let ghost before = diag_views(parser.diagnostics@);
            proof {
                lemma_lex_bounds(d, p);
            }
            let t = parser.next();
            if let Some(tok) = t {
                res.push(tok);
            }
            proof {
                let rest = lex_all(d, r.1);
                if r.1 >= d.len() {
                    assert(lex_all(d, r.1).0 =~= Seq::<Token>::empty());
                    assert(lex_all(d, r.1).1 =~= Seq::<DiagView>::empty());
                }
                assert(lex_all(d, p).1 == r.2 + rest.1);
                assert(before + lex_all(d, p).1 =~= (before + r.2) + rest.1);
                match r.0 {
                    Some(tk) => {
                        assert(lex_all(d, p).0 == seq![tk] + rest.0);
                        assert(res@ + rest.0 =~= res@.drop_last() + (seq![tk] + rest.0));
                    },
                    None => {},
                }
            }
        }
        assert(lex_all(d, parser.input.pos as int).0 =~= Seq::<Token>::empty());
        assert(res@ + Seq::<Token>::empty() =~= res@);
        assert(diag_views(parser.diagnostics@) + Seq::<DiagView>::empty() =~= diag_views(parser.diagnostics@));
        (res, parser.input.data, parser.diagnostics)
    }

    /// Lexes an identifier or keyword whose first character was just consumed.
    fn parse_identifier_or_keyword(&mut self) -> (t: Option<Token>)
        requires
            old(self).wf(),
            old(self).last_token.is_none(),
            1 <= old(self).input.pos <= old(self).data().len(),
        ensures
            final(self).wf(),
            lexed(*old(self), *final(self), lex_ident(old(self).data(), old(self).input.pos - 1), t),
    {
        let ghost d = self.data();
        let start = self.input.pos - 1;
        let len = self.input.data.len();
        proof {
            lemma_ident_end(d, start + 1);
        }
        while self.input.pos < len && is_ident_byte_exec(self.input.data.index(self.input.pos))
            invariant
                self.input.data == old(self).input.data,
                self.diagnostics == old(self).diagnostics,
                self.last_token == old(self).last_token,
                self.last_end == old(self).last_end,
                d == self.data(),
                len == d.len(),
                start + 1 <= self.input.pos <= len,
                ident_end(d, self.input.pos as int) == ident_end(d, start + 1),
            decreases len - self.input.pos,
        {
            self.input.pos = self.input.pos + 1;
        }
        let range = self.input.range(start);
        let kind = self.word_kind(start, self.input.pos);
        Some(Token { range, kind })
    }
}

fn is_space(c: u8) -> (r: bool)
    ensures
        r == (c == 32u8 || c == 10u8 || c == 13u8),
{
    c == 32u8 || c == 10u8 || c == 13u8
}

fn is_ident_start_exec(c: u8) -> (r: bool)
    ensures
        r == is_ident_start(c),
{
    (97u8 <= c && c <= 122u8) || (65u8 <= c && c <= 90u8) || c == 36u8 || c == 95u8
}

fn is_ident_byte_exec(c: u8) -> (r: bool)
    ensures
        r == is_ident_byte(c),
{
    (97u8 <= c && c <= 122u8) || (65u8 <= c && c <= 90u8) || c == 36u8 || c == 95u8 || (48u8 <= c && c <= 57u8)
}

pub proof fn lemma_find_byte_at(d: Seq<u8>, i: int, b: u8, j: int)
    requires
        0 <= i <= j <= d.len(),
        forall|k: int| i <= k < j ==> d[k] != b,
        j == d.len() || d[j] == b,
    ensures
        find_byte(d, i, b) == j,
    decreases j - i,
{
    if i < j {
        lemma_find_byte_at(d, i + 1, b, j);
    }
}

} // verus!
