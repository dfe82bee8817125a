use storytell::js_parser::input::{InputConsumer, InputPresenter};
use storytell::js_parser::parser::ast::{
    ASTAccess, ASTArray, ASTBinary, ASTBoolean, ASTCall, ASTExpression, ASTIdentifier, ASTNew, ASTNumber, ASTString,
    ASTStringLiteral, ASTStringLiteralPart, ASTTernary, ASTUnary, MutVisitor, Visitable, Visitor,
};
use storytell::js_parser::parser::JsParser;
use storytell::js_parser::tokenizer::{TokenKind, Tokenizer};

#[test]
fn test_input() {
    let mut input = InputConsumer::new("abcde");
    assert_eq!(input.next(), Some('a'));
    assert_eq!(input.next(), Some('b'));
    input.skip_until_after(b'd');
    assert_eq!(input.next(), Some('e'));
    assert_eq!(input.next(), None);
}

#[test]
fn test_numbers() {
    let (result, range_reader, errors) = Tokenizer::parse_full("3.14 123 0x23 0b123 45_566_43");
    assert_eq!(range_reader.from_range(&result[0].range), "3.14");
    assert_eq!(range_reader.from_range(&result[1].range), "123");
    assert_eq!(range_reader.from_range(&result[2].range), "0x23");
    assert_eq!(errors.len(), 1);
    assert_eq!(range_reader.from_range(&result[4].range), "45_566_43");
}

#[test]
fn test_strings() {
    let (result, range_reader, _) = Tokenizer::parse_full("
        \"Hello, World!\"
        'Test...'
        ");
    assert_eq!(range_reader.from_range(&result[0].range), "\"Hello, World!\"");
    assert_eq!(range_reader.from_range(&result[1].range), "'Test...'");
}

#[test]
fn test_ops() {
    let (result, _, _) = Tokenizer::parse_full("
        \"Hello, World!\"
        ...
        +=
        ===
        !
        ");
    assert_eq!(result[0].kind, TokenKind::String);
    assert_eq!(result[1].kind, TokenKind::DotDotDotOp);
    assert_eq!(result[2].kind, TokenKind::PlusEqualsOp);
    assert_eq!(result[3].kind, TokenKind::EqualsEqualsEqualsOp);
    assert_eq!(result[4].kind, TokenKind::ExclamationOp);
}

#[test]
fn test_identifiers_and_keywords() {
    let (result, range_reader, _) = Tokenizer::parse_full("
        hello_world HelloWorld
        helloWorld12d$
        void
        false
        true
        ");
    assert_eq!(result[0].kind, TokenKind::Identifier);
    assert_eq!(range_reader.from_range(&result[0].range), "hello_world");
    assert_eq!(result[1].kind, TokenKind::Identifier);
    assert_eq!(range_reader.from_range(&result[1].range), "HelloWorld");
    assert_eq!(result[2].kind, TokenKind::Identifier);
    assert_eq!(range_reader.from_range(&result[2].range), "helloWorld12d$");
    assert_eq!(result[3].kind, TokenKind::VoidKeyword);
    assert_eq!(result[4].kind, TokenKind::FalseKeyword);
    assert_eq!(result[5].kind, TokenKind::TrueKeyword);
}

#[test]
fn test_basic_tokens() {
    let (tokens, _, input) = JsParser::parse("\"HelloWorld\"; 123.4; false");
    assert_eq!(input.from_range(tokens[0].range()), "\"HelloWorld\"");
    assert_eq!(input.from_range(tokens[1].range()), "123.4");
    assert_eq!(input.from_range(tokens[2].range()), "false");
}

pub struct MyVisitor<'a> {
    occurance: u8,
    input: InputPresenter<'a>,
}

impl<'a> Visitor for MyVisitor<'a> {
    fn binary(&mut self, exp: &ASTBinary) {
        println!("THING: {:?}", self.input.from_range(&exp.range));
        if self.occurance == 0 {
            assert_eq!(exp.operator, TokenKind::MinusOp);
        }
        if self.occurance == 1 {
            assert_eq!(self.input.from_range(exp.left.range()), "a");
            assert_eq!(self.input.from_range(exp.right.range()), "b");
        }
        if self.occurance == 2 {
            assert_eq!(self.input.from_range(exp.right.range()), "c");
            assert_eq!(exp.operator, TokenKind::StarOp);
        }
        if self.occurance == 3 {
            assert_eq!(self.input.from_range(exp.left.range()), "c");
            assert_eq!(self.input.from_range(exp.right.range()), "d");
        }
        self.occurance += 1;
        exp.visit_each_child(self);
    }

    fn list<T>(&mut self, _exp: &Vec<T>) {}
    fn string(&mut self, _exp: &ASTString) {}
    fn number(&mut self, _exp: &ASTNumber) {}
    fn boolean(&mut self, _exp: &ASTBoolean) {}
    fn identifier(&mut self, _exp: &ASTIdentifier) {}
    fn array(&mut self, _exp: &ASTArray) {}
    fn call(&mut self, _exp: &ASTCall) {}
    fn unary(&mut self, _exp: &ASTUnary) {}
    fn access(&mut self, _exp: &ASTAccess) {}
    fn new_exp(&mut self, _exp: &ASTNew) {}
    fn ternary(&mut self, _exp: &ASTTernary) {}
    fn string_literal_part(&mut self, _exp: &ASTStringLiteralPart) {}
    fn string_literal(&mut self, _exp: &ASTStringLiteral) {}
}

#[test]
fn test_binary_prec() {
    let (tokens, errors, input) = JsParser::parse("
            a + b - c / d * c
        ");
    assert_eq!(errors.len(), 0);
    let mut visitor = MyVisitor { input, occurance: 0 };
    tokens[0].visit(&mut visitor);
    assert_eq!(visitor.occurance, 4);
}

#[test]
fn test_unary() {
    let (tokens, errors, input) = JsParser::parse("
            !a && b
       ");
    assert_eq!(errors.len(), 0);
    if let ASTExpression::Binary(expr) = &tokens[0] {
        if let ASTExpression::Unary(unary) = &expr.left {
            assert_eq!(input.from_range(unary.expression.range()), "a");
        } else {
            panic!("Expected unary expression.");
        }
    } else {
        panic!("Expected binary expression.")
    }
}

#[test]
fn test_call() {
    let (tokens, errors, input) = JsParser::parse("
            test(test(), test123(3 + 2))
       ");
    assert_eq!(errors.len(), 0);
    if let ASTExpression::Call(expr) = &tokens[0] {
        assert_eq!(expr.arguments.len(), 2);
        assert_eq!(input.from_range(expr.expression.range()), "test");
        if let ASTExpression::Call(expr) = &expr.arguments[0] {
            assert_eq!(expr.arguments.len(), 0);
            assert_eq!(input.from_range(expr.expression.range()), "test");
        } else {
            panic!("Expected call.")
        }
        if let ASTExpression::Call(expr) = &expr.arguments[1] {
            assert_eq!(expr.arguments.len(), 1);
            assert_eq!(input.from_range(expr.expression.range()), "test123");
            if let ASTExpression::Binary(expr) = &expr.arguments[0] {
                assert_eq!(input.from_range(&expr.range), "3 + 2");
            } else {
                panic!("Expected binary.")
            }
        } else {
            panic!("Expected call.")
        }
    } else {
        panic!("Expected call.")
    }
}

#[test]
fn test_array() {
    let (tokens, errors, input) = JsParser::parse("
            [1, 2, 3, [4, 5], [6], []]
       ");
    assert_eq!(errors.len(), 0);
    if let ASTExpression::ArrayLit(expr) = &tokens[0] {
        println!("{:?}", expr.elements);
        assert_eq!(expr.elements.len(), 6);
        assert_eq!(input.from_range(&expr.elements[0].range()), "1");
        assert_eq!(input.from_range(&expr.elements[1].range()), "2");
        assert_eq!(input.from_range(&expr.elements[2].range()), "3");
        if let ASTExpression::ArrayLit(expr) = &expr.elements[3] {
            assert_eq!(expr.elements.len(), 2);
        } else {
            panic!("Expected array.")
        }
    } else {
        panic!("Expected array.")
    }
}

#[test]
fn test_dot_access() {
    let (tokens, errors, input) = JsParser::parse("
            a().b.c.d;
       ");
    assert_eq!(errors.len(), 0);
    if let ASTExpression::Access(acc) = &tokens[0] {
        assert_eq!(input.from_range(acc.accessor.range()), "d");
        if let ASTExpression::Access(acc) = &acc.expression {
            assert_eq!(input.from_range(acc.accessor.range()), "c");
            if let ASTExpression::Access(acc) = &acc.expression {
                assert_eq!(input.from_range(acc.accessor.range()), "b");
                assert!(matches!(acc.expression, ASTExpression::Call(_)));
            } else {
                panic!("Expected access.");
            }
        } else {
            panic!("Expected access.");
        }
    } else {
        panic!("Expected access.")
    }
}

#[test]
fn test_exp_access() {
    let (tokens, errors, input) = JsParser::parse("
            (1 + 2).c[d][e].z;
       ");
    assert_eq!(errors.len(), 0);
    if let ASTExpression::Access(acc) = &tokens[0] {
        assert_eq!(input.from_range(acc.accessor.range()), "z");
        if let ASTExpression::Access(acc) = &acc.expression {
            assert_eq!(input.from_range(acc.accessor.range()), "e");
            if let ASTExpression::Access(acc) = &acc.expression {
                assert_eq!(input.from_range(acc.accessor.range()), "d");
                if let ASTExpression::Access(acc) = &acc.expression {
                    assert_eq!(input.from_range(acc.accessor.range()), "c");
                    assert!(matches!(acc.expression, ASTExpression::Binary(_)));
                } else {
                    panic!("Expected access.");
                }
            } else {
                panic!("Expected access.");
            }
        } else {
            panic!("Expected access.");
        }
    } else {
        panic!("Expected access.")
    }
}

#[test]
fn test_new() {
    let (tokens, errors, input) = JsParser::parse("
            new Something(new Other)
       ");
    assert_eq!(errors.len(), 0);
    if let ASTExpression::New(new) = &tokens[0] {
        assert_eq!(input.from_range(new.expression.range()), "Something");
        if let ASTExpression::New(new) = &new.arguments[0] {
            assert_eq!(new.arguments.len(), 0);
            assert_eq!(input.from_range(new.expression.range()), "Other")
        } else {
            panic!("Expected new.")
        }
    } else {
        panic!("Expected new.")
    }
}

#[test]
fn test_ternary() {
    let (tokens, errors, input) = JsParser::parse("
            a ? b : (c + k) ? d : e;
       ");
    assert_eq!(errors.len(), 0);
    if let ASTExpression::Ternary(exp) = &tokens[0] {
        assert_eq!(input.from_range(exp.condition.range()), "a");
        assert_eq!(input.from_range(exp.left.range()), "b");
        if let ASTExpression::Ternary(exp) = &exp.right {
            assert_eq!(input.from_range(exp.condition.range()), "c + k");
            assert_eq!(input.from_range(exp.left.range()), "d");
            assert_eq!(input.from_range(exp.right.range()), "e");
        } else {
            panic!("Expected ternary.")
        }
    } else {
        panic!("Expected ternary.")
    }
}

#[test]
fn test_not_equals_is_two_characters() {
    let (result, range_reader, errors) = Tokenizer::parse_full("a!=b");
    assert_eq!(result.len(), 3);
    assert!(matches!(result[0].kind, TokenKind::Identifier));
    assert!(matches!(result[1].kind, TokenKind::NotEqualsOp));
    assert!(matches!(result[2].kind, TokenKind::Identifier));
    assert_eq!(range_reader.from_range(&result[1].range), "!=");
    assert_eq!(range_reader.from_range(&result[2].range), "b");
    assert!(errors.is_empty());
}

struct KeepEverything;

impl MutVisitor for KeepEverything {
    fn string(&mut self, exp: &ASTString) -> ASTString { exp.clone() }
    fn number(&mut self, exp: &ASTNumber) -> ASTNumber { exp.clone() }
    fn boolean(&mut self, exp: &ASTBoolean) -> ASTBoolean { exp.clone() }
    fn identifier(&mut self, exp: &ASTIdentifier) -> ASTIdentifier { exp.clone() }
    fn array(&mut self, exp: &ASTArray) -> ASTArray { exp.clone() }
    fn call(&mut self, exp: &ASTCall) -> ASTCall { exp.clone() }
    fn binary(&mut self, exp: &ASTBinary) -> ASTBinary { exp.clone() }
    fn unary(&mut self, exp: &ASTUnary) -> ASTUnary { exp.clone() }
    fn access(&mut self, exp: &ASTAccess) -> ASTAccess { exp.clone() }
    fn new_exp(&mut self, exp: &ASTNew) -> ASTNew { exp.clone() }
    fn ternary(&mut self, exp: &ASTTernary) -> ASTTernary { exp.clone() }
    fn string_literal_part(&mut self, exp: &ASTStringLiteralPart) -> ASTStringLiteralPart { exp.clone() }
    fn string_literal(&mut self, exp: &ASTStringLiteral) -> ASTStringLiteral { exp.clone() }
}

/// Counts the calls made on it, by kind.
#[derive(Default)]
struct CountCalls {
    strings: u32,
    binaries: u32,
    others: u32,
}

impl Visitor for CountCalls {
    fn list<T>(&mut self, _exp: &Vec<T>) { self.others += 1; }
    fn string(&mut self, _exp: &ASTString) { self.strings += 1; }
    fn number(&mut self, _exp: &ASTNumber) { self.others += 1; }
    fn boolean(&mut self, _exp: &ASTBoolean) { self.others += 1; }
    fn identifier(&mut self, _exp: &ASTIdentifier) { self.others += 1; }
    fn array(&mut self, _exp: &ASTArray) { self.others += 1; }
    fn call(&mut self, _exp: &ASTCall) { self.others += 1; }
    fn binary(&mut self, _exp: &ASTBinary) { self.binaries += 1; }
    fn unary(&mut self, _exp: &ASTUnary) { self.others += 1; }
    fn access(&mut self, _exp: &ASTAccess) { self.others += 1; }
    fn new_exp(&mut self, _exp: &ASTNew) { self.others += 1; }
    fn ternary(&mut self, _exp: &ASTTernary) { self.others += 1; }
    fn string_literal_part(&mut self, _exp: &ASTStringLiteralPart) { self.others += 1; }
    fn string_literal(&mut self, _exp: &ASTStringLiteral) { self.others += 1; }
}

#[test]
fn visit_inner_calls_the_method_of_the_kind_once() {
    let (exps, diagnostics, _) = JsParser::parse("a + 'b'");
    assert!(diagnostics.is_empty());
    let mut v = CountCalls::default();
    exps[0].visit_inner(&mut v);
    assert_eq!((v.strings, v.binaries, v.others), (0, 1, 0));
    if let ASTExpression::Binary(b) = &exps[0] {
        let mut w = CountCalls::default();
        b.right.visit_inner(&mut w);
        assert_eq!((w.strings, w.binaries, w.others), (1, 0, 0));
    }
}

#[test]
fn default_mut_visitor_gives_the_expression_back() {
    let (exps, diagnostics, _) = JsParser::parse("a + f(1)");
    assert!(diagnostics.is_empty());
    let e = exps[0].visit_inner_mut(&mut KeepEverything);
    match (&e, &exps[0]) {
        (ASTExpression::Binary(x), ASTExpression::Binary(y)) => {
            assert_eq!(x.range, y.range);
            assert_eq!(x.left.range(), y.left.range());
            assert_eq!(x.right.range(), y.right.range());
        },
        _ => panic!("Expected a binary expression."),
    }
}
