use storytell::parser::ast::model::{ASTInlineKind, ASTText};
use storytell::parser::ast::Parser;
use storytell::parser::input::ParsingContext;

fn text_of(source: &str, until: &str, optional: bool) -> (Option<ASTText>, usize) {
    let mut parser = Parser::new(source, ParsingContext::new(1));
    let r = parser.parse_text(until, optional);
    (r, parser.input.pos)
}

#[test]
fn plain_text_up_to_the_line_ending() {
    let (r, pos) = text_of("Hello there\nNext", "\n", true);
    let t = r.unwrap();
    assert!(t.parts.is_empty());
    assert_eq!(t.tail, "Hello there");
    assert_eq!(t.range.start, 0);
    assert_eq!(t.range.end, 11);
    assert_eq!(pos, 11);
}

#[test]
fn text_without_closing_is_refused_unless_optional() {
    let (r, pos) = text_of("no closing here", "*", false);
    assert!(r.is_none());
    assert_eq!(pos, 0);
    let (r, pos) = text_of("no closing here", "*", true);
    assert_eq!(r.unwrap().tail, "no closing here");
    assert_eq!(pos, 15);
}

#[test]
fn bold_italics_and_code() {
    let (r, _) = text_of("a **b** c *d* e `f` g\nrest", "\n", true);
    let t = r.unwrap();
    assert_eq!(t.parts.len(), 3);
    assert_eq!(t.parts[0].before, "a ");
    match &t.parts[0].text.kind {
        ASTInlineKind::Bold(inner) => assert_eq!(inner.tail, "b"),
        _ => panic!("expected bold"),
    }
    assert_eq!(t.parts[0].text.range.start, 2);
    assert_eq!(t.parts[0].text.range.end, 7);
    assert_eq!(t.parts[1].before, " c ");
    match &t.parts[1].text.kind {
        ASTInlineKind::Italics(inner) => assert_eq!(inner.tail, "d"),
        _ => panic!("expected italics"),
    }
    match &t.parts[2].text.kind {
        ASTInlineKind::Code(inner) => assert_eq!(inner.tail, "f"),
        _ => panic!("expected code"),
    }
    assert_eq!(t.tail, " g");
}

#[test]
fn escapes_and_unclosed_markup_stay_text() {
    let (r, _) = text_of("\\*not italics\\* and *open\nrest", "\n", true);
    let t = r.unwrap();
    assert!(t.parts.is_empty());
    assert_eq!(t.tail, "*not italics* and *open");
}

#[test]
fn javascript_and_join() {
    let (r, _) = text_of("x {count + 1} y++z\nrest", "\n", true);
    let t = r.unwrap();
    assert_eq!(t.parts.len(), 2);
    assert_eq!(t.parts[0].before, "x ");
    match &t.parts[0].text.kind {
        ASTInlineKind::Javascript(code) => assert_eq!(code, "count + 1"),
        _ => panic!("expected javascript"),
    }
    assert_eq!(t.parts[0].text.range.start, 0);
    assert_eq!(t.parts[0].text.range.end, 13);
    assert_eq!(t.parts[1].before, " y");
    assert!(matches!(t.parts[1].text.kind, ASTInlineKind::Join));
    assert_eq!(t.tail, "z");
}

#[test]
fn unclosed_javascript_leaves_a_closing_brace() {
    let (r, _) = text_of("a {b\nc}\n", "\n", true);
    let t = r.unwrap();
    assert!(t.parts.is_empty());
    assert_eq!(t.tail, "a }b");
}
