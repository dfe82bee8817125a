use storytell::parser::ast::model::{ASTBlock, ASTInlineKind};
use storytell::parser::ast::Parser;
use storytell::parser::input::{InputConsumer, ParsingContext};
use storytell::parser::lexer::Lexer;
use storytell::parser::test_fn;

fn get_header_children(input: &Vec<ASTBlock>) -> &Vec<ASTBlock> {
    if let ASTBlock::Header(header) = &input[0] {
        &header.children
    } else {
        panic!("Expected a header.")
    }
}

#[test]
fn test_test() {
    assert_eq!(test_fn(), 32);
}

#[test]
fn parse_header() {
    let (input, ctx) = Parser::new("
# This is some header!!!...
This is a paragraph, a child of the header...
## This is a second header, child of the first header
Blah Blah Blah
### This is a third header, child of the second
Text...
#### Fourth header
###### Wrong header!!!
## This is child of first
        ", ParsingContext::new(1)).parse();
    assert_eq!(ctx.diagnostics[0].msg, "Path should be one (5) level deeper than it's parent.");
    let header = &input[0];
    if let ASTBlock::Header(block) = header {
        assert_eq!(block.title.text, "This is some header!!!...");
        assert_eq!(block.depth, 1);
        assert_eq!(block.children.len(), 3);
        if let ASTBlock::Header(header) = &block.children[1] {
            assert_eq!(header.children.len(), 2);
            if let ASTBlock::Header(header) = &header.children[1] {
                assert_eq!(header.children.len(), 2);
                if let ASTBlock::Header(header) = &header.children[1] {
                    assert_eq!(header.children.len(), 1);
                } else {
                    panic!("Expected header")
                }
            } else {
                panic!("Expected header")
            }
        } else {
            panic!("Expected header")
        }
    } else {
        panic!("Expected header")
    }
}

#[test]
fn parse_codeblock() {
    let (input, _) = Parser::new(
        "# This is some header!!!...\n```js\nThis is a code\nblock...\nyeah...```",
        ParsingContext::new(1),
    ).parse();
    let header = get_header_children(&input);
    let code_block = &header[0];
    if let ASTBlock::CodeBlock(block) = code_block {
        assert_eq!(block.text, "This is a code\nblock...\nyeah...");
        assert_eq!(block.language, "js");
    } else {
        panic!("Code block")
    }
}

#[test]
fn parse_inline_bold() {
    let (input, _) = Parser::new("# This is some header!!!...\nThis is **a** paragraph, pretty cool... **really** cool! Same paragraph...\nAlright this is a different one!!## Another heading", ParsingContext::new(1)).parse();
    let children = get_header_children(&input);
    if let ASTBlock::Paragraph(para) = &children[0] {
        assert_eq!(
            "This is a paragraph, pretty cool... really cool! Same paragraph...",
            para.to_raw()
        );
    } else {
        panic!("Expected paragraph")
    }
}

#[test]
fn parse_inline_italics() {
    let (input, _) = Parser::new(
        "# This is some header!!!...\n**really** interesting *word*...\nAlright",
        ParsingContext::new(1),
    ).parse();
    let children = get_header_children(&input);
    if let ASTBlock::Paragraph(para) = &children[0] {
        assert_eq!(
            "really interesting word...",
            para.to_raw()
        );
        assert!(matches!(
            para.parts[1].text.kind,
            ASTInlineKind::Italics(_)
        ));
    } else {
        panic!("Expected paragraph")
    }
}

#[test]
fn parse_choice_list() {
    let (input, ctx) = Parser::new(
        "
# This is a chapter

This is a **paragraph**...

@{match_condition}
- {:if condition} {true}
    ```js
    This is a language!
    ```
    So yeah, what's up?
    Wohoooo!
    @{nested_match}
    - {a == 1}
        This is a child!
    - {}
        Another match...
        @{double_nested_match}
        - {REALLY_NESTED!!}
            Wow!!!
        - {Really nestes 2!!}
        - {Really nested 3!!!}
- {false}
    The option is false!
- Third option...
- {fourth}
    @{:not killed}
        Direct child!
        Second direct child...
        - Some choices
        - Cause why not...
",
        ParsingContext::new(1),
    )
    .parse();
    let children = get_header_children(&input);
    println!("{:?}", ctx.diagnostics);
    assert_eq!(ctx.diagnostics.len(), 2);
    if let ASTBlock::Match(matcher) = &children[1] {
        assert_eq!(matcher.matched, "match_condition");
        // 3 because "Third option..." doesn't get included because JS is required
        assert_eq!(matcher.choices.len(), 3);
        assert_eq!(matcher.choices[0].text.to_raw(), "true");
        assert_eq!(matcher.choices[1].text.to_raw(), "false");
        if let ASTBlock::Match(not_match) = &matcher.choices[2].children[0] {
            assert_eq!(not_match.kind, Some("not".to_string()));
            assert_eq!(not_match.direct_children.len(), 3);
            assert_eq!(not_match.choices.len(), 0);
        } else {
            panic!("Not match")
        }
        if let ASTBlock::Match(nested_match) = &matcher.choices[0].children[3] {
            assert_eq!(nested_match.choices.len(), 2);
            assert_eq!(nested_match.choices[0].text.to_raw(), "a == 1");
            assert_eq!(nested_match.choices[1].text.to_raw(), "");
            if let ASTBlock::Match(triple_nested) = &nested_match.choices[1].children[1] {
                assert_eq!(triple_nested.choices.len(), 3);
            } else {
                panic!("Triple nested")
            }
        } else {
            panic!("Nested match")
        }
    } else {
        panic!("Match")
    }
}

#[test]
fn parse_attributes() {
    let (input, ctx) = Parser::new("
# Hello World!

#[Uppercase(A, Bcccc, C), DebugTitle(Some choice...)]
This is a paragraph with an attribute in it!

#[SomeThing(123]
Another paragraph...
        ", ParsingContext::new(1)).parse();
    let children = get_header_children(&input);
    assert_eq!(ctx.diagnostics.len(), 1);
    if let ASTBlock::Paragraph(para) = &children[0] {
        println!("{:?}", para.attributes);
        assert_eq!(para.attributes.len(), 2);
        assert_eq!(para.attributes[0].name, "Uppercase");
        assert_eq!(para.attributes[0].parameters[0], "A");
        assert_eq!(para.attributes[0].parameters[1], "Bcccc");
        assert_eq!(para.attributes[0].parameters[2], "C");
        assert_eq!(para.attributes[1].name, "DebugTitle");
        assert_eq!(para.attributes[1].parameters[0], "Some choice...");
    } else {
        panic!("Paragraph")
    }
}

#[test]
fn parse_choice_group() {
    let (input, _) = Parser::new("
# Hello World!

It's time to choose...

#[ChoiceGroupAttribute]
- Option A, ooor..
- Option B...
    So you chose option B, **now* it's time...
    - {:if a == b} Option C
        You chose option C
    - #[SomeAttribute] Option D
        You chose option D
        ", ParsingContext::new(1)).parse();
    println!("{:?}", input);
    let children = get_header_children(&input);
    if let ASTBlock::ChoiceGroup(para) = &children[1] {
        assert_eq!(para.attributes[0].name, "ChoiceGroupAttribute");
        assert_eq!(para.choices[0].text.to_raw(), "Option A, ooor..");
        assert_eq!(para.choices[1].text.to_raw(), "Option B...");
        assert_eq!(para.choices[1].children.len(), 2);
        if let ASTBlock::ChoiceGroup(nested) = &para.choices[1].children[1] {
            assert_eq!(nested.choices[0].text.to_raw(), "Option C");
            assert_eq!(nested.choices[0].condition, Some(("if".to_string(), "a == b".to_string())));
            assert_eq!(nested.choices[0].children.len(), 1);
            assert_eq!(nested.choices[1].text.to_raw(), "Option D");
            assert_eq!(nested.choices[1].children.len(), 1);
            assert_eq!(nested.choices[1].attributes[0].name, "SomeAttribute");
        }
    } else {
        panic!("Choice Group")
    }
}

#[test]
fn parse_comment() {
    let (input, _) = Parser::new("
# Hello World!
// A comment
// # A second comment...
## A sub-path", ParsingContext::new(1)).parse();
    let children = get_header_children(&input);
    assert!(matches!(input[0], ASTBlock::Header(_)));
    assert!(matches!(children[0], ASTBlock::Header(_)));
}

#[test]
fn text_input_peek() {
    let mut input = InputConsumer::new("Hello", ParsingContext::new(1));
    assert_eq!(input.consume(), Some('H'));
    assert_eq!(input.consume(), Some('e'));
    assert_eq!(input.pos, 2);
    assert_eq!(input.consume(), Some('l'));
    assert_eq!(input.consume(), Some('l'));
    assert_eq!(input.consume(), Some('o'));
    assert_eq!(input.consume(), None);
    assert_eq!(input.is_eof(), true);
}

#[test]
fn test_consume_until() {
    let mut input = InputConsumer::new("This is a test", ParsingContext::new(1));
    assert_eq!(input.consume_until(" "), Some("This".to_string()));
    assert_eq!(input.consume_until("a t"), Some("is ".to_string()));
    assert_eq!(input.pos, 11);
    assert_eq!(input.consume(), Some('e'));
}

#[test]
fn test_consume_until_end_of_line() {
    let mut input = InputConsumer::new("This is a test\nLine 2\nLine 3\nLine 4", ParsingContext::new(1));
    assert_eq!(input.consume_until("\n"), Some("This is a test".to_string()));
    input.consume();
    assert_eq!(input.consume_until_end_of_line(), "ine 2");
    assert_eq!(input.consume_until_end_of_line(), "Line 3");
    assert_eq!(input.consume(), Some('L'));
}

#[test]
fn text_lexer_lines() {
    let mut input = Lexer::new("This is the first line...\nThis is the second line...\nThird line...", ParsingContext::new(1));
    assert_eq!(input.consume_until_end_of_line(), "This is the first line...");
    assert_eq!(input.consume_until_end_of_line(), "This is the second line...");
    assert_eq!(input.consume_until_end_of_line(), "Third line...");
}

#[test]
fn test_lexer_identation() {
    let mut input = Lexer::new("
This is the second line...
        This is the third line with 2 levels of identation - so 8 spaces.
    4 levels    
", ParsingContext::new(1));
    assert_eq!(input.consume_until_end_of_line(), "");
    assert_eq!(input.skip_identation(), 0);
    assert_eq!(input.consume_until_end_of_line(), "This is the second line...");
    assert_eq!(input.skip_identation(), 2);
    assert_eq!(input.consume_until_end_of_line(), "This is the third line with 2 levels of identation - so 8 spaces.");
    assert_eq!(input.skip_identation(), 1);
    assert_eq!(input.consume_until_end_of_line(), "4 levels    ")
}
