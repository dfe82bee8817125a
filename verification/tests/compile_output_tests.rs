use storytell::compiler::visitors::variable_collector::variable::{AssignmentStore, VariableAssignment, VariableContainer};
use storytell::deserialization::JSONSerializable;
use storytell::diagnostics::diagnostic::{Diagnostic, DiagnosticVariants};
use storytell::compiler::json_compiler::compile::JSONCompilable;
use storytell::compiler::base::Compiler;
use storytell::compiler::json_compiler::JSONCompilerProvider;
use storytell::compiler::visitors::magic_vars_collector::ResolveChainResult;
use storytell::compiler::compiler::Path;
use storytell::compiler::js_compiler::compile::js_inline;
use storytell::compiler::js_compiler::{JSBootstrapVars, JSCompilerContext};
use storytell::compiler::json_compiler::compile::{compile_inline, compile_paragraph};
use storytell::compiler::json_compiler::JSONCompilerContext;
use storytell::compiler::visitors::magic_vars::{MagicVariableCollector, MagicVariableCollectorContext};
use storytell::compiler::visitors::magic_vars_collector::MagicVariableType;
use storytell::compiler::visitors::rebuilder::transform_js;
use storytell::compiler::visitors::variable_collector::variable::VariableKind;
use storytell::compiler::visitors::variable_collector::VariableCollector;
use storytell::diagnostics::location::Range;
use storytell::js_parser::parser::JsParser;
use storytell::parser::ast::model::{ASTInline, ASTInlineKind, ASTParagraph};

fn bootstrap() -> JSBootstrapVars {
    JSBootstrapVars {
        divert_fn: "divert",
        paragraph_fn: "paragraph",
        codeblock_fn: "codeblock",
        match_fn: "matchBlock",
        choice_group_fn: "choices",
        inline_js_fn: "inl",
        path_fn: "path",
    }
}

#[test]
fn transform_prefixes_names() {
    let r = transform_js("a += 1", Some("this".to_string()));
    assert_eq!(r.ok(), Some("this.a+=1".to_string()));
}

#[test]
fn transform_keeps_window() {
    let r = transform_js("window.x", Some("this".to_string()));
    assert_eq!(r.ok(), Some("window.x".to_string()));
}

#[test]
fn transform_rebuilds_strings_and_calls() {
    let r = transform_js("f('s', [1, 2])", None);
    assert_eq!(r.ok(), Some("f(\\\"s\\\",[1,2])".to_string()));
}

#[test]
fn transform_reports_unknown_token() {
    let r = transform_js(")", None);
    match r {
        Err(d) => {
            assert_eq!(d.len(), 1);
            assert_eq!(d[0].msg, "Unknown token ).");
            assert_eq!((d[0].range.start, d[0].range.end), (0, 1));
        },
        Ok(_) => panic!("expected diagnostics"),
    }
}

#[test]
fn json_paragraph_exact() {
    let mut ctx = JSONCompilerContext::new(None);
    let p = ASTParagraph { parts: vec![], tail: "Hi".to_string(), attributes: vec![], range: Range::new(0, 2) };
    let r = compile_paragraph(&p, &mut ctx, 1);
    assert_eq!(
        r.ok(),
        Some("{\"kind\":0,\"parts\":[],\"tail\":\"Hi\",\"range\":{\"start\":0,\"end\":2},\"attributes\":[]}".to_string())
    );
}

#[test]
fn json_inline_javascript_rebuilt() {
    let mut ctx = JSONCompilerContext::new(Some("this".to_string()));
    let inline = ASTInline { kind: ASTInlineKind::Javascript("a += 1".to_string()), range: Range::new(10, 18) };
    let r = compile_inline(&inline, &mut ctx, 1);
    assert_eq!(r.ok(), Some("{\"kind\":5,\"text\":\"this.a+=1\",\"range\":{\"start\":10,\"end\":18}}".to_string()));
}

#[test]
fn json_inline_javascript_errors_moved() {
    let mut ctx = JSONCompilerContext::new(None);
    let inline = ASTInline { kind: ASTInlineKind::Javascript(")".to_string()), range: Range::new(10, 13) };
    match compile_inline(&inline, &mut ctx, 1) {
        Err(d) => {
            assert_eq!(d.len(), 1);
            assert_eq!(d[0].msg, "Unknown token ).");
            assert_eq!((d[0].range.start, d[0].range.end), (11, 10));
        },
        Ok(_) => panic!("expected diagnostics"),
    }
}

#[test]
fn js_inline_gathers_assignments() {
    let mut ctx = JSCompilerContext::new(bootstrap());
    let inline = ASTInline { kind: ASTInlineKind::Javascript("x = 5".to_string()), range: Range::new(0, 7) };
    let r = js_inline(&inline, &mut ctx);
    assert_eq!(r.ok(), Some("${inl(\"x=5\",[{name: \"x\", type: 1}])}".to_string()));
}

#[test]
fn js_inline_bold_tags() {
    let mut ctx = JSCompilerContext::new(bootstrap());
    let text = storytell::parser::ast::model::ASTText { parts: vec![], tail: "hey".to_string(), range: Range::new(2, 5) };
    let inline = ASTInline { kind: ASTInlineKind::Bold(text), range: Range::new(0, 7) };
    assert_eq!(js_inline(&inline, &mut ctx).ok(), Some("<b>hey</b>".to_string()));
}

#[test]
fn variable_collector_kinds() {
    let (exps, diags, input) = JsParser::parse("a = 1; b = a; c.push(2)");
    assert!(diags.is_empty());
    let (store, _) = VariableCollector::run(input, Range::new(0, 0), &exps);
    assert_eq!(store.0.len(), 3);
    assert_eq!(store.0[0].0, "a");
    assert!(matches!(store.0[0].1[0].kind, VariableKind::Number));
    assert_eq!(store.0[1].0, "b");
    assert!(matches!(&store.0[1].1[0].kind, VariableKind::Ref(n) if n == "a"));
    assert_eq!(store.0[2].0, "c");
    assert!(matches!(store.0[2].1[0].kind, VariableKind::Array));
}

#[test]
fn magic_collector_makes_objects() {
    let (exps, diags, input) = JsParser::parse("o.p = 1");
    assert!(diags.is_empty());
    let collector = MagicVariableCollector {
        origin: 1,
        ctx: MagicVariableCollectorContext::new(),
        input,
        start_pos: Range::new(0, 0),
    };
    let (_, ctx) = collector.run(exps);
    assert_eq!(ctx.counter, 1);
    assert_eq!(ctx.variables.0[0].0, "o");
    assert!(matches!(ctx.variables.0[0].1 .0[0].value, MagicVariableType::ObjectRef(0)));
    assert_eq!(ctx.objects[0].0[0].0, "p");
    assert!(matches!(ctx.objects[0].0[0].1 .0[0].value, MagicVariableType::Number));
}

#[test]
fn json_join_compiles_through_the_trait_and_leaves_the_context() {
    let i = ASTInline { kind: ASTInlineKind::Join, range: Range::new(3, 5) };
    let mut ctx = JSONCompilerContext::new(None);
    let r = i.compile(&mut ctx, 1);
    assert_eq!(r.ok(), Some("{\"kind\":4,\"range\":{\"start\":3,\"end\":5}}".to_string()));
    assert_eq!(ctx.variables.0.len(), 0);
}

#[test]
fn compile_string_without_top_path_leaves_the_context() {
    let mut ctx = JSONCompilerContext::new(Some("this".to_string()));
    let (out, blocks, dias) = Compiler::<JSONCompilerProvider>::compile_string(&mut ctx, 1, "Hello", 1);
    assert!(out.is_none());
    assert!(matches!(blocks[0], storytell::parser::ast::model::ASTBlock::Paragraph(_)));
    let last = dias.last().unwrap();
    assert_eq!(last.msg, "File must contain just one top-level (#) path.");
    assert_eq!(last.range, Range::new(0, 5));
    assert_eq!(ctx.variables.0.len(), 0);
    assert_eq!(ctx.prefix_js_idents, Some("this".to_string()));
}

#[test]
fn get_store_gives_where_a_target_lives() {
    let ctx = storytell::compiler::visitors::magic_vars_collector::MagicVariableCollectorContext::new();
    let top = ResolveChainResult::Top("a".to_string());
    let r = top.get_store(&ctx);
    assert_eq!(r, Some((None, &"a".to_string())));
    let nested = ResolveChainResult::Nested(0, "b".to_string());
    assert_eq!(nested.get_store(&ctx), None);
    assert_eq!(ResolveChainResult::Unresolved.get_store(&ctx), None);
}

#[test]
fn create_replaces_only_the_named_child() {
    let mut p = Path::new("root", 0);
    p.create("a");
    p.create("b");
    p.children[0].create("inner");
    p.create("b");
    assert_eq!(p.children.len(), 2);
    assert_eq!(p.children[0].name, "a");
    assert_eq!(p.children[0].children.len(), 1);
    assert_eq!(p.children[1].name, "b");
    assert_eq!(p.children[1].depth, 1);
    assert_eq!(p.children[1].children.len(), 0);
}

#[test]
fn diagnostic_message_is_escaped_as_json() {
    let d = Diagnostic { range: Range::new(1, 2), msg: "a\"b\\c\nd\u{1}e\u{7f}".to_string(), variant: DiagnosticVariants::Error };
    assert_eq!(d.compile(), "{\"message\":\"a\\\"b\\\\c\\nd\\u0001e\u{7f}\",\"range\":{\"start\":1,\"end\":2}}");
}

#[test]
fn variable_kinds_follow_the_origins_that_remain() {
    use_variable_container();
}

fn use_variable_container() {
    let mut container = VariableContainer::new();
    let a = AssignmentStore(vec![("x".to_string(), vec![VariableAssignment { kind: VariableKind::String, range: Range::new(0, 1) }])]);
    let b = AssignmentStore(vec![("x".to_string(), vec![VariableAssignment { kind: VariableKind::Number, range: Range::new(2, 3) }])]);
    container.insert(1, a);
    container.insert(2, b);
    assert_eq!(container.0.len(), 1);
    assert!(container.0[0].1.get_common_kind().is_none());
    container.remove(&2);
    assert!(matches!(container.0[0].1.get_common_kind(), Some(VariableKind::String)));
    container.remove(&1);
    assert!(container.0[0].1.get_common_kind().is_none());
}
