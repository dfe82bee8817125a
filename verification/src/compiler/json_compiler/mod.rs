pub mod compile;

use vstd::prelude::*;
use crate::compiler::base::{BlobId, CompilerContext, CompilerProvider};
use crate::compiler::visitors::variable_collector::variable::VariableContainer;
use crate::diagnostics::diagnostic::Diagnostic;
use crate::parser::ast::model::ASTHeader;
use crate::compiler::visitors::rebuilder::opt_view;
use self::compile::{jv_header, result_view};

verus! {

/// Compiles paths of a story to JSON text.
pub struct JSONCompilerProvider;

impl CompilerProvider for JSONCompilerProvider {
    type Output = String;
    type Context = JSONCompilerContext;

    /// The JSON of the path, or its diagnostics; the name prefix stays.
    open spec fn header_compiled(file: ASTHeader, before: JSONCompilerContext, after: JSONCompilerContext, r: Result<String, Vec<Diagnostic>>) -> bool {
        &&& result_view(r) == jv_header(file, opt_view(before.prefix_js_idents))
        &&& after.prefix_js_idents == before.prefix_js_idents
    }

    fn compile_header(file: &ASTHeader, ctx: &mut JSONCompilerContext, file_id: BlobId) -> (r: Result<String, Vec<Diagnostic>>) {
        self::compile::compile_header(file, ctx, file_id)
    }
}

/// What compiling a story to JSON keeps: the variables gathered so far, and
/// the name that javascript names are prefixed with.
pub struct JSONCompilerContext {
    pub variables: VariableContainer,
    pub prefix_js_idents: Option<String>,
}

impl JSONCompilerContext {
    pub fn new(prefix_js_idents: Option<String>) -> (c: Self)
        ensures
            c.variables.0@.len() == 0,
            c.prefix_js_idents == prefix_js_idents,
    {
        JSONCompilerContext { variables: VariableContainer::new(), prefix_js_idents }
    }
}

impl CompilerContext for JSONCompilerContext {
    /// Paths need no preparation here: the front-end handles them.
    open spec fn path_seen(&self, path: ASTHeader, after: Self) -> bool {
        after == *self
    }

    fn process_path(&mut self, path: &ASTHeader) {
    }
}

} // verus!
