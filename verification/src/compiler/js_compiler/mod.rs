pub mod compile;
pub mod inline_js;

use vstd::prelude::*;
use crate::compiler::base::{BlobId, CompilerContext, CompilerProvider};
use crate::compiler::path::{Path, declares, insert_path};
use self::compile::{js_env, js_result, jsv_header, mv};
use crate::compiler::visitors::magic_vars_collector::MagicVariableCollectorContext;
use crate::diagnostics::diagnostic::Diagnostic;
use crate::parser::ast::model::ASTHeader;

verus! {

/// The compiler just compiles everything to javascript
/// It doesn't provide a "runtime" which actually keeps
/// track of the current path, etc.
/// The compiler itself also doesn't provide any tools for analyzing.
#[derive(Clone, Copy, Debug)]
pub struct JSBootstrapVars {
    /// Name of a funtion which moves the current path,
    /// (path: string[]) => any
    pub divert_fn: &'static str,
    /// Responsible for creating paragraphs
    /// (text: string, attribues: Array<{name: string, params: string[]}>) => any
    pub paragraph_fn: &'static str,
    /// Responsible for creating code blocks
    /// (code: string, language: string, attribues: Array<{name: string, params: string[]}>) => any
    pub codeblock_fn: &'static str,
    /// Responsible for creating match blocks
    /// (matched: string, choices: Array<{text: string, children: Children[]}>, directChildren: Children[], kind?: string) => any
    pub match_fn: &'static str,
    /// Responsible for creating choice groups
    /// (choices: Array<{text: string, children: Children[]}>, attribues: Array<{name: string, params: string[]}>) => any
    pub choice_group_fn: &'static str,
    /// Responsible for handling inline js
    /// (codes: Array<string>, collected_variables: Array<{ name: string, value_type: number }>) => any
    pub inline_js_fn: &'static str,
    /// Responsible for handling paths
    /// (path: {
    ///     title: string,
    ///     canonicalTitle: string,
    ///     childPaths: Array<This>
    ///     children: []
    /// }) => any
    pub path_fn: &'static str,
}

/// Compiles paths of a story to javascript.
pub struct JSCompilerProvider;

impl CompilerProvider for JSCompilerProvider {
    type Output = String;
    type Context = JSCompilerContext;

    /// The javascript of the path, or its diagnostics, and the magic
    /// variables it gathers; the settings and paths stay.
    open spec fn header_compiled(file: ASTHeader, before: JSCompilerContext, after: JSCompilerContext, r: Result<String, Vec<Diagnostic>>) -> bool {
        &&& js_env(after) == js_env(before)
        &&& (js_result(r), mv(after.magic_variables)) == jsv_header(file, js_env(before), mv(before.magic_variables))
    }

    fn compile_header(file: &ASTHeader, ctx: &mut JSCompilerContext, file_id: BlobId) -> (r: Result<String, Vec<Diagnostic>>) {
        self::compile::js_header(file, ctx)
    }
}

/// What compiling a story to javascript keeps: the magic variables, the
/// diagnostics, the paths of the story, and the names of the functions the
/// compiled code calls.
pub struct JSCompilerContext {
    pub magic_variables: MagicVariableCollectorContext,
    pub diagnostics: Vec<Diagnostic>,
    pub paths: Path,
    pub bootstrap: JSBootstrapVars,
}

impl CompilerContext for JSCompilerContext {
    /// Records the path, so that diverts to it can be checked.
    /// The path is put among the paths; the rest stays.
    open spec fn path_seen(&self, path: ASTHeader, after: Self) -> bool {
        &&& after.magic_variables == self.magic_variables
        &&& after.diagnostics == self.diagnostics
        &&& after.bootstrap == self.bootstrap
        &&& after.paths.name == self.paths.name
        &&& after.paths.depth == self.paths.depth
        &&& exists|c: Path| declares(c, path) && after.paths.children@ == #[trigger] insert_path(self.paths.children@, c)
    }

    fn process_path(&mut self, path: &ASTHeader) {
        self.paths.add_child_ast(path);
    }
}

impl JSCompilerContext {
    pub fn new(bootstrap: JSBootstrapVars) -> (c: Self)
        ensures
            c.magic_variables.wf(),
            c.magic_variables.counter == 0,
            c.diagnostics@.len() == 0,
            c.paths.name@ == "global"@,
            c.paths.children@.len() == 0,
            c.bootstrap == bootstrap,
    {
        JSCompilerContext {
            magic_variables: MagicVariableCollectorContext::new(),
            diagnostics: Vec::new(),
            paths: Path::new("global"),
            bootstrap,
        }
    }
}

} // verus!
