//! JavaScript/TypeScript: the tree patterns of each kind of term.

use crate::adapter::compile_source;
use crate::adapter::CaptureBundle;
use crate::adapter::CompileError;
use crate::adapter::LangAdapter;
use crate::dsl::Expr;
use crate::dsl::Kind;
use crate::languages::LangId;
use crate::syntax::javascript_grammar;
use crate::syntax::typescript_grammar;
use vstd::prelude::*;

verus! {

/// Calls: a plain call `foo(..)` and a member call `obj.prop(..)`.
pub const CALL: &'static str = r#"
(call_expression
  function: (identifier) @callee_id
) @call

(call_expression
  function: (member_expression
    object: (_) @obj
    property: (property_identifier) @prop
  )
) @call
"#;

/// Imports: an `import` statement, by its source string.
pub const IMPORT: &'static str = r#"
(import_statement
  source: (string) @module
) @import
"#;

/// Definitions: a function declaration, and a `const`/`let` bound to an arrow
/// function or a function expression.
pub const DEF: &'static str = r#"
(function_declaration
  name: (identifier) @name
) @def

(lexical_declaration
  (variable_declarator
    name: (identifier) @name
    value: [(arrow_function) (function_expression)]
  )
) @def
"#;

/// The pattern text of a kind of term.
pub open spec fn pattern(kind: Kind) -> Seq<char> {
    match kind {
        Kind::Call => CALL@,
        Kind::Import => IMPORT@,
        Kind::Def => DEF@,
    }
}

/// The pattern text of a kind of term.
pub fn source(kind: Kind) -> (r: &'static str)
    ensures
        r@ == pattern(kind),
{
    match kind {
        Kind::Call => CALL,
        Kind::Import => IMPORT,
        Kind::Def => DEF,
    }
}

pub struct JavaScriptAdapter;

impl LangAdapter for JavaScriptAdapter {
    open spec fn lang(&self) -> LangId {
        LangId::JavaScript
    }

    open spec fn patterns(&self, kind: Kind) -> Seq<Seq<char>> {
        seq![pattern(kind)]
    }

    fn name(&self) -> (r: &'static str) {
        "javascript"
    }

    fn language(&self) -> (r: tree_sitter::Language) {
        javascript_grammar()
    }

    fn compile(&self, expr: &Expr) -> (r: Result<Vec<tree_sitter::Query>, CompileError>) {
        match expr {
            Expr::Node { kind, .. } => compile_source(&self.language(), source(*kind)),
            _ => Err(CompileError::Composite),
        }
    }

    fn post_capture_filter(&self, caps: &CaptureBundle) -> (r: bool) {
        true
    }
}

/// TypeScript shares the patterns of JavaScript and has a grammar of its own.
pub struct TypeScriptAdapter;

impl LangAdapter for TypeScriptAdapter {
    open spec fn lang(&self) -> LangId {
        LangId::TypeScript
    }

    open spec fn patterns(&self, kind: Kind) -> Seq<Seq<char>> {
        seq![pattern(kind)]
    }

    fn name(&self) -> (r: &'static str) {
        "typescript"
    }

    fn language(&self) -> (r: tree_sitter::Language) {
        typescript_grammar()
    }

    fn compile(&self, expr: &Expr) -> (r: Result<Vec<tree_sitter::Query>, CompileError>) {
        match expr {
            Expr::Node { kind, .. } => compile_source(&self.language(), source(*kind)),
            _ => Err(CompileError::Composite),
        }
    }

    fn post_capture_filter(&self, caps: &CaptureBundle) -> (r: bool) {
        true
    }
}

} // verus!
