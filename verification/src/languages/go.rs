//! Go: the tree patterns of each kind of term.

use crate::adapter::compile_source;
use crate::adapter::CaptureBundle;
use crate::adapter::CompileError;
use crate::adapter::LangAdapter;
use crate::dsl::Expr;
use crate::dsl::Kind;
use crate::languages::LangId;
use crate::syntax::go_grammar;
use vstd::prelude::*;

verus! {

/// Calls: a plain call and a selector call `pkg.Name(..)`.
pub const CALL: &'static str = r#"
(call_expression
  function: (identifier) @callee_id
) @call

(call_expression
  function: (selector_expression
    operand: (_) @obj
    field: (field_identifier) @prop
  )
) @call
"#;

/// Imports: an import spec, by its path literal.
pub const IMPORT: &'static str = r#"
(import_spec
  path: [(interpreted_string_literal) (raw_string_literal)] @module
) @import
"#;

/// Definitions: functions, methods, type specs and aliases, constants and variables.
pub const DEF: &'static str = r#"
(function_declaration
  name: (identifier) @name
) @def

(method_declaration
  name: (field_identifier) @name
) @def

(type_spec
  name: (type_identifier) @name
) @def

(type_alias
  name: (type_identifier) @name
) @def

(const_spec
  name: (identifier) @name
) @def

(var_spec
  name: (identifier) @name
) @def
"#;

/// The pattern text of a kind of term.
pub open spec fn pattern(kind: Kind) -> Seq<char> {
    match kind {
        Kind::Call => CALL@,
        Kind::Import => IMPORT@,
        Kind::Def => DEF@,
    }
}

/// The pattern text of a kind of term.
pub fn source(kind: Kind) -> (r: &'static str)
    ensures
        r@ == pattern(kind),
{
    match kind {
        Kind::Call => CALL,
        Kind::Import => IMPORT,
        Kind::Def => DEF,
    }
}

pub struct GoAdapter;

impl LangAdapter for GoAdapter {
    open spec fn lang(&self) -> LangId {
        LangId::Go
    }

    open spec fn patterns(&self, kind: Kind) -> Seq<Seq<char>> {
        seq![pattern(kind)]
    }

    fn name(&self) -> (r: &'static str) {
        "go"
    }

    fn language(&self) -> (r: tree_sitter::Language) {
        go_grammar()
    }

    fn compile(&self, expr: &Expr) -> (r: Result<Vec<tree_sitter::Query>, CompileError>) {
        match expr {
            Expr::Node { kind, .. } => compile_source(&self.language(), source(*kind)),
            _ => Err(CompileError::Composite),
        }
    }

    fn post_capture_filter(&self, caps: &CaptureBundle) -> (r: bool) {
        true
    }
}

} // verus!
