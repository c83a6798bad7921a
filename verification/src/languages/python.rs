//! Python: the tree patterns of each kind of term.

use crate::adapter::compile_source;
use crate::adapter::CaptureBundle;
use crate::adapter::CompileError;
use crate::adapter::LangAdapter;
use crate::dsl::Expr;
use crate::dsl::Kind;
use crate::languages::LangId;
use crate::syntax::python_grammar;
use vstd::prelude::*;

verus! {

/// Calls: a plain call and an attribute call `obj.attr(..)`.
pub const CALL: &'static str = r#"
(call
  function: (identifier) @callee_id
) @call

(call
  function: (attribute
    object: (_) @obj
    attribute: (identifier) @attr
  )
) @call
"#;

/// Imports: `import x` and `from x import ..`, by the dotted module name.
pub const IMPORT: &'static str = r#"
(import_statement
  name: (dotted_name) @module
) @import

(import_from_statement
  module_name: (dotted_name) @module
) @import
"#;

/// Definitions: a function definition and a class definition.
pub const DEF: &'static str = r#"
(function_definition
  name: (identifier) @name
) @def

(class_definition
  name: (identifier) @name
) @def
"#;

/// The pattern text of a kind of term.
pub open spec fn pattern(kind: Kind) -> Seq<char> {
    match kind {
        Kind::Call => CALL@,
        Kind::Import => IMPORT@,
        Kind::Def => DEF@,
    }
}

/// The pattern text of a kind of term.
pub fn source(kind: Kind) -> (r: &'static str)
    ensures
        r@ == pattern(kind),
{
    match kind {
        Kind::Call => CALL,
        Kind::Import => IMPORT,
        Kind::Def => DEF,
    }
}

pub struct PythonAdapter;

impl LangAdapter for PythonAdapter {
    open spec fn lang(&self) -> LangId {
        LangId::Python
    }

    open spec fn patterns(&self, kind: Kind) -> Seq<Seq<char>> {
        seq![pattern(kind)]
    }

    fn name(&self) -> (r: &'static str) {
        "python"
    }

    fn language(&self) -> (r: tree_sitter::Language) {
        python_grammar()
    }

    fn compile(&self, expr: &Expr) -> (r: Result<Vec<tree_sitter::Query>, CompileError>) {
        match expr {
            Expr::Node { kind, .. } => compile_source(&self.language(), source(*kind)),
            _ => Err(CompileError::Composite),
        }
    }

    fn post_capture_filter(&self, caps: &CaptureBundle) -> (r: bool) {
        true
    }
}

} // verus!
