//! Rust: the tree patterns of each kind of term.

use crate::adapter::compile_source;
use crate::adapter::CaptureBundle;
use crate::adapter::CompileError;
use crate::adapter::LangAdapter;
use crate::dsl::Expr;
use crate::dsl::Kind;
use crate::languages::LangId;
use crate::syntax::rust_grammar;
use vstd::prelude::*;

verus! {

/// Calls: a plain call, a path call `a::b(..)`, a method or field call, and
/// each of them with generic arguments.
pub const CALL: &'static str = r#"
(call_expression
  function: (identifier) @callee_id
) @call

(call_expression
  function: (scoped_identifier
    path: (_) @obj
    name: (identifier) @callee_id
  )
) @call

(call_expression
  function: (field_expression
    value: (_) @obj
    field: (_) @prop
  )
) @call

(call_expression
  function: (generic_function
    function: (identifier) @callee_id
  )
) @call

(call_expression
  function: (generic_function
    function: (scoped_identifier
      path: (_) @obj
      name: (identifier) @callee_id
    )
  )
) @call

(call_expression
  function: (generic_function
    function: (field_expression
      value: (_) @obj
      field: (_) @prop
    )
  )
) @call
"#;

/// Imports: a `use` declaration, by its argument.
pub const IMPORT: &'static str = r#"
(use_declaration
  argument: (_) @module
) @import
"#;

/// Definitions: functions and their signatures, structs, enums, unions, traits,
/// type aliases, modules, constants and statics.
pub const DEF: &'static str = r#"
(function_item
  name: (_) @name
) @def

(function_signature_item
  name: (_) @name
) @def

(struct_item
  name: (_) @name
) @def

(enum_item
  name: (_) @name
) @def

(union_item
  name: (_) @name
) @def

(trait_item
  name: (_) @name
) @def

(type_item
  name: (_) @name
) @def

(mod_item
  name: (identifier) @name
) @def

(const_item
  name: (identifier) @name
) @def

(static_item
  name: (identifier) @name
) @def
"#;

/// The pattern text of a kind of term.
pub open spec fn pattern(kind: Kind) -> Seq<char> {
    match kind {
        Kind::Call => CALL@,
        Kind::Import => IMPORT@,
        Kind::Def => DEF@,
    }
}

/// The pattern text of a kind of term.
pub fn source(kind: Kind) -> (r: &'static str)
    ensures
        r@ == pattern(kind),
{
    match kind {
        Kind::Call => CALL,
        Kind::Import => IMPORT,
        Kind::Def => DEF,
    }
}

pub struct RustAdapter;

impl LangAdapter for RustAdapter {
    open spec fn lang(&self) -> LangId {
        LangId::Rust
    }

    open spec fn patterns(&self, kind: Kind) -> Seq<Seq<char>> {
        seq![pattern(kind)]
    }

    fn name(&self) -> (r: &'static str) {
        "rust"
    }

    fn language(&self) -> (r: tree_sitter::Language) {
        rust_grammar()
    }

    fn compile(&self, expr: &Expr) -> (r: Result<Vec<tree_sitter::Query>, CompileError>) {
        match expr {
            Expr::Node { kind, .. } => compile_source(&self.language(), source(*kind)),
            _ => Err(CompileError::Composite),
        }
    }

    fn post_capture_filter(&self, caps: &CaptureBundle) -> (r: bool) {
        true
    }
}

} // verus!
