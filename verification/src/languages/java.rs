//! Java: the tree patterns of each kind of term.

use crate::adapter::compile_source;
use crate::adapter::CaptureBundle;
use crate::adapter::CompileError;
use crate::adapter::LangAdapter;
use crate::dsl::Expr;
use crate::dsl::Kind;
use crate::languages::LangId;
use crate::syntax::java_grammar;
use vstd::prelude::*;

verus! {

/// Calls: a method invocation on an object, and one without, which is kept only
/// where its text holds no dot.
pub const CALL: &'static str = r#"
(method_invocation
  object: (_) @obj
  name: (identifier) @prop
) @call

(method_invocation
  name: (identifier) @callee_id
) @call
(#not-match? @call "\.")
"#;

/// Imports: an import declaration, by its name.
pub const IMPORT: &'static str = r#"
(import_declaration
  [(scoped_identifier) (identifier)] @module
  (asterisk)?
) @import
"#;

/// Definitions: classes, interfaces, enums, records, annotation types, methods
/// and constructors.
pub const DEF: &'static str = r#"
(class_declaration
  name: (identifier) @name
) @def

(interface_declaration
  name: (identifier) @name
) @def

(enum_declaration
  name: (identifier) @name
) @def

(record_declaration
  name: (identifier) @name
) @def

(annotation_type_declaration
  name: (identifier) @name
) @def

(method_declaration
  name: (identifier) @name
) @def

(constructor_declaration
  name: (identifier) @name
) @def

(compact_constructor_declaration
  name: (identifier) @name
) @def
"#;

/// The pattern text of a kind of term.
pub open spec fn pattern(kind: Kind) -> Seq<char> {
    match kind {
        Kind::Call => CALL@,
        Kind::Import => IMPORT@,
        Kind::Def => DEF@,
    }
}

/// The pattern text of a kind of term.
pub fn source(kind: Kind) -> (r: &'static str)
    ensures
        r@ == pattern(kind),
{
    match kind {
        Kind::Call => CALL,
        Kind::Import => IMPORT,
        Kind::Def => DEF,
    }
}

pub struct JavaAdapter;

impl LangAdapter for JavaAdapter {
    open spec fn lang(&self) -> LangId {
        LangId::Java
    }

    open spec fn patterns(&self, kind: Kind) -> Seq<Seq<char>> {
        seq![pattern(kind)]
    }

    fn name(&self) -> (r: &'static str) {
        "java"
    }

    fn language(&self) -> (r: tree_sitter::Language) {
        java_grammar()
    }

    fn compile(&self, expr: &Expr) -> (r: Result<Vec<tree_sitter::Query>, CompileError>) {
        match expr {
            Expr::Node { kind, .. } => compile_source(&self.language(), source(*kind)),
            _ => Err(CompileError::Composite),
        }
    }

    fn post_capture_filter(&self, caps: &CaptureBundle) -> (r: bool) {
        true
    }
}

} // verus!
