//! C#: the tree patterns of each kind of term.

use crate::adapter::compile_source;
use crate::adapter::CaptureBundle;
use crate::adapter::CompileError;
use crate::adapter::LangAdapter;
use crate::dsl::Expr;
use crate::dsl::Kind;
use crate::languages::LangId;
use crate::syntax::csharp_grammar;
use vstd::prelude::*;

verus! {

/// Calls: a plain or generic invocation, a member access and a conditional
/// access `obj?.Name(..)`.
pub const CALL: &'static str = r#"
(invocation_expression
  function: (identifier) @callee_id
) @call

(invocation_expression
  function: (generic_name) @callee_id
) @call

(invocation_expression
  function: (member_access_expression
    expression: (_) @obj
    name: (identifier) @prop
  )
) @call

(invocation_expression
  function: (member_access_expression
    expression: (_) @obj
    name: (generic_name) @prop
  )
) @call

(invocation_expression
  function: (conditional_access_expression
    condition: (_) @obj
    (member_binding_expression
      name: (identifier) @prop
    )
  )
) @call

(invocation_expression
  function: (conditional_access_expression
    condition: (_) @obj
    (member_binding_expression
      name: (generic_name) @prop
    )
  )
) @call
"#;

/// Imports: a `using` directive, by the namespace or type it names; of an
/// alias `using A = T;` the type counts and not the alias.
pub const IMPORT: &'static str = r#"
(using_directive
  !name
  [(alias_qualified_name) (qualified_name) (generic_name) (identifier)] @module
) @import

(using_directive
  (type) @module
) @import
"#;

/// Definitions: classes, structs, interfaces, records, enums, methods,
/// constructors and local functions.
pub const DEF: &'static str = r#"
(class_declaration
  name: (identifier) @name
) @def

(struct_declaration
  name: (identifier) @name
) @def

(interface_declaration
  name: (identifier) @name
) @def

(record_declaration
  name: (identifier) @name
) @def

(enum_declaration
  name: (identifier) @name
) @def

(method_declaration
  name: (identifier) @name
) @def

(constructor_declaration
  name: (identifier) @name
) @def

(local_function_statement
  name: (identifier) @name
) @def
"#;

/// The pattern text of a kind of term.
pub open spec fn pattern(kind: Kind) -> Seq<char> {
    match kind {
        Kind::Call => CALL@,
        Kind::Import => IMPORT@,
        Kind::Def => DEF@,
    }
}

/// The pattern text of a kind of term.
pub fn source(kind: Kind) -> (r: &'static str)
    ensures
        r@ == pattern(kind),
{
    match kind {
        Kind::Call => CALL,
        Kind::Import => IMPORT,
        Kind::Def => DEF,
    }
}

pub struct CSharpAdapter;

impl LangAdapter for CSharpAdapter {
    open spec fn lang(&self) -> LangId {
        LangId::CSharp
    }

    open spec fn patterns(&self, kind: Kind) -> Seq<Seq<char>> {
        seq![pattern(kind)]
    }

    fn name(&self) -> (r: &'static str) {
        "csharp"
    }

    fn language(&self) -> (r: tree_sitter::Language) {
        csharp_grammar()
    }

    fn compile(&self, expr: &Expr) -> (r: Result<Vec<tree_sitter::Query>, CompileError>) {
        match expr {
            Expr::Node { kind, .. } => compile_source(&self.language(), source(*kind)),
            _ => Err(CompileError::Composite),
        }
    }

    fn post_capture_filter(&self, caps: &CaptureBundle) -> (r: bool) {
        true
    }
}

} // verus!
