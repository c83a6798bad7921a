//! The supported languages and the registry that finds one by name or by
//! file extension.

pub mod csharp;
pub mod go;
pub mod java;
pub mod javascript;
pub mod python;
pub mod rust;

pub use crate::languages::csharp::CSharpAdapter;
pub use crate::languages::go::GoAdapter;
pub use crate::languages::java::JavaAdapter;
pub use crate::languages::javascript::JavaScriptAdapter;
pub use crate::languages::javascript::TypeScriptAdapter;
pub use crate::languages::python::PythonAdapter;
pub use crate::languages::rust::RustAdapter;

use crate::adapter::CaptureBundle;
use crate::adapter::CompileError;
use crate::adapter::LangAdapter;
use crate::dsl::Expr;
use crate::dsl::Kind;
use crate::text::chars_of;
use crate::text::copy_range;
use crate::text::spells;
use crate::text::trim;
use crate::text::trimmed;
use vstd::prelude::*;

verus! {

/// A supported language.
#[derive(Debug, Clone, Copy, PartialEq, Eq, Hash, Structural)]
pub enum LangId {
    JavaScript,
    TypeScript,
    Python,
    CSharp,
    Rust,
    Go,
    Java,
}

impl LangId {
    /// The identifier under which the language is reported.
    pub open spec fn name(self) -> Seq<char> {
        match self {
            LangId::JavaScript => "javascript"@,
            LangId::TypeScript => "typescript"@,
            LangId::Python => "python"@,
            LangId::CSharp => "csharp"@,
            LangId::Rust => "rust"@,
            LangId::Go => "go"@,
            LangId::Java => "java"@,
        }
    }

    /// The language that a user means by `word`, if any.
    pub open spec fn named(word: Seq<char>) -> Option<LangId> {
        if word == "py"@ || word == "python"@ {
            Some(LangId::Python)
        } else if word == "js"@ || word == "javascript"@ {
            Some(LangId::JavaScript)
        } else if word == "ts"@ || word == "typescript"@ {
            Some(LangId::TypeScript)
        } else if word == "cs"@ || word == "csharp"@ || word == "c#"@ {
            Some(LangId::CSharp)
        } else if word == "rs"@ || word == "rust"@ {
            Some(LangId::Rust)
        } else if word == "go"@ || word == "golang"@ {
            Some(LangId::Go)
        } else if word == "java"@ {
            Some(LangId::Java)
        } else {
            None
        }
    }

    /// The language of files with the extension `ext`, if any.
    pub open spec fn of_extension(ext: Seq<char>) -> Option<LangId> {
        if ext == "js"@ || ext == "jsx"@ {
            Some(LangId::JavaScript)
        } else if ext == "ts"@ || ext == "tsx"@ {
            Some(LangId::TypeScript)
        } else if ext == "py"@ {
            Some(LangId::Python)
        } else if ext == "cs"@ || ext == "csx"@ {
            Some(LangId::CSharp)
        } else if ext == "rs"@ {
            Some(LangId::Rust)
        } else if ext == "go"@ {
            Some(LangId::Go)
        } else if ext == "java"@ {
            Some(LangId::Java)
        } else {
            None
        }
    }

    /// The language that a user means by `word`, if any.
    pub fn from_name(word: &Vec<char>) -> (r: Option<LangId>)
        ensures
            r == LangId::named(word@),
    {
        if spells(word, "py") || spells(word, "python") {
            Some(LangId::Python)
        } else if spells(word, "js") || spells(word, "javascript") {
            Some(LangId::JavaScript)
        } else if spells(word, "ts") || spells(word, "typescript") {
            Some(LangId::TypeScript)
        } else if spells(word, "cs") || spells(word, "csharp") || spells(word, "c#") {
            Some(LangId::CSharp)
        } else if spells(word, "rs") || spells(word, "rust") {
            Some(LangId::Rust)
        } else if spells(word, "go") || spells(word, "golang") {
            Some(LangId::Go)
        } else if spells(word, "java") {
            Some(LangId::Java)
        } else {
            None
        }
    }
}

/// The adapter of any one of the supported languages.
pub enum Adapter {
    JavaScript(JavaScriptAdapter),
    TypeScript(TypeScriptAdapter),
    Python(PythonAdapter),
    CSharp(CSharpAdapter),
    Rust(RustAdapter),
    Go(GoAdapter),
    Java(JavaAdapter),
}

impl LangAdapter for Adapter {
    open spec fn lang(&self) -> LangId {
        match self {
            Adapter::JavaScript(a) => a.lang(),
            Adapter::TypeScript(a) => a.lang(),
            Adapter::Python(a) => a.lang(),
            Adapter::CSharp(a) => a.lang(),
            Adapter::Rust(a) => a.lang(),
            Adapter::Go(a) => a.lang(),
            Adapter::Java(a) => a.lang(),
        }
    }

    open spec fn patterns(&self, kind: Kind) -> Seq<Seq<char>> {
        match self {
            Adapter::JavaScript(a) => a.patterns(kind),
            Adapter::TypeScript(a) => a.patterns(kind),
            Adapter::Python(a) => a.patterns(kind),
            Adapter::CSharp(a) => a.patterns(kind),
            Adapter::Rust(a) => a.patterns(kind),
            Adapter::Go(a) => a.patterns(kind),
            Adapter::Java(a) => a.patterns(kind),
        }
    }

    open spec fn keeps(&self, caps: Map<Seq<char>, Seq<char>>) -> bool {
        match self {
            Adapter::JavaScript(a) => a.keeps(caps),
            Adapter::TypeScript(a) => a.keeps(caps),
            Adapter::Python(a) => a.keeps(caps),
            Adapter::CSharp(a) => a.keeps(caps),
            Adapter::Rust(a) => a.keeps(caps),
            Adapter::Go(a) => a.keeps(caps),
            Adapter::Java(a) => a.keeps(caps),
        }
    }

    fn name(&self) -> (r: &'static str) {
        match self {
            Adapter::JavaScript(a) => a.name(),
            Adapter::TypeScript(a) => a.name(),
            Adapter::Python(a) => a.name(),
            Adapter::CSharp(a) => a.name(),
            Adapter::Rust(a) => a.name(),
            Adapter::Go(a) => a.name(),
            Adapter::Java(a) => a.name(),
        }
    }

    fn language(&self) -> (r: tree_sitter::Language) {
        match self {
            Adapter::JavaScript(a) => a.language(),
            Adapter::TypeScript(a) => a.language(),
            Adapter::Python(a) => a.language(),
            Adapter::CSharp(a) => a.language(),
            Adapter::Rust(a) => a.language(),
            Adapter::Go(a) => a.language(),
            Adapter::Java(a) => a.language(),
        }
    }

    fn compile(&self, expr: &Expr) -> (r: Result<Vec<tree_sitter::Query>, CompileError>) {
        match self {
            Adapter::JavaScript(a) => a.compile(expr),
            Adapter::TypeScript(a) => a.compile(expr),
            Adapter::Python(a) => a.compile(expr),
            Adapter::CSharp(a) => a.compile(expr),
            Adapter::Rust(a) => a.compile(expr),
            Adapter::Go(a) => a.compile(expr),
            Adapter::Java(a) => a.compile(expr),
        }
    }

    fn post_capture_filter(&self, caps: &CaptureBundle) -> (r: bool) {
        match self {
            Adapter::JavaScript(a) => a.post_capture_filter(caps),
            Adapter::TypeScript(a) => a.post_capture_filter(caps),
            Adapter::Python(a) => a.post_capture_filter(caps),
            Adapter::CSharp(a) => a.post_capture_filter(caps),
            Adapter::Rust(a) => a.post_capture_filter(caps),
            Adapter::Go(a) => a.post_capture_filter(caps),
            Adapter::Java(a) => a.post_capture_filter(caps),
        }
    }
}

/// Get a language adapter by ID.
pub fn get_adapter(lang_id: LangId) -> (r: Adapter)
    ensures
        r.lang() == lang_id,
        r == match lang_id {
            LangId::JavaScript => Adapter::JavaScript(JavaScriptAdapter),
            LangId::TypeScript => Adapter::TypeScript(TypeScriptAdapter),
            LangId::Python => Adapter::Python(PythonAdapter),
            LangId::CSharp => Adapter::CSharp(CSharpAdapter),
            LangId::Rust => Adapter::Rust(RustAdapter),
            LangId::Go => Adapter::Go(GoAdapter),
            LangId::Java => Adapter::Java(JavaAdapter),
        },
{
    match lang_id {
        LangId::JavaScript => Adapter::JavaScript(JavaScriptAdapter),
        LangId::TypeScript => Adapter::TypeScript(TypeScriptAdapter),
        LangId::Python => Adapter::Python(PythonAdapter),
        LangId::CSharp => Adapter::CSharp(CSharpAdapter),
        LangId::Rust => Adapter::Rust(RustAdapter),
        LangId::Go => Adapter::Go(GoAdapter),
        LangId::Java => Adapter::Java(JavaAdapter),
    }
}

/// Maps a file extension, without its dot, to the language of such files.
pub fn lang_by_ext(ext: &str) -> (r: Option<LangId>)
    ensures
        r == LangId::of_extension(ext@),
{
    let word = chars_of(ext);
    if spells(&word, "js") || spells(&word, "jsx") {
        Some(LangId::JavaScript)
    } else if spells(&word, "ts") || spells(&word, "tsx") {
        Some(LangId::TypeScript)
    } else if spells(&word, "py") {
        Some(LangId::Python)
    } else if spells(&word, "cs") || spells(&word, "csx") {
        Some(LangId::CSharp)
    } else if spells(&word, "rs") {
        Some(LangId::Rust)
    } else if spells(&word, "go") {
        Some(LangId::Go)
    } else if spells(&word, "java") {
        Some(LangId::Java)
    } else {
        None
    }
}

/// The language under which a file with the extension `ext` is searched: the
/// language of the extension, unless a list of allowed languages is given
/// and does not hold it. `None` means that the file is passed over.
pub open spec fn selected(ext: Seq<char>, allowed: Option<Seq<LangId>>) -> Option<LangId> {
    match LangId::of_extension(ext) {
        None => None,
        Some(lang) => match allowed {
            None => Some(lang),
            Some(list) => if list.contains(lang) {
                Some(lang)
            } else {
                None
            },
        },
    }
}

/// The language under which a file with the extension `ext` is searched, if
/// it is searched at all.
pub fn select_language(ext: &str, allowed: Option<&Vec<LangId>>) -> (r: Option<LangId>)
    ensures
        r == selected(
            ext@,
            match allowed {
                Some(list) => Some(list@),
                None => None,
            },
        ),
{
    let lang = match lang_by_ext(ext) {
        None => {
            return None;
        },
        Some(lang) => lang,
    };
    match allowed {
        None => Some(lang),
        Some(list) => {
            let mut i: usize = 0;
            while i < list.len()
                invariant
                    i <= list.len(),
                    LangId::of_extension(ext@) == Some(lang),
                    allowed == Some(list),
                    forall|j: int| 0 <= j < i ==> list@[j] != lang,
                decreases list.len() - i,
            {
                if list[i] == lang {
                    assert(list@.contains(list@[i as int]));
                    return Some(lang);
                }
                i += 1;
            }
            None
        },
    }
}

/// The language that one entry of a list names, as a list of none or one.
pub open spec fn listed(piece: Seq<char>) -> Seq<LangId> {
    match LangId::named(trimmed(piece)) {
        Some(lang) => seq![lang],
        None => Seq::empty(),
    }
}

/// The languages named in `s` from `start` on, where `pos` is how far the
/// current entry has been read.
pub open spec fn lang_list_from(s: Seq<char>, start: int, pos: int) -> Seq<LangId>
    decreases s.len() - pos,
{
    if pos < 0 || pos >= s.len() || start < 0 || start > pos {
        if 0 <= start <= s.len() {
            listed(s.subrange(start, s.len() as int))
        } else {
            Seq::empty()
        }
    } else if s[pos] == ',' {
        listed(s.subrange(start, pos)) + lang_list_from(s, pos + 1, pos + 1)
    } else {
        lang_list_from(s, start, pos + 1)
    }
}

/// The languages that a comma-separated list names, in its order. Entries are
/// trimmed, and an entry that names no language is passed over.
pub open spec fn lang_list(s: Seq<char>) -> Seq<LangId> {
    lang_list_from(s, 0, 0)
}

/// Parse a comma-separated language list (e.g., "py,ts,js").
pub fn parse_lang_list(s: &str) -> (r: Vec<LangId>)
    ensures
        r@ == lang_list(s@),
{
    let chars = chars_of(s);
    let mut out: Vec<LangId> = Vec::new();
    let mut start: usize = 0;
    let mut i: usize = 0;
    while i < chars.len()
        invariant
            start <= i <= chars.len(),
            chars@ == s@,
            lang_list(s@) == out@ + lang_list_from(chars@, start as int, i as int),
        decreases chars.len() - i,
    {
        if chars[i] == ',' {
            let piece = copy_range(&chars, start, i);
            let ghost before = out@;
            match LangId::from_name(&trim(&piece)) {
                Some(lang) => {
                    out.push(lang);
                },
                None => {},
            }
            assert(out@ =~= before + listed(piece@));
            assert(before + (listed(piece@) + lang_list_from(chars@, i + 1, i + 1)) =~= (before
                + listed(piece@)) + lang_list_from(chars@, i + 1, i + 1));
            start = i + 1;
        }
        i += 1;
    }
    let piece = copy_range(&chars, start, chars.len());
    let ghost before = out@;
    match LangId::from_name(&trim(&piece)) {
        Some(lang) => {
            out.push(lang);
        },
        None => {},
    }
    assert(out@ =~= before + listed(piece@));
    out
}

} // verus!
