//! Languages the code editor knows how to highlight.

use vstd::prelude::*;

use crate::text::str_eq;

verus! {

/// A language, identified by its file extension.
#[derive(Clone, Copy, Debug, PartialEq, Eq, Structural)]
pub enum LanguageId {
    Rust,
    Python,
    JavaScript,
    TypeScript,
    Markdown,
    Toml,
    Json,
    Unknown,
}

/// The language a file extension names.
pub open spec fn language_of_extension(id: Seq<char>) -> LanguageId {
    if id == "rs"@ {
        LanguageId::Rust
    } else if id == "py"@ {
        LanguageId::Python
    } else if id == "js"@ {
        LanguageId::JavaScript
    } else if id == "ts"@ {
        LanguageId::TypeScript
    } else if id == "md"@ {
        LanguageId::Markdown
    } else if id == "toml"@ {
        LanguageId::Toml
    } else if id == "json"@ {
        LanguageId::Json
    } else {
        LanguageId::Unknown
    }
}

/// The human readable name of a language.
pub open spec fn language_name(l: LanguageId) -> Seq<char> {
    match l {
        LanguageId::Rust => "Rust"@,
        LanguageId::Python => "Python"@,
        LanguageId::JavaScript => "JavaScript"@,
        LanguageId::TypeScript => "TypeScript"@,
        LanguageId::Markdown => "Markdown"@,
        LanguageId::Toml => "TOML"@,
        LanguageId::Json => "JSON"@,
        LanguageId::Unknown => "Unknown"@,
    }
}

impl LanguageId {
    /// The language of a file extension; anything not listed is `Unknown`.
    pub fn parse(id: &str) -> (r: LanguageId)
        ensures
            r == language_of_extension(id@),
    {
        if str_eq(id, "rs") {
            LanguageId::Rust
        } else if str_eq(id, "py") {
            LanguageId::Python
        } else if str_eq(id, "js") {
            LanguageId::JavaScript
        } else if str_eq(id, "ts") {
            LanguageId::TypeScript
        } else if str_eq(id, "md") {
            LanguageId::Markdown
        } else if str_eq(id, "toml") {
            LanguageId::Toml
        } else if str_eq(id, "json") {
            LanguageId::Json
        } else {
            LanguageId::Unknown
        }
    }

    /// The name shown for this language.
    pub fn name(&self) -> (r: &'static str)
        ensures
            r@ == language_name(*self),
    {
        match self {
            LanguageId::Rust => "Rust",
            LanguageId::Python => "Python",
            LanguageId::JavaScript => "JavaScript",
            LanguageId::TypeScript => "TypeScript",
            LanguageId::Markdown => "Markdown",
            LanguageId::Toml => "TOML",
            LanguageId::Json => "JSON",
            LanguageId::Unknown => "Unknown",
        }
    }
}

impl Default for LanguageId {
    fn default() -> (r: LanguageId)
        ensures
            r == LanguageId::Unknown,
    {
        LanguageId::Unknown
    }
}

} // verus!
