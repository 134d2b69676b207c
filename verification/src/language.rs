//! The highlighting language of a file and its line-comment prefix.
use vstd::prelude::*;
use crate::text::{chars_of, chars_equal, lower_chars, lower_seq};
use crate::path::{extension_spec, path_extension};

verus! {

/// Whether a character vector spells the string `lit`.
pub fn eq_lit(a: &[char], lit: &str) -> (r: bool)
    ensures
        r == (a@ == lit@),
{
    let b = chars_of(lit);
    chars_equal(a, b.as_slice())
}

/// The language named by a lowercase file extension.
pub open spec fn language_for_extension(ext: Seq<char>) -> Seq<char> {
    if ext == "rs"@ { "rust"@ }
    else if ext == "js"@ || ext == "cjs"@ || ext == "mjs"@ { "javascript"@ }
    else if ext == "ts"@ { "typescript"@ }
    else if ext == "tsx"@ { "tsx"@ }
    else if ext == "jsx"@ { "javascript"@ }
    else if ext == "py"@ { "python"@ }
    else if ext == "html"@ || ext == "htm"@ { "html"@ }
    else if ext == "css"@ { "css"@ }
    else if ext == "json"@ { "json"@ }
    else if ext == "toml"@ { "toml"@ }
    else if ext == "yaml"@ || ext == "yml"@ { "yaml"@ }
    else if ext == "md"@ { "markdown"@ }
    else if ext == "sql"@ { "sql"@ }
    else if ext == "sh"@ { "bash"@ }
    else if ext == "xml"@ { "xml"@ }
    else if ext == "c"@ { "c"@ }
    else if ext == "cc"@ || ext == "cpp"@ || ext == "cxx"@ || ext == "h"@ || ext == "hpp"@ { "cpp"@ }
    else if ext == "go"@ { "go"@ }
    else if ext == "java"@ { "java"@ }
    else if ext == "kt"@ || ext == "kts"@ { "kotlin"@ }
    else if ext == "swift"@ { "swift"@ }
    else if ext == "rb"@ { "ruby"@ }
    else if ext == "php"@ { "php"@ }
    else { "text"@ }
}

/// `language_for_path`: the language of the path's lowercased extension, or
/// `text` when there is no path or no extension.
pub open spec fn language_for_path_spec(path: Option<Seq<char>>) -> Seq<char> {
    match path {
        None => "text"@,
        Some(p) => match extension_spec(p) {
            None => "text"@,
            Some(ext) => language_for_extension(lower_seq(ext)),
        },
    }
}

/// The language for an already lowercased extension.
pub fn language_for_extension_exec(ext: &[char]) -> (lang: &'static str)
    ensures
        lang@ == language_for_extension(ext@),
{
    if eq_lit(ext, "rs") { "rust" }
    else if eq_lit(ext, "js") || eq_lit(ext, "cjs") || eq_lit(ext, "mjs") { "javascript" }
    else if eq_lit(ext, "ts") { "typescript" }
    else if eq_lit(ext, "tsx") { "tsx" }
    else if eq_lit(ext, "jsx") { "javascript" }
    else if eq_lit(ext, "py") { "python" }
    else if eq_lit(ext, "html") || eq_lit(ext, "htm") { "html" }
    else if eq_lit(ext, "css") { "css" }
    else if eq_lit(ext, "json") { "json" }
    else if eq_lit(ext, "toml") { "toml" }
    else if eq_lit(ext, "yaml") || eq_lit(ext, "yml") { "yaml" }
    else if eq_lit(ext, "md") { "markdown" }
    else if eq_lit(ext, "sql") { "sql" }
    else if eq_lit(ext, "sh") { "bash" }
    else if eq_lit(ext, "xml") { "xml" }
    else if eq_lit(ext, "c") { "c" }
    else if eq_lit(ext, "cc") || eq_lit(ext, "cpp") || eq_lit(ext, "cxx") || eq_lit(ext, "h") || eq_lit(ext, "hpp") { "cpp" }
    else if eq_lit(ext, "go") { "go" }
    else if eq_lit(ext, "java") { "java" }
    else if eq_lit(ext, "kt") || eq_lit(ext, "kts") { "kotlin" }
    else if eq_lit(ext, "swift") { "swift" }
    else if eq_lit(ext, "rb") { "ruby" }
    else if eq_lit(ext, "php") { "php" }
    else { "text" }
}

/// The language to highlight a file with.
pub fn language_for_path(path: Option<&str>) -> (lang: &'static str)
    ensures
        lang@ == language_for_path_spec(match path { Some(p) => Some(p@), None => None }),
{
    match path {
        None => "text",
        Some(p) => match path_extension(p) {
            None => "text",
            Some(ext) => {
                let cs = chars_of(ext.as_str());
                let lower = lower_chars(cs.as_slice());
                language_for_extension_exec(lower.as_slice())
            },
        },
    }
}

/// `line_comment_prefix`.
pub open spec fn line_comment_prefix_spec(language: Seq<char>) -> Option<Seq<char>> {
    if language == "rust"@ || language == "javascript"@ || language == "typescript"@ || language
        == "tsx"@ || language == "c"@ || language == "cpp"@ || language == "go"@ || language
        == "java"@ || language == "kotlin"@ || language == "swift"@ || language == "php"@ {
        Some("//"@)
    } else if language == "python"@ || language == "bash"@ || language == "yaml"@ || language
        == "toml"@ || language == "ruby"@ {
        Some("#"@)
    } else if language == "sql"@ {
        Some("--"@)
    } else {
        None
    }
}

/// The prefix that starts a line comment in `language`, if it has one.
pub fn line_comment_prefix(language: &str) -> (r: Option<&'static str>)
    ensures
        match (r, line_comment_prefix_spec(language@)) {
            (Some(p), Some(q)) => p@ == q,
            (None, None) => true,
            _ => false,
        },
{
    let l = chars_of(language);
    let l = l.as_slice();
    if eq_lit(l, "rust") || eq_lit(l, "javascript") || eq_lit(l, "typescript") || eq_lit(l, "tsx")
        || eq_lit(l, "c") || eq_lit(l, "cpp") || eq_lit(l, "go") || eq_lit(l, "java") || eq_lit(
        l,
        "kotlin",
    ) || eq_lit(l, "swift") || eq_lit(l, "php") {
        Some("//")
    } else if eq_lit(l, "python") || eq_lit(l, "bash") || eq_lit(l, "yaml") || eq_lit(l, "toml")
        || eq_lit(l, "ruby") {
        Some("#")
    } else if eq_lit(l, "sql") {
        Some("--")
    } else {
        None
    }
}


/// Law: the language of a file does not depend on the ASCII case of its
/// extension (`a.RS` and `b.rs` are both Rust), and a file's language is
/// that of its extension lowercased.
pub proof fn law_language_ignores_extension_case(p: Seq<char>, q: Seq<char>)
    requires
        extension_spec(p) is Some,
        extension_spec(q) is Some,
        lower_seq(extension_spec(p)->0) == lower_seq(extension_spec(q)->0),
    ensures
        language_for_path_spec(Some(p)) == language_for_path_spec(Some(q)),
        language_for_path_spec(Some(p)) == language_for_extension(lower_seq(lower_seq(extension_spec(p)->0))),
{
    crate::text::lemma_lower_seq_idempotent(extension_spec(p)->0);
}

} // verus!
