//! Syntax highlighting for fenced code regions of a book's chapters.
//!
//! The library locates fenced code blocks in a chapter's text, keeps only
//! those whose language is on a configured allow-list, runs them through a
//! grammar-driven highlighter, and splices the rendered markup back into the
//! chapter without disturbing the surrounding text.

use vstd::prelude::*;

pub mod compose;
pub mod config;
pub mod errors;
pub mod highlight;
pub mod loader;
pub mod rewrite;
pub mod text;

verus! {

use crate::text::{first_nl, trim_spec, trim_range, find_nl, lemma_first_nl_at, filter_lines_spec,
    filter_lines, str_eq};

/// The preprocessor: the host pipeline hands each chapter's text through
/// the scanning and rewriting entry points and writes the result back.
pub struct MdbookTreesitter;

impl MdbookTreesitter {
    /// The name under which the host pipeline looks this preprocessor up.
    pub fn name(&self) -> (r: &'static str)
        ensures
            r@ == "treesitter"@,
    {
        "treesitter"
    }

    /// Highlighted markup is produced for exactly one rendering target.
    pub fn supports_renderer(&self, renderer: &str) -> (r: bool)
        ensures
            r == (renderer@ == "html"@),
    {
        str_eq(renderer, "html")
    }
}

/// What the command line asks the process to do.
#[derive(Clone, Copy, PartialEq, Eq, Structural, Debug)]
pub enum RunAction {
    /// Read a book from the host, rewrite it, and write it back.
    Preprocess,
    /// Report that the requested rendering target is supported.
    ExitSuccess,
    /// Report that the requested rendering target is not supported.
    ExitFailure,
}

/// Decides what an invocation does: with no subcommand the book is
/// preprocessed; with a renderer query the process reports support.
pub fn run(command: Option<String>) -> (r: RunAction)
    ensures
        command is None ==> r == RunAction::Preprocess,
        command matches Some(renderer) ==> (r == RunAction::ExitSuccess <==> renderer@
            == "html"@),
        command matches Some(renderer) ==> r != RunAction::Preprocess,
{
    match command {
        None => RunAction::Preprocess,
        Some(renderer) => {
            if (MdbookTreesitter).supports_renderer(renderer.as_str()) {
                RunAction::ExitSuccess
            } else {
                RunAction::ExitFailure
            }
        },
    }
}

/// The code body of a fenced block's raw text: everything after the first
/// line (the opening fence) and before the closing three-character fence,
/// with surrounding whitespace trimmed.
pub open spec fn extract_code_body_spec(s: Seq<char>) -> Seq<char> {
    let k = first_nl(s);
    let start: int = if k < s.len() {
        k as int + 1
    } else {
        0
    };
    let end: int = if s.len() >= 3 {
        s.len() - 3
    } else {
        0
    };
    if start <= end {
        trim_spec(s.subrange(start, end))
    } else {
        Seq::empty()
    }
}

/// Strips the opening fence line and the closing fence marker from a
/// fenced block's raw text and trims the remainder.
pub fn extract_code_body(content: &str) -> (r: &str)
    ensures
        r@ == extract_code_body_spec(content@),
{
    let n = content.unicode_len();
    let k = find_nl(content, 0);
    proof {
        lemma_first_nl_at(content@, k as int);
    }
    let start: usize = if k < n {
        k + 1
    } else {
        0
    };
    let end: usize = if n >= 3 {
        n - 3
    } else {
        0
    };
    if start <= end {
        let bounds = trim_range(content, start, end);
        content.substring_char(bounds.0, bounds.1)
    } else {
        content.substring_char(0, 0)
    }
}

/// Line filtering with an optional hide prefix: no prefix leaves the text
/// unchanged; a prefix drops every line whose trimmed content begins
/// with it.
pub open spec fn filter_hidden_lines_spec(s: Seq<char>, p: Option<Seq<char>>) -> Seq<char> {
    match p {
        None => s,
        Some(prefix) => filter_lines_spec(s, prefix),
    }
}

/// Deletes every line whose trimmed content begins with the configured
/// hide prefix, each together with its line terminator; all remaining
/// text is returned byte-identical. With no prefix configured, or none
/// of the lines hidden, the text comes back unchanged.
pub fn filter_hidden_lines(code: &str, hide_prefix: Option<&str>) -> (r: String)
    ensures
        hide_prefix is None ==> r@ == code@,
        hide_prefix matches Some(p) ==> r@ == filter_lines_spec(code@, p@),
{
    match hide_prefix {
        None => String::from_str(code),
        Some(p) => filter_lines(code, p),
    }
}

} // verus!
