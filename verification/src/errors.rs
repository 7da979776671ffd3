//! The error taxonomy of the highlighting pipeline.

use vstd::prelude::*;

verus! {

/// Everything that can go wrong while configuring, loading or running the
/// highlighting pipeline.
///
/// Configuration faults (`ConfigMissing`, `ConfigMalformed`) abort the whole
/// run; the remaining variants are fatal for the code block that caused them.
#[derive(Debug)]
pub enum Error {
    /// The language allow-list is absent from the host configuration.
    ConfigMissing,
    /// The language allow-list is present but is not a list of strings.
    ConfigMalformed,
    /// The grammar module file for a language does not exist.
    GrammarNotFound,
    /// The grammar module exists but does not export the expected constructor.
    SymbolNotFound,
    /// Any other fault while loading a grammar or building its configuration.
    LoadError,
    /// The mandatory highlight query could not be read, or a query source
    /// was rejected when the configuration was built.
    QueryLoadError,
    /// Query inheritance ran deeper than the set of query sources allows,
    /// which only a cyclic `inherits` chain can cause.
    CyclicInheritance,
    /// The engine produced a capture index outside the fixed vocabulary.
    BadHighlightIndex(usize),
    /// A capture of the vocabulary has no output class in the style table.
    UnmappedCapture(String),
    /// Offset bookkeeping or the event stream violated an internal
    /// invariant: a span fell outside the source or off a character
    /// boundary, or the events were not well nested.
    MalformedSpan,
}

/// The mathematical image of an [`Error`], with text as character sequences.
pub enum ErrorView {
    ConfigMissing,
    ConfigMalformed,
    GrammarNotFound,
    SymbolNotFound,
    LoadError,
    QueryLoadError,
    CyclicInheritance,
    BadHighlightIndex(int),
    UnmappedCapture(Seq<char>),
    MalformedSpan,
}

impl View for Error {
    type V = ErrorView;

    open spec fn view(&self) -> ErrorView {
        match self {
            Error::ConfigMissing => ErrorView::ConfigMissing,
            Error::ConfigMalformed => ErrorView::ConfigMalformed,
            Error::GrammarNotFound => ErrorView::GrammarNotFound,
            Error::SymbolNotFound => ErrorView::SymbolNotFound,
            Error::LoadError => ErrorView::LoadError,
            Error::QueryLoadError => ErrorView::QueryLoadError,
            Error::CyclicInheritance => ErrorView::CyclicInheritance,
            Error::BadHighlightIndex(i) => ErrorView::BadHighlightIndex(*i as int),
            Error::UnmappedCapture(name) => ErrorView::UnmappedCapture(name@),
            Error::MalformedSpan => ErrorView::MalformedSpan,
        }
    }
}

impl Clone for Error {
    fn clone(&self) -> (r: Self)
        ensures
            r@ == self@,
    {
        match self {
            Error::ConfigMissing => Error::ConfigMissing,
            Error::ConfigMalformed => Error::ConfigMalformed,
            Error::GrammarNotFound => Error::GrammarNotFound,
            Error::SymbolNotFound => Error::SymbolNotFound,
            Error::LoadError => Error::LoadError,
            Error::QueryLoadError => Error::QueryLoadError,
            Error::CyclicInheritance => Error::CyclicInheritance,
            Error::BadHighlightIndex(i) => Error::BadHighlightIndex(*i),
            Error::UnmappedCapture(name) => Error::UnmappedCapture(name.clone()),
            Error::MalformedSpan => Error::MalformedSpan,
        }
    }
}

/// The description [`Error::message`] returns for each variant.
pub open spec fn message_spec(e: ErrorView) -> Seq<char> {
    match e {
        ErrorView::ConfigMissing => "the language allow-list is missing from the configuration"@,
        ErrorView::ConfigMalformed => "the language allow-list must be a list of strings"@,
        ErrorView::GrammarNotFound => "no grammar module exists for this language"@,
        ErrorView::SymbolNotFound => "the grammar module does not export its constructor"@,
        ErrorView::LoadError => "the grammar or its configuration could not be loaded"@,
        ErrorView::QueryLoadError => "a highlight query could not be read or compiled"@,
        ErrorView::CyclicInheritance => "query inheritance is cyclic"@,
        ErrorView::BadHighlightIndex(_) => "a capture index fell outside the vocabulary"@,
        ErrorView::UnmappedCapture(_) => "a capture has no output style class"@,
        ErrorView::MalformedSpan => "a source span or event stream was malformed"@,
    }
}

impl Error {
    /// A short human-readable description, for hosts that report errors.
    pub fn message(&self) -> (r: &'static str)
        ensures
            r@ == message_spec(self@),
    {
        match self {
            Error::ConfigMissing => "the language allow-list is missing from the configuration",
            Error::ConfigMalformed => "the language allow-list must be a list of strings",
            Error::GrammarNotFound => "no grammar module exists for this language",
            Error::SymbolNotFound => "the grammar module does not export its constructor",
            Error::LoadError => "the grammar or its configuration could not be loaded",
            Error::QueryLoadError => "a highlight query could not be read or compiled",
            Error::CyclicInheritance => "query inheritance is cyclic",
            Error::BadHighlightIndex(_) => "a capture index fell outside the vocabulary",
            Error::UnmappedCapture(_) => "a capture has no output style class",
            Error::MalformedSpan => "a source span or event stream was malformed",
        }
    }
}

} // verus!
