//! The naming conventions of grammar modules: where a language's dynamic
//! module lives and which constructor symbol it exports. The host performs
//! the actual loading; classifying its faults also lives here.

use vstd::prelude::*;
use crate::errors::{Error, ErrorView};

verus! {

/// `-` becomes `_`, so a language name is usable in a symbol name.
pub open spec fn replace_dashes(s: Seq<char>) -> Seq<char> {
    s.map_values(|c: char| if c == '-' { '_' } else { c })
}

/// The constructor symbol a grammar module exports for a language.
pub open spec fn symbol_name_spec(name: Seq<char>) -> Seq<char> {
    "tree_sitter_"@ + replace_dashes(name)
}

/// The file a grammar module is looked up in, relative to the book root.
pub open spec fn library_path_spec(name: Seq<char>) -> Seq<char> {
    "treesitter/"@ + name + ".so"@
}

/// The exported constructor's name: a fixed prefix, then the language
/// with hyphens replaced by underscores.
pub fn symbol_name(name: &str) -> (r: String)
    ensures
        r@ == symbol_name_spec(name@),
{
    let n = name.unicode_len();
    let mut out = String::from_str("tree_sitter_");
    let mut i: usize = 0;
    while i < n
        invariant
            0 <= i <= n == name@.len(),
            out@ == "tree_sitter_"@ + replace_dashes(name@.subrange(0, i as int)),
        decreases n - i,
    {
        if name.get_char(i) == '-' {
            out.append("_");
            proof {
                reveal_strlit("_");
                assert("_"@ =~= seq!['_']);
            }
        } else {
            out.append(name.substring_char(i, i + 1));
        }
        proof {
            assert(replace_dashes(name@.subrange(0, i + 1)) =~= replace_dashes(
                name@.subrange(0, i as int),
            ) + seq![if name@[i as int] == '-' {
                '_'
            } else {
                name@[i as int]
            }]);
            assert(name@.subrange(i as int, i + 1) =~= seq![name@[i as int]]);
            assert(out@ =~= "tree_sitter_"@ + replace_dashes(name@.subrange(0, i + 1)));
        }
        i += 1;
    }
    proof {
        assert(name@.subrange(0, n as int) =~= name@);
    }
    out
}

/// The module path for a language: the grammar directory, the language,
/// and the platform's shared-library extension.
pub fn library_path(name: &str) -> (r: String)
    ensures
        r@ == library_path_spec(name@),
{
    let mut out = String::from_str("treesitter/");
    out.append(name);
    out.append(".so");
    out
}

/// How the host's attempt to load a grammar module ended.
#[derive(Clone, Copy, PartialEq, Eq, Structural, Debug)]
pub enum LoadFault {
    /// The module file does not exist.
    FileMissing,
    /// The module exists but the constructor symbol was not found in it.
    SymbolMissing,
    /// The module could not be opened or its constructor not invoked.
    Other,
}

/// Maps a loading fault to the error reported for the block: a missing
/// module is `GrammarNotFound`, a missing constructor `SymbolNotFound`,
/// anything else `LoadError`.
pub fn classify_load_fault(fault: LoadFault) -> (r: Error)
    ensures
        fault == LoadFault::FileMissing ==> r@ == ErrorView::GrammarNotFound,
        fault == LoadFault::SymbolMissing ==> r@ == ErrorView::SymbolNotFound,
        fault == LoadFault::Other ==> r@ == ErrorView::LoadError,
{
    match fault {
        LoadFault::FileMissing => Error::GrammarNotFound,
        LoadFault::SymbolMissing => Error::SymbolNotFound,
        LoadFault::Other => Error::LoadError,
    }
}

} // verus!
