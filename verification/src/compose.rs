//! Query composition: the highlight, injection and locals query sources of
//! a language, with `inherits` directive lines recursively replaced by the
//! same query of the named languages.
//!
//! Inheritance deeper than the number of query sources on hand can only
//! arise from a cyclic `inherits` chain, and is reported as
//! [`Error::CyclicInheritance`].

use vstd::prelude::*;
use crate::errors::{Error, ErrorView};
use crate::text::{first_nl, is_ws_char, is_ws, find_nl, lemma_first_nl_at, starts_with_spec,
    range_starts_with, str_eq};
use crate::rewrite::{first_comma, lemma_first_comma_at};

verus! {

/// One query source on disk: a language, a query name (`highlights`,
/// `injections` or `locals`), and the file's text.
pub struct QueryFile {
    pub language: String,
    pub query: String,
    pub text: String,
}

/// The mathematical image of a [`QueryFile`].
pub struct QueryFileView {
    pub language: Seq<char>,
    pub query: Seq<char>,
    pub text: Seq<char>,
}

impl View for QueryFile {
    type V = QueryFileView;

    open spec fn view(&self) -> QueryFileView {
        QueryFileView { language: self.language@, query: self.query@, text: self.text@ }
    }
}

/// The views of a table of query sources.
pub open spec fn files_view(files: Seq<QueryFile>) -> Seq<QueryFileView> {
    files.map_values(|f: QueryFile| f@)
}

/// The text of the first source for this language and query, if any.
pub open spec fn file_lookup(files: Seq<QueryFileView>, lang: Seq<char>, name: Seq<char>) -> Option<
    Seq<char>,
>
    decreases files.len(),
{
    if files.len() == 0 {
        None
    } else if files[0].language == lang && files[0].query == name {
        Some(files[0].text)
    } else {
        file_lookup(files.drop_first(), lang, name)
    }
}

/// A character that may appear in a language list: a lower-case letter,
/// `_`, `,`, `(`, `)` or `-`.
pub open spec fn is_lang_char(c: char) -> bool {
    let u = c as u32;
    (0x61 <= u && u <= 0x7A) || u == 0x5F || u == 0x2C || u == 0x28 || u == 0x29 || u == 0x2D
}

/// Decides [`is_lang_char`].
pub fn lang_char(c: char) -> (r: bool)
    ensures
        r == is_lang_char(c),
{
    let u = c as u32;
    (0x61 <= u && u <= 0x7A) || u == 0x5F || u == 0x2C || u == 0x28 || u == 0x29 || u == 0x2D
}

/// The end of the run of semicolons starting at `i`.
pub open spec fn run_semis(s: Seq<char>, i: int) -> int
    decreases s.len() - i,
    when 0 <= i <= s.len()
{
    if i < s.len() && s[i] == ';' {
        run_semis(s, i + 1)
    } else {
        i
    }
}

/// The end of the run of whitespace starting at `i`.
pub open spec fn run_ws(s: Seq<char>, i: int) -> int
    decreases s.len() - i,
    when 0 <= i <= s.len()
{
    if i < s.len() && is_ws_char(s[i]) {
        run_ws(s, i + 1)
    } else {
        i
    }
}

/// The end of the run of language-list characters starting at `i`.
pub open spec fn run_lang(s: Seq<char>, i: int) -> int
    decreases s.len() - i,
    when 0 <= i <= s.len()
{
    if i < s.len() && is_lang_char(s[i]) {
        run_lang(s, i + 1)
    } else {
        i
    }
}

pub proof fn lemma_run_semis_at(s: Seq<char>, i: int, j: int)
    requires
        0 <= i <= j <= s.len(),
        forall|k: int| i <= k < j ==> s[k] == ';',
        j < s.len() ==> s[j] != ';',
    ensures
        run_semis(s, i) == j,
    decreases j - i,
{
    if i < j {
        lemma_run_semis_at(s, i + 1, j);
    }
}

pub proof fn lemma_run_ws_at(s: Seq<char>, i: int, j: int)
    requires
        0 <= i <= j <= s.len(),
        forall|k: int| i <= k < j ==> is_ws_char(s[k]),
        j < s.len() ==> !is_ws_char(s[j]),
    ensures
        run_ws(s, i) == j,
    decreases j - i,
{
    if i < j {
        lemma_run_ws_at(s, i + 1, j);
    }
}

pub proof fn lemma_run_lang_at(s: Seq<char>, i: int, j: int)
    requires
        0 <= i <= j <= s.len(),
        forall|k: int| i <= k < j ==> is_lang_char(s[k]),
        j < s.len() ==> !is_lang_char(s[j]),
    ensures
        run_lang(s, i) == j,
    decreases j - i,
{
    if i < j {
        lemma_run_lang_at(s, i + 1, j);
    }
}

/// Splits at commas; empty segments are kept.
pub open spec fn split_commas(s: Seq<char>) -> Seq<Seq<char>>
    decreases s.len(),
{
    let k = first_comma(s);
    if k >= s.len() {
        seq![s]
    } else {
        seq![s.subrange(0, k as int)] + split_commas(s.subrange(k as int + 1, s.len() as int))
    }
}

/// The languages named by an `inherits` directive line: one or more
/// semicolons, then optional whitespace, the word `inherits`, an optional
/// colon, and a comma-separated language list, and nothing else.
pub open spec fn parse_inherits_spec(line: Seq<char>) -> Option<Seq<Seq<char>>> {
    let a = run_semis(line, 0);
    if a == 0 {
        None
    } else {
        let b = run_ws(line, a);
        if b + 8 <= line.len() && line.subrange(b, b + 8) == "inherits"@ {
            let d = run_ws(line, b + 8);
            let e = if d < line.len() && line[d] == ':' {
                d + 1
            } else {
                d
            };
            let f = run_ws(line, e);
            let g = run_lang(line, f);
            if g == f {
                None
            } else {
                let h = run_ws(line, g);
                if h == line.len() {
                    Some(split_commas(line.subrange(f, g)))
                } else {
                    None
                }
            }
        } else {
            None
        }
    }
}

/// Scans past a run of semicolons.
fn scan_semis(s: &str, from: usize) -> (r: usize)
    requires
        from <= s@.len(),
    ensures
        from <= r <= s@.len(),
        run_semis(s@, from as int) == r,
{
    let n = s.unicode_len();
    let mut i: usize = from;
    while i < n && s.get_char(i) == ';'
        invariant
            from <= i <= n == s@.len(),
            forall|k: int| from <= k < i ==> s@[k] == ';',
        decreases n - i,
    {
        i += 1;
    }
    proof {
        lemma_run_semis_at(s@, from as int, i as int);
    }
    i
}

/// Scans past a run of whitespace.
fn scan_ws(s: &str, from: usize) -> (r: usize)
    requires
        from <= s@.len(),
    ensures
        from <= r <= s@.len(),
        run_ws(s@, from as int) == r,
{
    let n = s.unicode_len();
    let mut i: usize = from;
    while i < n && is_ws(s.get_char(i))
        invariant
            from <= i <= n == s@.len(),
            forall|k: int| from <= k < i ==> is_ws_char(s@[k]),
        decreases n - i,
    {
        i += 1;
    }
    proof {
        lemma_run_ws_at(s@, from as int, i as int);
    }
    i
}

/// Scans past a run of language-list characters.
fn scan_lang(s: &str, from: usize) -> (r: usize)
    requires
        from <= s@.len(),
    ensures
        from <= r <= s@.len(),
        run_lang(s@, from as int) == r,
{
    let n = s.unicode_len();
    let mut i: usize = from;
    while i < n && lang_char(s.get_char(i))
        invariant
            from <= i <= n == s@.len(),
            forall|k: int| from <= k < i ==> is_lang_char(s@[k]),
        decreases n - i,
    {
        i += 1;
    }
    proof {
        lemma_run_lang_at(s@, from as int, i as int);
    }
    i
}

/// Splits a language list at commas.
fn split_commas_exec(s: &str) -> (r: Vec<String>)
    ensures
        crate::config::views_of(r@) == split_commas(s@),
    decreases s@.len(),
{
    let n = s.unicode_len();
    let mut k: usize = 0;
    while k < n && s.get_char(k) != ','
        invariant
            0 <= k <= n == s@.len(),
            forall|t: int| 0 <= t < k ==> s@[t] != ',',
        decreases n - k,
    {
        k += 1;
    }
    proof {
        lemma_first_comma_at(s@, k as int);
    }
    if k == n {
        let mut out: Vec<String> = Vec::new();
        out.push(String::from_str(s));
        proof {
            assert(crate::config::views_of(out@) =~~= seq![s@]);
        }
        out
    } else {
        let head = s.substring_char(0, k);
        let tail = s.substring_char(k + 1, n);
        let mut out: Vec<String> = Vec::new();
        out.push(String::from_str(head));
        let mut rest = split_commas_exec(tail);
        let ghost first = out@;
        let ghost restv = rest@;
        out.append(&mut rest);
        proof {
            assert(out@ =~= first + restv);
            assert(crate::config::views_of(out@) =~~= seq![s@.subrange(0, k as int)]
                + split_commas(s@.subrange(k as int + 1, s@.len() as int)));
        }
        out
    }
}

/// Recognizes an `inherits` directive line and extracts its languages.
pub fn parse_inherits(line: &str) -> (r: Option<Vec<String>>)
    ensures
        r matches Some(v) ==> parse_inherits_spec(line@) == Some(crate::config::views_of(v@)),
        r is None ==> parse_inherits_spec(line@) is None,
{
    let n = line.unicode_len();
    let a = scan_semis(line, 0);
    if a == 0 {
        return None;
    }
    let b = scan_ws(line, a);
    let has_kw = range_starts_with(line, b, n, "inherits");
    proof {
        reveal_strlit("inherits");
        if has_kw {
            assert(line@.subrange(b as int, n as int).subrange(0, 8) =~= line@.subrange(
                b as int,
                b as int + 8,
            ));
        } else {
            if b + 8 <= n && line@.subrange(b as int, b as int + 8) == "inherits"@ {
                assert(line@.subrange(b as int, n as int).subrange(0, 8) =~= line@.subrange(
                    b as int,
                    b as int + 8,
                ));
                assert(starts_with_spec(line@.subrange(b as int, n as int), "inherits"@));
            }
        }
    }
    if !has_kw {
        return None;
    }
    let d = scan_ws(line, b + 8);
    let e: usize = if d < n && line.get_char(d) == ':' {
        d + 1
    } else {
        d
    };
    let f = scan_ws(line, e);
    let g = scan_lang(line, f);
    if g == f {
        return None;
    }
    let h = scan_ws(line, g);
    if h != n {
        return None;
    }
    Some(split_commas_exec(line.substring_char(f, g)))
}

/// The composed query: the source text with each directive line replaced
/// by the inherited languages' composed queries, each framed by blank
/// lines. `fuel` bounds the inheritance depth.
pub open spec fn compose_spec(
    files: Seq<QueryFileView>,
    lang: Seq<char>,
    name: Seq<char>,
    fuel: nat,
) -> Result<Seq<char>, ErrorView>
    decreases fuel, 2int, 0int,
{
    if fuel == 0 {
        Err(ErrorView::CyclicInheritance)
    } else {
        match file_lookup(files, lang, name) {
            None => Err(ErrorView::QueryLoadError),
            Some(text) => expand_text_spec(files, name, text, fuel),
        }
    }
}

/// Expands every directive line of `text`.
pub open spec fn expand_text_spec(
    files: Seq<QueryFileView>,
    name: Seq<char>,
    text: Seq<char>,
    fuel: nat,
) -> Result<Seq<char>, ErrorView>
    decreases fuel, 1int, text.len(),
{
    let k = first_nl(text);
    let line = if k >= text.len() {
        text
    } else {
        text.subrange(0, k as int)
    };
    let seg = match parse_inherits_spec(line) {
        None => Ok(line),
        Some(langs) => expand_langs_spec(files, name, langs, fuel),
    };
    if k >= text.len() {
        seg
    } else {
        match seg {
            Err(e) => Err(e),
            Ok(head) => match expand_text_spec(
                files,
                name,
                text.subrange(k as int + 1, text.len() as int),
                fuel,
            ) {
                Err(e) => Err(e),
                Ok(rest) => Ok(head + seq!['\n'] + rest),
            },
        }
    }
}

/// Composes each inherited language's query, framed by blank lines.
pub open spec fn expand_langs_spec(
    files: Seq<QueryFileView>,
    name: Seq<char>,
    langs: Seq<Seq<char>>,
    fuel: nat,
) -> Result<Seq<char>, ErrorView>
    decreases fuel, 0int, langs.len(),
{
    if langs.len() == 0 {
        Ok(Seq::empty())
    } else if fuel == 0 {
        Err(ErrorView::CyclicInheritance)
    } else {
        match compose_spec(files, langs[0], name, (fuel - 1) as nat) {
            Err(e) => Err(e),
            Ok(sub) => match expand_langs_spec(files, name, langs.drop_first(), fuel) {
                Err(e) => Err(e),
                Ok(rest) => Ok(seq!['\n'] + sub + seq!['\n'] + rest),
            },
        }
    }
}

/// Finds the text of the first source for this language and query.
fn lookup_file<'a>(files: &'a Vec<QueryFile>, lang: &str, name: &str) -> (r: Option<&'a String>)
    ensures
        r matches Some(t) ==> file_lookup(files_view(files@), lang@, name@) == Some(t@),
        r is None ==> file_lookup(files_view(files@), lang@, name@) is None,
{
    let ghost fv = files_view(files@);
    let mut i: usize = 0;
    proof {
        assert(fv.skip(0) =~= fv);
    }
    while i < files.len()
        invariant
            0 <= i <= files@.len(),
            fv == files_view(files@),
            fv.len() == files@.len(),
            file_lookup(fv, lang@, name@) == file_lookup(fv.skip(i as int), lang@, name@),
        decreases files@.len() - i,
    {
        proof {
            assert(fv.skip(i as int)[0] == fv[i as int]);
            assert(fv.skip(i as int).drop_first() =~= fv.skip(i + 1));
            assert(fv[i as int] == files@[i as int]@);
        }
        if str_eq(files[i].language.as_str(), lang) && str_eq(files[i].query.as_str(), name) {
            return Some(&files[i].text);
        }
        i += 1;
    }
    proof {
        assert(fv.skip(i as int) =~= Seq::<QueryFileView>::empty());
    }
    None
}

/// Mirrors [`compose_spec`].
fn compose_rec(files: &Vec<QueryFile>, lang: &str, name: &str, fuel: usize) -> (r: Result<
    String,
    Error,
>)
    ensures
        r matches Ok(s) ==> compose_spec(files_view(files@), lang@, name@, fuel as nat) == Ok::<Seq<char>, ErrorView>(s@),
        r matches Err(e) ==> compose_spec(files_view(files@), lang@, name@, fuel as nat) == Err::<Seq<char>, ErrorView>(e@),
    decreases fuel, 2int, 0int,
{
    if fuel == 0 {
        return Err(Error::CyclicInheritance);
    }
    match lookup_file(files, lang, name) {
        None => Err(Error::QueryLoadError),
        Some(text) => {
            let owned = text.clone();
            expand_text_rec(files, name, owned.as_str(), fuel)
        },
    }
}

/// Mirrors [`expand_text_spec`].
fn expand_text_rec(files: &Vec<QueryFile>, name: &str, text: &str, fuel: usize) -> (r: Result<
    String,
    Error,
>)
    ensures
        r matches Ok(s) ==> expand_text_spec(files_view(files@), name@, text@, fuel as nat)
            == Ok::<Seq<char>, ErrorView>(s@),
        r matches Err(e) ==> expand_text_spec(files_view(files@), name@, text@, fuel as nat)
            == Err::<Seq<char>, ErrorView>(e@),
    decreases fuel, 1int, text@.len(),
{
    let n = text.unicode_len();
    let k = find_nl(text, 0);
    proof {
        lemma_first_nl_at(text@, k as int);
    }
    let line = if k == n {
        text
    } else {
        text.substring_char(0, k)
    };
    let seg: Result<String, Error> = match parse_inherits(line) {
        None => Ok(String::from_str(line)),
        Some(langs) => {
            proof {
                assert(crate::config::views_of(langs@).skip(0) =~= crate::config::views_of(
                    langs@,
                ));
            }
            expand_langs_rec(files, name, &langs, 0, fuel)
        },
    };
    if k == n {
        seg
    } else {
        match seg {
            Err(e) => Err(e),
            Ok(head) => {
                let tail = text.substring_char(k + 1, n);
                match expand_text_rec(files, name, tail, fuel) {
                    Err(e) => Err(e),
                    Ok(rest) => {
                        let ghost headv = head@;
                        let mut out = head;
                        out.append("\n");
                        out.append(rest.as_str());
                        proof {
                            reveal_strlit("\n");
                            assert(out@ =~= headv + seq!['\n'] + rest@);
                        }
                        Ok(out)
                    },
                }
            },
        }
    }
}

/// Mirrors [`expand_langs_spec`] from index `idx` on.
fn expand_langs_rec(
    files: &Vec<QueryFile>,
    name: &str,
    langs: &Vec<String>,
    idx: usize,
    fuel: usize,
) -> (r: Result<String, Error>)
    requires
        idx <= langs@.len(),
    ensures
        r matches Ok(s) ==> expand_langs_spec(
            files_view(files@),
            name@,
            crate::config::views_of(langs@).skip(idx as int),
            fuel as nat,
        ) == Ok::<Seq<char>, ErrorView>(s@),
        r matches Err(e) ==> expand_langs_spec(
            files_view(files@),
            name@,
            crate::config::views_of(langs@).skip(idx as int),
            fuel as nat,
        ) == Err::<Seq<char>, ErrorView>(e@),
    decreases fuel, 0int, langs@.len() - idx,
{
    let ghost lv = crate::config::views_of(langs@).skip(idx as int);
    if idx == langs.len() {
        proof {
            assert(lv.len() == 0);
        }
        return Ok(String::new());
    }
    if fuel == 0 {
        return Err(Error::CyclicInheritance);
    }
    proof {
        assert(lv[0] == langs@[idx as int]@);
        assert(lv.drop_first() =~= crate::config::views_of(langs@).skip(idx as int + 1));
    }
    match compose_rec(files, langs[idx].as_str(), name, fuel - 1) {
        Err(e) => Err(e),
        Ok(sub) => {
            match expand_langs_rec(files, name, langs, idx + 1, fuel) {
                Err(e) => Err(e),
                Ok(rest) => {
                    let mut out = String::from_str("\n");
                    out.append(sub.as_str());
                    out.append("\n");
                    out.append(rest.as_str());
                    proof {
                        reveal_strlit("\n");
                        assert("\n"@ =~= seq!['\n']);
                        assert(out@ =~= seq!['\n'] + sub@ + seq!['\n'] + rest@);
                    }
                    Ok(out)
                },
            }
        },
    }
}

/// Composes the named query of a language from the table of query
/// sources, expanding `inherits` directives recursively. A missing source
/// for the requested language is [`Error::QueryLoadError`]; an
/// inheritance chain deeper than the table allows is
/// [`Error::CyclicInheritance`].
pub fn compose_query(files: &Vec<QueryFile>, language: &str, name: &str) -> (r: Result<
    String,
    Error,
>)
    requires
        files@.len() < usize::MAX,
    ensures
        r matches Ok(s) ==> compose_spec(
            files_view(files@),
            language@,
            name@,
            (files@.len() + 1) as nat,
        ) == Ok::<Seq<char>, ErrorView>(s@),
        r matches Err(e) ==> compose_spec(
            files_view(files@),
            language@,
            name@,
            (files@.len() + 1) as nat,
        ) == Err::<Seq<char>, ErrorView>(e@),
{
    let fuel = files.len() + 1;
    compose_rec(files, language, name, fuel)
}

} // verus!
