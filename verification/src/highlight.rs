//! The highlight engine: building a per-language configuration from a
//! grammar and its composed queries, running lexical highlighting, and
//! rendering the event stream into escaped, nested markup.

use vstd::prelude::*;
use vstd::utf8::{decode_utf8, is_char_boundary};
use vstd::string::StringSliceAdditionalSpecFns;
use crate::errors::{Error, ErrorView};
use crate::compose::{QueryFile, compose_query, compose_spec, files_view};
use crate::rewrite::byte_slice;
use tree_sitter::Language;
use tree_sitter_highlight::{HighlightConfiguration, Highlighter};

verus! {

#[verifier::external_type_specification]
#[verifier::external_body]
pub struct ExLanguage(Language);

#[verifier::external_type_specification]
#[verifier::external_body]
pub struct ExHighlightConfiguration(HighlightConfiguration);

#[verifier::external_type_specification]
#[verifier::external_body]
pub struct ExHighlighter(Highlighter);

/// One step of a highlighting run: a byte span of the source to emit,
/// the opening of a styled region, or the closing of the innermost one.
#[derive(Clone, Copy, PartialEq, Eq, Structural, Debug)]
pub enum HighlightEvent {
    Source { start: usize, end: usize },
    HighlightStart(usize),
    HighlightEnd,
}

/// What one character becomes in escaped markup text.
pub open spec fn escape_char(c: char) -> Seq<char> {
    if c == '&' {
        "&amp;"@
    } else if c == '<' {
        "&lt;"@
    } else if c == '>' {
        "&gt;"@
    } else {
        seq![c]
    }
}

/// Markup-escaped text: `&`, `<` and `>` replaced, all else unchanged.
pub open spec fn escape_text_spec(s: Seq<char>) -> Seq<char>
    decreases s.len(),
{
    if s.len() == 0 {
        Seq::empty()
    } else {
        escape_char(s[0]) + escape_text_spec(s.drop_first())
    }
}

/// Relies on html_escape::encode_text: it escapes exactly `&` to `&amp;`,
/// `<` to `&lt;` and `>` to `&gt;`, leaving every other character as is.
#[verifier::external_body]
fn escape_html_text(s: &str) -> (r: String)
    ensures
        r@ == escape_text_spec(s@),
{
    html_escape::encode_text(s).into_owned()
}

/// Relies on HighlightConfiguration::new of tree-sitter-highlight: it
/// compiles the grammar's queries into a configuration, failing on a
/// malformed query.
#[verifier::external_body]
fn build_highlight_configuration(
    language: Language,
    name: &str,
    highlights: &str,
    injections: &str,
    locals: &str,
) -> (r: Option<HighlightConfiguration>)
{
    HighlightConfiguration::new(language, name, highlights, injections, locals).ok()
}

/// Relies on HighlightConfiguration::configure: the engine's capture
/// indices then refer to positions in this list of recognized names.
#[verifier::external_body]
fn configure_highlight_names(config: &mut HighlightConfiguration, names: &Vec<&'static str>) {
    config.configure(names.as_slice());
}

/// Relies on Highlighter::new of tree-sitter-highlight.
#[verifier::external_body]
fn new_highlighter() -> (r: Highlighter) {
    Highlighter::new()
}

/// Relies on Highlighter::highlight of tree-sitter-highlight: it runs the
/// engine over the source bytes, with no cancellation flag and no
/// injected-language callback, and yields its event stream in order; any
/// engine failure is reported as absence.
#[verifier::external_body]
fn run_highlighter(h: &mut Highlighter, config: &HighlightConfiguration, source: &[u8]) -> (r:
    Option<Vec<HighlightEvent>>)
{
    let iter = h.highlight(config, source, None, None, |_| None).ok()?;
    let mut out = Vec::new();
    for ev in iter {
        out.push(match ev.ok()? {
            tree_sitter_highlight::HighlightEvent::Source { start, end } =>
                HighlightEvent::Source { start, end },
            tree_sitter_highlight::HighlightEvent::HighlightStart(hl) =>
                HighlightEvent::HighlightStart(hl.0),
            tree_sitter_highlight::HighlightEvent::HighlightEnd => HighlightEvent::HighlightEnd,
        });
    }
    Some(out)
}

/// The fixed, ordered capture vocabulary: the index of a name here is the
/// capture index the engine reports.
pub open spec fn capture_names_spec() -> Seq<Seq<char>> {
    seq![
        "type"@,
        "constructor"@,
        "constant"@,
        "constant.builtin"@,
        "constant.character"@,
        "constant.character.escape"@,
        "string"@,
        "string.regexp"@,
        "string.special"@,
        "string.escape"@,
        "escape"@,
        "comment"@,
        "variable"@,
        "variable.parameter"@,
        "variable.builtin"@,
        "variable.other.member"@,
        "label"@,
        "punctuation"@,
        "punctuation.special"@,
        "keyword"@,
        "keyword.storage.modifier.ref"@,
        "keyword.control.conditional"@,
        "operator"@,
        "function"@,
        "function.macro"@,
        "tag"@,
        "attribute"@,
        "namespace"@,
        "special"@,
        "markup.heading.marker"@,
        "markup.heading.1"@,
        "markup.heading.2"@,
        "markup.heading.3"@,
        "markup.heading.4"@,
        "markup.heading.5"@,
        "markup.heading.6"@,
        "markup.list"@,
        "markup.bold"@,
        "markup.italic"@,
        "markup.strikethrough"@,
        "markup.link.url"@,
        "markup.link.text"@,
        "markup.raw"@,
        "diff.plus"@,
        "diff.minus"@,
        "diff.delta"@,
        "number"@,
    ]
}

/// The character sequences of a list of string slices.
pub open spec fn str_views(v: Seq<&'static str>) -> Seq<Seq<char>> {
    v.map_values(|s: &'static str| s@)
}

/// The capture vocabulary, in engine order.
#[verifier::rlimit(60)]
pub fn highlight_names() -> (r: Vec<&'static str>)
    ensures
        str_views(r@) == capture_names_spec(),
        r@.len() == 47,
{
    let r: Vec<&'static str> = vec![
        "type",
        "constructor",
        "constant",
        "constant.builtin",
        "constant.character",
        "constant.character.escape",
        "string",
        "string.regexp",
        "string.special",
        "string.escape",
        "escape",
        "comment",
        "variable",
        "variable.parameter",
        "variable.builtin",
        "variable.other.member",
        "label",
        "punctuation",
        "punctuation.special",
        "keyword",
        "keyword.storage.modifier.ref",
        "keyword.control.conditional",
        "operator",
        "function",
        "function.macro",
        "tag",
        "attribute",
        "namespace",
        "special",
        "markup.heading.marker",
        "markup.heading.1",
        "markup.heading.2",
        "markup.heading.3",
        "markup.heading.4",
        "markup.heading.5",
        "markup.heading.6",
        "markup.list",
        "markup.bold",
        "markup.italic",
        "markup.strikethrough",
        "markup.link.url",
        "markup.link.text",
        "markup.raw",
        "diff.plus",
        "diff.minus",
        "diff.delta",
        "number",
    ];
    proof {
        assert(str_views(r@) =~~= capture_names_spec());
    }
    r
}

/// The output style class of a capture name, for the names the style
/// table covers.
pub open spec fn class_of_spec(n: Seq<char>) -> Option<Seq<char>> {
    if n == "type"@ {
        Some("hljs-type"@)
    } else if n == "constructor"@ {
        Some("hljs-title function_"@)
    } else if n == "constant"@ {
        Some("hljs-variable constant_"@)
    } else if n == "constant.builtin"@ {
        Some("hljs-built_in"@)
    } else if n == "constant.character"@ {
        Some("hljs-symbol"@)
    } else if n == "constant.character.escape"@ {
        Some("hljs-symbol"@)
    } else if n == "string"@ {
        Some("hljs-string"@)
    } else if n == "string.regexp"@ {
        Some("hljs-regexp"@)
    } else if n == "string.special"@ {
        Some("hljs-string"@)
    } else if n == "string.escape"@ {
        Some("hljs-char escape_"@)
    } else if n == "escape"@ {
        Some("hljs-char escape_"@)
    } else if n == "comment"@ {
        Some("hljs-comment"@)
    } else if n == "variable"@ {
        Some("hljs-variable"@)
    } else if n == "variable.parameter"@ {
        Some("hljs-params"@)
    } else if n == "variable.builtin"@ {
        Some("hljs-built_in"@)
    } else if n == "variable.other.member"@ {
        Some("hljs-variable"@)
    } else if n == "label"@ {
        Some("hljs-symbol"@)
    } else if n == "punctuation"@ {
        Some("hljs-punctuation"@)
    } else if n == "punctuation.special"@ {
        Some("hljs-punctuation"@)
    } else if n == "keyword"@ {
        Some("hljs-keyword"@)
    } else if n == "keyword.storage.modifier.ref"@ {
        Some("hljs-keyword"@)
    } else if n == "keyword.control.conditional"@ {
        Some("hljs-keyword"@)
    } else if n == "operator"@ {
        Some("hljs-operator"@)
    } else if n == "function"@ {
        Some("hljs-title function_"@)
    } else if n == "function.macro"@ {
        Some("hljs-title function_"@)
    } else if n == "tag"@ {
        Some("hljs-tag"@)
    } else if n == "attribute"@ {
        Some("hljs-attribute"@)
    } else if n == "namespace"@ {
        Some("hljs-title class_"@)
    } else if n == "special"@ {
        Some("hljs-literal"@)
    } else if n == "number"@ {
        Some("hljs-number"@)
    } else {
        None
    }
}

/// Looks a capture name up in the style table.
#[verifier::rlimit(60)]
pub fn class_of(name: &str) -> (r: Option<&'static str>)
    ensures
        r matches Some(c) ==> class_of_spec(name@) == Some(c@),
        r is None ==> class_of_spec(name@) is None,
{
    if crate::text::str_eq(name, "type") {
        Some("hljs-type")
    } else if crate::text::str_eq(name, "constructor") {
        Some("hljs-title function_")
    } else if crate::text::str_eq(name, "constant") {
        Some("hljs-variable constant_")
    } else if crate::text::str_eq(name, "constant.builtin") {
        Some("hljs-built_in")
    } else if crate::text::str_eq(name, "constant.character") {
        Some("hljs-symbol")
    } else if crate::text::str_eq(name, "constant.character.escape") {
        Some("hljs-symbol")
    } else if crate::text::str_eq(name, "string") {
        Some("hljs-string")
    } else if crate::text::str_eq(name, "string.regexp") {
        Some("hljs-regexp")
    } else if crate::text::str_eq(name, "string.special") {
        Some("hljs-string")
    } else if crate::text::str_eq(name, "string.escape") {
        Some("hljs-char escape_")
    } else if crate::text::str_eq(name, "escape") {
        Some("hljs-char escape_")
    } else if crate::text::str_eq(name, "comment") {
        Some("hljs-comment")
    } else if crate::text::str_eq(name, "variable") {
        Some("hljs-variable")
    } else if crate::text::str_eq(name, "variable.parameter") {
        Some("hljs-params")
    } else if crate::text::str_eq(name, "variable.builtin") {
        Some("hljs-built_in")
    } else if crate::text::str_eq(name, "variable.other.member") {
        Some("hljs-variable")
    } else if crate::text::str_eq(name, "label") {
        Some("hljs-symbol")
    } else if crate::text::str_eq(name, "punctuation") {
        Some("hljs-punctuation")
    } else if crate::text::str_eq(name, "punctuation.special") {
        Some("hljs-punctuation")
    } else if crate::text::str_eq(name, "keyword") {
        Some("hljs-keyword")
    } else if crate::text::str_eq(name, "keyword.storage.modifier.ref") {
        Some("hljs-keyword")
    } else if crate::text::str_eq(name, "keyword.control.conditional") {
        Some("hljs-keyword")
    } else if crate::text::str_eq(name, "operator") {
        Some("hljs-operator")
    } else if crate::text::str_eq(name, "function") {
        Some("hljs-title function_")
    } else if crate::text::str_eq(name, "function.macro") {
        Some("hljs-title function_")
    } else if crate::text::str_eq(name, "tag") {
        Some("hljs-tag")
    } else if crate::text::str_eq(name, "attribute") {
        Some("hljs-attribute")
    } else if crate::text::str_eq(name, "namespace") {
        Some("hljs-title class_")
    } else if crate::text::str_eq(name, "special") {
        Some("hljs-literal")
    } else if crate::text::str_eq(name, "number") {
        Some("hljs-number")
    } else {
        None
    }
}

/// The fixed wrapper that opens every rendered block.
pub open spec fn html_prefix() -> Seq<char> {
    "<pre><code class=\"hljs\">\n"@
}

/// The fixed wrapper that closes every rendered block.
pub open spec fn html_suffix() -> Seq<char> {
    "\n</code></pre>"@
}

/// The rendered text for the events from `i` on, entered at nesting depth
/// `depth`: source spans are emitted escaped, starts open a `span` tag
/// with the mapped class, ends close the innermost one. A span off the
/// source or a close at depth zero is an error, as is an unclosed region
/// at the end.
pub open spec fn render_spec(
    evs: Seq<HighlightEvent>,
    src: Seq<u8>,
    i: int,
    depth: int,
) -> Result<Seq<char>, ErrorView>
    decreases evs.len() - i,
{
    if i < 0 || i >= evs.len() {
        if depth == 0 {
            Ok(Seq::empty())
        } else {
            Err(ErrorView::MalformedSpan)
        }
    } else {
        match evs[i] {
            HighlightEvent::Source { start, end } => {
                if start <= end && end <= src.len() && is_char_boundary(src, start as int)
                    && is_char_boundary(src, end as int) {
                    let piece = escape_text_spec(
                        decode_utf8(src.subrange(start as int, end as int)),
                    );
                    match render_spec(evs, src, i + 1, depth) {
                        Ok(t) => Ok(piece + t),
                        Err(e) => Err(e),
                    }
                } else {
                    Err(ErrorView::MalformedSpan)
                }
            },
            HighlightEvent::HighlightStart(ix) => {
                if ix >= capture_names_spec().len() {
                    Err(ErrorView::BadHighlightIndex(ix as int))
                } else {
                    match class_of_spec(capture_names_spec()[ix as int]) {
                        None => Err(
                            ErrorView::UnmappedCapture(capture_names_spec()[ix as int]),
                        ),
                        Some(cl) => {
                            let open = "<span class='"@ + cl + "'>"@;
                            match render_spec(evs, src, i + 1, depth + 1) {
                                Ok(t) => Ok(open + t),
                                Err(e) => Err(e),
                            }
                        },
                    }
                }
            },
            HighlightEvent::HighlightEnd => {
                if depth == 0 {
                    Err(ErrorView::MalformedSpan)
                } else {
                    match render_spec(evs, src, i + 1, depth - 1) {
                        Ok(t) => Ok("</span>"@ + t),
                        Err(e) => Err(e),
                    }
                }
            },
        }
    }
}

/// Renders an event stream over its source into the wrapped, escaped,
/// nested markup of the whole block.
pub fn render_events(events: &Vec<HighlightEvent>, source: &str) -> (r: Result<String, Error>)
    ensures
        r matches Ok(out) ==> (render_spec(events@, source.spec_bytes(), 0, 0) matches Ok(body)
            && out@ == html_prefix() + body + html_suffix()),
        r matches Err(e) ==> render_spec(events@, source.spec_bytes(), 0, 0) == Err::<
            Seq<char>,
            ErrorView,
        >(e@),
{
    let ghost evs = events@;
    let ghost src = source.spec_bytes();
    let names = highlight_names();
    let n_bytes = source.as_bytes().len();
    let mut out = String::from_str("<pre><code class=\"hljs\">\n");
    let ghost mut acc: Seq<char> = Seq::empty();
    let mut depth: usize = 0;
    let mut i: usize = 0;
    proof {
        match render_spec(evs, src, 0, 0) {
            Ok(t0) => {
                assert(Seq::<char>::empty() + t0 =~= t0);
            },
            Err(_) => {},
        }
    }
    while i < events.len()
        invariant
            0 <= i <= evs.len(),
            evs == events@,
            src == source.spec_bytes(),
            n_bytes == src.len(),
            str_views(names@) == capture_names_spec(),
            names@.len() == 47,
            depth <= i,
            out@ == html_prefix() + acc,
            render_spec(evs, src, i as int, depth as int) matches Ok(t) ==> render_spec(
                evs,
                src,
                0,
                0,
            ) == Ok::<Seq<char>, ErrorView>(acc + t),
            render_spec(evs, src, i as int, depth as int) matches Err(e2) ==> render_spec(
                evs,
                src,
                0,
                0,
            ) == Err::<Seq<char>, ErrorView>(e2),
        decreases evs.len() - i,
    {
        let ev = events[i];
        match ev {
            HighlightEvent::Source { start, end } => {
                let ok = start <= end && end <= n_bytes && source.is_char_boundary(start)
                    && source.is_char_boundary(end);
                if !ok {
                    proof {
                        assert(render_spec(evs, src, i as int, depth as int) == Err::<
                            Seq<char>,
                            ErrorView,
                        >(ErrorView::MalformedSpan));
                    }
                    return Err(Error::MalformedSpan);
                }
                let piece = byte_slice(source, start, end);
                let escaped = escape_html_text(piece);
                out.append(escaped.as_str());
                proof {
                    assert(render_spec(evs, src, i as int, depth as int) == (match render_spec(
                        evs,
                        src,
                        i + 1,
                        depth as int,
                    ) {
                        Ok(t) => Ok::<Seq<char>, ErrorView>(escaped@ + t),
                        Err(e2) => Err(e2),
                    }));
                    let acc0 = acc;
                    acc = acc + escaped@;
                    assert(out@ =~= html_prefix() + acc);
                    match render_spec(evs, src, i + 1, depth as int) {
                        Ok(t1) => {
                            assert(acc0 + (escaped@ + t1) =~= acc + t1);
                        },
                        Err(_) => {},
                    }
                }
            },
            HighlightEvent::HighlightStart(ix) => {
                if ix >= names.len() {
                    proof {
                        assert(render_spec(evs, src, i as int, depth as int) == Err::<
                            Seq<char>,
                            ErrorView,
                        >(ErrorView::BadHighlightIndex(ix as int)));
                    }
                    return Err(Error::BadHighlightIndex(ix));
                }
                let nm = names[ix];
                proof {
                    assert(nm@ == capture_names_spec()[ix as int]);
                }
                match class_of(nm) {
                    None => {
                        proof {
                            assert(render_spec(evs, src, i as int, depth as int) == Err::<
                                Seq<char>,
                                ErrorView,
                            >(ErrorView::UnmappedCapture(capture_names_spec()[ix as int])));
                        }
                        return Err(Error::UnmappedCapture(String::from_str(nm)));
                    },
                    Some(cl) => {
                        out.append("<span class='");
                        out.append(cl);
                        out.append("'>");
                        proof {
                            let open = "<span class='"@ + cl@ + "'>"@;
                            assert(render_spec(evs, src, i as int, depth as int) == (
                            match render_spec(evs, src, i + 1, depth + 1) {
                                Ok(t) => Ok::<Seq<char>, ErrorView>(open + t),
                                Err(e2) => Err(e2),
                            }));
                            let acc0 = acc;
                            acc = acc + open;
                            assert(out@ =~= html_prefix() + acc);
                            match render_spec(evs, src, i + 1, depth + 1) {
                                Ok(t1) => {
                                    assert(acc0 + (open + t1) =~= acc + t1);
                                },
                                Err(_) => {},
                            }
                        }
                        depth += 1;
                    },
                }
            },
            HighlightEvent::HighlightEnd => {
                if depth == 0 {
                    proof {
                        assert(render_spec(evs, src, i as int, depth as int) == Err::<
                            Seq<char>,
                            ErrorView,
                        >(ErrorView::MalformedSpan));
                    }
                    return Err(Error::MalformedSpan);
                }
                out.append("</span>");
                proof {
                    assert(render_spec(evs, src, i as int, depth as int) == (match render_spec(
                        evs,
                        src,
                        i + 1,
                        depth - 1,
                    ) {
                        Ok(t) => Ok::<Seq<char>, ErrorView>("</span>"@ + t),
                        Err(e2) => Err(e2),
                    }));
                    let acc0 = acc;
                    acc = acc + "</span>"@;
                    assert(out@ =~= html_prefix() + acc);
                    match render_spec(evs, src, i + 1, depth - 1) {
                        Ok(t1) => {
                            assert(acc0 + ("</span>"@ + t1) =~= acc + t1);
                        },
                        Err(_) => {},
                    }
                }
                depth -= 1;
            },
        }
        i += 1;
    }
    if depth != 0 {
        proof {
            assert(render_spec(evs, src, i as int, depth as int) == Err::<Seq<char>, ErrorView>(
                ErrorView::MalformedSpan,
            ));
        }
        return Err(Error::MalformedSpan);
    }
    proof {
        assert(render_spec(evs, src, i as int, depth as int) == Ok::<Seq<char>, ErrorView>(
            Seq::empty(),
        ));
        assert(acc + Seq::<char>::empty() =~= acc);
    }
    out.append("\n</code></pre>");
    proof {
        assert(out@ =~= html_prefix() + acc + html_suffix());
    }
    Ok(out)
}

/// How many `HighlightStart` events the sequence holds.
pub open spec fn count_starts(evs: Seq<HighlightEvent>) -> int
    decreases evs.len(),
{
    if evs.len() == 0 {
        0
    } else {
        (if evs[0] is HighlightStart {
            1int
        } else {
            0int
        }) + count_starts(evs.drop_first())
    }
}

/// How many `HighlightEnd` events the sequence holds.
pub open spec fn count_ends(evs: Seq<HighlightEvent>) -> int
    decreases evs.len(),
{
    if evs.len() == 0 {
        0
    } else {
        (if evs[0] is HighlightEnd {
            1int
        } else {
            0int
        }) + count_ends(evs.drop_first())
    }
}

/// A well-nested event stream: as many starts as ends, and no prefix
/// closes more regions than it has opened.
pub open spec fn well_nested(evs: Seq<HighlightEvent>) -> bool {
    count_starts(evs) == count_ends(evs) && forall|k: int|
        0 <= k <= evs.len() ==> count_ends(evs.subrange(0, k)) <= count_starts(
            evs.subrange(0, k),
        )
}

proof fn lemma_render_counts(evs: Seq<HighlightEvent>, src: Seq<u8>, i: int, depth: int)
    requires
        0 <= i <= evs.len(),
        0 <= depth,
        render_spec(evs, src, i, depth) is Ok,
    ensures
        count_ends(evs.subrange(i, evs.len() as int)) == count_starts(
            evs.subrange(i, evs.len() as int),
        ) + depth,
        forall|k: int|
            i <= k <= evs.len() ==> count_ends(evs.subrange(i, k)) <= count_starts(
                evs.subrange(i, k),
            ) + depth,
    decreases evs.len() - i,
{
    if i == evs.len() {
        assert(evs.subrange(i, i) =~= Seq::<HighlightEvent>::empty());
        assert forall|k: int| i <= k <= evs.len() implies count_ends(evs.subrange(i, k))
            <= count_starts(evs.subrange(i, k)) + depth by {
            assert(evs.subrange(i, k) =~= Seq::<HighlightEvent>::empty());
        }
    } else {
        let d2: int = match evs[i] {
            HighlightEvent::Source { .. } => depth,
            HighlightEvent::HighlightStart(_) => depth + 1,
            HighlightEvent::HighlightEnd => depth - 1,
        };
        lemma_render_counts(evs, src, i + 1, d2);
        assert(evs.subrange(i, evs.len() as int).drop_first() =~= evs.subrange(
            i + 1,
            evs.len() as int,
        ));
        assert(evs.subrange(i, evs.len() as int)[0] == evs[i]);
        assert forall|k: int| i <= k <= evs.len() implies count_ends(evs.subrange(i, k))
            <= count_starts(evs.subrange(i, k)) + depth by {
            if k == i {
                assert(evs.subrange(i, k) =~= Seq::<HighlightEvent>::empty());
            } else {
                assert(evs.subrange(i, k).drop_first() =~= evs.subrange(i + 1, k));
                assert(evs.subrange(i, k)[0] == evs[i]);
            }
        }
    }
}

/// A rendering that succeeds consumed a well-nested event stream: it held
/// as many `HighlightStart` as `HighlightEnd` events, and no prefix of it
/// closed more regions than it had opened.
pub proof fn lemma_render_well_nested(evs: Seq<HighlightEvent>, src: Seq<u8>)
    requires
        render_spec(evs, src, 0, 0) is Ok,
    ensures
        well_nested(evs),
{
    lemma_render_counts(evs, src, 0, 0);
    assert(evs.subrange(0, evs.len() as int) =~= evs);
}

/// A per-language highlighter: the engine and the immutable configuration
/// built from the language's grammar and composed queries.
pub struct MdbookTreesitterHighlighter {
    highlighter: Highlighter,
    config: HighlightConfiguration,
}

impl MdbookTreesitterHighlighter {
    /// Builds the highlighter for one language from its grammar and the
    /// table of query sources. The highlight query is mandatory; missing
    /// injection or locals queries default to empty text. A failure of
    /// the engine to accept the queries is [`Error::LoadError`].
    pub fn new(language: Language, codeblock_lang: &str, files: &Vec<QueryFile>) -> (r: Result<
        MdbookTreesitterHighlighter,
        Error,
    >)
        requires
            files@.len() < usize::MAX,
        ensures
            compose_spec(
                files_view(files@),
                codeblock_lang@,
                "highlights"@,
                (files@.len() + 1) as nat,
            ) matches Err(ev) ==> (r matches Err(e) && e@ == ev),
            r matches Err(e) ==> (e@ == ErrorView::LoadError || compose_spec(
                files_view(files@),
                codeblock_lang@,
                "highlights"@,
                (files@.len() + 1) as nat,
            ) == Err::<Seq<char>, ErrorView>(e@) || compose_spec(
                files_view(files@),
                codeblock_lang@,
                "injections"@,
                (files@.len() + 1) as nat,
            ) == Err::<Seq<char>, ErrorView>(e@) || compose_spec(
                files_view(files@),
                codeblock_lang@,
                "locals"@,
                (files@.len() + 1) as nat,
            ) == Err::<Seq<char>, ErrorView>(e@)),
    {
        let highlights = match compose_query(files, codeblock_lang, "highlights") {
            Ok(s) => s,
            Err(e) => {
                return Err(e);
            },
        };
        let injections = match compose_query(files, codeblock_lang, "injections") {
            Ok(s) => s,
            Err(Error::QueryLoadError) => String::new(),
            Err(e) => {
                return Err(e);
            },
        };
        let locals = match compose_query(files, codeblock_lang, "locals") {
            Ok(s) => s,
            Err(Error::QueryLoadError) => String::new(),
            Err(e) => {
                return Err(e);
            },
        };
        let config = build_highlight_configuration(
            language,
            codeblock_lang,
            highlights.as_str(),
            injections.as_str(),
            locals.as_str(),
        );
        match config {
            None => Err(Error::LoadError),
            Some(mut config) => {
                let names = highlight_names();
                configure_highlight_names(&mut config, &names);
                Ok(MdbookTreesitterHighlighter { highlighter: new_highlighter(), config })
            },
        }
    }

    /// Runs the engine over the code and renders its event stream. The
    /// engine's events decide the output; whatever stream comes back, a
    /// successful result is the rendering of some event stream over this
    /// source, wrapped in the fixed block container. An engine failure is
    /// [`Error::LoadError`].
    pub fn html(&mut self, s: &str) -> (r: Result<String, Error>)
        ensures
            r matches Ok(out) ==> exists|evs: Seq<HighlightEvent>|
                {
                    &&& #[trigger] render_spec(evs, s.spec_bytes(), 0, 0) matches Ok(body)
                    &&& out@ == html_prefix() + body + html_suffix()
                    &&& well_nested(evs)
                },
            r matches Err(e) ==> (e@ == ErrorView::LoadError || exists|evs: Seq<HighlightEvent>|
                #[trigger] render_spec(evs, s.spec_bytes(), 0, 0) == Err::<Seq<char>, ErrorView>(
                    e@,
                )),
    {
        let events = match run_highlighter(&mut self.highlighter, &self.config, s.as_bytes()) {
            Some(v) => v,
            None => {
                return Err(Error::LoadError);
            },
        };
        let r = render_events(&events, s);
        proof {
            match &r {
                Ok(out) => {
                    lemma_render_well_nested(events@, s.spec_bytes());
                    assert(render_spec(events@, s.spec_bytes(), 0, 0) matches Ok(body)
                        && out@ == html_prefix() + body + html_suffix() && well_nested(events@));
                },
                Err(e) => {
                    assert(render_spec(events@, s.spec_bytes(), 0, 0) == Err::<
                        Seq<char>,
                        ErrorView,
                    >(e@));
                },
            }
        }
        r
    }
}

/// The text that is actually highlighted for a block: its extracted code
/// body with hidden lines dropped.
pub open spec fn processed_block_body(content: Seq<char>, prefix: Option<Seq<char>>) -> Seq<
    char,
> {
    crate::filter_hidden_lines_spec(crate::extract_code_body_spec(content), prefix)
}

/// Whether `ev` is an error of one of the three query compositions for
/// this language, at the depth bound the block pipeline uses.
pub open spec fn composition_error(files: Seq<crate::compose::QueryFileView>, lang: Seq<char>, ev: ErrorView) -> bool {
    let fuel = (files.len() + 1) as nat;
    ||| compose_spec(files, lang, "highlights"@, fuel) == Err::<Seq<char>, ErrorView>(ev)
    ||| compose_spec(files, lang, "injections"@, fuel) == Err::<Seq<char>, ErrorView>(ev)
    ||| compose_spec(files, lang, "locals"@, fuel) == Err::<Seq<char>, ErrorView>(ev)
}

impl crate::MdbookTreesitter {
    /// Highlights one accepted code block: extracts the code body from
    /// the raw fenced text, drops hidden lines, and renders it with the
    /// language's grammar and queries.
    ///
    /// Allow-list rejection happens before this point, in
    /// [`crate::rewrite::plan_blocks`]: a block whose language is not
    /// listed is never planned, so no grammar is loaded and nothing is
    /// rendered for it
    /// ([`crate::rewrite::lemma_accepted_language_listed`]), and its span
    /// passes through the rewrite untouched
    /// ([`crate::rewrite::lemma_splice_preserves_outside`]).
    pub fn parse_code(
        language: Language,
        codeblock_lang: &str,
        files: &Vec<QueryFile>,
        hide_prefix: Option<&str>,
        content: &str,
    ) -> (r: Result<String, Error>)
        requires
            files@.len() < usize::MAX,
        ensures
            compose_spec(
                files_view(files@),
                codeblock_lang@,
                "highlights"@,
                (files@.len() + 1) as nat,
            ) matches Err(ev) ==> (r matches Err(e) && e@ == ev),
            hide_prefix is None ==> (r matches Ok(out) ==> exists|evs: Seq<HighlightEvent>|
                {
                    &&& #[trigger] render_spec(
                        evs,
                        vstd::utf8::encode_utf8(processed_block_body(content@, None)),
                        0,
                        0,
                    ) matches Ok(markup)
                    &&& out@ == html_prefix() + markup + html_suffix()
                    &&& well_nested(evs)
                }),
            hide_prefix matches Some(p) ==> (r matches Ok(out) ==> exists|
                evs: Seq<HighlightEvent>,
            |
                {
                    &&& #[trigger] render_spec(
                        evs,
                        vstd::utf8::encode_utf8(processed_block_body(content@, Some(p@))),
                        0,
                        0,
                    ) matches Ok(markup)
                    &&& out@ == html_prefix() + markup + html_suffix()
                    &&& well_nested(evs)
                }),
            hide_prefix is None ==> (r matches Err(e) ==> (e@ == ErrorView::LoadError
                || composition_error(files_view(files@), codeblock_lang@, e@) || exists|
                evs: Seq<HighlightEvent>,
            |
                #[trigger] render_spec(
                    evs,
                    vstd::utf8::encode_utf8(processed_block_body(content@, None)),
                    0,
                    0,
                ) == Err::<Seq<char>, ErrorView>(e@))),
            hide_prefix matches Some(p) ==> (r matches Err(e) ==> (e@ == ErrorView::LoadError
                || composition_error(files_view(files@), codeblock_lang@, e@) || exists|
                evs: Seq<HighlightEvent>,
            |
                #[trigger] render_spec(
                    evs,
                    vstd::utf8::encode_utf8(processed_block_body(content@, Some(p@))),
                    0,
                    0,
                ) == Err::<Seq<char>, ErrorView>(e@))),
    {
        let mut highlighter = match MdbookTreesitterHighlighter::new(
            language,
            codeblock_lang,
            files,
        ) {
            Ok(h) => h,
            Err(e) => {
                return Err(e);
            },
        };
        let body = crate::extract_code_body(content);
        let processed_body = crate::filter_hidden_lines(body, hide_prefix);
        let processed_str = processed_body.as_str();
        let r = highlighter.html(processed_str);
        proof {
            let processed = processed_block_body(
                content@,
                match hide_prefix {
                    None => None,
                    Some(p) => Some(p@),
                },
            );
            assert(processed_body@ == processed);
            assert(processed_str.spec_bytes() == vstd::utf8::encode_utf8(processed));
            match &r {
                Ok(_) => {
                    let evs = choose|evs: Seq<HighlightEvent>|
                        {
                            &&& #[trigger] render_spec(
                                evs,
                                processed_str.spec_bytes(),
                                0,
                                0,
                            ) matches Ok(markup)
                            &&& (r->Ok_0)@ == html_prefix() + markup + html_suffix()
                            &&& well_nested(evs)
                        };
                    assert(render_spec(evs, vstd::utf8::encode_utf8(processed), 0, 0) matches Ok(
                        markup,
                    ) && (r->Ok_0)@ == html_prefix() + markup + html_suffix() && well_nested(
                        evs,
                    ));
                },
                Err(e) => {
                    if exists|evs: Seq<HighlightEvent>| #[trigger] render_spec(
                        evs,
                        processed_str.spec_bytes(),
                        0,
                        0,
                    ) == Err::<Seq<char>, ErrorView>(e@) {
                        let evs = choose|evs: Seq<HighlightEvent>| #[trigger] render_spec(
                            evs,
                            processed_str.spec_bytes(),
                            0,
                            0,
                        ) == Err::<Seq<char>, ErrorView>(e@);
                        assert(render_spec(evs, vstd::utf8::encode_utf8(processed), 0, 0)
                            == Err::<Seq<char>, ErrorView>(e@));
                    }
                },
            }
        }
        r
    }
}

} // verus!
