//! Locating fenced code blocks in a chapter and splicing rendered markup
//! back into it by reverse-order span substitution over the raw bytes.

use vstd::prelude::*;
use vstd::utf8::*;
use vstd::string::StringSliceAdditionalSpecFns;
use vstd::slice::slice_subrange;
use crate::errors::{Error, ErrorView};
use pulldown_cmark::{CodeBlockKind, Event, Options, Parser, Tag};

verus! {

broadcast use vstd::utf8::encode_utf8_valid_utf8, vstd::utf8::encode_utf8_decode_utf8,
    vstd::utf8::is_char_boundary_start_end_of_seq;

/// A fenced code block as the document scan reports it: its byte span in
/// the chapter and the raw info string after the opening fence.
pub struct BlockRegion {
    pub start: usize,
    pub end: usize,
    pub info: String,
}

/// An accepted block: its byte span, the language drawn from the info
/// string, and the raw text of the whole span, fences included.
pub struct PlannedBlock {
    pub start: usize,
    pub end: usize,
    pub language: String,
    pub raw: String,
}

/// What became of one accepted block: its byte span and either the
/// rendered markup or the error that stopped it.
pub struct BlockOutcome {
    pub start: usize,
    pub end: usize,
    pub rendered: Result<String, Error>,
}

/// Whether one failed block aborts the whole document or passes through
/// unchanged.
#[derive(Clone, Copy, PartialEq, Eq, Structural, Debug)]
pub enum FailPolicy {
    /// The first failed block aborts the run.
    Fast,
    /// A failed block keeps its original text; the rest is still rewritten.
    Open,
}

/// The fenced code blocks of a document, in document order: for each, its
/// byte span `[start, end)` and its info string.
pub uninterp spec fn fenced_regions(doc: Seq<char>) -> Seq<(int, int, Seq<char>)>;

/// Relies on pulldown_cmark's `Parser` with `into_offset_iter`: every
/// fenced code block's start event carries the info string and the block's
/// byte range in the input; the documentation gives that each range can
/// slice the original string, so its ends lie on character boundaries, and
/// block ranges come in document order without overlap.
#[verifier::external_body]
fn scan_fenced_blocks(content: &str) -> (r: Vec<BlockRegion>)
    ensures
        r@.len() == fenced_regions(content@).len(),
        forall|i: int|
            0 <= i < r@.len() ==> {
                let b = #[trigger] fenced_regions(content@)[i];
                r@[i].start as int == b.0 && r@[i].end as int == b.1 && r@[i].info@ == b.2
            },
        forall|i: int|
            0 <= i < r@.len() ==> {
                let b = #[trigger] r@[i];
                b.start <= b.end && b.end <= content.spec_bytes().len() && is_char_boundary(
                    content.spec_bytes(),
                    b.start as int,
                ) && is_char_boundary(content.spec_bytes(), b.end as int)
            },
        forall|i: int, j: int|
            #![trigger r@[i], r@[j]]
            0 <= i < j < r@.len() ==> r@[i].end <= r@[j].start,
{
    let opts = Options::ENABLE_TABLES | Options::ENABLE_FOOTNOTES | Options::ENABLE_STRIKETHROUGH
        | Options::ENABLE_TASKLISTS;
    let mut r = Vec::new();
    for (event, span) in Parser::new_ext(content, opts).into_offset_iter() {
        if let Event::Start(Tag::CodeBlock(CodeBlockKind::Fenced(info))) = event {
            r.push(BlockRegion { start: span.start, end: span.end, info: info.into_string() });
        }
    }
    r
}

/// The index of the first comma, or the length if there is none.
pub open spec fn first_comma(s: Seq<char>) -> nat
    decreases s.len(),
{
    if s.len() == 0 {
        0
    } else if s[0] == ',' {
        0
    } else {
        1 + first_comma(s.drop_first())
    }
}

pub proof fn lemma_first_comma_at(s: Seq<char>, i: int)
    requires
        0 <= i <= s.len(),
        forall|k: int| 0 <= k < i ==> s[k] != ',',
        i < s.len() ==> s[i] == ',',
    ensures
        first_comma(s) == i,
    decreases i,
{
    if i == 0 {
    } else {
        assert(s[0] != ',');
        lemma_first_comma_at(s.drop_first(), i - 1);
    }
}

/// The language named by an info string: its first comma-separated token.
pub open spec fn language_id_spec(info: Seq<char>) -> Seq<char> {
    info.subrange(0, first_comma(info) as int)
}

/// Extracts the language token from a fence's info string: everything
/// before the first comma, which separates optional attributes.
pub fn language_id(info: &str) -> (r: &str)
    ensures
        r@ == language_id_spec(info@),
{
    let n = info.unicode_len();
    let mut i: usize = 0;
    while i < n && info.get_char(i) != ','
        invariant
            0 <= i <= n == info@.len(),
            forall|k: int| 0 <= k < i ==> info@[k] != ',',
        decreases n - i,
    {
        i += 1;
    }
    proof {
        lemma_first_comma_at(info@, i as int);
    }
    info.substring_char(0, i)
}

/// The regions of [`fenced_regions`] whose language is on the allow-list.
pub open spec fn accept_filter(s: Seq<(int, int, Seq<char>)>, langs: Seq<Seq<char>>) -> Seq<
    (int, int, Seq<char>),
>
    decreases s.len(),
{
    if s.len() == 0 {
        Seq::empty()
    } else {
        let rest = accept_filter(s.drop_last(), langs);
        if langs.contains(language_id_spec(s.last().2)) {
            rest.push(s.last())
        } else {
            rest
        }
    }
}

/// The accepted blocks of a document under an allow-list.
pub open spec fn accepted_regions(doc: Seq<char>, langs: Seq<Seq<char>>) -> Seq<
    (int, int, Seq<char>),
> {
    accept_filter(fenced_regions(doc), langs)
}

/// When no fenced region's language is on the allow-list, nothing is
/// accepted; its fenced blocks all pass through untouched.
pub proof fn lemma_no_language_accepted(s: Seq<(int, int, Seq<char>)>, langs: Seq<Seq<char>>)
    requires
        forall|i: int| 0 <= i < s.len() ==> !langs.contains(language_id_spec(#[trigger] s[i].2)),
    ensures
        accept_filter(s, langs).len() == 0,
    decreases s.len(),
{
    if s.len() > 0 {
        assert(forall|i: int|
            0 <= i < s.drop_last().len() ==> s.drop_last()[i] == s[i]);
        lemma_no_language_accepted(s.drop_last(), langs);
    }
}

/// Every accepted region's language is on the allow-list, so a fenced
/// block with an unlisted language is never planned and its span is never
/// replaced.
pub proof fn lemma_accepted_language_listed(s: Seq<(int, int, Seq<char>)>, langs: Seq<Seq<char>>)
    ensures
        forall|j: int|
            0 <= j < accept_filter(s, langs).len() ==> langs.contains(
                language_id_spec(#[trigger] accept_filter(s, langs)[j].2),
            ),
    decreases s.len(),
{
    if s.len() > 0 {
        lemma_accepted_language_listed(s.drop_last(), langs);
        let rest = accept_filter(s.drop_last(), langs);
        assert forall|j: int|
            0 <= j < accept_filter(s, langs).len() implies langs.contains(
            language_id_spec(#[trigger] accept_filter(s, langs)[j].2),
        ) by {
            if j < rest.len() {
                assert(accept_filter(s, langs)[j] == rest[j]);
            }
        }
    }
}

/// Decides whether `s` is one of the strings of `list`.
pub fn list_contains(list: &Vec<String>, s: &str) -> (r: bool)
    ensures
        r == list.deep_view().contains(s@),
{
    let mut i: usize = 0;
    while i < list.len()
        invariant
            0 <= i <= list@.len(),
            forall|k: int| 0 <= k < i ==> list.deep_view()[k] != s@,
        decreases list@.len() - i,
    {
        if crate::text::str_eq(list[i].as_str(), s) {
            proof {
                assert(list.deep_view()[i as int] == s@);
            }
            return true;
        }
        i += 1;
    }
    false
}

/// Slices `[a, b)` out of a string by byte offsets on character
/// boundaries.
pub fn byte_slice<'a>(s: &'a str, a: usize, b: usize) -> (r: &'a str)
    requires
        a <= b <= s.spec_bytes().len(),
        is_char_boundary(s.spec_bytes(), a as int),
        is_char_boundary(s.spec_bytes(), b as int),
    ensures
        r.spec_bytes() == s.spec_bytes().subrange(a as int, b as int),
        r@ == decode_utf8(s.spec_bytes().subrange(a as int, b as int)),
{
    proof {
        broadcast use vstd::utf8::valid_utf8_split, vstd::utf8::is_char_boundary_iff_not_is_continuation_byte;

        assert(valid_utf8(s.spec_bytes()));
    }
    let head = s.split_at(b).0;
    proof {
        assert(head.spec_bytes() =~= s.spec_bytes().subrange(0, b as int));
        assert(valid_utf8(head.spec_bytes()));
        if a < b {
            assert(head.spec_bytes()[a as int] == s.spec_bytes()[a as int]);
            assert(!is_continuation_byte(s.spec_bytes()[a as int]));
            assert(!is_continuation_byte(head.spec_bytes()[a as int]));
            assert(is_char_boundary(head.spec_bytes(), a as int));
        } else {
            assert(head.spec_bytes().len() == b as int);
            assert(is_char_boundary(head.spec_bytes(), head.spec_bytes().len() as int));
            assert(is_char_boundary(head.spec_bytes(), a as int));
        }
    }
    let r = head.split_at(a).1;
    proof {
        assert(r.spec_bytes() =~= s.spec_bytes().subrange(a as int, b as int));
        assert(valid_utf8(r.spec_bytes()));
        assert(decode_utf8(encode_utf8(r@)) == r@);
        assert(r@ == decode_utf8(s.spec_bytes().subrange(a as int, b as int)));
    }
    r
}

/// One planned block corresponds to one accepted region.
pub open spec fn plan_matches(
    p: Seq<PlannedBlock>,
    a: Seq<(int, int, Seq<char>)>,
    doc_bytes: Seq<u8>,
) -> bool {
    p.len() == a.len() && forall|i: int|
        0 <= i < p.len() ==> {
            let b = #[trigger] a[i];
            p[i].start as int == b.0 && p[i].end as int == b.1 && p[i].language@
                == language_id_spec(b.2) && p[i].raw@ == decode_utf8(
                doc_bytes.subrange(b.0, b.1),
            )
        }
}

/// Scans a chapter for fenced code blocks and keeps those whose language
/// is on the allow-list, together with their spans and raw text.
pub fn plan_blocks(content: &str, cfg_languages: &Vec<String>) -> (r: Vec<PlannedBlock>)
    ensures
        plan_matches(r@, accepted_regions(content@, cfg_languages.deep_view()), content.spec_bytes()),
        forall|x: int, y: int|
            #![trigger r@[x], r@[y]]
            0 <= x < y < r@.len() ==> r@[x].end <= r@[y].start,
        forall|x: int|
            0 <= x < r@.len() ==> {
                let p = #[trigger] r@[x];
                p.start <= p.end && p.end <= content.spec_bytes().len() && is_char_boundary(
                    content.spec_bytes(),
                    p.start as int,
                ) && is_char_boundary(content.spec_bytes(), p.end as int)
            },
{
    let ghost langs = cfg_languages.deep_view();
    let ghost fenced = fenced_regions(content@);
    let scanned = scan_fenced_blocks(content);
    let mut r: Vec<PlannedBlock> = Vec::new();
    let ghost mut idxs: Seq<int> = Seq::empty();
    let mut i: usize = 0;
    while i < scanned.len()
        invariant
            0 <= i <= scanned@.len(),
            scanned@.len() == fenced.len(),
            fenced == fenced_regions(content@),
            langs == cfg_languages.deep_view(),
            forall|k: int|
                0 <= k < scanned@.len() ==> {
                    let b = #[trigger] fenced[k];
                    scanned@[k].start as int == b.0 && scanned@[k].end as int == b.1
                        && scanned@[k].info@ == b.2
                },
            forall|k: int|
                0 <= k < scanned@.len() ==> {
                    let b = #[trigger] scanned@[k];
                    b.start <= b.end && b.end <= content.spec_bytes().len() && is_char_boundary(
                        content.spec_bytes(),
                        b.start as int,
                    ) && is_char_boundary(content.spec_bytes(), b.end as int)
                },
            forall|x: int, y: int|
                #![trigger scanned@[x], scanned@[y]]
                0 <= x < y < scanned@.len() ==> scanned@[x].end <= scanned@[y].start,
            plan_matches(r@, accept_filter(fenced.subrange(0, i as int), langs), content.spec_bytes()),
            idxs.len() == r@.len(),
            forall|x: int| 0 <= x < idxs.len() ==> 0 <= #[trigger] idxs[x] < i,
            forall|x: int, y: int| 0 <= x < y < idxs.len() ==> #[trigger] idxs[x] < #[trigger] idxs[y],
            forall|x: int|
                0 <= x < r@.len() ==> {
                    let p = #[trigger] r@[x];
                    p.start == scanned@[idxs[x]].start && p.end == scanned@[idxs[x]].end
                },
        decreases scanned@.len() - i,
    {
        let lang = language_id(scanned[i].info.as_str());
        let accepted = list_contains(cfg_languages, lang);
        proof {
            assert(fenced.subrange(0, i + 1).drop_last() =~= fenced.subrange(0, i as int));
            assert(fenced.subrange(0, i + 1).last() == fenced[i as int]);
        }
        if accepted {
            let raw = String::from_str(byte_slice(content, scanned[i].start, scanned[i].end));
            let planned = PlannedBlock {
                start: scanned[i].start,
                end: scanned[i].end,
                language: String::from_str(lang),
                raw,
            };
            r.push(planned);
            proof {
                idxs = idxs.push(i as int);
            }
        }
        i += 1;
    }
    proof {
        assert(fenced.subrange(0, i as int) =~= fenced);
        assert forall|x: int, y: int|
            #![trigger r@[x], r@[y]]
            0 <= x < y < r@.len() implies r@[x].end <= r@[y].start by {
            assert(r@[x].start == scanned@[idxs[x]].start && r@[x].end == scanned@[idxs[x]].end);
            assert(r@[y].start == scanned@[idxs[y]].start && r@[y].end == scanned@[idxs[y]].end);
            assert(idxs[x] < idxs[y]);
            assert(scanned@[idxs[x]].end <= scanned@[idxs[y]].start);
        }
        assert forall|x: int| 0 <= x < r@.len() implies {
            let p = #[trigger] r@[x];
            p.start <= p.end && p.end <= content.spec_bytes().len() && is_char_boundary(
                content.spec_bytes(),
                p.start as int,
            ) && is_char_boundary(content.spec_bytes(), p.end as int)
        } by {
            assert(r@[x].start == scanned@[idxs[x]].start && r@[x].end == scanned@[idxs[x]].end);
            let b = scanned@[idxs[x]];
            assert(b.start <= b.end && b.end <= content.spec_bytes().len() && is_char_boundary(
                content.spec_bytes(),
                b.start as int,
            ) && is_char_boundary(content.spec_bytes(), b.end as int));
        }
    }
    r
}

/// The bytes substituted for one block: a line feed, then the markup.
pub open spec fn repl_bytes_spec(html: Seq<char>) -> Seq<u8> {
    encode_utf8(seq!['\n'] + html)
}

pub proof fn lemma_repl_bytes(html: Seq<char>)
    ensures
        repl_bytes_spec(html) == seq![10u8] + encode_utf8(html),
        valid_utf8(repl_bytes_spec(html)),
{
    let full = seq!['\n'] + html;
    assert(full[0] == '\n');
    assert('\n' as u32 == 10);
    assert(10u32 & 0x7F == 10u32) by (bit_vector);
    assert(encode_scalar('\n' as u32) =~= seq![10u8]);
    assert(full.drop_first() =~= html);
    assert(repl_bytes_spec(html) =~= seq![10u8] + encode_utf8(html));
}

/// The spans and replacement bytes drawn from the outcomes whose
/// rendering succeeded, in order.
pub open spec fn kept_subs(outs: Seq<BlockOutcome>) -> Seq<(int, int, Seq<u8>)>
    decreases outs.len(),
{
    if outs.len() == 0 {
        Seq::empty()
    } else {
        let rest = kept_subs(outs.drop_last());
        match outs.last().rendered {
            Ok(h) => rest.push((outs.last().start as int, outs.last().end as int, repl_bytes_spec(h@))),
            Err(_) => rest,
        }
    }
}

/// The first rendering error among the outcomes, if any.
pub open spec fn first_error(outs: Seq<BlockOutcome>) -> Option<ErrorView>
    decreases outs.len(),
{
    if outs.len() == 0 {
        None
    } else {
        match outs[0].rendered {
            Err(e) => Some(e@),
            Ok(_) => first_error(outs.drop_first()),
        }
    }
}

pub proof fn lemma_first_error_at(outs: Seq<BlockOutcome>, i: int)
    requires
        0 <= i < outs.len(),
        forall|k: int| 0 <= k < i ==> #[trigger] outs[k].rendered is Ok,
        outs[i].rendered is Err,
    ensures
        outs[i].rendered matches Err(e) && first_error(outs) == Some(e@),
    decreases i,
{
    if i == 0 {
    } else {
        assert(outs[0].rendered is Ok);
        lemma_first_error_at(outs.drop_first(), i - 1);
        assert(outs.drop_first()[i - 1] == outs[i]);
    }
}

pub proof fn lemma_first_error_none(outs: Seq<BlockOutcome>)
    requires
        forall|k: int| 0 <= k < outs.len() ==> #[trigger] outs[k].rendered is Ok,
    ensures
        first_error(outs) is None,
    decreases outs.len(),
{
    if outs.len() > 0 {
        lemma_first_error_none(outs.drop_first());
    }
}

/// The spans lie in order inside the document, each on character
/// boundaries, each starting at or after `from`.
pub open spec fn spans_wf(doc: Seq<u8>, subs: Seq<(int, int, Seq<u8>)>, from: int) -> bool
    decreases subs.len(),
{
    if subs.len() == 0 {
        from <= doc.len()
    } else {
        &&& from <= subs[0].0 <= subs[0].1 <= doc.len()
        &&& is_char_boundary(doc, subs[0].0)
        &&& is_char_boundary(doc, subs[0].1)
        &&& spans_wf(doc, subs.drop_first(), subs[0].1)
    }
}

pub proof fn lemma_spans_wf_at(doc: Seq<u8>, subs: Seq<(int, int, Seq<u8>)>, from: int, i: int)
    requires
        spans_wf(doc, subs, from),
        0 <= i < subs.len(),
    ensures
        (if i == 0 {
            from
        } else {
            subs[i - 1].1
        }) <= subs[i].0 <= subs[i].1 <= doc.len(),
        is_char_boundary(doc, subs[i].0),
        is_char_boundary(doc, subs[i].1),
    decreases i,
{
    if i == 0 {
    } else {
        lemma_spans_wf_at(doc, subs.drop_first(), subs[0].1, i - 1);
        assert(subs.drop_first()[i - 1] == subs[i]);
        if i - 1 > 0 {
            assert(subs.drop_first()[i - 2] == subs[i - 1]);
        }
    }
}

/// The document from `from` on, with each span replaced by its bytes: the
/// text between spans is carried over byte-identical.
pub open spec fn splice_from(doc: Seq<u8>, subs: Seq<(int, int, Seq<u8>)>, from: int) -> Seq<u8>
    decreases subs.len(),
{
    if subs.len() == 0 {
        doc.subrange(from, doc.len() as int)
    } else {
        doc.subrange(from, subs[0].0) + subs[0].2 + splice_from(doc, subs.drop_first(), subs[0].1)
    }
}

/// Splicing from `a` equals the untouched bytes `[a, m)` followed by
/// splicing from `m`, for any cut before the first span.
pub proof fn lemma_splice_cut(doc: Seq<u8>, subs: Seq<(int, int, Seq<u8>)>, a: int, m: int)
    requires
        0 <= a <= m,
        m <= if subs.len() == 0 {
            doc.len() as int
        } else {
            subs[0].0
        },
        subs.len() > 0 ==> subs[0].0 <= doc.len(),
    ensures
        splice_from(doc, subs, a) == doc.subrange(a, m) + splice_from(doc, subs, m),
{
    if subs.len() == 0 {
        assert(doc.subrange(a, doc.len() as int) =~= doc.subrange(a, m) + doc.subrange(
            m,
            doc.len() as int,
        ));
    } else {
        assert(doc.subrange(a, subs[0].0) =~= doc.subrange(a, m) + doc.subrange(m, subs[0].0));
        assert(splice_from(doc, subs, a) =~= doc.subrange(a, m) + splice_from(doc, subs, m));
    }
}

/// Where a byte position `a` lands in the spliced output, when it lies
/// at or after `from` and outside every replaced span.
pub open spec fn out_pos(subs: Seq<(int, int, Seq<u8>)>, from: int, a: int) -> int
    decreases subs.len(),
{
    if subs.len() == 0 {
        a - from
    } else if subs[0].1 <= a {
        (subs[0].0 - from) + subs[0].2.len() + out_pos(subs.drop_first(), subs[0].1, a)
    } else {
        a - from
    }
}

/// Text that lies outside every replaced span — a fenced block whose
/// language is not on the allow-list among it — appears in the rewritten
/// document byte-identical, at the position the earlier replacements
/// determine.
pub proof fn lemma_splice_preserves_outside(
    doc: Seq<u8>,
    subs: Seq<(int, int, Seq<u8>)>,
    from: int,
    a: int,
    b: int,
)
    requires
        spans_wf(doc, subs, from),
        0 <= from <= a <= b <= doc.len(),
        forall|j: int| 0 <= j < subs.len() ==> (#[trigger] subs[j].1 <= a || b <= subs[j].0),
    ensures
        0 <= out_pos(subs, from, a),
        out_pos(subs, from, a) + (b - a) <= splice_from(doc, subs, from).len(),
        splice_from(doc, subs, from).subrange(
            out_pos(subs, from, a),
            out_pos(subs, from, a) + (b - a),
        ) == doc.subrange(a, b),
    decreases subs.len(),
{
    if subs.len() == 0 {
        assert(splice_from(doc, subs, from).subrange(a - from, b - from) =~= doc.subrange(
            a,
            b,
        ));
    } else {
        let s0 = subs[0].0;
        let e0 = subs[0].1;
        let r0 = subs[0].2;
        let rest = subs.drop_first();
        if e0 <= a {
            assert(forall|j: int|
                0 <= j < rest.len() ==> (#[trigger] rest[j].1 <= a || b <= rest[j].0)) by {
                assert(forall|j: int| 0 <= j < rest.len() ==> rest[j] == #[trigger] subs[j + 1]);
            }
            lemma_splice_preserves_outside(doc, rest, e0, a, b);
            let pos2 = out_pos(rest, e0, a);
            let head = doc.subrange(from, s0) + r0;
            assert(head.len() == (s0 - from) + r0.len());
            assert(splice_from(doc, subs, from) =~= head + splice_from(doc, rest, e0));
            assert(splice_from(doc, subs, from).subrange(
                head.len() + pos2,
                head.len() + pos2 + (b - a),
            ) =~= splice_from(doc, rest, e0).subrange(pos2, pos2 + (b - a)));
        } else {
            assert(b <= s0);
            let head = doc.subrange(from, s0);
            assert(splice_from(doc, subs, from) == head + r0 + splice_from(doc, rest, e0));
            assert((head + r0 + splice_from(doc, rest, e0)).subrange(a - from, b - from)
                =~= head.subrange(a - from, b - from));
            assert(head.subrange(a - from, b - from) =~= doc.subrange(a, b));
        }
    }
}

/// A splice of well-formed spans with valid replacement bytes is valid
/// UTF-8 whenever the document is.
pub proof fn lemma_splice_valid(doc: Seq<u8>, subs: Seq<(int, int, Seq<u8>)>, from: int)
    requires
        valid_utf8(doc),
        is_char_boundary(doc, from),
        0 <= from,
        spans_wf(doc, subs, from),
        forall|i: int| 0 <= i < subs.len() ==> valid_utf8(#[trigger] subs[i].2),
    ensures
        valid_utf8(splice_from(doc, subs, from)),
    decreases subs.len(),
{
    broadcast use vstd::utf8::valid_utf8_split, vstd::utf8::valid_utf8_concat,
        vstd::utf8::is_char_boundary_iff_not_is_continuation_byte;

    if subs.len() == 0 {
        assert(valid_utf8(doc.subrange(from, doc.len() as int)));
    } else {
        let s0 = subs[0].0;
        let e0 = subs[0].1;
        let left = doc.subrange(0, s0);
        assert(valid_utf8(left));
        if from < s0 {
            assert(left[from] == doc[from]);
            assert(!is_continuation_byte(doc[from]));
            assert(!is_continuation_byte(left[from]));
            assert(is_char_boundary(left, from));
        } else {
            assert(left.len() == s0);
            assert(is_char_boundary(left, left.len() as int));
            assert(is_char_boundary(left, from));
        }
        let piece = left.subrange(from, left.len() as int);
        assert(valid_utf8(piece));
        assert(piece =~= doc.subrange(from, s0));
        assert(forall|i: int|
            0 <= i < subs.drop_first().len() ==> subs.drop_first()[i] == subs[i + 1]);
        lemma_splice_valid(doc, subs.drop_first(), e0);
        let rest = splice_from(doc, subs.drop_first(), e0);
        assert(valid_utf8(subs[0].2 + rest));
        assert(valid_utf8(piece + (subs[0].2 + rest)));
        assert(splice_from(doc, subs, from) =~= piece + (subs[0].2 + rest));
    }
}

/// With no accepted blocks, rewriting returns the document unchanged.
pub proof fn lemma_rewrite_no_blocks(content: Seq<char>)
    ensures
        decode_utf8(splice_from(encode_utf8(content), kept_subs(Seq::empty()), 0)) == content,
{
    assert(kept_subs(Seq::<BlockOutcome>::empty()).len() == 0);
    assert(splice_from(encode_utf8(content), kept_subs(Seq::empty()), 0) =~= encode_utf8(content));
}

/// A document none of whose fenced blocks carries an allow-listed
/// language is left byte-identical: no region is accepted, and splicing
/// an empty substitution list decodes back to the document itself.
pub proof fn lemma_unrecognized_document_round_trip(doc: Seq<char>, langs: Seq<Seq<char>>)
    requires
        forall|i: int|
            0 <= i < fenced_regions(doc).len() ==> !langs.contains(
                language_id_spec(#[trigger] fenced_regions(doc)[i].2),
            ),
    ensures
        accepted_regions(doc, langs).len() == 0,
        decode_utf8(splice_from(encode_utf8(doc), kept_subs(Seq::empty()), 0)) == doc,
{
    lemma_no_language_accepted(fenced_regions(doc), langs);
    lemma_rewrite_no_blocks(doc);
}

/// Relies on String::from_utf8: it succeeds exactly on valid UTF-8 and
/// returns the string those bytes encode.
#[verifier::external_body]
fn string_from_utf8(bytes: Vec<u8>) -> (r: Option<String>)
    ensures
        r is Some <==> valid_utf8(bytes@),
        r matches Some(s) ==> s@ == decode_utf8(bytes@) && encode_utf8(s@) == bytes@,
{
    String::from_utf8(bytes).ok()
}

/// Extends `dst` with the bytes `[from, to)` of `src`.
fn push_byte_range(dst: &mut Vec<u8>, src: &Vec<u8>, from: usize, to: usize)
    requires
        from <= to <= src@.len(),
    ensures
        final(dst)@ == old(dst)@ + src@.subrange(from as int, to as int),
{
    let piece = slice_subrange(src.as_slice(), from, to);
    dst.extend_from_slice(piece);
    proof {
        assert(dst@ =~= old(dst)@ + src@.subrange(from as int, to as int));
    }
}

/// Rewrites a chapter: every outcome's span is replaced by a line feed and
/// its rendered markup, substituted in reverse span order so that the
/// byte offsets, taken once from the original text, stay valid.
///
/// Under the fail-fast policy the first block error aborts the rewrite;
/// under fail-open a failed block keeps its original text. Spans that are
/// out of order, out of range or off a character boundary are refused as
/// [`Error::MalformedSpan`].
pub fn rewrite_document(content: &str, outcomes: Vec<BlockOutcome>, policy: FailPolicy) -> (r:
    Result<String, Error>)
    ensures
        policy == FailPolicy::Fast && first_error(outcomes@) is Some ==> (r matches Err(e)
            && Some(e@) == first_error(outcomes@)),
        !(policy == FailPolicy::Fast && first_error(outcomes@) is Some) ==> {
            let subs = kept_subs(outcomes@);
            if spans_wf(content.spec_bytes(), subs, 0) {
                r matches Ok(out) && out@ == decode_utf8(
                    splice_from(content.spec_bytes(), subs, 0),
                )
            } else {
                (r matches Err(e) && e@ == ErrorView::MalformedSpan)
            }
        },
{
    let ghost outs = outcomes@;
    let ghost doc = content.spec_bytes();
    let fast = matches!(policy, FailPolicy::Fast);

    let mut kept: Vec<(usize, usize, String)> = Vec::new();
    let mut i: usize = 0;
    proof {
        assert(outs.subrange(0, 0) =~= Seq::<BlockOutcome>::empty());
        assert(subs_of(kept@) =~= kept_subs(outs.subrange(0, 0)));
    }
    while i < outcomes.len()
        invariant
            0 <= i <= outs.len(),
            outs == outcomes@,
            fast == (policy == FailPolicy::Fast),
            fast ==> forall|k: int| 0 <= k < i ==> #[trigger] outs[k].rendered is Ok,
            subs_of(kept@) == kept_subs(outs.subrange(0, i as int)),
        decreases outs.len() - i,
    {
        proof {
            assert(outs.subrange(0, i + 1).drop_last() =~= outs.subrange(0, i as int));
            assert(outs.subrange(0, i + 1).last() == outs[i as int]);
        }
        match &outcomes[i].rendered {
            Ok(h) => {
                let entry = (outcomes[i].start, outcomes[i].end, h.clone());
                kept.push(entry);
                proof {
                    assert(subs_of(kept@) =~= kept_subs(outs.subrange(0, i + 1)));
                }
            },
            Err(e) => {
                if fast {
                    proof {
                        lemma_first_error_at(outs, i as int);
                    }
                    return Err(e.clone());
                }
                proof {
                    assert(subs_of(kept@) =~= kept_subs(outs.subrange(0, i + 1)));
                }
            },
        }
        i += 1;
    }
    proof {
        assert(outs.subrange(0, i as int) =~= outs);
        if fast {
            lemma_first_error_none(outs);
        }
    }
    let ghost subs = kept_subs(outs);
    proof {
        assert(subs_of(kept@) == subs);
    }

    // Validate the spans before touching the document.
    let n_bytes = content.as_bytes().len();
    let mut prev: usize = 0;
    let mut v: usize = 0;
    proof {
        assert(subs.skip(0) =~= subs);
    }
    while v < kept.len()
        invariant
            0 <= v <= kept@.len(),
            outs == outcomes@,
            fast == (policy == FailPolicy::Fast),
            fast ==> first_error(outs) is None,
            subs == subs_of(kept@),
            subs == kept_subs(outs),
            doc == content.spec_bytes(),
            n_bytes == doc.len(),
            v > 0 ==> prev == kept@[v - 1].1,
            v == 0 ==> prev == 0,
            prev <= n_bytes,
            spans_wf(doc, subs, 0) == spans_wf(doc, subs.skip(v as int), prev as int),
        decreases kept@.len() - v,
    {
        let s = kept[v].0;
        let e = kept[v].1;
        let ok = prev <= s && s <= e && e <= n_bytes && content.is_char_boundary(s)
            && content.is_char_boundary(e);
        proof {
            assert(subs.skip(v as int)[0] == subs[v as int]);
            assert(subs[v as int] == (kept@[v as int].0 as int, kept@[v as int].1 as int,
                repl_bytes_spec(kept@[v as int].2@)));
            assert(subs.skip(v as int).drop_first() =~= subs.skip(v + 1));
        }
        if !ok {
            proof {
                assert(!spans_wf(doc, subs.skip(v as int), prev as int));
            }
            return Err(Error::MalformedSpan);
        }
        prev = e;
        v += 1;
    }
    proof {
        assert(subs.skip(kept@.len() as int) =~= Seq::<(int, int, Seq<u8>)>::empty());
        assert(spans_wf(doc, subs, 0));
    }

    // Substitute in reverse order over the raw bytes.
    let mut cur: Vec<u8> = content.as_bytes_vec();
    let mut k = kept.len();
    proof {
        assert(subs.skip(k as int) =~= Seq::<(int, int, Seq<u8>)>::empty());
        assert(cur@ =~= splice_from(doc, subs.skip(k as int), 0));
    }
    while k > 0
        invariant
            0 <= k <= kept@.len(),
            subs == subs_of(kept@),
            doc == content.spec_bytes(),
            spans_wf(doc, subs, 0),
            cur@ == splice_from(doc, subs.skip(k as int), 0),
        decreases k,
    {
        k -= 1;
        let s = kept[k].0;
        let e = kept[k].1;
        let ghost tail = subs.skip(k + 1);
        proof {
            lemma_spans_wf_at(doc, subs, 0, k as int);
            assert(subs[k as int] == (s as int, e as int, repl_bytes_spec(kept@[k as int].2@)));
            if k + 1 < subs.len() {
                lemma_spans_wf_at(doc, subs, 0, k as int + 1);
                assert(tail[0] == subs[k as int + 1]);
            }
            lemma_splice_cut(doc, tail, 0, s as int);
            lemma_splice_cut(doc, tail, s as int, e as int);
            assert(cur@ =~= doc.subrange(0, s as int) + (doc.subrange(s as int, e as int)
                + splice_from(doc, tail, e as int)));
        }
        let mut nb: Vec<u8> = Vec::new();
        push_byte_range(&mut nb, &cur, 0, s);
        nb.push(10u8);
        push_byte_range_str(&mut nb, kept[k].2.as_str());
        proof {
            lemma_repl_bytes(kept@[k as int].2@);
        }
        let cur_len = cur.len();
        push_byte_range(&mut nb, &cur, e, cur_len);
        proof {
            assert(cur@.subrange(0, s as int) =~= doc.subrange(0, s as int));
            assert(cur@.subrange(e as int, cur@.len() as int) =~= splice_from(
                doc,
                tail,
                e as int,
            ));
            assert(nb@ =~= doc.subrange(0, s as int) + repl_bytes_spec(kept@[k as int].2@)
                + splice_from(doc, tail, e as int));
            assert(subs.skip(k as int)[0] == subs[k as int]);
            assert(subs.skip(k as int).drop_first() =~= tail);
            assert(nb@ =~= splice_from(doc, subs.skip(k as int), 0));
        }
        cur = nb;
    }
    proof {
        assert(subs.skip(0) =~= subs);
        assert forall|x: int| 0 <= x < subs.len() implies valid_utf8(#[trigger] subs[x].2) by {
            lemma_repl_bytes(kept@[x].2@);
        }
        lemma_splice_valid(doc, subs, 0);
    }
    match string_from_utf8(cur) {
        Some(out) => Ok(out),
        None => {
            proof {
                assert(false);
            }
            Err(Error::MalformedSpan)
        },
    }
}

/// The substitution triple each kept entry stands for.
pub open spec fn subs_of(v: Seq<(usize, usize, String)>) -> Seq<(int, int, Seq<u8>)> {
    v.map_values(|t: (usize, usize, String)| (t.0 as int, t.1 as int, repl_bytes_spec(t.2@)))
}

/// Extends `dst` with the UTF-8 bytes of `s`.
fn push_byte_range_str(dst: &mut Vec<u8>, s: &str)
    ensures
        final(dst)@ == old(dst)@ + encode_utf8(s@),
{
    dst.extend_from_slice(s.as_bytes());
    proof {
        assert(dst@ =~= old(dst)@ + encode_utf8(s@));
    }
}

} // verus!
