use mdbook_treesitter::MdbookTreesitter;
use mdbook_treesitter::RunAction;
use mdbook_treesitter::run;
use mdbook_treesitter::errors::Error;
use mdbook_treesitter::config::LanguagesSetting;
use mdbook_treesitter::compose::{QueryFile, compose_query, parse_inherits};
use mdbook_treesitter::loader::{LoadFault, classify_load_fault, library_path, symbol_name};
use mdbook_treesitter::highlight::{HighlightEvent, class_of, highlight_names, render_events};
use mdbook_treesitter::rewrite::{BlockOutcome, FailPolicy, language_id, plan_blocks,
    rewrite_document};

#[test]
fn preprocessor_name_and_renderer_support() {
    let pre = MdbookTreesitter;
    assert_eq!(pre.name(), "treesitter");
    assert!(pre.supports_renderer("html"));
    assert!(!pre.supports_renderer("markdown"));
}

#[test]
fn run_decides_between_preprocessing_and_support_query() {
    assert_eq!(run(None), RunAction::Preprocess);
    assert_eq!(run(Some("html".to_string())), RunAction::ExitSuccess);
    assert_eq!(run(Some("pdf".to_string())), RunAction::ExitFailure);
}

#[test]
fn language_id_is_first_comma_separated_token() {
    assert_eq!(language_id("rust,no_run"), "rust");
    assert_eq!(language_id("rust"), "rust");
    assert_eq!(language_id(""), "");
}

#[test]
fn loader_naming_conventions() {
    assert_eq!(symbol_name("foo-bar"), "tree_sitter_foo_bar");
    assert_eq!(symbol_name("rust"), "tree_sitter_rust");
    assert_eq!(library_path("rust"), "treesitter/rust.so");
}

#[test]
fn missing_grammar_module_is_grammar_not_found() {
    assert!(matches!(classify_load_fault(LoadFault::FileMissing), Error::GrammarNotFound));
    assert!(matches!(classify_load_fault(LoadFault::SymbolMissing), Error::SymbolNotFound));
    assert!(matches!(classify_load_fault(LoadFault::Other), Error::LoadError));
}

#[test]
fn languages_setting_errors() {
    assert!(matches!(
        MdbookTreesitter::get_ts_languages(LanguagesSetting::Missing),
        Err(Error::ConfigMissing)
    ));
    assert!(matches!(
        MdbookTreesitter::get_ts_languages(LanguagesSetting::NotAList),
        Err(Error::ConfigMalformed)
    ));
    assert!(matches!(
        MdbookTreesitter::get_ts_languages(LanguagesSetting::List(vec![
            Some("rust".to_string()),
            None
        ])),
        Err(Error::ConfigMalformed)
    ));
    let langs =
        MdbookTreesitter::get_ts_languages(LanguagesSetting::List(vec![
            Some("rust".to_string()),
            Some("zig".to_string()),
        ]))
        .unwrap();
    assert_eq!(langs, vec!["rust".to_string(), "zig".to_string()]);
}

#[test]
fn hide_prefix_lookup() {
    let table = vec![
        ("rust".to_string(), "~".to_string()),
        ("python".to_string(), "#".to_string()),
    ];
    assert_eq!(MdbookTreesitter::get_hide_line_prefix(&table, "rust"), Some("~".to_string()));
    assert_eq!(MdbookTreesitter::get_hide_line_prefix(&table, "python"), Some("#".to_string()));
    assert_eq!(MdbookTreesitter::get_hide_line_prefix(&table, "zig"), None);
}

#[test]
fn inherits_directive_recognition() {
    assert_eq!(
        parse_inherits("; inherits: rust,zig"),
        Some(vec!["rust".to_string(), "zig".to_string()])
    );
    assert_eq!(parse_inherits(";; inherits c-sharp"), Some(vec!["c-sharp".to_string()]));
    assert_eq!(parse_inherits("(foo)"), None);
    assert_eq!(parse_inherits("; a comment"), None);
    assert_eq!(parse_inherits("inherits: rust"), None);
}

fn table() -> Vec<QueryFile> {
    vec![
        QueryFile {
            language: "a".to_string(),
            query: "highlights".to_string(),
            text: "; inherits: b\n(foo)".to_string(),
        },
        QueryFile {
            language: "b".to_string(),
            query: "highlights".to_string(),
            text: "(bar)".to_string(),
        },
        QueryFile {
            language: "loop".to_string(),
            query: "highlights".to_string(),
            text: "; inherits: loop".to_string(),
        },
    ]
}

#[test]
fn query_composition_expands_inheritance() {
    let files = table();
    assert_eq!(compose_query(&files, "b", "highlights").unwrap(), "(bar)");
    assert_eq!(compose_query(&files, "a", "highlights").unwrap(), "\n(bar)\n\n(foo)");
}

#[test]
fn query_composition_missing_source_fails() {
    let files = table();
    assert!(matches!(
        compose_query(&files, "zig", "highlights"),
        Err(Error::QueryLoadError)
    ));
    assert!(matches!(compose_query(&files, "a", "locals"), Err(Error::QueryLoadError)));
}

#[test]
fn cyclic_inheritance_is_reported() {
    let files = table();
    assert!(matches!(
        compose_query(&files, "loop", "highlights"),
        Err(Error::CyclicInheritance)
    ));
}

#[test]
fn rendering_wraps_and_escapes_source_spans() {
    let source = "a<b&c>d";
    let events = vec![HighlightEvent::Source { start: 0, end: 7 }];
    let html = render_events(&events, source).unwrap();
    assert_eq!(html, "<pre><code class=\"hljs\">\na&lt;b&amp;c&gt;d\n</code></pre>");
}

#[test]
fn rendering_nests_styled_regions() {
    let source = "abcd";
    let events = vec![
        HighlightEvent::Source { start: 0, end: 2 },
        HighlightEvent::HighlightStart(19),
        HighlightEvent::Source { start: 2, end: 4 },
        HighlightEvent::HighlightEnd,
    ];
    let html = render_events(&events, source).unwrap();
    assert_eq!(
        html,
        "<pre><code class=\"hljs\">\nab<span class='hljs-keyword'>cd</span>\n</code></pre>"
    );
}

#[test]
fn rendering_rejects_unbalanced_events() {
    let source = "ab";
    let open_only = vec![HighlightEvent::HighlightStart(19)];
    assert!(matches!(render_events(&open_only, source), Err(Error::MalformedSpan)));
    let close_only = vec![HighlightEvent::HighlightEnd];
    assert!(matches!(render_events(&close_only, source), Err(Error::MalformedSpan)));
}

#[test]
fn rendering_rejects_unknown_capture_index() {
    let events = vec![HighlightEvent::HighlightStart(470)];
    assert!(matches!(render_events(&events, "x"), Err(Error::BadHighlightIndex(470))));
}

#[test]
fn rendering_rejects_capture_without_style_class() {
    // Index 30 is `markup.heading.1`, which the style table does not map.
    let events = vec![
        HighlightEvent::HighlightStart(30),
        HighlightEvent::HighlightEnd,
    ];
    match render_events(&events, "x") {
        Err(Error::UnmappedCapture(name)) => assert_eq!(name, "markup.heading.1"),
        _ => panic!("expected an unmapped-capture error"),
    }
}

#[test]
fn rendering_rejects_span_outside_source() {
    let events = vec![HighlightEvent::Source { start: 0, end: 3 }];
    assert!(matches!(render_events(&events, "ab"), Err(Error::MalformedSpan)));
}

#[test]
fn document_without_recognized_language_is_returned_byte_identical() {
    let doc = "# Title\n\n```python\nprint(1)\n```\n\ntail text\n";
    let langs = vec!["rust".to_string()];
    let plans = plan_blocks(doc, &langs);
    assert!(plans.is_empty());
    let out = rewrite_document(doc, Vec::new(), FailPolicy::Fast).unwrap();
    assert_eq!(out, doc);
}

#[test]
fn rewriting_replaces_exactly_the_accepted_spans() {
    let doc = "intro\n\n```rust\nlet a = 1;\n```\n\nmiddle\n\n```rust\nlet b = 2;\n```\n\nend\n";
    let langs = vec!["rust".to_string()];
    let plans = plan_blocks(doc, &langs);
    assert_eq!(plans.len(), 2);
    let outcomes = vec![
        BlockOutcome { start: plans[0].start, end: plans[0].end, rendered: Ok("ONE".to_string()) },
        BlockOutcome { start: plans[1].start, end: plans[1].end, rendered: Ok("TWO".to_string()) },
    ];
    let out = rewrite_document(doc, outcomes, FailPolicy::Fast).unwrap();
    let expected = format!(
        "{}\nONE{}\nTWO{}",
        &doc[..plans[0].start],
        &doc[plans[0].end..plans[1].start],
        &doc[plans[1].end..]
    );
    assert_eq!(out, expected);
}

#[test]
fn planned_blocks_carry_span_language_and_raw_text() {
    let doc = "héllo wörld\n\n```rust,no_run\nlet a = 1;\n```\n";
    let langs = vec!["rust".to_string()];
    let plans = plan_blocks(doc, &langs);
    assert_eq!(plans.len(), 1);
    assert_eq!(plans[0].language, "rust");
    assert!(plans[0].raw.starts_with("```rust,no_run\n"));
    assert_eq!(&doc[plans[0].start..plans[0].end], plans[0].raw);
}

#[test]
fn unlisted_language_block_passes_through_untouched() {
    let doc = "a\n\n```zig\nconst x = 1;\n```\n\nb\n";
    let langs = vec!["rust".to_string()];
    let plans = plan_blocks(doc, &langs);
    assert!(plans.is_empty());
    let out = rewrite_document(doc, Vec::new(), FailPolicy::Open).unwrap();
    assert_eq!(out, doc);
}

#[test]
fn fail_open_keeps_a_failed_block_and_rewrites_the_rest() {
    let doc = "x\n\n```rust\nlet a = 1;\n```\n\n```rust\nlet b = 2;\n```\ny\n";
    let langs = vec!["rust".to_string()];
    let plans = plan_blocks(doc, &langs);
    assert_eq!(plans.len(), 2);
    let outcomes = vec![
        BlockOutcome {
            start: plans[0].start,
            end: plans[0].end,
            rendered: Err(Error::GrammarNotFound),
        },
        BlockOutcome { start: plans[1].start, end: plans[1].end, rendered: Ok("OK".to_string()) },
    ];
    let out = rewrite_document(doc, outcomes, FailPolicy::Open).unwrap();
    let expected = format!(
        "{}{}\nOK{}",
        &doc[..plans[0].start],
        &doc[plans[0].start..plans[1].start],
        &doc[plans[1].end..]
    );
    assert_eq!(out, expected);
    assert_eq!(&out[plans[0].start..plans[0].end], &doc[plans[0].start..plans[0].end]);
}

#[test]
fn fail_fast_surfaces_the_first_block_error() {
    let doc = "```rust\nlet a = 1;\n```\n";
    let langs = vec!["rust".to_string()];
    let plans = plan_blocks(doc, &langs);
    assert_eq!(plans.len(), 1);
    let outcomes = vec![BlockOutcome {
        start: plans[0].start,
        end: plans[0].end,
        rendered: Err(Error::GrammarNotFound),
    }];
    assert!(matches!(
        rewrite_document(doc, outcomes, FailPolicy::Fast),
        Err(Error::GrammarNotFound)
    ));
}

#[test]
fn out_of_order_spans_are_malformed() {
    let doc = "abcdef";
    let outcomes = vec![
        BlockOutcome { start: 3, end: 5, rendered: Ok("x".to_string()) },
        BlockOutcome { start: 0, end: 2, rendered: Ok("y".to_string()) },
    ];
    assert!(matches!(
        rewrite_document(doc, outcomes, FailPolicy::Fast),
        Err(Error::MalformedSpan)
    ));
    let past_end = vec![BlockOutcome { start: 0, end: 7, rendered: Ok("z".to_string()) }];
    assert!(matches!(
        rewrite_document(doc, past_end, FailPolicy::Fast),
        Err(Error::MalformedSpan)
    ));
}

#[test]
fn vocabulary_and_style_table_agree_with_the_engine_order() {
    let names = highlight_names();
    assert_eq!(names.len(), 47);
    assert_eq!(names[0], "type");
    assert_eq!(names[19], "keyword");
    assert_eq!(names[46], "number");
    assert_eq!(class_of("type"), Some("hljs-type"));
    assert_eq!(class_of("string.escape"), Some("hljs-char escape_"));
    assert_eq!(class_of("markup.heading.1"), None);
    assert_eq!(class_of("no.such.capture"), None);
}

#[test]
fn rendering_slices_multibyte_source_on_byte_offsets() {
    // "é" is two bytes; the span below covers exactly it.
    let source = "aéb";
    let events = vec![
        HighlightEvent::Source { start: 0, end: 1 },
        HighlightEvent::HighlightStart(6),
        HighlightEvent::Source { start: 1, end: 3 },
        HighlightEvent::HighlightEnd,
        HighlightEvent::Source { start: 3, end: 4 },
    ];
    let html = render_events(&events, source).unwrap();
    assert_eq!(
        html,
        "<pre><code class=\"hljs\">\na<span class='hljs-string'>é</span>b\n</code></pre>"
    );
    // A span that splits the two-byte character is refused.
    let bad = vec![HighlightEvent::Source { start: 1, end: 2 }];
    assert!(matches!(
        render_events(&bad, source),
        Err(mdbook_treesitter::errors::Error::MalformedSpan)
    ));
}

#[test]
fn unlisted_block_stays_byte_identical_among_rewrites() {
    let doc = "a\n\n```rust\nlet a = 1;\n```\n\n```zig\nconst x = 1;\n```\n\nb\n";
    let langs = vec!["rust".to_string()];
    let plans = plan_blocks(doc, &langs);
    assert_eq!(plans.len(), 1);
    assert_eq!(plans[0].language, "rust");
    let outcomes = vec![BlockOutcome {
        start: plans[0].start,
        end: plans[0].end,
        rendered: Ok("HL".to_string()),
    }];
    let out = rewrite_document(doc, outcomes, FailPolicy::Fast).unwrap();
    let expected = format!("{}\nHL{}", &doc[..plans[0].start], &doc[plans[0].end..]);
    assert_eq!(out, expected);
    assert!(out.contains("```zig\nconst x = 1;\n```"));
}
