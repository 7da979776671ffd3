use mdbook_treesitter::{extract_code_body, filter_hidden_lines};

#[test]
fn test_filter_hidden_lines_with_tilde_prefix() {
    let code = "fn main() {\n    println!(\"Hello\"); // This line stays\n    let x = 42;\n~   let hidden_var = \"secret\";\n    println!(\"World\"); // This also stays\n~\n    println!(\"Goodbye\"); // This stays too\n}";

    let expected = "fn main() {\n    println!(\"Hello\"); // This line stays\n    let x = 42;\n    println!(\"World\"); // This also stays\n    println!(\"Goodbye\"); // This stays too\n}";

    assert_eq!(filter_hidden_lines(code, Some("~")), expected);
}

#[test]
fn test_filter_hidden_lines_with_hash_prefix() {
    let code = "fn main() {\n    println!(\"Hello\"); // This line stays\n    let x = 42;\n#   let hidden_var = \"secret\";\n    println!(\"World\"); // This also stays\n#\n    println!(\"Goodbye\"); // This stays too\n}";

    let expected = "fn main() {\n    println!(\"Hello\"); // This line stays\n    let x = 42;\n    println!(\"World\"); // This also stays\n    println!(\"Goodbye\"); // This stays too\n}";

    assert_eq!(filter_hidden_lines(code, Some("#")), expected);
}

#[test]
fn test_filter_hidden_lines_with_double_slash_prefix() {
    let code = "function test() {\n    console.log(\"Hello\"); // This line stays\n    let x = 42;\n//  let hidden_var = \"secret\";\n    console.log(\"World\"); // This also stays\n//\n    console.log(\"Goodbye\"); // This stays too\n}";

    let expected = "function test() {\n    console.log(\"Hello\"); // This line stays\n    let x = 42;\n    console.log(\"World\"); // This also stays\n    console.log(\"Goodbye\"); // This stays too\n}";

    assert_eq!(filter_hidden_lines(code, Some("//")), expected);
}

#[test]
fn test_filter_hidden_lines_no_prefix_configured() {
    let code = "fn main() {\n    println!(\"Hello\");\n~   let hidden_var = \"secret\";\n    println!(\"World\");\n}";

    // Should be unchanged when no prefix is configured
    assert_eq!(filter_hidden_lines(code, None), code);
}

#[test]
fn test_filter_hidden_lines_only_hidden_lines() {
    let code = "~\n~   let x = 42;\n~   let y = 24;\n";

    let expected = "";

    assert_eq!(filter_hidden_lines(code, Some("~")), expected);
}

#[test]
fn test_filter_hidden_lines_mixed_content() {
    let code = "fn main() {\n    println!(\"Hello\");\n~   // This line should be hidden\n    let x = 42;\n~\n    println!(\"World\");\n~   let secret = \"hidden\";\n    println!(\"Goodbye\");\n}";

    let expected = "fn main() {\n    println!(\"Hello\");\n    let x = 42;\n    println!(\"World\");\n    println!(\"Goodbye\");\n}";

    assert_eq!(filter_hidden_lines(code, Some("~")), expected);
}

#[test]
fn test_extract_code_body() {
    let content = "```rust\nfn main() {\n    println!(\"Hello\");\n}\n```";
    let expected = "fn main() {\n    println!(\"Hello\");\n}";

    assert_eq!(extract_code_body(content), expected);
}

#[test]
fn test_extract_code_body_with_language_options() {
    let content = "```rust,no_run\nfn main() {\n    println!(\"Hello\");\n}```";
    let expected = "fn main() {\n    println!(\"Hello\");\n}";

    assert_eq!(extract_code_body(content), expected);
}

#[test]
fn test_extract_code_body_empty() {
    let content = "```rust\n```";
    let expected = "";

    assert_eq!(extract_code_body(content), expected);
}

#[test]
fn test_filter_hidden_lines_preserve_indentation() {
    let code = "    fn helper() {\n        let x = 42;\n~       let hidden_var = \"secret\";\n        println!(\"test\");\n    }";

    let expected = "    fn helper() {\n        let x = 42;\n        println!(\"test\");\n    }";

    assert_eq!(filter_hidden_lines(code, Some("~")), expected);
}

#[test]
fn filter_drops_line_whose_trimmed_content_starts_with_prefix() {
    assert_eq!(
        filter_hidden_lines("fn x(){}\n~let hidden=1;\nfn y(){}", Some("~")),
        "fn x(){}\nfn y(){}"
    );
}

#[test]
fn extract_body_of_minimal_fenced_block() {
    assert_eq!(extract_code_body("```lang\ncode\n```"), "code");
}

#[test]
fn filter_with_empty_text_stays_empty() {
    assert_eq!(filter_hidden_lines("", Some("~")), "");
}

#[test]
fn filter_with_no_matching_lines_is_unchanged() {
    let code = "fn main() {\n    let x = 1;\n}";
    assert_eq!(filter_hidden_lines(code, Some("~")), code);
}

#[test]
fn filter_preserves_trailing_newline() {
    assert_eq!(filter_hidden_lines("a\n", Some("~")), "a\n");
}

#[test]
fn filter_preserves_crlf_line_endings() {
    assert_eq!(filter_hidden_lines("x\r\ny", Some("~")), "x\r\ny");
}

#[test]
fn filter_removes_hidden_line_with_its_terminator() {
    assert_eq!(filter_hidden_lines("a\r\n~x\r\nb", Some("~")), "a\r\nb");
    assert_eq!(filter_hidden_lines("a\n~x\nb\n", Some("~")), "a\nb\n");
}

#[test]
fn filter_is_idempotent() {
    let code = "keep\r\n~drop\nalso kept\n~\nlast";
    let once = filter_hidden_lines(code, Some("~"));
    assert_eq!(filter_hidden_lines(&once, Some("~")), once);
    assert_eq!(once, "keep\r\nalso kept\nlast");
}
