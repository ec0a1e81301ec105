use bueno::fmt::{format_file, FormatOptions};

#[test]
fn unknown_extensions_are_left_untouched() {
    let r = format_file("notes.txt", "txt", "anything   at all").unwrap();
    assert!(r.is_none());
    let r = format_file("img.png", "png", "\u{0}binary").unwrap();
    assert!(r.is_none());
}

#[test]
fn json_files_are_formatted() {
    let input = "{\"a\":1,\"b\":[2,3]}";
    let r = format_file("pkg.json", "json", input).unwrap();
    let formatted = r.expect("unformatted input must come back changed");
    assert_ne!(formatted, input);
    assert!(formatted.contains("\"a\""));
    // A second pass over its own output reports it already formatted.
    let again = format_file("pkg.json", "json", &formatted).unwrap();
    assert!(again.is_none());
}

#[test]
fn malformed_json_is_rejected() {
    let r = format_file("broken.json", "json", "{\"a\":");
    let e = r.err().expect("malformed input must fail");
    assert!(!e.message.is_empty());
}

#[test]
fn typescript_files_are_formatted() {
    let input = "const x=1;;\nlet   y = 'a'\n";
    let r = format_file("mod.ts", "ts", input).unwrap();
    let formatted = r.expect("unformatted input must come back changed");
    assert_ne!(formatted, input);
    assert!(formatted.contains("x"));
}

#[test]
fn markdown_files_are_formatted() {
    let input = "# Title\n\n\n\ntext    here\n";
    let r = format_file("README.md", "md", input).unwrap();
    let formatted = r.expect("unformatted input must come back changed");
    assert_ne!(formatted, input);
    assert!(formatted.contains("# Title"));
}

#[test]
fn format_options_carry_their_fields() {
    let o = FormatOptions::new(true, "src/**/*.ts".to_string());
    assert!(o.check);
    assert_eq!(o.glob, "src/**/*.ts");
    let o = FormatOptions::new(false, "*".to_string());
    assert!(!o.check);
}

#[test]
fn markdown_code_blocks_go_through_the_dispatcher() {
    let input = "```json\n{\"a\":1}\n```\n";
    let r = format_file("doc.md", "md", input).unwrap();
    let formatted = r.expect("an unformatted code block must come back changed");
    assert!(formatted.contains("```json"));
    assert_ne!(formatted, input);
}
