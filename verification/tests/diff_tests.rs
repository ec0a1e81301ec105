use bueno::diff::{diff, diff_str, render_diff, split_lines, DiffBuildConfig, DiffHunk, DiffLineKind};

fn cfg(before: usize, after: usize, ends: bool) -> DiffBuildConfig {
    DiffBuildConfig { lines_before: before, lines_after: after, print_first_and_last_lines: ends }
}

#[test]
fn split_keeps_newline_terminators() {
    assert_eq!(split_lines("a\nb\nc\n"), vec!["a\n", "b\n", "c\n"]);
    assert_eq!(split_lines("a\nb"), vec!["a\n", "b"]);
    assert_eq!(split_lines("\n\n"), vec!["\n", "\n"]);
    assert_eq!(split_lines(""), Vec::<String>::new());
    assert_eq!(split_lines("no newline"), vec!["no newline"]);
}

#[test]
fn identical_texts_render_no_markers() {
    let x = "one\ntwo\nthree\n";
    let out = diff(x, x, &cfg(2, 2, false));
    assert_eq!(out, "");
    let out = diff(x, x, &cfg(2, 2, true));
    assert_eq!(out, "  one\n  three\n");
    assert!(!out.contains("- ") && !out.contains("+ "));
}

#[test]
fn single_line_replacement_with_context() {
    let out = diff("a\nb\nc\n", "a\nx\nc\n", &cfg(1, 1, false));
    assert_eq!(out, "  a\n- b\n+ x\n  c\n");
}

#[test]
fn insertion_and_deletion_hunks() {
    // A pure insertion at the end.
    let out = diff("a\n", "a\nb\n", &cfg(1, 1, false));
    assert_eq!(out, "  a\n+ b\n");
    // A pure deletion at the start.
    let out = diff("a\nb\n", "b\n", &cfg(1, 1, false));
    assert_eq!(out, "- a\n  b\n");
}

#[test]
fn context_window_bounds_the_rendering() {
    let before = "1\n2\n3\n4\n5\n6\n7\n8\n9\n";
    let after = "1\n2\n3\n4\nX\n6\n7\n8\n9\n";
    let out = diff(before, after, &cfg(1, 1, false));
    assert_eq!(out, "  4\n- 5\n+ X\n  6\n");
    let out = diff(before, after, &cfg(2, 2, false));
    assert_eq!(out, "  3\n  4\n- 5\n+ X\n  6\n  7\n");
    let out = diff(before, after, &cfg(2, 2, true));
    assert_eq!(out, "  1\n  3\n  4\n- 5\n+ X\n  6\n  7\n  9\n");
}

#[test]
fn last_line_without_newline_is_terminated() {
    let out = diff("a", "b", &cfg(0, 0, false));
    assert_eq!(out, "- a\n+ b\n");
}

#[test]
fn renderer_walks_given_hunks() {
    let before: Vec<String> = vec!["a\n".to_string(), "b\n".to_string()];
    let after: Vec<String> = vec!["a\n".to_string()];
    let hunks = vec![DiffHunk { before_start: 1, before_end: 2, after_start: 1, after_end: 1 }];
    let out = render_diff(&before, &after, &hunks, &cfg(1, 1, false));
    assert_eq!(out, "  a\n- b\n");
}

#[test]
fn line_kinds_are_distinct() {
    assert_ne!(DiffLineKind::Context, DiffLineKind::Delete);
    assert_ne!(DiffLineKind::Delete, DiffLineKind::Insert);
}

#[test]
fn fixed_config_diff_shows_two_context_lines_and_ends() {
    let before = "1\n2\n3\n4\n5\n6\n7\n8\n9\n";
    let after = "1\n2\n3\n4\nX\n6\n7\n8\n9\n";
    assert_eq!(diff_str(before, after), "  1\n  3\n  4\n- 5\n+ X\n  6\n  7\n  9\n");
    assert_eq!(diff_str(before, before), "  1\n  9\n");
}

#[test]
fn empty_texts_diff_cleanly() {
    assert_eq!(diff("", "", &cfg(2, 2, true)), "");
    assert_eq!(diff("", "a\n", &cfg(2, 2, false)), "+ a\n");
    assert_eq!(diff("a\n", "", &cfg(2, 2, false)), "- a\n");
}

#[test]
fn nearby_hunks_share_context_without_duplication() {
    let before = "1\n2\n3\n4\n5\n6\n7\n8\n9\n";
    let after = "1\n2\nX\n4\n5\nY\n7\n8\n9\n";
    let out = diff(before, after, &cfg(2, 2, false));
    assert_eq!(out, "  1\n  2\n- 3\n+ X\n  4\n  5\n- 6\n+ Y\n  7\n  8\n");
}
