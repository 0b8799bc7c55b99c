use weavr::porcelain::{parse_porcelain_v1, unescape_bytes, unquote_path, ConflictType};

#[test]
fn parse_empty_output() {
    let entries = parse_porcelain_v1("");
    assert!(entries.is_empty());
}

#[test]
fn parse_no_conflicts() {
    let output = " M src/modified.rs\n?? untracked.txt\nA  staged.rs\n";
    let entries = parse_porcelain_v1(output);
    assert!(entries.is_empty());
}

#[test]
fn parse_uu_conflict() {
    let output = "UU src/conflict.rs\n";
    let entries = parse_porcelain_v1(output);
    assert_eq!(entries.len(), 1);
    assert_eq!(entries[0].path, "src/conflict.rs");
    assert_eq!(entries[0].conflict_type, ConflictType::BothModified);
}

#[test]
fn parse_aa_conflict() {
    let output = "AA both_added.rs\n";
    let entries = parse_porcelain_v1(output);
    assert_eq!(entries.len(), 1);
    assert_eq!(entries[0].conflict_type, ConflictType::BothAdded);
}

#[test]
fn parse_dd_conflict() {
    let output = "DD both_deleted.rs\n";
    let entries = parse_porcelain_v1(output);
    assert_eq!(entries.len(), 1);
    assert_eq!(entries[0].conflict_type, ConflictType::BothDeleted);
}

#[test]
fn parse_au_conflict() {
    let output = "AU added_by_us.rs\n";
    let entries = parse_porcelain_v1(output);
    assert_eq!(entries.len(), 1);
    assert_eq!(
        entries[0].conflict_type,
        ConflictType::AddedByUsDeletedByThem
    );
}

#[test]
fn parse_ua_conflict() {
    let output = "UA added_by_them.rs\n";
    let entries = parse_porcelain_v1(output);
    assert_eq!(entries.len(), 1);
    assert_eq!(
        entries[0].conflict_type,
        ConflictType::AddedByThemDeletedByUs
    );
}

#[test]
fn parse_multiple_conflicts() {
    let output = "UU file1.rs\nAA file2.rs\nDD file3.rs\n M normal.rs\n";
    let entries = parse_porcelain_v1(output);
    assert_eq!(entries.len(), 3);
    assert_eq!(entries[0].path, "file1.rs");
    assert_eq!(entries[1].path, "file2.rs");
    assert_eq!(entries[2].path, "file3.rs");
}

#[test]
fn parse_path_with_spaces() {
    let output = "UU path with spaces/file.rs\n";
    let entries = parse_porcelain_v1(output);
    assert_eq!(entries[0].path, "path with spaces/file.rs");
}

#[test]
fn parse_mixed_with_non_conflicts() {
    let output = " M modified.rs\nUU conflict.rs\n?? untracked.rs\n";
    let entries = parse_porcelain_v1(output);
    assert_eq!(entries.len(), 1);
    assert_eq!(entries[0].path, "conflict.rs");
}

#[test]
fn parse_short_line_ignored() {
    let output = "UU\n";
    let entries = parse_porcelain_v1(output);
    assert!(entries.is_empty());
}

#[test]
fn parse_nested_path() {
    let output = "UU src/deep/nested/file.rs\n";
    let entries = parse_porcelain_v1(output);
    assert_eq!(entries[0].path, "src/deep/nested/file.rs");
}

#[test]
fn unquote_simple_path() {
    assert_eq!(unquote_path("simple.rs"), "simple.rs");
}

#[test]
fn unquote_quoted_path_with_spaces() {
    assert_eq!(
        unquote_path("\"path with spaces.rs\""),
        "path with spaces.rs"
    );
}

#[test]
fn unquote_escaped_quotes() {
    assert_eq!(unquote_path("\"file\\\"name\\\".rs\""), "file\"name\".rs");
}

#[test]
fn unquote_escaped_backslash() {
    assert_eq!(unquote_path("\"path\\\\file.rs\""), "path\\file.rs");
}

#[test]
fn unquote_escaped_newline() {
    assert_eq!(unquote_path("\"file\\nname.rs\""), "file\nname.rs");
}

#[test]
fn unquote_escaped_tab() {
    assert_eq!(unquote_path("\"file\\tname.rs\""), "file\tname.rs");
}

#[test]
fn unquote_octal_escape() {
    // \101 is octal for 'A' (65 decimal)
    assert_eq!(unquote_path("\"\\101.rs\""), "A.rs");
}

#[test]
fn parse_quoted_conflict() {
    let output = "UU \"file with \\\"quotes\\\".rs\"\n";
    let entries = parse_porcelain_v1(output);
    assert_eq!(entries.len(), 1);
    assert_eq!(entries[0].path, "file with \"quotes\".rs");
}

#[test]
fn parse_status_codes_ud_and_du() {
    let entries = parse_porcelain_v1("UD a.rs\nDU b.rs\n");
    assert_eq!(entries.len(), 2);
    assert_eq!(entries[0].conflict_type, ConflictType::AddedByUsDeletedByThem);
    assert_eq!(entries[1].conflict_type, ConflictType::AddedByThemDeletedByUs);
}

#[test]
fn parse_crlf_and_missing_final_newline() {
    let entries = parse_porcelain_v1("UU a.rs\r\nAA b.rs");
    assert_eq!(entries.len(), 2);
    assert_eq!(entries[0].path, "a.rs");
    assert_eq!(entries[1].path, "b.rs");
}

#[test]
fn unquote_unknown_escape_and_bad_octal() {
    assert_eq!(unquote_path("\"a\\qb\""), "a\\qb");
    assert_eq!(unquote_path("\"a\\9b\""), "ab");
    assert_eq!(unquote_path("\"a\\777b\""), "ab");
    assert_eq!(unquote_path("\"a\\\""), "a\\");
}

#[test]
fn unquote_missing_closing_quote_keeps_opening_one() {
    assert_eq!(unquote_path("\"abc"), "\"abc");
}

#[test]
fn unquote_octal_utf8_sequence_is_one_char() {
    assert_eq!(unquote_path("\"\\302\\240\""), "\u{a0}");
    assert_eq!(unquote_path("\"caf\\303\\251.rs\""), "caf\u{e9}.rs");
}

#[test]
fn unquote_invalid_utf8_becomes_replacement_char() {
    assert_eq!(unquote_path("\"a\\377b\""), "a\u{fffd}b");
}

#[test]
fn unquote_raw_non_ascii_in_quotes() {
    assert_eq!(unquote_path("\"\u{e9} x.rs\""), "\u{e9} x.rs");
    assert_eq!(unquote_path("\u{e9}.rs"), "\u{e9}.rs");
}

#[test]
fn unescape_bytes_keeps_octal_as_raw_bytes() {
    let b = b"x\\302\\240\\n\\q".to_vec();
    assert_eq!(unescape_bytes(&b), vec![b'x', 0xc2, 0xa0, b'\n', b'\\', b'q']);
}

#[test]
fn parse_octal_quoted_conflict() {
    let entries = parse_porcelain_v1("UU \"\\302\\240.rs\"\n");
    assert_eq!(entries.len(), 1);
    assert_eq!(entries[0].path, "\u{a0}.rs");
}
