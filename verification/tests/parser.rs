use docsearch::search_match::{from_block, parse, ParseErrorKind, SearchMatch};

#[test]
fn convert_string_empty_line_middle() {
    let string = "test_assets/context.pdf-1-Page 1: c\ntest_assets/context.pdf:2:Page 1: Test\ntest_assets/context.pdf-3-Page 1:\ntest_assets/context.pdf-4-Page 1: more text".to_string();
    let sm = from_block(&string).unwrap();
    let expected_sm = SearchMatch::new(
        "test_assets/context.pdf".to_string(),
        1,
        2,
        "Test".to_string(),
        "c\nTest\nmore text".to_string(),
    );
    assert_eq!(expected_sm.context, sm.context);
    assert_eq!(expected_sm, sm);
}

#[test]
fn convert_string() {
    let first_result = "test_assets/context.pdf-1-Page 1: c\ntest_assets/context.pdf:2:Page 1: Test\ntest_assets/context.pdf-3-Page 1: d\ntest_assets/context.pdf-4-Page 1:";
    let sm = from_block(first_result).unwrap();
    let expected_sm = SearchMatch::new(
        "test_assets/context.pdf".to_string(),
        1,
        2,
        "Test".to_string(),
        "c\nTest\nd".to_string(),
    );
    assert_eq!(sm, expected_sm);
}

#[test]
fn string_contains_ascii() {
    let s1 = "hi there";
    let s2 = "höj there";
    let s3 = "öäå";
    assert!(SearchMatch::string_contains_ascii_letters(s1));
    assert!(SearchMatch::string_contains_ascii_letters(s2));
    assert!(!SearchMatch::string_contains_ascii_letters(s3));
}

#[test]
fn round_trip_block() {
    let block = "path/file.pdf-1-Page 1: c\npath/file.pdf:2:Page 1: Test\npath/file.pdf-3-Page 1: d";
    let sm = from_block(block).unwrap();
    assert_eq!(sm.path, "path/file.pdf");
    assert_eq!(sm.page, 1);
    assert_eq!(sm.line, 2);
    assert_eq!(sm.content, "Test");
    assert_eq!(sm.context, "c\nTest\nd");
}

#[test]
fn round_trip_block_blank_after_prefix() {
    let block = "path/file.pdf-1-Page 1: c\npath/file.pdf:2:Page 1: Test\npath/file.pdf-3-Page 1:";
    let sm = from_block(block).unwrap();
    assert_eq!(sm.context, "c\nTest");
}

#[test]
fn annotation_prefix_stripped_from_context() {
    let sm = from_block("dir/doc.pdf:10:Page 3: Alpha beta").unwrap();
    assert_eq!(sm.context, "Alpha beta");
    assert_eq!(sm.page, 3);
    assert_eq!(sm.line, 10);
    assert_eq!(sm.content, "Alpha beta");
}

#[test]
fn letterless_lines_dropped_from_context() {
    let block = "x.pdf-1-Page 1: 12345\nx.pdf-2-Page 1: ●\nx.pdf:3:Page 1: a1\nx.pdf-4-Page 1: keep me";
    let sm = from_block(block).unwrap();
    assert_eq!(sm.content, "a1");
    assert_eq!(sm.context, "a1\nkeep me");
}

#[test]
fn missing_match_line_is_reported() {
    let block = "path/file.pdf-1-Page 1: only context";
    let err = from_block(block).unwrap_err();
    assert_eq!(err.kind, ParseErrorKind::MissingMatchLine);
    assert_eq!(err.block, block);
}

#[test]
fn zero_line_number_is_rejected() {
    let err = from_block("path/file.pdf:0:Page 1: text").unwrap_err();
    assert_eq!(err.kind, ParseErrorKind::BadLineNumber);
}

#[test]
fn huge_line_number_is_rejected() {
    let err = from_block("path/file.pdf:99999999999999999999999:Page 1: text").unwrap_err();
    assert_eq!(err.kind, ParseErrorKind::BadLineNumber);
}

#[test]
fn non_numeric_line_field_is_rejected() {
    let err = from_block("a.pdf:xx:yy b.pdf:1:Page 1: text").unwrap_err();
    assert_eq!(err.kind, ParseErrorKind::BadLineNumber);
}

#[test]
fn zero_page_number_is_rejected() {
    let err = from_block("path/file.pdf:3:Page 0: text").unwrap_err();
    assert_eq!(err.kind, ParseErrorKind::BadPageNumber);
}

#[test]
fn empty_content_is_rejected() {
    let err = from_block("path/file.pdf:3:Page 1:   ").unwrap_err();
    assert_eq!(err.kind, ParseErrorKind::EmptyContent);
}

#[test]
fn parse_splits_blocks_in_order() {
    let raw = "a.pdf-1-Page 1: before\na.pdf:2:Page 1: first hit\n--\nb.pdf:5:Page 2: second hit\n";
    let ms = parse(raw).unwrap();
    assert_eq!(ms.len(), 2);
    assert_eq!(ms[0].path, "a.pdf");
    assert_eq!(ms[0].line, 2);
    assert_eq!(ms[0].content, "first hit");
    assert_eq!(ms[0].context, "before\nfirst hit");
    assert_eq!(ms[1].path, "b.pdf");
    assert_eq!(ms[1].page, 2);
    assert_eq!(ms[1].content, "second hit");
}

#[test]
fn parse_reports_first_bad_block() {
    let raw = "a.pdf:2:Page 1: good\n--\nb.pdf-1-Page 1: no hit here\n--\nc.pdf:9:Page 0: zero page";
    let err = parse(raw).unwrap_err();
    assert_eq!(err.kind, ParseErrorKind::MissingMatchLine);
    assert_eq!(err.block, "b.pdf-1-Page 1: no hit here");
}

#[test]
fn parse_skips_empty_blocks() {
    let raw = "--\na.pdf:1:Page 1: hit\n--\n";
    let ms = parse(raw).unwrap();
    assert_eq!(ms.len(), 1);
    assert_eq!(ms[0].content, "hit");
}

#[test]
fn crlf_lines_are_handled() {
    let block = "a.pdf-1-Page 1: c\r\na.pdf:2:Page 1: Test\r\n";
    let sm = from_block(block).unwrap();
    assert_eq!(sm.line, 2);
    assert_eq!(sm.content, "Test");
    assert_eq!(sm.context, "c\nTest");
}
