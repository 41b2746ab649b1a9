use kerf::source_map::SourceMap;

#[test]
fn line_col_basic() {
    let mut sm = SourceMap::new();
    let id = sm.add_file("t.krf", "(define x 1)\n(print x)\n");
    let f = sm.file(id).unwrap();
    assert_eq!(f.line_col(0), (1, 1));
    assert_eq!(f.line_col(1), (1, 2));
    assert_eq!(f.line_col(12), (1, 13));
    assert_eq!(f.line_col(13), (2, 1));
    assert_eq!(f.line_col(14), (2, 2));
}

#[test]
fn line_col_utf8() {
    let mut sm = SourceMap::new();
    let id = sm.add_file("t.krf", "(+ \"你好\" 1)");
    let f = sm.file(id).unwrap();
    assert_eq!(f.line_col(4), (1, 5));
    assert_eq!(f.line_col(7), (1, 6));
}

#[test]
fn render_location_and_excerpt() {
    let mut sm = SourceMap::new();
    let id = sm.add_file("t.krf", "(define x 1)\n");
    let loc = sm.render_location(id, 9, 0);
    assert_eq!(loc, "t.krf:1:10");
    let exp = sm.excerpt(id, 9);
    assert!(exp.contains("(define x 1)"));
    assert!(exp.contains('^'));
}

#[test]
fn unknown_file_is_explicit() {
    let sm = SourceMap::new();
    assert_eq!(sm.render_location(7, 0, 0), "<unknown file 7>");
}

#[test]
fn excerpt_exact_shape() {
    let mut sm = SourceMap::new();
    let id = sm.add_file("t.krf", "(a)\r\n  (bc)\n");
    assert_eq!(sm.excerpt(id, 7), "   2 |   (bc)\n     |   ^");
    assert_eq!(sm.excerpt(id, 0), "   1 | (a)\n     | ^");
    assert_eq!(sm.excerpt(9, 0), "");
}

#[test]
fn location_with_expansion_and_past_end() {
    let mut sm = SourceMap::new();
    let id = sm.add_file("m.krf", "x\ny");
    assert_eq!(sm.render_location(id, 2, 3), "m.krf:2:1 (expansion 3)");
    assert_eq!(sm.render_location(id, 100, 0), "m.krf:2:2");
}

#[test]
fn line_text_and_starts() {
    let mut sm = SourceMap::new();
    let id = sm.add_file("t.krf", "ab\n\ncd");
    let f = sm.file(id).unwrap();
    assert_eq!(f.line_starts, vec![0, 3, 4]);
    assert_eq!(f.line_text(1), "ab");
    assert_eq!(f.line_text(2), "");
    assert_eq!(f.line_text(3), "cd");
    assert_eq!(f.line_text(4), "");
    assert_eq!(f.line_text(0), "ab");
    assert_eq!(sm.len(), 1);
    assert!(!sm.is_empty());
}
