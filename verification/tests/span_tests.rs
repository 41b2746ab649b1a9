use kerf::span::Span;

#[test]
fn span_merge_union() {
    let a = Span::new(0, 5, 10);
    let b = Span::new(0, 8, 20);
    assert_eq!(a.merge(b), Span::new(0, 5, 20));
    assert_eq!(b.merge(a), Span::new(0, 5, 20));
}

#[test]
fn span_merge_different_files_falls_back() {
    let a = Span::new(0, 5, 10);
    let b = Span::new(1, 0, 3);
    assert_eq!(a.merge(b), a);
}

#[test]
fn span_expansion_bump() {
    let a = Span::new(0, 1, 2);
    assert_eq!(a.bumped_expansion().expansion_id, 1);
    assert_eq!(a.bumped_expansion().bumped_expansion().expansion_id, 2);
}

#[test]
fn span_contains_and_len() {
    let a = Span::new(0, 10, 20);
    assert!(a.contains(10) && a.contains(19));
    assert!(!a.contains(20) && !a.contains(9));
    assert_eq!(a.len(), 10);
    assert!(!a.is_empty());
    assert!(Span::dummy().is_empty());
}

#[test]
fn span_merge_different_generation_falls_back() {
    let a = Span::new(0, 5, 10);
    let b = Span::new(0, 1, 30).bumped_expansion();
    assert_eq!(a.merge(b), a);
}

#[test]
fn span_bump_saturates() {
    let mut a = Span::new(0, 1, 2);
    a.expansion_id = u32::MAX;
    assert_eq!(a.bumped_expansion().expansion_id, u32::MAX);
}

#[test]
fn span_len_of_reversed_is_zero() {
    let a = Span::new(0, 9, 3);
    assert_eq!(a.len(), 0);
    assert!(a.is_empty());
    assert!(!a.contains(5));
}

#[test]
fn span_merge_is_associative_on_one_file() {
    let a = Span::new(2, 5, 10);
    let b = Span::new(2, 1, 4);
    let c = Span::new(2, 12, 15);
    assert_eq!(a.merge(b).merge(c), a.merge(b.merge(c)));
    assert_eq!(a.merge(b).merge(c), Span::new(2, 1, 15));
}

#[test]
fn span_default_is_dummy() {
    assert_eq!(Span::default(), Span::dummy());
}

#[test]
fn span_text_shape() {
    assert_eq!(Span::new(2, 5, 9).to_text(), "Span(file 2, 5..9)");
    assert_eq!(Span::new(0, 1, 3).bumped_expansion().to_text(), "Span(file 0, 1..3, exp 1)");
}
