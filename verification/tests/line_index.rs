use locale_breeze::LineIndex;

#[test]
fn handles_utf16() {
    let text = "a😀b\nç";
    let index = LineIndex::new(text);
    assert_eq!(index.position(text, "a😀".len()), Some((0, 3)));
    assert_eq!(index.offset(text, 0, 3), Some("a😀".len()));
}

#[test]
fn offsets_inside_of_characters_have_no_position() {
    let text = "a😀b\nç";
    let index = LineIndex::new(text);
    assert_eq!(index.position(text, 2), None);
    assert_eq!(index.position(text, text.len() + 1), None);
    assert_eq!(index.offset(text, 0, 2), None);
    assert_eq!(index.offset(text, 0, 6), None);
    assert_eq!(index.offset(text, 2, 0), None);
}

#[test]
fn every_position_leads_back_to_its_offset() {
    let text = "a😀b\nç\n\nend";
    let index = LineIndex::new(text);
    for (offset, _) in text.char_indices() {
        let (line, column) = index.position(text, offset).unwrap();
        assert_eq!(index.offset(text, line, column), Some(offset));
    }
    let (line, column) = index.position(text, text.len()).unwrap();
    assert_eq!((line, column), (3, 3));
    assert_eq!(index.offset(text, line, column), Some(text.len()));
}
