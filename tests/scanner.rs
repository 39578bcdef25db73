use h5sh::scanner::Scanner;
use h5sh::text_index::TextIndex;

#[test]
fn scanner_eat_any() {
    let src = "2y̆Å";
    let mut scanner = Scanner::new(src);
    assert_eq!(scanner.current(), '2');
    assert_eq!(scanner.current_index(), TextIndex::from(0));

    assert_eq!(scanner.eat(), 'y');
    assert_eq!(scanner.current(), 'y');
    assert_eq!(scanner.current_index(), TextIndex::from(1));

    assert_eq!(scanner.eat(), '\u{0306}');
    assert_eq!(scanner.current(), '\u{0306}');
    assert_eq!(scanner.current_index(), TextIndex::from(2));

    assert_eq!(scanner.eat(), 'Å');
    assert_eq!(scanner.current(), 'Å');
    assert_eq!(scanner.current_index(), TextIndex::from(4));

    assert_eq!(scanner.eat(), '\0');
    assert_eq!(scanner.current(), '\0');
    assert_eq!(scanner.current_index(), TextIndex::from(6));

    assert_eq!(scanner.eat(), '\0');
    assert_eq!(scanner.current(), '\0');
    assert_eq!(scanner.current_index(), TextIndex::from(7));
}

#[test]
fn scanner_empty_line_is_finished() {
    let scanner = Scanner::new("");
    assert!(scanner.is_finished());
    assert_eq!(scanner.current(), '\0');
    assert_eq!(scanner.current_index().as_index(), 0);
}

#[test]
fn whitespace_matches_std_for_every_char() {
    for c in (0u32..=0x10FFFF).filter_map(char::from_u32) {
        assert_eq!(h5sh::text::is_whitespace(c), c.is_whitespace(), "{:?}", c);
        assert_eq!(h5sh::text::width_of(c), c.len_utf8(), "{:?}", c);
    }
}

#[test]
fn text_index_offset_adds() {
    let mut index = TextIndex::from(3);
    index.offset(TextIndex::from_utf8_len('é'));
    assert_eq!(index.as_index(), 5);
}
