use loopback_auth::text::{chars_of, range_is, split_ranges};

#[test]
fn chars_of_keeps_every_character() {
    assert_eq!(chars_of(""), Vec::<char>::new());
    assert_eq!(chars_of("a=\u{e9}&"), vec!['a', '=', '\u{e9}', '&']);
}

#[test]
fn split_marks_every_piece() {
    let chars = chars_of("a&bc&&d");
    assert_eq!(split_ranges(&chars, 0, chars.len(), '&'), vec![(0, 1), (2, 4), (5, 5), (6, 7)]);
}

#[test]
fn split_of_empty_text_is_one_empty_piece() {
    let chars = chars_of("");
    assert_eq!(split_ranges(&chars, 0, 0, '&'), vec![(0, 0)]);
}

#[test]
fn split_keeps_empty_pieces_at_both_ends() {
    let chars = chars_of("&x&");
    assert_eq!(split_ranges(&chars, 0, 3, '&'), vec![(0, 0), (1, 2), (3, 3)]);
}

#[test]
fn split_stays_inside_its_span() {
    let chars = chars_of("k=v&x=y=z&q");
    assert_eq!(split_ranges(&chars, 4, 9, '='), vec![(4, 5), (6, 7), (8, 9)]);
    assert_eq!(split_ranges(&chars, 0, 3, '='), vec![(0, 1), (2, 3)]);
    assert_eq!(split_ranges(&chars, 10, 11, '='), vec![(10, 11)]);
}

#[test]
fn split_counts_characters_not_bytes() {
    let chars = chars_of("\u{e9}\u{e9}=\u{1f600}");
    assert_eq!(split_ranges(&chars, 0, chars.len(), '='), vec![(0, 2), (3, 4)]);
}

#[test]
fn range_is_compares_the_whole_span() {
    let chars = chars_of("user_id=user_idx");
    assert!(range_is(&chars, 0, 7, "user_id"));
    assert!(range_is(&chars, 8, 15, "user_id"));
    assert!(!range_is(&chars, 8, 16, "user_id"));
    assert!(!range_is(&chars, 0, 6, "user_id"));
    assert!(!range_is(&chars, 1, 8, "user_id"));
    assert!(range_is(&chars, 3, 3, ""));
}
