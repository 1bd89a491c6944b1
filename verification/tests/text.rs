use iced_accessibility::text::{
    byte_to_char_index, char_byte_lengths, grapheme_index_to_position, line_col_byte_offset, secure_text,
    checked_text_with_preedit, fits_preedit, text_with_preedit, word_start_indices, Position, Preedit,
};

#[test]
fn byte_offsets_map_to_character_indices() {
    let lengths = [1u8, 2, 1];
    assert_eq!(byte_to_char_index(&lengths, 0), 0);
    assert_eq!(byte_to_char_index(&lengths, 1), 1);
    assert_eq!(byte_to_char_index(&lengths, 2), 2);
    assert_eq!(byte_to_char_index(&lengths, 3), 2);
    assert_eq!(byte_to_char_index(&lengths, 4), 3);
    assert_eq!(byte_to_char_index(&[], 5), 0);
}

#[test]
fn character_starts_give_back_their_index() {
    let lengths = [3u8, 1, 4, 2];
    let mut offset = 0usize;
    for (k, len) in lengths.iter().enumerate() {
        assert_eq!(byte_to_char_index(&lengths, offset), k);
        offset += *len as usize;
    }
    assert_eq!(byte_to_char_index(&lengths, offset), lengths.len());
}

#[test]
fn grapheme_clusters_have_byte_lengths() {
    assert_eq!(char_byte_lengths("héllo"), vec![1, 2, 1, 1, 1]);
    assert_eq!(char_byte_lengths("e\u{301}x"), vec![3, 1]);
    assert_eq!(char_byte_lengths("a\r\nb"), vec![1, 2, 1]);
    assert_eq!(char_byte_lengths(""), Vec::<u8>::new());
}

#[test]
fn long_cluster_length_is_truncated_to_a_byte() {
    let mut text = String::from("a");
    for _ in 0..200 {
        text.push('\u{301}');
    }
    // One cluster of 1 + 200 * 2 bytes.
    assert_eq!(char_byte_lengths(&text), vec![(401usize % 256) as u8]);
}

#[test]
fn secure_text_has_one_bullet_per_cluster() {
    assert_eq!(secure_text("ab"), "••");
    assert_eq!(secure_text("e\u{301}"), "•");
    assert_eq!(secure_text(""), "");
}

#[test]
fn words_start_after_non_word_clusters() {
    assert_eq!(word_start_indices("hello, world"), vec![0, 7]);
    assert_eq!(word_start_indices("  hi there"), vec![2, 5]);
    assert_eq!(word_start_indices("a-b"), vec![0, 2]);
    assert_eq!(word_start_indices("--"), Vec::<u8>::new());
}

#[test]
fn line_and_index_give_byte_offsets() {
    assert_eq!(line_col_byte_offset("ab\ncd", 0, 1), 1);
    assert_eq!(line_col_byte_offset("ab\ncd", 1, 1), 4);
    assert_eq!(line_col_byte_offset("ab\ncd", 5, 0), 5);
    assert_eq!(line_col_byte_offset("ab\ncd", 0, 9), 5);
    assert_eq!(line_col_byte_offset("ab\r\ncd", 1, 0), 3);
    assert_eq!(line_col_byte_offset("", 0, 0), 0);
}

#[test]
fn grapheme_indices_give_positions() {
    assert_eq!(grapheme_index_to_position("ab\ncd", 4), Position { line: 1, index: 1 });
    assert_eq!(grapheme_index_to_position("ab\ncd", 2), Position { line: 0, index: 2 });
    assert_eq!(grapheme_index_to_position("ab\ncd", 3), Position { line: 1, index: 0 });
    assert_eq!(grapheme_index_to_position("ab\ncd", 99), Position { line: 1, index: 2 });
    assert_eq!(grapheme_index_to_position("a\r\nb", 2), Position { line: 1, index: 0 });
    assert_eq!(grapheme_index_to_position("a\n", 2), Position { line: 1, index: 0 });
    assert_eq!(grapheme_index_to_position("", 3), Position { line: 0, index: 0 });
}

#[test]
fn positions_round_trip_without_carriage_returns() {
    let text = "one\ntwo words\n\nend";
    let clusters = char_byte_lengths(text).len();
    for k in 0..=clusters {
        let p = grapheme_index_to_position(text, k);
        let offset = line_col_byte_offset(text, p.line, p.index);
        assert_eq!(byte_to_char_index(&char_byte_lengths(text), offset), k);
    }
}

#[test]
fn preedit_is_inserted_at_the_selection_start() {
    let preedit = Preedit { content: String::from("b"), selection: None };
    assert_eq!(text_with_preedit(String::from("ac"), Some(&preedit), 1, 1), (String::from("abc"), 2, 2));

    let preedit = Preedit { content: String::from("xy"), selection: Some(0..1) };
    assert_eq!(text_with_preedit(String::from("ab"), Some(&preedit), 2, 0), (String::from("xyab"), 0, 1));
}

#[test]
fn preedit_is_ignored_when_empty_or_absent() {
    let empty = Preedit { content: String::new(), selection: None };
    assert_eq!(text_with_preedit(String::from("ab"), Some(&empty), 1, 2), (String::from("ab"), 1, 2));
    assert_eq!(text_with_preedit(String::from("ab"), None, 2, 1), (String::from("ab"), 2, 1));
}

/// A single grapheme cluster of 301 bytes: a letter with a hundred
/// three-byte combining marks.
fn long_cluster() -> String {
    let mut text = String::from("e");
    for _ in 0..100 {
        text.push('\u{20D0}');
    }
    text
}

#[test]
fn checked_preedit_inserts_when_it_fits() {
    let preedit = Preedit { content: String::from("b"), selection: None };
    assert!(fits_preedit("ac", Some(&preedit), 1, 1));
    assert_eq!(checked_text_with_preedit(String::from("ac"), Some(&preedit), 1, 1), Some((String::from("abc"), 2, 2)));
    assert_eq!(checked_text_with_preedit(String::from("ac"), None, 1, 0), Some((String::from("ac"), 1, 0)));
}

#[test]
fn checked_preedit_refuses_a_split_character() {
    let text = long_cluster();
    assert_eq!(grapheme_index_to_position(&text, 1), Position { line: 0, index: 301 });
    let preedit = Preedit { content: String::from("x"), selection: None };
    assert!(!fits_preedit(&text, Some(&preedit), 1, 1));
    assert_eq!(checked_text_with_preedit(text, Some(&preedit), 1, 1), None);
    let empty = Preedit { content: String::new(), selection: None };
    assert!(fits_preedit(&long_cluster(), Some(&empty), 1, 1));
}
