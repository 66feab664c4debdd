use mecalin::typing_row::{TypingEvent, TypingRow};

#[test]
fn test_char_pos_to_byte_index_ascii() {
    let text = "hello";
    assert_eq!(TypingRow::char_pos_to_byte_index(text, 0), 0);
    assert_eq!(TypingRow::char_pos_to_byte_index(text, 2), 2);
    assert_eq!(TypingRow::char_pos_to_byte_index(text, 5), 5);
    assert_eq!(TypingRow::char_pos_to_byte_index(text, 10), 5); // Beyond end
}

#[test]
fn test_char_pos_to_byte_index_multibyte() {
    let text = "añ";
    assert_eq!(TypingRow::char_pos_to_byte_index(text, 0), 0); // 'a' at byte 0
    assert_eq!(TypingRow::char_pos_to_byte_index(text, 1), 1); // 'ñ' at byte 1
    assert_eq!(TypingRow::char_pos_to_byte_index(text, 2), 3); // End (ñ is 2 bytes)
}

#[test]
fn test_char_pos_to_byte_index_mixed() {
    let text = "hola ñ mundo";
    assert_eq!(TypingRow::char_pos_to_byte_index(text, 0), 0); // 'h'
    assert_eq!(TypingRow::char_pos_to_byte_index(text, 5), 5); // 'ñ'
    assert_eq!(TypingRow::char_pos_to_byte_index(text, 6), 7); // ' ' after ñ
}

#[test]
fn test_char_pos_to_byte_index_empty() {
    let text = "";
    assert_eq!(TypingRow::char_pos_to_byte_index(text, 0), 0);
    assert_eq!(TypingRow::char_pos_to_byte_index(text, 5), 0);
}

#[test]
fn char_pos_to_byte_index_wide_characters() {
    let text = "a€😀b";
    assert_eq!(TypingRow::char_pos_to_byte_index(text, 1), 1);
    assert_eq!(TypingRow::char_pos_to_byte_index(text, 2), 4);
    assert_eq!(TypingRow::char_pos_to_byte_index(text, 3), 8);
    assert_eq!(TypingRow::char_pos_to_byte_index(text, 4), 9);
    assert_eq!(TypingRow::char_pos_to_byte_index(text, 4), text.len());
}

fn row_with(target: &str) -> TypingRow {
    let mut row = TypingRow::new();
    row.set_target_text(target);
    row
}

#[test]
fn new_row_is_empty() {
    let row = TypingRow::new();
    assert_eq!(row.target_text, "");
    assert_eq!(row.cursor_position, 0);
}

#[test]
fn set_target_text_moves_cursor_home() {
    let mut row = row_with("abc");
    row.validate_input("ab");
    assert_eq!(row.cursor_position, 2);
    row.set_target_text("xyz");
    assert_eq!(row.target_text, "xyz");
    assert_eq!(row.cursor_position, 0);
}

#[test]
fn valid_input_announces_next_char() {
    let mut row = row_with("hola mundo");
    let e = row.validate_input("hola m");
    assert!(matches!(e, TypingEvent::NextChar('u')));
    assert_eq!(row.cursor_position, 6);
}

#[test]
fn empty_input_announces_first_char() {
    let mut row = row_with("ñu");
    let e = row.validate_input("");
    assert!(matches!(e, TypingEvent::NextChar('ñ')));
    assert_eq!(row.cursor_position, 0);
}

#[test]
fn cursor_counts_characters_not_bytes() {
    let mut row = row_with("añb");
    let e = row.validate_input("añ");
    assert!(matches!(e, TypingEvent::NextChar('b')));
    assert_eq!(row.cursor_position, 2);
}

#[test]
fn whole_target_completes_step() {
    let mut row = row_with("hola mundo");
    let e = row.validate_input("hola mundo");
    assert!(matches!(e, TypingEvent::StepCompleted));
    assert_eq!(row.cursor_position, 10);
}

#[test]
fn empty_target_never_completes() {
    let mut row = TypingRow::new();
    let e = row.validate_input("");
    assert!(matches!(e, TypingEvent::NoNextChar));
    assert_eq!(row.cursor_position, 0);
}

#[test]
fn mistake_goes_back_to_word_start() {
    let mut row = row_with("hola mundo");
    row.validate_input("hola m");
    match row.validate_input("hola mx") {
        TypingEvent::Mistake { corrected, at_beginning } => {
            assert_eq!(corrected, "hola ");
            assert!(!at_beginning);
        }
        _ => panic!("expected a mistake"),
    }
    // the cursor stays where the last valid input left it
    assert_eq!(row.cursor_position, 6);
}

#[test]
fn mistake_in_first_word_goes_to_beginning() {
    let mut row = row_with("hola mundo");
    match row.validate_input("hx") {
        TypingEvent::Mistake { corrected, at_beginning } => {
            assert_eq!(corrected, "");
            assert!(at_beginning);
        }
        _ => panic!("expected a mistake"),
    }
}

#[test]
fn mistake_right_after_space_keeps_words() {
    let mut row = row_with("uno dos tres");
    match row.validate_input("uno dos x") {
        TypingEvent::Mistake { corrected, at_beginning } => {
            assert_eq!(corrected, "uno dos ");
            assert!(!at_beginning);
        }
        _ => panic!("expected a mistake"),
    }
}

#[test]
fn mistake_with_multibyte_text() {
    let mut row = row_with("año nuevo");
    match row.validate_input("año ñ") {
        TypingEvent::Mistake { corrected, at_beginning } => {
            assert_eq!(corrected, "año ");
            assert!(!at_beginning);
        }
        _ => panic!("expected a mistake"),
    }
}

#[test]
fn input_longer_than_target_is_a_mistake() {
    let mut row = row_with("ab");
    match row.validate_input("ab ") {
        TypingEvent::Mistake { corrected, at_beginning } => {
            assert_eq!(corrected, "");
            assert!(at_beginning);
        }
        _ => panic!("expected a mistake"),
    }
}

#[test]
fn locked_cursor_is_at_end_of_input() {
    assert_eq!(TypingRow::locked_cursor_position(""), 0);
    assert_eq!(TypingRow::locked_cursor_position("abc"), 3);
    assert_eq!(TypingRow::locked_cursor_position("añ"), 2);
}

#[test]
fn locked_cursor_does_not_wrap() {
    let long = "x".repeat(70000);
    assert_eq!(TypingRow::locked_cursor_position(&long), 70000);
}

#[test]
fn cursor_correction_only_when_misplaced() {
    assert_eq!(TypingRow::cursor_correction("añ", 2), None);
    assert_eq!(TypingRow::cursor_correction("añ", 3), Some(2));
    assert_eq!(TypingRow::cursor_correction("añ", 1), Some(2));
    assert_eq!(TypingRow::cursor_correction("", 2), Some(0));
}

#[test]
fn dead_key_is_single_character_preedit() {
    assert!(TypingRow::starts_dead_key("'"));
    assert!(TypingRow::starts_dead_key("`"));
    assert!(TypingRow::starts_dead_key("´"));
    assert!(TypingRow::starts_dead_key("¨"));
    assert!(!TypingRow::starts_dead_key(""));
    assert!(!TypingRow::starts_dead_key("ab"));
    assert!(!TypingRow::starts_dead_key("´a"));
}
