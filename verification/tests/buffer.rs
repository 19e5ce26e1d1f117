use ito_canvas::unicode_canvas::string_buffer::is_blank;
use ito_canvas::unicode_canvas::string_buffer::StringBuffer;

#[test]
fn empty_buffer_is_empty_text() {
    let buffer = StringBuffer::new();
    assert_eq!(buffer.len(), 0);
    assert_eq!(buffer.to_string(), "");
}

#[test]
fn buffer_grows_to_the_character() {
    let mut buffer = StringBuffer::new();
    buffer.add_char(2, 1, 'x');
    assert_eq!(buffer.len(), 2);
    assert_eq!(buffer.to_string(), "\n  x");
    buffer.add_char(0, 3, 'y');
    assert_eq!(buffer.len(), 4);
    assert_eq!(buffer.to_string(), "\n  x\n\ny");
}

#[test]
fn buffer_puts_a_character_over_another() {
    let mut buffer = StringBuffer::new();
    buffer.add_char(0, 0, 'a');
    buffer.add_char(1, 0, 'b');
    buffer.add_char(2, 0, 'c');
    buffer.add_char(1, 0, 'B');
    assert_eq!(buffer.to_string(), "aBc");
    assert_eq!(buffer.len(), 1);
}

#[test]
fn buffer_leaves_out_negative_positions() {
    let mut buffer = StringBuffer::new();
    buffer.add_char(-1, 0, 'a');
    buffer.add_char(0, -1, 'b');
    buffer.add_char(-1, -1, 'c');
    buffer.add_char(i32::MIN, i32::MIN, 'd');
    assert_eq!(buffer.len(), 0);
    assert_eq!(buffer.to_string(), "");
}

#[test]
fn buffer_text_has_no_white_space_at_the_end_of_a_row() {
    let mut buffer = StringBuffer::new();
    buffer.add_char(1, 0, 'a');
    buffer.add_char(4, 0, ' ');
    buffer.add_char(0, 1, ' ');
    buffer.add_char(0, 2, 'b');
    buffer.add_char(1, 2, '\u{3000}');
    buffer.add_char(2, 2, '\t');
    assert_eq!(buffer.to_string(), " a\n\nb");
}

#[test]
fn buffer_text_has_no_null_characters() {
    let mut buffer = StringBuffer::new();
    buffer.add_char(0, 0, 'a');
    buffer.add_char(1, 0, '\0');
    buffer.add_char(2, 0, 'b');
    buffer.add_char(3, 0, ' ');
    buffer.add_char(4, 0, '\0');
    assert_eq!(buffer.to_string(), "ab");
}

#[test]
fn buffer_rows_and_columns() {
    let mut buffer = StringBuffer::new();
    buffer.add_rows(0);
    assert_eq!(buffer.len(), 0);
    buffer.add_rows(3);
    assert_eq!(buffer.len(), 3);
    assert_eq!(buffer.to_string(), "\n\n");
    buffer.add_column(1, 0);
    buffer.add_column(1, 4);
    assert_eq!(buffer.to_string(), "\n\n");
    buffer.add_char(4, 1, 'z');
    assert_eq!(buffer.to_string(), "\n    z\n");
    buffer.add_char(3, 1, 'y');
    assert_eq!(buffer.to_string(), "\n   yz\n");
}

#[test]
fn white_space_is_what_the_standard_library_says() {
    for code in 0..=0x10ffffu32 {
        if let Some(c) = char::from_u32(code) {
            assert_eq!(is_blank(c), c.is_whitespace(), "U+{:04X}", code);
        }
    }
}
