use lobby_core::codes::{
    byte_of_digit, code_of_index, code_to_string, generate_room_id, string_to_code, RoomCode,
    CODE_CHARSET_SIZE, CODE_SPACE_SIZE, ROOM_CODE_LENGTH,
};

fn code(text: &str) -> RoomCode {
    string_to_code(text).expect("valid code")
}

#[test]
fn room_code_length_constant_is_four() {
    assert_eq!(ROOM_CODE_LENGTH, 4);
    assert_eq!(CODE_CHARSET_SIZE, 36);
    assert_eq!(CODE_SPACE_SIZE, 36 * 36 * 36 * 36);
}

#[test]
fn four_character_code_parses() {
    let c = code("AB12");
    assert_eq!((c.b0, c.b1, c.b2, c.b3), (b'A', b'B', b'1', b'2'));
}

#[test]
fn three_character_code_is_rejected() {
    assert!(string_to_code("ABC").is_err());
}

#[test]
fn five_character_code_is_rejected() {
    assert!(string_to_code("ABCDE").is_err());
}

#[test]
fn empty_code_is_rejected() {
    assert!(string_to_code("").is_err());
}

#[test]
fn code_round_trips_through_string() {
    let c = code("XY34");
    let text = code_to_string(&c);
    assert_eq!(text, "XY34");
    assert_eq!(string_to_code(&text).unwrap(), c);
}

#[test]
fn generated_codes_use_the_charset() {
    for _ in 0..100 {
        let c = generate_room_id();
        for b in [c.b0, c.b1, c.b2, c.b3] {
            assert!(b.is_ascii_uppercase() || b.is_ascii_digit());
        }
    }
}

#[test]
fn charset_bytes_cover_letters_then_digits() {
    assert_eq!(byte_of_digit(0), b'A');
    assert_eq!(byte_of_digit(25), b'Z');
    assert_eq!(byte_of_digit(26), b'0');
    assert_eq!(byte_of_digit(35), b'9');
}

#[test]
fn code_enumeration_is_injective_at_the_edges() {
    let first = code_of_index(0);
    let last = code_of_index(CODE_SPACE_SIZE - 1);
    assert_eq!(code_to_string(&first), "AAAA");
    assert_eq!(code_to_string(&last), "9999");
    assert_ne!(first, last);
    assert_ne!(code_of_index(1), code_of_index(36));
}
