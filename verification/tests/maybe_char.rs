use retex_lex::maybe_char::{MaybeChar, MaybeCharEnumView};
use std::collections::HashMap;

#[test]
fn test_maybe_char_from_ascii() {
    let maybe_char = MaybeChar::from_char('A');
    assert!(maybe_char.is_char());
    assert!(!maybe_char.is_non_char_byte());
    assert_eq!(maybe_char.as_char(), Some('A'));

    match maybe_char.enum_view() {
        MaybeCharEnumView::Char(c) => assert_eq!(c, 'A'),
        _ => panic!("Expected Char variant"),
    }
}

#[test]
fn test_maybe_char_from_non_char_byte() {
    let maybe_char = MaybeChar::from_non_char_byte(0xFF);
    assert!(!maybe_char.is_char());
    assert!(maybe_char.is_non_char_byte());
    assert_eq!(maybe_char.as_char(), None);

    match maybe_char.enum_view() {
        MaybeCharEnumView::NonCharByte(b) => assert_eq!(b, 0xFF),
        _ => panic!("Expected NonCharByte variant"),
    }
}

#[test]
fn test_maybe_char_unicode_chars() {
    let chars = ['€', '🚀', 'α', '中', '\0', '\u{10FFFF}'];

    for &c in &chars {
        let maybe_char = MaybeChar::from_char(c);
        assert!(maybe_char.is_char());
        assert!(!maybe_char.is_non_char_byte());
        assert_eq!(maybe_char.as_char(), Some(c));

        match maybe_char.enum_view() {
            MaybeCharEnumView::Char(decoded) => assert_eq!(decoded, c),
            _ => panic!("Expected Char variant for {}", c),
        }
    }
}

#[test]
fn test_maybe_char_byte_values() {
    for byte in 0..=255u8 {
        let maybe_char = MaybeChar::from_non_char_byte(byte);
        assert!(!maybe_char.is_char());
        assert!(maybe_char.is_non_char_byte());
        assert_eq!(maybe_char.as_char(), None);

        match maybe_char.enum_view() {
            MaybeCharEnumView::NonCharByte(b) => assert_eq!(b, byte),
            _ => panic!("Expected NonCharByte variant for byte {}", byte),
        }
    }
}

#[test]
fn test_maybe_char_equality() {
    let char_a1 = MaybeChar::from_char('A');
    let char_a2 = MaybeChar::from_char('A');
    let char_b = MaybeChar::from_char('B');
    let byte_65 = MaybeChar::from_non_char_byte(65); // ASCII 'A'
    let byte_65_2 = MaybeChar::from_non_char_byte(65);
    let byte_66 = MaybeChar::from_non_char_byte(66); // ASCII 'B'

    // Test char equality
    assert_eq!(char_a1, char_a2);
    assert_ne!(char_a1, char_b);

    // Test byte equality
    assert_eq!(byte_65, byte_65_2);
    assert_ne!(byte_65, byte_66);

    // Test char vs byte inequality (even with same ASCII value)
    assert_ne!(char_a1, byte_65);
}

#[test]
fn test_maybe_char_hash() {

    let mut map = HashMap::new();

    let char_a = MaybeChar::from_char('A');
    let byte_65 = MaybeChar::from_non_char_byte(65);

    map.insert(char_a, "char A");
    map.insert(byte_65, "byte 65");

    // Both should be stored as different keys
    assert_eq!(map.len(), 2);
    assert_eq!(map.get(&char_a), Some(&"char A"));
    assert_eq!(map.get(&byte_65), Some(&"byte 65"));
}

#[test]
fn test_maybe_char_debug_format() {
    let char_a = MaybeChar::from_char('A');
    let byte_65 = MaybeChar::from_non_char_byte(65);

    let char_debug = format!("{:?}", char_a);
    let byte_debug = format!("{:?}", byte_65);

    assert!(char_debug.contains("Char('A')"));
    assert!(byte_debug.contains("NonCharByte(65)"));
}

#[test]
fn test_maybe_char_enum_view_equality() {
    let char_view = MaybeCharEnumView::Char('X');
    let byte_view = MaybeCharEnumView::NonCharByte(88);

    assert_eq!(char_view, MaybeCharEnumView::Char('X'));
    assert_eq!(byte_view, MaybeCharEnumView::NonCharByte(88));
    assert_ne!(char_view, byte_view);
}

#[test]
fn test_maybe_char_copy_clone() {
    let original = MaybeChar::from_char('Z');
    let copied = original;
    let cloned = original.clone();

    assert_eq!(original, copied);
    assert_eq!(original, cloned);
    assert_eq!(copied, cloned);

    assert!(original.is_char());
    assert!(copied.is_char());
    assert!(cloned.is_char());
}

#[test]
fn test_maybe_char_as_char_method() {
    // Test char variant
    let char_variant = MaybeChar::from_char('🎉');
    assert_eq!(char_variant.as_char(), Some('🎉'));

    // Test byte variant
    let byte_variant = MaybeChar::from_non_char_byte(0x80);
    assert_eq!(byte_variant.as_char(), None);
}

#[test]
fn test_maybe_char_boundary_values() {
    // Test boundary Unicode values
    let min_char = MaybeChar::from_char('\0');
    let max_char = MaybeChar::from_char('\u{10FFFF}');

    assert!(min_char.is_char());
    assert!(max_char.is_char());
    assert_eq!(min_char.as_char(), Some('\0'));
    assert_eq!(max_char.as_char(), Some('\u{10FFFF}'));

    // Test boundary byte values
    let min_byte = MaybeChar::from_non_char_byte(0);
    let max_byte = MaybeChar::from_non_char_byte(255);

    assert!(min_byte.is_non_char_byte());
    assert!(max_byte.is_non_char_byte());

    match min_byte.enum_view() {
        MaybeCharEnumView::NonCharByte(b) => assert_eq!(b, 0),
        _ => panic!("Expected NonCharByte"),
    }

    match max_byte.enum_view() {
        MaybeCharEnumView::NonCharByte(b) => assert_eq!(b, 255),
        _ => panic!("Expected NonCharByte"),
    }
}

#[test]
fn test_maybe_char_internal_representation() {
    // Test that the packed form is as expected
    let char_a = MaybeChar::from_char('A');
    let byte_65 = MaybeChar::from_non_char_byte(65);

    // Char 'A' should have value 65 (ASCII) without the tag
    assert_eq!(char_a.raw(), 65);

    // Byte 65 should have the tag bit set
    assert_eq!(byte_65.raw(), MaybeChar::NON_CHAR_BYTE_TAG | 65);

    // Verify the tag is properly set/unset
    assert_eq!(char_a.raw() & MaybeChar::NON_CHAR_BYTE_TAG, 0);
    assert_eq!(byte_65.raw() & MaybeChar::NON_CHAR_BYTE_TAG, MaybeChar::NON_CHAR_BYTE_TAG);
}

#[test]
fn test_maybe_char_encode_utf8() {
    // Test char encoding
    let char_a = MaybeChar::from_char('A');
    let encoded = char_a.encode_utf8();
    assert_eq!(encoded, b"A");

    // Test multi-byte UTF-8 char
    let emoji = MaybeChar::from_char('🎉');
    let encoded2 = emoji.encode_utf8();
    assert_eq!(encoded2, "🎉".as_bytes());

    // Test non-char byte encoding
    let byte_255 = MaybeChar::from_non_char_byte(255);
    let encoded3 = byte_255.encode_utf8();
    assert_eq!(encoded3, &[255]);
    assert_eq!(encoded3.len(), 1);
}
