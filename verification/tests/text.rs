use iris::bytes::copy_bytes;
use iris::bytes::le_at;
use iris::bytes::push_le;
use iris::sorting::sorted;
use iris::text::chars_of;
use iris::text::contains_chars;
use iris::text::decimal_string;
use iris::text::find_char;
use iris::text::find_last_char;
use iris::text::has_prefix;
use iris::text::lower_chars;
use iris::text::parse_number;
use iris::text::push_hex;
use iris::text::push_padded;
use iris::text::string_of;
use iris::text::trim_chars;

#[test]
fn numbers_read_back() {
    for n in [0u64, 7, 10, 99, 65_535, u64::MAX] {
        let s = decimal_string(n);
        assert_eq!(s, n.to_string());
        assert_eq!(parse_number(&chars_of(&s), 10, u64::MAX), Some(n));
    }
    assert_eq!(parse_number(&chars_of("+5"), 10, 9), Some(5));
    assert_eq!(parse_number(&chars_of("ff"), 16, 255), Some(255));
    assert_eq!(parse_number(&chars_of("256"), 10, 255), None);
    for bad in ["", "+", "-1", "1a", " 1"] {
        assert_eq!(parse_number(&chars_of(bad), 10, 99), None, "{bad}");
    }
}

#[test]
fn padding_and_hexadecimal() {
    let mut s = String::new();
    push_padded(&mut s, 7, 3, '0');
    push_padded(&mut s, 1234, 3, '0');
    push_hex(&mut s, 0xAB, 4);
    assert_eq!(s, "007123400ab");
}

#[test]
fn pieces_of_text() {
    let s = chars_of("  Hello.World \u{3000}");
    let t = trim_chars("  Hello.World \u{3000}");
    assert_eq!(string_of(&t), "Hello.World");
    assert_eq!(find_char(&t, '.'), Some(5));
    assert_eq!(find_last_char(&t, 'l'), Some(9));
    assert!(contains_chars(&s, &chars_of("o.W")));
    assert!(has_prefix(&t, &chars_of("Hell")));
    assert!(!has_prefix(&t, &chars_of("hell")));
    assert_eq!(string_of(&lower_chars(&t)), "hello.world");
}

#[test]
fn numbers_in_bytes() {
    let mut raw = Vec::new();
    push_le(&mut raw, 0x0102_0304, 4);
    assert_eq!(raw, vec![4, 3, 2, 1]);
    assert_eq!(le_at(&raw, 0, 4), 0x0102_0304);
    assert_eq!(copy_bytes(&raw), raw);
}

#[test]
fn lists_are_sorted() {
    assert_eq!(sorted(&vec![3, 1, 2, 1]), vec![1, 1, 2, 3]);
    assert!(sorted(&vec![]).is_empty());
}
