use stdbms::{fixed_to_string, string_to_fixed};

#[test]
fn short_text_is_zero_padded() {
    let f: [u8; 8] = string_to_fixed("id");
    assert_eq!(f, [b'i', b'd', 0, 0, 0, 0, 0, 0]);
}

#[test]
fn long_text_is_cut_to_width() {
    let f: [u8; 8] = string_to_fixed("warehouse_stock");
    assert_eq!(&f, b"warehous");
}

#[test]
fn empty_text_gives_zero_field() {
    let f: [u8; 8] = string_to_fixed("");
    assert_eq!(f, [0u8; 8]);
}

#[test]
fn trailing_zeros_are_trimmed() {
    assert_eq!(fixed_to_string(&[b'p', b'a', b'g', b'e', b'1', 0, 0, 0]), "page1");
}

#[test]
fn inner_zero_is_kept() {
    assert_eq!(fixed_to_string(&[b'a', 0, b'b', 0]), "a\0b");
}

#[test]
fn all_zero_field_reads_as_empty() {
    assert_eq!(fixed_to_string(&[0u8; 8]), "");
}

#[test]
fn full_width_text_reads_back() {
    let f: [u8; 8] = string_to_fixed("products");
    assert_eq!(fixed_to_string(&f), "products");
}

#[test]
fn multibyte_text_reads_back() {
    let f: [u8; 8] = string_to_fixed("préço");
    assert_eq!(fixed_to_string(&f), "préço");
}

#[test]
fn invalid_utf8_is_replaced() {
    assert_eq!(fixed_to_string(&[0xFF, b'a', 0, 0]), "\u{FFFD}a");
}
