use fontgen::literal::byte_array_text;

#[test]
fn text_of_no_bytes() {
    assert_eq!(byte_array_text(&[]), "&[]");
}

#[test]
fn text_of_one_byte() {
    assert_eq!(byte_array_text(&[0]), "&[0]");
    assert_eq!(byte_array_text(&[255]), "&[255]");
}

#[test]
fn text_of_some_bytes() {
    assert_eq!(byte_array_text(&[7, 10, 255, 100, 0, 99]), "&[7, 10, 255, 100, 0, 99]");
}

#[test]
fn text_of_every_byte_is_its_decimal_numeral() {
    for b in 0..=255u8 {
        assert_eq!(byte_array_text(&[b]), format!("&[{}]", b));
    }
    let all: Vec<u8> = (0..=255).collect();
    assert_eq!(byte_array_text(&all), format!("&{:?}", all));
}
