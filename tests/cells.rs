use libtrowel::{color_from_cell_texts, color_id_from_text, color_name_from_text};

#[test]
fn id_plain_digits() {
    assert_eq!(color_id_from_text("12"), Some(12));
}

#[test]
fn id_with_nbsp_entities() {
    assert_eq!(color_id_from_text("&nbsp;7&nbsp;"), Some(7));
}

#[test]
fn id_with_nbsp_characters_is_no_integer() {
    assert_eq!(color_id_from_text("\u{a0}42\u{a0}"), None);
}

#[test]
fn id_with_signs() {
    assert_eq!(color_id_from_text("-3"), Some(-3));
    assert_eq!(color_id_from_text("+4"), Some(4));
}

#[test]
fn id_rejects_non_numeric() {
    assert_eq!(color_id_from_text("X"), None);
    assert_eq!(color_id_from_text(""), None);
    assert_eq!(color_id_from_text("-"), None);
    assert_eq!(color_id_from_text("1a"), None);
}

#[test]
fn id_rejects_whitespace() {
    assert_eq!(color_id_from_text(" 42"), None);
}

#[test]
fn id_bounds_of_i32() {
    assert_eq!(color_id_from_text("2147483647"), Some(2147483647));
    assert_eq!(color_id_from_text("-2147483648"), Some(-2147483648));
    assert_eq!(color_id_from_text("2147483648"), None);
}

#[test]
fn name_stripped_of_nbsp() {
    assert_eq!(color_name_from_text("&nbsp;White&nbsp;"), "White".to_string());
    assert_eq!(color_name_from_text("Light&nbsp;Gray"), "LightGray".to_string());
    assert_eq!(color_name_from_text("&amp;nbsp;"), "&amp;nbsp;".to_string());
}

#[test]
fn name_not_trimmed() {
    assert_eq!(color_name_from_text(" Trans-Clear "), " Trans-Clear ".to_string());
}

#[test]
fn row_from_cells_numeric() {
    assert_eq!(
        color_from_cell_texts("&nbsp;5&nbsp;", "&nbsp;Black&nbsp;"),
        Some(("Black".to_string(), 5))
    );
}

#[test]
fn row_from_cells_non_numeric_is_skipped() {
    assert_eq!(color_from_cell_texts("X", "Broken"), None);
}
