use libtrowel::{is_not_applicable_text, known_colors_from_texts, Color, ColorGuide, HtmlParsingError};

fn texts(items: &[&str]) -> Vec<String> {
    items.iter().map(|t| t.to_string()).collect()
}

#[test]
fn marker_matched_by_prefix() {
    assert!(is_not_applicable_text("(Not Applicable)"));
    assert!(is_not_applicable_text("(Not Applicable) Not Applicable"));
    assert!(!is_not_applicable_text("Not Applicable"));
    assert!(!is_not_applicable_text("(Not"));
    assert!(!is_not_applicable_text("White"));
}

#[test]
fn colors_without_guide_have_no_id() {
    let r = known_colors_from_texts(&texts(&["White", "Black"]), None);
    assert_eq!(
        r,
        vec![
            Color { name: "White".to_string(), id: None },
            Color { name: "Black".to_string(), id: None },
        ]
    );
}

#[test]
fn colors_resolved_filtered_and_kept_in_order() {
    let g = ColorGuide::from_rows(&vec![("White".to_string(), 1), ("Black".to_string(), 11)]);
    let r = known_colors_from_texts(
        &texts(&["Black", "(Not Applicable) Not Applicable", "Neon Purple", "Black"]),
        Some(&g),
    );
    assert_eq!(
        r,
        vec![
            Color { name: "Black".to_string(), id: Some(11) },
            Color { name: "Neon Purple".to_string(), id: None },
            Color { name: "Black".to_string(), id: Some(11) },
        ]
    );
}

#[test]
fn no_texts_no_colors() {
    assert_eq!(known_colors_from_texts(&Vec::new(), None), Vec::<Color>::new());
}

#[test]
fn error_message() {
    assert_eq!(
        HtmlParsingError.message(),
        "found unexpected HTML structure. Page HTML may have changed".to_string()
    );
}
