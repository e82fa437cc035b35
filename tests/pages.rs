use libtrowel::{
    parse_color_guide, parse_known_colors, row_to_color, select_color_guide_rows, Color,
    ColorGuide, HtmlParsingError,
};
use nipper::Document;

fn guide_row(id: &str, name: &str) -> String {
    format!(
        "<tr><td><b>{}</b></td><td>a</td><td>b</td><td><b>{}</b></td></tr>",
        id, name
    )
}

fn guide_page(rows: &[(&str, &str)]) -> String {
    let mut body = String::from("<tr><td>ID</td><td>x</td><td>y</td><td>Name</td></tr>");
    for (id, name) in rows {
        body.push_str(&guide_row(id, name));
    }
    format!(
        "<html><body><table id=\"id-main-legacy-table\"><tr><td>\
         <table border=\"0\" cellpadding=\"1\" cellspacing=\"0\">{}</table>\
         </td></tr></table></body></html>",
        body
    )
}

fn part_page(anchors: &[&str]) -> String {
    let mut spans = String::new();
    for a in anchors {
        spans.push_str(&format!("<span><a href=\"#\">{}</a></span>", a));
    }
    format!(
        "<html><body><table class=\"pciColorInfoTable\"><tbody>\
         <tr><td>header</td></tr><tr><td>{}</td></tr></tbody></table></body></html>",
        spans
    )
}

#[test]
fn guide_example_with_malformed_row() {
    let doc = Document::from(guide_page(&[("1", "White"), ("5", "Black"), ("X", "Broken")]).as_str());
    let g = parse_color_guide(&doc).unwrap();
    assert_eq!(g.id_count(), 2);
    assert_eq!(g.name_count(), 2);
    assert_eq!(g.name_of(1), Some("White".to_string()));
    assert_eq!(g.name_of(5), Some("Black".to_string()));
    assert_eq!(g.id_of(&"White".to_string()), Some(1));
    assert_eq!(g.id_of(&"Black".to_string()), Some(5));
    assert_eq!(g.id_of(&"Broken".to_string()), None);
}

#[test]
fn guide_non_numeric_row_absent_without_error() {
    let doc = Document::from(guide_page(&[("abc", "Nothing"), ("3", "Green")]).as_str());
    let g = parse_color_guide(&doc).unwrap();
    assert_eq!(g.id_of(&"Nothing".to_string()), None);
    assert_eq!(g.id_count(), 1);
    assert_eq!(g.name_count(), 1);
    assert_eq!(g.name_of(3), Some("Green".to_string()));
}

#[test]
fn guide_round_trip_of_unique_pairs() {
    let pairs = [(1, "White"), (11, "Black"), (5, "Red"), (86, "Light Bluish Gray")];
    let ids: Vec<String> = pairs.iter().map(|(i, _)| i.to_string()).collect();
    let rows: Vec<(&str, &str)> = pairs.iter().zip(ids.iter()).map(|((_, n), i)| (i.as_str(), *n)).collect();
    let doc = Document::from(guide_page(&rows).as_str());
    let g = parse_color_guide(&doc).unwrap();
    assert_eq!(g.id_count(), pairs.len());
    assert_eq!(g.name_count(), pairs.len());
    for (id, name) in pairs {
        assert_eq!(g.name_of(id), Some(name.to_string()));
        assert_eq!(g.id_of(&name.to_string()), Some(id));
    }
}

#[test]
fn guide_cells_with_nbsp() {
    let doc = Document::from(guide_page(&[("&nbsp;7&nbsp;", "&nbsp;Tan&nbsp;")]).as_str());
    let g = parse_color_guide(&doc).unwrap();
    assert_eq!(g.name_of(7), Some("Tan".to_string()));
}

#[test]
fn guide_header_only_is_empty() {
    let doc = Document::from(guide_page(&[]).as_str());
    let g = parse_color_guide(&doc).unwrap();
    assert_eq!(g.id_count(), 0);
    assert_eq!(g.name_count(), 0);
    assert!(select_color_guide_rows(&doc).is_none());
}

#[test]
fn guide_without_nested_table_is_structural_error() {
    let doc = Document::from(
        "<html><body><table id=\"id-main-legacy-table\"><tr><td>1</td></tr></table></body></html>",
    );
    assert_eq!(parse_color_guide(&doc).unwrap_err(), HtmlParsingError);
}

#[test]
fn guide_repeated_name_keeps_maps_inverse() {
    let doc = Document::from(guide_page(&[("1", "White"), ("2", "White")]).as_str());
    let g = parse_color_guide(&doc).unwrap();
    assert_eq!(g.id_of(&"White".to_string()), Some(2));
    assert_eq!(g.name_of(1), None);
    assert_eq!(g.id_count(), 1);
    assert_eq!(g.name_count(), 1);
}

#[test]
fn guide_row_without_name_cell() {
    let doc = Document::from(
        "<html><body><table id=\"id-main-legacy-table\"><tr><td>\
         <table border=\"0\" cellpadding=\"1\" cellspacing=\"0\">\
         <tr><td>ID</td></tr><tr><td><b>4</b></td><td>a</td></tr>\
         </table></td></tr></table></body></html>",
    );
    let rows = select_color_guide_rows(&doc).unwrap();
    assert_eq!(row_to_color(&rows), None);
    let g = parse_color_guide(&doc).unwrap();
    assert_eq!(g.id_count(), 0);
}

#[test]
fn guide_missing_table_is_structural_error() {
    let doc = Document::from("<html><body><table><tr><td>1</td></tr></table></body></html>");
    assert!(select_color_guide_rows(&doc).is_none());
    assert_eq!(parse_color_guide(&doc).unwrap_err(), HtmlParsingError);
}

#[test]
fn guide_row_to_color() {
    let doc = Document::from(guide_page(&[("9", "Yellow")]).as_str());
    let rows = select_color_guide_rows(&doc).unwrap();
    assert_eq!(row_to_color(&rows), Some(("Yellow".to_string(), 9)));
}

#[test]
fn part_colors_not_applicable_excluded() {
    let doc = Document::from(part_page(&["White", "(Not Applicable) Not Applicable", "Black"]).as_str());
    let r = parse_known_colors(&doc, None).unwrap();
    assert_eq!(
        r,
        vec![
            Color { name: "White".to_string(), id: None },
            Color { name: "Black".to_string(), id: None },
        ]
    );
}

#[test]
fn part_colors_unknown_name_kept_without_id() {
    let g = ColorGuide::from_rows(&vec![("White".to_string(), 1)]);
    let doc = Document::from(part_page(&["White", "Neon Purple", "White"]).as_str());
    let r = parse_known_colors(&doc, Some(&g)).unwrap();
    assert_eq!(
        r,
        vec![
            Color { name: "White".to_string(), id: Some(1) },
            Color { name: "Neon Purple".to_string(), id: None },
            Color { name: "White".to_string(), id: Some(1) },
        ]
    );
}

#[test]
fn part_colors_same_names_under_any_guide() {
    let doc = Document::from(part_page(&["Red", "Blue"]).as_str());
    let g = ColorGuide::from_rows(&vec![("Red".to_string(), 5)]);
    let with = parse_known_colors(&doc, Some(&g)).unwrap();
    let without = parse_known_colors(&doc, None).unwrap();
    let names_with: Vec<String> = with.iter().map(|c| c.name.clone()).collect();
    let names_without: Vec<String> = without.iter().map(|c| c.name.clone()).collect();
    assert_eq!(names_with, names_without);
    assert_eq!(with[0].id, Some(5));
    assert_eq!(without[0].id, None);
}

#[test]
fn part_colors_example_page_other_class() {
    let doc = Document::from("<table class='other'><tbody><tr><td><span><a>Red</a></span></td></tr></tbody></table>");
    assert_eq!(parse_known_colors(&doc, None).unwrap_err(), HtmlParsingError);
}

#[test]
fn part_colors_missing_table_is_structural_error() {
    let doc = Document::from("<html><body><table class=\"other\"><tbody><tr><td><span><a>White</a></span></td></tr></tbody></table></body></html>");
    assert_eq!(parse_known_colors(&doc, None).unwrap_err(), HtmlParsingError);
}

#[test]
fn part_colors_without_anchors_is_structural_error() {
    let doc = Document::from("<html><body><table class=\"pciColorInfoTable\"><tbody><tr><td><span>White</span></td></tr></tbody></table></body></html>");
    assert_eq!(parse_known_colors(&doc, None).unwrap_err(), HtmlParsingError);
}
