//! Extraction of part-color information from catalog HTML pages: a
//! bidirectional id/name color guide, and the list of colors known for a part.

mod cell;
mod color;
mod error;
mod guide;
mod page;

pub use cell::{
    color_from_cell_texts, color_id_from_text, color_name_from_text, lemma_cells_round_trip,
};
pub use color::{is_not_applicable_text, known_colors_from_texts, Color};
pub use error::HtmlParsingError;
pub use guide::{lemma_guide_consistent, lemma_guide_round_trip, ColorGuide};
pub use page::{
    parse_color_guide, parse_known_colors, row_to_color, select_color_guide_rows,
    select_color_id_from_row, select_color_name_from_row,
};
