//! Location of the data in parsed catalog pages, through CSS selectors.
//!
//! What nipper returns is named by the spec functions below, over the page
//! and the selector. A `Document` keeps its tree behind a `RefCell`; these
//! names describe a document that nothing changes, and this library never
//! changes one.

use crate::cell::{color_from_cell_texts, color_of_cells};
use crate::color::{
    color_views, guide_names, known_colors_from_texts, known_colors_of, text_views, Color,
};
use crate::error::HtmlParsingError;
use crate::guide::{ids_of_rows, names_of_rows, row_views, ColorGuide};
use nipper::{Document, Selection};
use vstd::prelude::*;

verus! {

#[verifier::external_type_specification]
#[verifier::external_body]
pub struct ExDocument(Document);

#[verifier::external_type_specification]
#[verifier::external_body]
pub struct ExSelection<'a>(Selection<'a>);

/// What nipper's `Document::try_select` gives for a page and a selector.
pub uninterp spec fn doc_select(doc: Document, sel: Seq<char>) -> Option<Selection<'static>>;

/// What nipper's `Selection::try_select` gives for a selection and a selector.
pub uninterp spec fn sel_select(s: Selection<'static>, sel: Seq<char>) -> Option<Selection<'static>>;

/// What nipper's `Selection::last` gives for a selection.
pub uninterp spec fn sel_last(s: Selection<'static>) -> Selection<'static>;

/// The one-element selections that nipper's `Selection::iter` yields.
pub uninterp spec fn sel_elements(s: Selection<'static>) -> Seq<Selection<'static>>;

/// The number of nodes in a selection, nipper's `Selection::length`.
pub uninterp spec fn sel_len(s: Selection<'static>) -> nat;

/// What nipper's `Selection::text` gives for a selection.
pub uninterp spec fn sel_text(s: Selection<'static>) -> Seq<char>;

/// What nipper's `Selection::html` gives for a selection.
pub uninterp spec fn sel_html(s: Selection<'static>) -> Seq<char>;

/// Relies on nipper's `Document::try_select`: a function of the page and the
/// selector, `None` where nothing matches (or the selector is invalid), else
/// a selection of at least one node.
pub assume_specification<'a>[ Document::try_select ](doc: &'a Document, sel: &str) -> (r: Option<
    Selection<'a>,
>)
    ensures
        r == doc_select(*doc, sel@),
        r matches Some(s) ==> sel_len(s) > 0,
;

/// Relies on nipper's `Selection::try_select`: a function of the selection
/// and the selector, `None` where nothing matches (or the selector is
/// invalid), else a selection of at least one node.
pub assume_specification<'a, 'b>[ Selection::<'a>::try_select ](
    s: &'b Selection<'a>,
    sel: &str,
) -> (r: Option<Selection<'a>>)
    ensures
        r == sel_select(*s, sel@),
        r matches Some(x) ==> sel_len(x) > 0,
;

/// Relies on nipper's `Selection::last`: the last node alone, or an empty
/// selection where there is none.
pub assume_specification<'a, 'b>[ Selection::<'a>::last ](s: &'b Selection<'a>) -> (r: Selection<
    'a,
>)
    ensures
        r == sel_last(*s),
        sel_len(r) == if sel_len(*s) > 0 {
            1nat
        } else {
            0nat
        },
;

/// Relies on nipper's `Selection::iter`: one selection per selected node, in
/// document order.
#[verifier::external_body]
fn elements_of<'a>(s: &Selection<'a>) -> (r: Vec<Selection<'a>>)
    ensures
        r@ == sel_elements(*s),
        r@.len() == sel_len(*s),
{
    s.iter().collect()
}

/// Relies on nipper's `Selection::text`: the text content of the selected
/// nodes, entities decoded.
#[verifier::external_body]
fn text_of(s: &Selection) -> (r: String)
    ensures
        r@ == sel_text(*s),
{
    s.text().to_string()
}

/// Relies on nipper's `Selection::html`: the serialized HTML of the first
/// selected node, the node itself included.
#[verifier::external_body]
fn html_of(s: &Selection) -> (r: String)
    ensures
        r@ == sel_html(*s),
{
    s.html().to_string()
}

/// The anchors inside spans of the last row of the body of the part page's
/// color table; `None` where a stage of that chain matches nothing.
pub open spec fn anchors_of(doc: Document) -> Option<Selection<'static>> {
    match doc_select(doc, "table.pciColorInfoTable"@) {
        None => None,
        Some(table) => match sel_select(table, "tbody"@) {
            None => None,
            Some(body) => match sel_select(body, "tr"@) {
                None => None,
                Some(rows) => match sel_select(sel_last(rows), "span"@) {
                    None => None,
                    Some(spans) => sel_select(spans, "a"@),
                },
            },
        },
    }
}

/// The texts of the anchors of a selection, one per anchor, in order.
pub open spec fn anchor_texts(anchors: Selection<'static>) -> Seq<Seq<char>> {
    sel_elements(anchors).map_values(|e: Selection<'static>| sel_text(e))
}

/// The nested table of the color guide inside its main table.
pub open spec fn guide_table_of(doc: Document) -> Option<Selection<'static>> {
    match doc_select(doc, "table[id=\"id-main-legacy-table\"]"@) {
        None => None,
        Some(outer) => sel_select(
            outer,
            "table[border=\"0\"][cellpadding=\"1\"][cellspacing=\"0\"]"@,
        ),
    }
}

/// The rows of the guide's nested table after its header row.
pub open spec fn guide_rows_of(doc: Document) -> Option<Selection<'static>> {
    match guide_table_of(doc) {
        None => None,
        Some(table) => sel_select(table, "tr:nth-child(n + 2)"@),
    }
}

/// The nodes of a guide row that hold its id.
pub open spec fn id_cell_of(row: Selection<'static>) -> Option<Selection<'static>> {
    match sel_select(row, ":first-child"@) {
        None => None,
        Some(a) => match sel_select(a, ":first-child"@) {
            None => None,
            Some(b) => sel_select(b, ":first-child"@),
        },
    }
}

/// The nodes of a guide row that hold its name.
pub open spec fn name_cell_of(row: Selection<'static>) -> Option<Selection<'static>> {
    match sel_select(row, ":nth-child(n + 4)"@) {
        None => None,
        Some(a) => match sel_select(a, ":first-child"@) {
            None => None,
            Some(b) => sel_select(b, ":first-child"@),
        },
    }
}

/// The (name, id) pair of a guide row: both cells found, and the HTML of
/// the id cell an integer.
pub open spec fn row_color_of(row: Selection<'static>) -> Option<(Seq<char>, i32)> {
    match (id_cell_of(row), name_cell_of(row)) {
        (Some(a), Some(b)) => color_of_cells(sel_html(a), sel_html(b)),
        _ => None,
    }
}

/// The pairs of the rows that give one, in order; the others are skipped.
pub open spec fn pairs_of_rows(rows: Seq<Selection<'static>>) -> Seq<(Seq<char>, i32)>
    decreases rows.len(),
{
    if rows.len() == 0 {
        seq![]
    } else {
        let before = pairs_of_rows(rows.drop_last());
        match row_color_of(rows.last()) {
            Some(p) => before.push(p),
            None => before,
        }
    }
}

/// The pairs of a guide page: none where its table has only a header row.
pub open spec fn guide_pairs_of(doc: Document) -> Seq<(Seq<char>, i32)> {
    match guide_rows_of(doc) {
        Some(rows) => pairs_of_rows(sel_elements(rows)),
        None => seq![],
    }
}

/// The anchors that name a part's colors: those in spans of the last row of
/// the color table.
fn select_color_anchors<'a>(part_color_page: &'a Document) -> (r: Option<Selection<'a>>)
    ensures
        r == anchors_of(*part_color_page),
        r matches Some(s) ==> sel_len(s) > 0,
{
    let table = part_color_page.try_select("table.pciColorInfoTable")?;
    let body = table.try_select("tbody")?;
    let rows = body.try_select("tr")?;
    let spans = rows.last().try_select("span")?;
    spans.try_select("a")
}

/// The colors that a part page lists, each given the id that `guide` has for
/// its name, if any; entries that begin with "(Not Applicable)" are left out.
/// A page on which the chain table, body, row, span, anchor breaks gives an
/// error.
pub fn parse_known_colors(part_color_page: &Document, guide: Option<&ColorGuide>) -> (r: Result<
    Vec<Color>,
    HtmlParsingError,
>)
    requires
        guide matches Some(g) ==> g.wf(),
    ensures
        r is Err <==> anchors_of(*part_color_page) is None,
        r matches Ok(colors) ==> color_views(colors@) == known_colors_of(
            anchor_texts(anchors_of(*part_color_page)->Some_0),
            guide_names(guide),
        ),
{
    match select_color_anchors(part_color_page) {
        None => Err(HtmlParsingError),
        Some(anchors) => {
            let elements = elements_of(&anchors);
            let mut texts: Vec<String> = Vec::new();
            let mut i: usize = 0;
            while i < elements.len()
                invariant
                    i <= elements@.len(),
                    elements@ == sel_elements(anchors),
                    texts@.len() == i,
                    text_views(texts@) == elements@.subrange(0, i as int).map_values(
                        |e: Selection<'static>| sel_text(e),
                    ),
                decreases elements@.len() - i,
            {
                let ghost before = texts@;
                let t = text_of(&elements[i]);
                texts.push(t);
                proof {
                    let prev = elements@.subrange(0, i as int).map_values(
                        |e: Selection<'static>| sel_text(e),
                    );
                    assert forall|k: int| 0 <= k < i implies #[trigger] text_views(texts@)[k]
                        == prev[k] by {
                        assert(texts@[k] == before[k]);
                    }
                    assert(text_views(texts@)[i as int] == sel_text(elements@[i as int]));
                    assert(text_views(texts@) =~= elements@.subrange(0, i + 1).map_values(
                        |e: Selection<'static>| sel_text(e),
                    ));
                }
                i = i + 1;
            }
            proof {
                assert(elements@.subrange(0, elements@.len() as int) =~= elements@);
            }
            let colors = known_colors_from_texts(&texts, guide);
            Ok(colors)
        },
    }
}

/// The guide's nested table, inside its main table.
fn select_color_guide_table<'a>(color_guide_page: &'a Document) -> (r: Option<Selection<'a>>)
    ensures
        r == guide_table_of(*color_guide_page),
{
    let outer = color_guide_page.try_select("table[id=\"id-main-legacy-table\"]")?;
    outer.try_select("table[border=\"0\"][cellpadding=\"1\"][cellspacing=\"0\"]")
}

/// The rows of the color guide's table, the header row left out; `None`
/// where the table, its nested table or any such row is missing.
pub fn select_color_guide_rows<'a>(color_guide_page: &'a Document) -> (r: Option<Selection<'a>>)
    ensures
        r == guide_rows_of(*color_guide_page),
        r matches Some(s) ==> sel_len(s) > 0,
{
    let table = select_color_guide_table(color_guide_page)?;
    table.try_select("tr:nth-child(n + 2)")
}

/// The nodes of a guide row whose first holds the color id: first children of
/// first children of first children, such as the text inside its first cell's
/// element.
pub fn select_color_id_from_row<'a>(color_guide_row: &Selection<'a>) -> (r: Option<Selection<'a>>)
    ensures
        r == id_cell_of(*color_guide_row),
        r matches Some(s) ==> sel_len(s) > 0,
{
    let cell = color_guide_row.try_select(":first-child")?;
    let inner = cell.try_select(":first-child")?;
    inner.try_select(":first-child")
}

/// The nodes of a guide row whose first holds the color name: the nested
/// first children of its fourth and later cells.
pub fn select_color_name_from_row<'a>(color_guide_row: &Selection<'a>) -> (r: Option<Selection<'a>>)
    ensures
        r == name_cell_of(*color_guide_row),
        r matches Some(s) ==> sel_len(s) > 0,
{
    let cells = color_guide_row.try_select(":nth-child(n + 4)")?;
    let inner = cells.try_select(":first-child")?;
    inner.try_select(":first-child")
}

/// The (name, id) pair of a guide row; `None` where its id or name nodes are
/// missing or its id HTML is no integer.
pub fn row_to_color(color_guide_row: &Selection) -> (r: Option<(String, i32)>)
    ensures
        match r {
            Some((name, id)) => row_color_of(*color_guide_row) == Some((name@, id)),
            None => row_color_of(*color_guide_row) is None,
        },
{
    let id_element = select_color_id_from_row(color_guide_row)?;
    let name_element = select_color_name_from_row(color_guide_row)?;
    let id_text = html_of(&id_element);
    let name_text = html_of(&name_element);
    color_from_cell_texts(id_text.as_str(), name_text.as_str())
}

/// The color guide that a guide page gives: every row after the header that
/// yields a pair, in document order, later rows overriding earlier ones;
/// rows that yield none are skipped, and a table with no such row gives an
/// empty guide. A page without the guide's table or its nested table gives
/// an error.
pub fn parse_color_guide(color_guide_page: &Document) -> (r: Result<ColorGuide, HtmlParsingError>)
    ensures
        r is Err <==> guide_table_of(*color_guide_page) is None,
        r matches Ok(g) ==> {
            &&& g.wf()
            &&& g.id_map() == ids_of_rows(guide_pairs_of(*color_guide_page))
            &&& g.name_map() == names_of_rows(guide_pairs_of(*color_guide_page))
        },
{
    let table = match select_color_guide_table(color_guide_page) {
        Some(t) => t,
        None => {
            return Err(HtmlParsingError);
        },
    };
    let mut pairs: Vec<(String, i32)> = Vec::new();
    if let Some(rows) = table.try_select("tr:nth-child(n + 2)") {
        let elements = elements_of(&rows);
        let mut i: usize = 0;
        while i < elements.len()
            invariant
                i <= elements@.len(),
                row_views(pairs@) == pairs_of_rows(elements@.subrange(0, i as int)),
            decreases elements@.len() - i,
        {
            let ghost before = pairs@;
            let r = row_to_color(&elements[i]);
            proof {
                let next = elements@.subrange(0, i + 1);
                assert(next.drop_last() =~= elements@.subrange(0, i as int));
                assert(next.last() == elements@[i as int]);
            }
            if let Some(pair) = r {
                pairs.push(pair);
                proof {
                    assert(row_views(pairs@) =~= row_views(before).push((pair.0@, pair.1)));
                }
            }
            i = i + 1;
        }
        proof {
            assert(elements@.subrange(0, elements@.len() as int) =~= elements@);
        }
    } else {
        proof {
            assert(row_views(pairs@) =~= Seq::<(Seq<char>, i32)>::empty());
        }
    }
    Ok(ColorGuide::from_rows(&pairs))
}

} // verus!
