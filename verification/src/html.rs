//! The bridge to the HTML parser.
//!
//! The extraction rules of this library never walk a DOM themselves: a
//! single trusted call reduces a document to the grid of plain values the
//! rules read — for every selected table row, for every cell, the cell's
//! text fragments, the first matching descendant's `href`, and each
//! matching descendant's text fragments. What that grid holds for a given
//! document is named by [`extracted_cells`] and claimed nowhere; every rule
//! that consumes the grid is verified for all grids.

use vstd::prelude::*;

use crate::utils::opt_view;

verus! {

/// One table cell, reduced to the plain values the extraction rules read:
/// its text fragments in document order, the `href` attribute of its first
/// descendant matching the sub-selector, and the text fragments of each
/// descendant matching the sub-selector.
pub struct Cell {
    pub texts: Vec<String>,
    pub link: Option<String>,
    pub subs: Vec<Vec<String>>,
}

/// The mathematical shape of a [`Cell`].
pub struct CellV {
    pub texts: Seq<Seq<char>>,
    pub link: Option<Seq<char>>,
    pub subs: Seq<Seq<Seq<char>>>,
}

impl View for Cell {
    type V = CellV;

    open spec fn view(&self) -> CellV {
        CellV {
            texts: self.texts@.map_values(|s: String| s@),
            link: opt_view(self.link),
            subs: self.subs@.map_values(|v: Vec<String>| v@.map_values(|s: String| s@)),
        }
    }
}

/// The view of one extracted table row.
pub open spec fn row_cells_view(cells: Seq<Cell>) -> Seq<CellV> {
    cells.map_values(|c: Cell| c@)
}

/// The view of a grid of cells: one sequence of cell views per table row.
pub open spec fn rows_view(r: Seq<Vec<Cell>>) -> Seq<Seq<CellV>> {
    r.map_values(|row: Vec<Cell>| row_cells_view(row@))
}

/// Whether `scraper::Selector::parse` accepts a selector string; a function
/// of the text alone.
pub uninterp spec fn selector_compiles(s: Seq<char>) -> bool;

/// The grid of cell data that scraping a document yields for the given row,
/// cell and sub-element selectors and attribute name: a function of the five
/// texts alone.
pub uninterp spec fn extracted_cells(
    html: Seq<char>,
    row_sel: Seq<char>,
    cell_sel: Seq<char>,
    sub_sel: Seq<char>,
    attr: Seq<char>,
) -> Seq<Seq<CellV>>;

/// Relies on scraper's `Selector::parse`, `Html::parse_document`,
/// `ElementRef::select`, `ElementRef::text` and `ElementRef::attr`: parses
/// the document, selects the rows matching `row_sel`, splits each row into
/// the cells matching `cell_sel`, and keeps of each cell its text fragments,
/// the `attr` attribute of its first descendant matching `sub_sel`, and the
/// text fragments of every such descendant, all in document order. Returns
/// nothing exactly when one of the selectors does not compile;
/// `Html::parse_document` itself never fails.
#[verifier::external_body]
pub(crate) fn scrape_cells(
    html: &str,
    row_sel: &str,
    cell_sel: &str,
    sub_sel: &str,
    attr: &str,
) -> (r: Option<Vec<Vec<Cell>>>)
    ensures
        r is Some == (selector_compiles(row_sel@) && selector_compiles(cell_sel@)
            && selector_compiles(sub_sel@)),
        r matches Some(rows) ==> rows_view(rows@) == extracted_cells(html@, row_sel@, cell_sel@, sub_sel@, attr@),
{
    let rsel = scraper::Selector::parse(row_sel).ok()?;
    let csel = scraper::Selector::parse(cell_sel).ok()?;
    let ssel = scraper::Selector::parse(sub_sel).ok()?;
    let doc = scraper::Html::parse_document(html);
    Some(doc.select(&rsel).map(|row| row.select(&csel).map(|td| Cell {
        texts: td.text().map(str::to_owned).collect(),
        link: td.select(&ssel).next().and_then(|e| e.attr(attr)).map(str::to_owned),
        subs: td.select(&ssel).map(|e| e.text().map(str::to_owned).collect()).collect(),
    }).collect()).collect())
}

} // verus!
