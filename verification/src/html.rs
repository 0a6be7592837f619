use vstd::prelude::*;
use scraper::{Html, Selector};
use crate::lib_utils::{rows_view, HtmlCell, HtmlRow, RowView};

verus! {

/// The elements of an HTML fragment that the CSS selector `row_sel` picks,
/// as `scraper` parses the fragment, in document order: whether the
/// selector `inner_sel` picks an element inside each, and each child node
/// (an element as its name, `colspan`, `rowspan` and the text of its first
/// child when that is a text node; any other node as nothing). `None`
/// where a selector does not parse.
pub uninterp spec fn html_rows_of(text: Seq<char>, row_sel: Seq<char>, inner_sel: Seq<char>) -> Option<Seq<RowView>>;

/// The markup of the first element that the selector picks in an HTML
/// fragment (`None` inside without one); `None` where the selector does
/// not parse.
pub uninterp spec fn html_first_markup_of(text: Seq<char>, sel: Seq<char>) -> Option<Option<Seq<char>>>;

/// The text of the first element that the selector picks in an HTML
/// fragment (`None` inside without one); `None` where the selector does
/// not parse.
pub uninterp spec fn html_first_text_of(text: Seq<char>, sel: Seq<char>) -> Option<Option<Seq<char>>>;

/// For each element that the selector `row_sel` picks in an HTML fragment,
/// the texts of the elements that `cell_sel` picks inside it; `None` where
/// a selector does not parse.
pub uninterp spec fn html_cells_of(text: Seq<char>, row_sel: Seq<char>, cell_sel: Seq<char>) -> Option<Seq<Seq<Seq<char>>>>;

/// What an optional sequence holds, empty where there is none.
pub open spec fn or_empty<T>(o: Option<Seq<T>>) -> Seq<T> {
    match o {
        Some(s) => s,
        None => Seq::empty(),
    }
}

/// The text found, empty where nothing was (or the selector failed).
pub open spec fn found_or_empty(o: Option<Option<Seq<char>>>) -> Seq<char> {
    match o {
        Some(Some(s)) => s,
        _ => Seq::empty(),
    }
}

pub open spec fn opt_opt_view(o: Option<Option<String>>) -> Option<Option<Seq<char>>> {
    match o {
        Some(Some(s)) => Some(Some(s@)),
        Some(None) => Some(None),
        None => None,
    }
}

/// `Selector::parse` of both selectors (`None` where either fails),
/// `Html::parse_fragment`, then each element the first picks, read as a
/// row.
#[verifier::external_body]
pub(crate) fn html_rows(text: &str, row_sel: &str, inner_sel: &str) -> (r: Option<Vec<HtmlRow>>)
    ensures
        match r {
            Some(v) => html_rows_of(text@, row_sel@, inner_sel@) == Some(rows_view(v@)),
            None => html_rows_of(text@, row_sel@, inner_sel@) is None,
        },
{
    let rs = Selector::parse(row_sel).ok()?;
    let is = Selector::parse(inner_sel).ok()?;
    let doc = Html::parse_fragment(text);
    Some(doc.select(&rs).map(|row| HtmlRow {
        has_table: row.select(&is).next().is_some(),
        children: row.children().map(|c| c.value().as_element().map(|el| HtmlCell {
            name: el.name().into(),
            colspan: el.attr("colspan").map(String::from),
            rowspan: el.attr("rowspan").map(String::from),
            first_text: c.first_child().and_then(|f| f.value().as_text().map(|t| t.to_string())),
        })).collect(),
    }).collect())
}

/// `Selector::parse` (`None` where it fails), `Html::parse_fragment`, then
/// `ElementRef::html` of the first element picked, if any.
#[verifier::external_body]
pub(crate) fn html_first_markup(text: &str, sel: &str) -> (r: Option<Option<String>>)
    ensures
        opt_opt_view(r) == html_first_markup_of(text@, sel@),
{
    let sel = Selector::parse(sel).ok()?;
    let doc = Html::parse_fragment(text);
    Some(doc.select(&sel).next().map(|el| el.html()))
}

/// `Selector::parse` (`None` where it fails), `Html::parse_fragment`, then
/// the text of the first element picked, if any.
#[verifier::external_body]
pub(crate) fn html_first_text(text: &str, sel: &str) -> (r: Option<Option<String>>)
    ensures
        opt_opt_view(r) == html_first_text_of(text@, sel@),
{
    let sel = Selector::parse(sel).ok()?;
    let doc = Html::parse_fragment(text);
    Some(doc.select(&sel).next().map(|el| el.text().collect::<String>()))
}

/// `Selector::parse` of both selectors (`None` where either fails),
/// `Html::parse_fragment`, then for each element the first picks the text
/// of each element the second picks inside it.
#[verifier::external_body]
pub(crate) fn html_cells(text: &str, row_sel: &str, cell_sel: &str) -> (r: Option<Vec<Vec<String>>>)
    ensures
        match r {
            Some(v) => html_cells_of(text@, row_sel@, cell_sel@) == Some(v.deep_view()),
            None => html_cells_of(text@, row_sel@, cell_sel@) is None,
        },
{
    let rs = Selector::parse(row_sel).ok()?;
    let cs = Selector::parse(cell_sel).ok()?;
    let doc = Html::parse_fragment(text);
    Some(doc.select(&rs).map(|row| row.select(&cs).map(|c| c.text().collect::<String>()).collect()).collect())
}

} // verus!
