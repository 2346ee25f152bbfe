//! The HTML parser and CSS selector engine. Each call parses a page as an
//! HTML fragment and reads something from it; what it reads depends on the
//! page's text and the selectors alone, so each result is given a name.
use vstd::prelude::*;

use scraper::{Html, Selector};

use crate::listing::{CellView, LinkView, opt_chars};

verus! {

/// How many elements of the page `html` match the CSS selector `sel`
/// (none when `sel` is not a valid selector).
pub uninterp spec fn match_count(html: Seq<char>, sel: Seq<char>) -> nat;

/// The inner markup of the first element of the page `html` that matches
/// `sel`; none when nothing matches.
pub uninterp spec fn first_match_inner(html: Seq<char>, sel: Seq<char>) -> Option<Seq<char>>;

/// The first element of the page `html` that matches `sel`, if any, with the
/// value of its attribute `attr`, if set.
pub uninterp spec fn first_match_attr(html: Seq<char>, sel: Seq<char>, attr: Seq<char>) -> Option<
    Option<Seq<char>>,
>;

/// What is read of a table cell: its inner markup and, if it holds one, its
/// first link's first text node and target.
pub type RawCell = (String, Option<(Option<String>, Option<String>)>);

/// The rows of a table as the page `html` holds them: in the first element
/// matching `table`, the first element matching `body`; in it, each element
/// matching `rows`; of each row, each cell matching `cells`, with its inner
/// markup and the first element matching `links` inside it (that element's
/// first text node and attribute `attr`). None when the table or its body is
/// missing, or a selector is not valid.
pub uninterp spec fn table_rows_of(
    html: Seq<char>,
    table: Seq<char>,
    body: Seq<char>,
    rows: Seq<char>,
    cells: Seq<char>,
    links: Seq<char>,
    attr: Seq<char>,
) -> Option<Seq<Seq<CellView>>>;

/// The value of a cell as read.
pub open spec fn raw_cell_view(c: RawCell) -> CellView {
    CellView {
        html: c.0@,
        link: match c.1 {
            Some(l) => Some(LinkView { text: opt_chars(l.0), href: opt_chars(l.1) }),
            None => None,
        },
    }
}

pub open spec fn raw_rows_view(v: Seq<Vec<RawCell>>) -> Seq<Seq<CellView>> {
    v.map_values(|r: Vec<RawCell>| r@.map_values(|c: RawCell| raw_cell_view(c)))
}

pub open spec fn opt_string_view(o: Option<String>) -> Option<Seq<char>> {
    match o {
        Some(s) => Some(s@),
        None => None,
    }
}

/// Relies on `scraper::Html::parse_fragment`, `Selector::parse` and
/// `Html::select`: the number of matching elements.
#[verifier::external_body]
pub(crate) fn count_matches(html: &str, sel: &str) -> (r: usize)
    ensures
        r as nat == match_count(html@, sel@),
{
    Selector::parse(sel).map_or(0, |s| Html::parse_fragment(html).select(&s).count())
}

/// Relies on `scraper::Html::parse_fragment`, `Selector::parse`,
/// `Html::select` and `ElementRef::inner_html`.
#[verifier::external_body]
pub(crate) fn first_match_inner_html(html: &str, sel: &str) -> (r: Option<String>)
    ensures
        opt_string_view(r) == first_match_inner(html@, sel@),
{
    let s = Selector::parse(sel).ok()?;
    Html::parse_fragment(html).select(&s).next().map(|e| e.inner_html())
}

/// Relies on `scraper::Html::parse_fragment`, `Selector::parse`,
/// `Html::select` and `ElementRef::attr`.
#[verifier::external_body]
pub(crate) fn first_match_attribute(html: &str, sel: &str, attr: &str) -> (r: Option<Option<String>>)
    ensures
        match r {
            Some(a) => first_match_attr(html@, sel@, attr@) == Some(opt_string_view(a)),
            None => first_match_attr(html@, sel@, attr@) is None,
        },
{
    let s = Selector::parse(sel).ok()?;
    Html::parse_fragment(html).select(&s).next().map(|e| e.attr(attr).map(String::from))
}

/// Relies on `scraper::Html::parse_fragment`, `Selector::parse`,
/// `Html::select`, `ElementRef::select`, `ElementRef::inner_html`,
/// `ElementRef::text` and `ElementRef::attr`. When it finds the table, the
/// selection of `table` was not empty.
#[verifier::external_body]
pub(crate) fn table_rows(
    html: &str,
    table: &str,
    body: &str,
    rows: &str,
    cells: &str,
    links: &str,
    attr: &str,
) -> (r: Option<Vec<Vec<RawCell>>>)
    ensures
        match r {
            Some(v) => table_rows_of(html@, table@, body@, rows@, cells@, links@, attr@) == Some(
                raw_rows_view(v@),
            ),
            None => table_rows_of(html@, table@, body@, rows@, cells@, links@, attr@) is None,
        },
        r is Some ==> match_count(html@, table@) > 0,
{
    let sel = |x: &str| Selector::parse(x).ok();
    let (t, b, rs, c, a) = (sel(table)?, sel(body)?, sel(rows)?, sel(cells)?, sel(links)?);
    let doc = Html::parse_fragment(html);
    let rows = doc.select(&t).next()?.select(&b).next()?.select(&rs);
    Some(rows.map(|row| row.select(&c).map(|cell| (cell.inner_html(), cell.select(&a).next()
        .map(|l| (l.text().next().map(String::from), l.attr(attr).map(String::from))))).collect())
        .collect())
}

} // verus!
