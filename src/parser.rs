//! Page classification and extraction from whole documents.
use vstd::prelude::*;

use crate::domain::{
    ItemView,
    OperationError,
    OperationResult,
    OptionResult,
    SubtitleSearchResultItem,
    SubtitleSearchResults,
    items_view,
};
use crate::html::{
    count_matches,
    first_match_attr,
    first_match_attribute,
    first_match_inner,
    first_match_inner_html,
    match_count,
    RawCell,
    raw_cell_view,
    raw_rows_view,
    table_rows,
    table_rows_of,
};
use crate::listing::{
    CellView,
    PageLink,
    TableCell,
    opt_chars,
    row_view,
    RowShape,
    extract_listing,
    lemma_listing_all_usable,
    lemma_listing_len,
    lemma_listing_numbered,
    listing,
    row_item,
    row_usable,
    rows_view,
};
use crate::markers::{heading_marker, heading_numbers, numbers_of};
use crate::text::{chars_of, normalize, normalize_chars, replace_all, replace_all_exec, string_of};

verus! {

/// What a fetched page is.
#[derive(PartialEq, Eq, Structural, Debug, Clone, Copy)]
pub enum PageType {
    /// Page contains multiple results
    MultipleOptions,
    /// Page about one movie or series episode
    SingleOption,
}

/// The page type of a document holding `tables` results tables.
pub fn page_type_for(tables: usize) -> (r: PageType)
    ensures
        r == (if tables > 0 {
            PageType::MultipleOptions
        } else {
            PageType::SingleOption
        }),
{
    if tables > 0 {
        PageType::MultipleOptions
    } else {
        PageType::SingleOption
    }
}

// ---------------------------------------------------------------------------
// Single-item pages
// ---------------------------------------------------------------------------

/// The word that headings of single-item pages put between name and episode.
pub open spec fn subtitles_word() -> Seq<char> {
    seq![' ', 's', 'u', 'b', 't', 'i', 't', 'l', 'e', 's', ' ']
}

/// The display title of a heading: its text, with ` subtitles ` made a single space.
pub open spec fn heading_title(h: Seq<char>) -> Seq<char> {
    replace_all(normalize(h), subtitles_word(), seq![' '])
}

/// The record of a single-item page whose heading markup is `h` and whose
/// address is `url`.
pub open spec fn heading_item(h: Seq<char>, url: Seq<char>) -> ItemView {
    ItemView {
        index: 1,
        title: heading_title(h),
        details_url: url,
        season: numbers_of(heading_marker(heading_title(h))).0,
        episode: numbers_of(heading_marker(heading_title(h))).1,
    }
}

/// The record of a single-item page, from the markup of its heading and the
/// page's own address.
pub fn item_from_heading(heading_html: &str, page_url: &str) -> (r: SubtitleSearchResultItem)
    ensures
        r@ == heading_item(heading_html@, page_url@),
{
    let text = normalize_chars(&chars_of(heading_html));
    let word: Vec<char> = vec![' ', 's', 'u', 'b', 't', 'i', 't', 'l', 'e', 's', ' '];
    let space: Vec<char> = vec![' '];
    proof {
        assert(word@ =~= subtitles_word());
        assert(space@ =~= seq![' ']);
    }
    let title = replace_all_exec(&text, &word, &space);
    let numbers = heading_numbers(&title);
    SubtitleSearchResultItem {
        index: 1,
        title: string_of(title.as_slice()),
        details_url: string_of(chars_of(page_url).as_slice()),
        season: numbers.0,
        episode: numbers.1,
    }
}

// ---------------------------------------------------------------------------
// Download links
// ---------------------------------------------------------------------------

pub open spec fn opt_str_view(o: Option<&str>) -> Option<Seq<char>> {
    match o {
        Some(s) => Some(s@),
        None => None,
    }
}

/// The download address for a link target: joined to `base` when one is given.
pub open spec fn download_url(href: Seq<char>, base: Option<Seq<char>>) -> Seq<char> {
    match base {
        Some(b) => b + href,
        None => href,
    }
}

/// The download address for the target `href` of a download link; a link
/// without a target is malformed markup.
pub fn download_url_from_href(href: Option<&str>, base_url: Option<&str>) -> (r: OptionResult<
    String,
>)
    ensures
        href is None ==> r == Err::<Option<String>, OperationError>(OperationError::HtmlParseError),
        href is Some ==> r is Ok && r->Ok_0 is Some && r->Ok_0->0@ == download_url(
            href->0@,
            opt_str_view(base_url),
        ),
{
    match href {
        None => Err(OperationError::HtmlParseError),
        Some(h) => match base_url {
            None => Ok(Some(string_of(chars_of(h).as_slice()))),
            Some(b) => {
                let mut joined = chars_of(b);
                let mut tail = chars_of(h);
                joined.append(&mut tail);
                Ok(Some(string_of(joined.as_slice())))
            },
        },
    }
}

// ---------------------------------------------------------------------------
// Documents
// ---------------------------------------------------------------------------

/// The selector of the results table of a listing page.
pub open spec fn results_table() -> Seq<char> {
    "#search_results"@
}

/// The page type of the page `html`.
pub open spec fn page_type_of(html: Seq<char>) -> PageType {
    if match_count(html, results_table()) > 0 {
        PageType::MultipleOptions
    } else {
        PageType::SingleOption
    }
}

/// Tells a listing page, which holds a results table, from a single-item page.
pub fn get_page_type(html: &str) -> (r: PageType)
    ensures
        r == page_type_of(html@),
{
    let tables = count_matches(html, "#search_results");
    page_type_for(tables)
}

/// The selector of the rows read in a layout.
pub open spec fn row_selector(shape: RowShape) -> Seq<char> {
    match shape {
        RowShape::Marked => "tr.change"@,
        RowShape::Positional => "tr"@,
    }
}

/// The rows of the results table of the page `html`, read in the layout
/// `shape`; none when the page has no results table or the table no body.
pub open spec fn page_rows(html: Seq<char>, shape: RowShape) -> Option<Seq<Seq<CellView>>> {
    table_rows_of(html, results_table(), "tbody"@, row_selector(shape), "td"@, "a"@, "href"@)
}

/// The batch of the listing page `html`; none when the page is malformed.
pub open spec fn listing_page(html: Seq<char>, shape: RowShape) -> Option<Seq<ItemView>> {
    match page_rows(html, shape) {
        Some(rows) => Some(listing(rows, shape)),
        None => None,
    }
}

/// A copy of an optional string.
fn clone_opt(o: &Option<String>) -> (r: Option<String>)
    ensures
        opt_chars(r) == opt_chars(*o),
{
    match o {
        Some(s) => Some(s.clone()),
        None => None,
    }
}

/// The table cells of rows as they were read.
fn cells_from_raw(raw: &Vec<Vec<RawCell>>) -> (r: Vec<Vec<TableCell>>)
    ensures
        rows_view(r@) == raw_rows_view(raw@),
{
    let mut out: Vec<Vec<TableCell>> = Vec::new();
    let mut i: usize = 0;
    while i < raw.len()
        invariant
            i <= raw@.len(),
            rows_view(out@) == raw_rows_view(raw@.take(i as int)),
        decreases raw@.len() - i,
    {
        let row = &raw[i];
        let mut cells: Vec<TableCell> = Vec::new();
        let mut k: usize = 0;
        while k < row.len()
            invariant
                k <= row@.len(),
                row_view(cells@) == row@.take(k as int).map_values(|c: RawCell| raw_cell_view(c)),
            decreases row@.len() - k,
        {
            let c = &row[k];
            let link = match &c.1 {
                Some(l) => Some(PageLink { text: clone_opt(&l.0), href: clone_opt(&l.1) }),
                None => None,
            };
            let cell = TableCell { inner_html: c.0.clone(), link };
            proof {
                assert(cell@ == raw_cell_view(*c));
            }
            let ghost before = cells@;
            cells.push(cell);
            proof {
                assert(row_view(cells@) =~= row_view(before).push(cell@));
                assert(row@.take(k + 1).map_values(|c: RawCell| raw_cell_view(c)) =~= row@.take(
                    k as int,
                ).map_values(|c: RawCell| raw_cell_view(c)).push(raw_cell_view(row@[k as int])));
            }
            k = k + 1;
        }
        proof {
            assert(row@.take(row@.len() as int) =~= row@);
        }
        let ghost before = out@;
        out.push(cells);
        proof {
            assert(rows_view(out@) =~= rows_view(before).push(row_view(cells@)));
            assert(raw_rows_view(raw@.take(i + 1)) =~= raw_rows_view(raw@.take(i as int)).push(
                raw@[i as int]@.map_values(|c: RawCell| raw_cell_view(c)),
            ));
        }
        i = i + 1;
    }
    proof {
        assert(raw@.take(raw@.len() as int) =~= raw@);
    }
    out
}

/// The results of a listing page, its rows read in the given layout. A page
/// without a results table, or whose table has no body, is malformed.
pub fn parse_search_results_with_shape(html: &str, shape: RowShape) -> (r: OperationResult<
    SubtitleSearchResults,
>)
    ensures
        listing_page(html@, shape) is None ==> r == Err::<SubtitleSearchResults, OperationError>(
            OperationError::HtmlParseError,
        ),
        listing_page(html@, shape) is Some ==> r is Ok && items_view(r->Ok_0@) == listing_page(
            html@,
            shape,
        )->0,
        r is Ok ==> r->Ok_0@.len() <= page_rows(html@, shape)->0.len(),
        r is Ok ==> page_type_of(html@) == PageType::MultipleOptions,
        r is Ok ==> forall|i: int|
            0 <= i < r->Ok_0@.len() ==> #[trigger] r->Ok_0@[i].index == i + 1,
{
    let row_sel: &str = match shape {
        RowShape::Marked => "tr.change",
        RowShape::Positional => "tr",
    };
    proof {
        assert(row_sel@ == row_selector(shape));
    }
    match table_rows(html, "#search_results", "tbody", row_sel, "td", "a", "href") {
        None => Err(OperationError::HtmlParseError),
        Some(raw) => {
            let rows = cells_from_raw(&raw);
            let items = extract_listing(&rows, shape);
            proof {
                let rv = rows_view(rows@);
                lemma_listing_numbered(rv, shape);
                lemma_listing_len(rv, shape);
                assert(items_view(items@).len() == items@.len());
                assert forall|i: int| 0 <= i < items@.len() implies #[trigger] items@[i].index
                    == i + 1 by {
                    assert(items_view(items@)[i] == items@[i]@);
                    assert(listing(rv, shape)[i].index == i + 1);
                }
            }
            Ok(items)
        },
    }
}

/// The results of a listing page whose data rows are marked as such.
pub fn parse_search_results(html: &str) -> (r: OperationResult<SubtitleSearchResults>)
    ensures
        listing_page(html@, RowShape::Marked) is None ==> r == Err::<
            SubtitleSearchResults,
            OperationError,
        >(OperationError::HtmlParseError),
        listing_page(html@, RowShape::Marked) is Some ==> r is Ok && items_view(r->Ok_0@)
            == listing_page(html@, RowShape::Marked)->0,
        r is Ok ==> r->Ok_0@.len() <= page_rows(html@, RowShape::Marked)->0.len(),
        r is Ok ==> page_type_of(html@) == PageType::MultipleOptions,
        r is Ok ==> forall|i: int|
            0 <= i < r->Ok_0@.len() ==> #[trigger] r->Ok_0@[i].index == i + 1,
{
    parse_search_results_with_shape(html, RowShape::Marked)
}

/// The one record of the single-item page `html` at address `url`; none
/// when the page has no heading.
pub open spec fn episode_page(html: Seq<char>, url: Seq<char>) -> Option<ItemView> {
    match first_match_inner(html, "h1"@) {
        Some(h) => Some(heading_item(h, url)),
        None => None,
    }
}

/// The one record of a single-item page at address `page_url`, read from the
/// page's first heading. A page without a heading is malformed.
pub fn parse_episode_page(html: &str, page_url: &str) -> (r: OperationResult<
    SubtitleSearchResults,
>)
    ensures
        episode_page(html@, page_url@) is None ==> r == Err::<
            SubtitleSearchResults,
            OperationError,
        >(OperationError::HtmlParseError),
        episode_page(html@, page_url@) is Some ==> r is Ok && r->Ok_0@.len() == 1 && r->Ok_0@[0]@
            == episode_page(html@, page_url@)->0,
{
    match first_match_inner_html(html, "h1") {
        None => Err(OperationError::HtmlParseError),
        Some(heading) => {
            let item = item_from_heading(heading.as_str(), page_url);
            let mut results: SubtitleSearchResults = Vec::new();
            results.push(item);
            Ok(results)
        },
    }
}

/// The download address of the single-item page `html`, joined to `base`
/// when one is given; none when the page has no download link or the link
/// has no target.
pub open spec fn download_page(html: Seq<char>, base: Option<Seq<char>>) -> Option<Seq<char>> {
    match first_match_attr(html, "a.bt-dwl.external"@, "href"@) {
        Some(Some(h)) => Some(download_url(h, base)),
        _ => None,
    }
}

/// The address of the subtitle download link of a single-item page, joined to
/// `base_url` when one is given. A page without the link, or whose link has no
/// target, is malformed.
pub fn get_sub_download_url_from_page(html: &str, base_url: Option<&str>) -> (r: OptionResult<
    String,
>)
    ensures
        download_page(html@, opt_str_view(base_url)) is None ==> r == Err::<
            Option<String>,
            OperationError,
        >(OperationError::HtmlParseError),
        download_page(html@, opt_str_view(base_url)) is Some ==> r is Ok && r->Ok_0 is Some
            && r->Ok_0->0@ == download_page(html@, opt_str_view(base_url))->0,
{
    match first_match_attribute(html, "a.bt-dwl.external", "href") {
        None => Err(OperationError::HtmlParseError),
        Some(None) => download_url_from_href(None, base_url),
        Some(Some(h)) => download_url_from_href(Some(h.as_str()), base_url),
    }
}

// ---------------------------------------------------------------------------
// Laws of whole pages
// ---------------------------------------------------------------------------

/// On a listing page whose table rows are all usable, the batch has one
/// record per row, in document order, numbered 1 to N.
pub proof fn lemma_listing_page_all_usable(html: Seq<char>, shape: RowShape)
    requires
        page_rows(html, shape) is Some,
        forall|i: int|
            0 <= i < page_rows(html, shape)->0.len() ==> row_usable(
                #[trigger] page_rows(html, shape)->0[i],
                shape,
            ),
    ensures
        listing_page(html, shape)->0.len() == page_rows(html, shape)->0.len(),
        forall|i: int|
            0 <= i < page_rows(html, shape)->0.len() ==> Some(#[trigger] listing_page(
                html,
                shape,
            )->0[i]) == row_item((i + 1) as nat, page_rows(html, shape)->0[i], shape),
{
    lemma_listing_all_usable(page_rows(html, shape)->0, shape);
}

/// Two reads of one single-item page under different addresses differ in
/// the address alone.
pub proof fn lemma_episode_page_address(html: Seq<char>, u1: Seq<char>, u2: Seq<char>)
    ensures
        episode_page(html, u1) is Some <==> episode_page(html, u2) is Some,
        episode_page(html, u1) is Some ==> episode_page(html, u2)->0 == (ItemView {
            details_url: u2,
            ..episode_page(html, u1)->0
        }),
{
}

} // verus!
