//! Extraction of subtitle search results from the pages of a subtitle site:
//! page classification, text normalization, and the records of listing and
//! single-item pages, together with the site's request addresses.
use vstd::prelude::*;

pub mod domain;
mod html;
pub mod listing;
pub mod markers;
pub mod parser;
pub mod requests;
pub mod text;

pub use crate::domain::{
    OperationError,
    OperationResult,
    OptionResult,
    SubtitleSearchResultItem,
    SubtitleSearchResults,
};
pub use crate::listing::{PageLink, RowShape, TableCell, extract_listing, item_from_row};
pub use crate::parser::{
    PageType,
    download_url_from_href,
    get_page_type,
    get_sub_download_url_from_page,
    item_from_heading,
    page_type_for,
    parse_episode_page,
    parse_search_results,
    parse_search_results_with_shape,
};
pub use crate::requests::{
    download_outcome,
    get_request_url,
    get_search_request_url,
    get_serial_season_search_url,
    login_outcome,
    search_outcome,
};
pub use crate::text::strip_html_tags;

verus! {

/// Address of the subtitle site.
pub const BASE_URL: &'static str = "https://www.opensubtitles.org";

} // verus!
