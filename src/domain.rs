//! The records that extraction produces, and the library's error type.
use vstd::prelude::*;

verus! {

/// One located subtitle entry.
#[derive(Clone, Debug)]
pub struct SubtitleSearchResultItem {
    /// Position within the batch it was extracted in, from 1.
    pub index: usize,
    pub title: String,
    /// Link to the entry's own page; empty when the source gives none.
    pub details_url: String,
    /// Season number; 0 when none was found.
    pub season: u8,
    /// Episode number; 0 when none was found.
    pub episode: u16,
}

/// The mathematical value of a result record.
pub struct ItemView {
    pub index: nat,
    pub title: Seq<char>,
    pub details_url: Seq<char>,
    pub season: u8,
    pub episode: u16,
}

impl View for SubtitleSearchResultItem {
    type V = ItemView;

    open spec fn view(&self) -> ItemView {
        ItemView {
            index: self.index as nat,
            title: self.title@,
            details_url: self.details_url@,
            season: self.season,
            episode: self.episode,
        }
    }
}

/// A batch of results, in document order.
pub type SubtitleSearchResults = Vec<SubtitleSearchResultItem>;

/// The values of a batch of results.
pub open spec fn items_view(v: Seq<SubtitleSearchResultItem>) -> Seq<ItemView> {
    v.map_values(|i: SubtitleSearchResultItem| i@)
}

pub open spec fn opt_item_view(o: Option<SubtitleSearchResultItem>) -> Option<ItemView> {
    match o {
        Some(i) => Some(i@),
        None => None,
    }
}

/// What can go wrong in an operation of the library.
#[derive(PartialEq, Eq, Structural, Debug, Clone, Copy)]
pub enum OperationError {
    /// A general failure.
    Error,
    /// The document lacks an element that the extraction needs.
    HtmlParseError,
    /// Invalid login or password.
    Authentication,
}

impl OperationError {
    /// A short description of the error.
    pub fn message(&self) -> (r: String)
        ensures
            *self == OperationError::Error ==> r@ == "General error"@,
            *self == OperationError::HtmlParseError ==> r@ == "HTML parse error"@,
            *self == OperationError::Authentication ==> r@ == "Invalid login or password"@,
    {
        match self {
            OperationError::Error => String::from_str("General error"),
            OperationError::HtmlParseError => String::from_str("HTML parse error"),
            OperationError::Authentication => String::from_str("Invalid login or password"),
        }
    }
}

pub type OperationResult<R> = Result<R, OperationError>;

pub type OptionResult<R> = Result<Option<R>, OperationError>;

} // verus!
