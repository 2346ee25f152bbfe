//! Request addresses for the site's search pages, and what a finished
//! request amounts to.
use vstd::prelude::*;

use crate::domain::{OperationError, OperationResult, OptionResult, SubtitleSearchResults, items_view};
use crate::listing::RowShape;
use crate::parser::{download_page, get_sub_download_url_from_page, listing_page, parse_search_results};
use crate::text::{chars_of, replace_all, replace_all_exec, string_of};

verus! {

/// Digit characters by value.
pub open spec fn digit_char(d: nat) -> char {
    seq!['0', '1', '2', '3', '4', '5', '6', '7', '8', '9'][d as int]
}

/// The decimal notation of `n`.
pub open spec fn decimal(n: nat) -> Seq<char>
    decreases n,
{
    if n < 10 {
        seq![digit_char(n)]
    } else {
        decimal(n / 10).push(digit_char(n % 10))
    }
}

/// A search mask as it stands in an address: spaces become `+`.
pub open spec fn url_mask(mask: Seq<char>) -> Seq<char> {
    replace_all(mask, seq![' '], seq!['+'])
}

/// The address of a search for series subtitles of one season.
pub open spec fn season_search_url(
    base: Seq<char>,
    mask: Seq<char>,
    langs: Seq<char>,
    season: nat,
) -> Seq<char> {
    base + "/en/search/sublanguageid-"@ + langs + "/moviename-"@ + url_mask(mask) + "/season-"@
        + decimal(season) + "/SearchOnlyTVSeries-on"@
}

/// The address of a search by mask.
pub open spec fn mask_search_url(base: Seq<char>, mask: Seq<char>, langs: Seq<char>) -> Seq<
    char,
> {
    base + "/ru/search2?MovieName="@ + url_mask(mask)
        + "&id=8&action=search&SubLanguageID=rus&SubLanguageID="@ + langs
        + "&Season=&Episode=&SubSumCD=&Genre=&MovieByteSize=&MovieLanguage=&MovieImdbRatingSign=1&MovieImdbRating=&MovieCountry=&MovieYearSign=1&MovieYear=&MovieFPS=&SubFormat=&SubAddDate=&Uploader=&IDUser=&Translator=&IMDBID=&MovieHash=&IDMovie="@
}

fn digit_exec(d: u8) -> (r: char)
    requires
        d < 10,
    ensures
        r == digit_char(d as nat),
{
    let digits: Vec<char> = vec!['0', '1', '2', '3', '4', '5', '6', '7', '8', '9'];
    proof {
        assert(digits@ =~= seq!['0', '1', '2', '3', '4', '5', '6', '7', '8', '9']);
    }
    digits[d as usize]
}

/// The decimal notation of `n`.
fn decimal_exec(n: u8) -> (r: Vec<char>)
    ensures
        r@ == decimal(n as nat),
{
    let mut out: Vec<char> = Vec::new();
    if n >= 100 {
        out.push(digit_exec(n / 100));
    }
    if n >= 10 {
        out.push(digit_exec((n / 10) % 10));
    }
    out.push(digit_exec(n % 10));
    proof {
        let m = n as nat;
        if m >= 100 {
            assert(decimal(m / 100) == seq![digit_char(m / 100)]);
            assert((m / 10) / 10 == m / 100);
            assert(decimal(m / 10) == decimal(m / 100).push(digit_char((m / 10) % 10)));
            assert(out@ =~= decimal(m));
        } else if m >= 10 {
            assert(decimal(m / 10) == seq![digit_char(m / 10)]);
            assert(out@ =~= decimal(m));
        } else {
            assert(out@ =~= decimal(m));
        }
    }
    out
}

/// Appends the characters of `s` to `out`.
fn push_str(out: &mut Vec<char>, s: &str)
    ensures
        final(out)@ == old(out)@ + s@,
{
    let mut more = chars_of(s);
    out.append(&mut more);
}

/// The search mask with its spaces made `+`.
fn mask_chars(mask: &str) -> (r: Vec<char>)
    ensures
        r@ == url_mask(mask@),
{
    let space: Vec<char> = vec![' '];
    let plus: Vec<char> = vec!['+'];
    proof {
        assert(space@ =~= seq![' ']);
        assert(plus@ =~= seq!['+']);
    }
    replace_all_exec(&chars_of(mask), &space, &plus)
}

/// The address of a search for subtitles in the languages `sub_langs` of the
/// series matching `search_mask`, in the given season.
pub fn get_serial_season_search_url(
    base_url: &str,
    search_mask: &str,
    sub_langs: &str,
    season: u8,
) -> (r: String)
    ensures
        r@ == season_search_url(base_url@, search_mask@, sub_langs@, season as nat),
{
    let mut out = chars_of(base_url);
    push_str(&mut out, "/en/search/sublanguageid-");
    push_str(&mut out, sub_langs);
    push_str(&mut out, "/moviename-");
    let mut mask = mask_chars(search_mask);
    out.append(&mut mask);
    push_str(&mut out, "/season-");
    let mut number = decimal_exec(season);
    out.append(&mut number);
    push_str(&mut out, "/SearchOnlyTVSeries-on");
    string_of(out.as_slice())
}

/// The address of a search for subtitles in the languages `language` of
/// titles matching `search_mask`.
pub fn get_search_request_url(base_url: &str, search_mask: &str, language: &str) -> (r: String)
    ensures
        r@ == mask_search_url(base_url@, search_mask@, language@),
{
    let mut out = chars_of(base_url);
    push_str(&mut out, "/ru/search2?MovieName=");
    let mut mask = mask_chars(search_mask);
    out.append(&mut mask);
    push_str(&mut out, "&id=8&action=search&SubLanguageID=rus&SubLanguageID=");
    push_str(&mut out, language);
    push_str(
        &mut out,
        "&Season=&Episode=&SubSumCD=&Genre=&MovieByteSize=&MovieLanguage=&MovieImdbRatingSign=1&MovieImdbRating=&MovieCountry=&MovieYearSign=1&MovieYear=&MovieFPS=&SubFormat=&SubAddDate=&Uploader=&IDUser=&Translator=&IMDBID=&MovieHash=&IDMovie=",
    );
    string_of(out.as_slice())
}

/// The address of a search by mask; the same as [`get_search_request_url`].
pub fn get_request_url(base_url: &str, search_mask: &str, language: &str) -> (r: String)
    ensures
        r@ == mask_search_url(base_url@, search_mask@, language@),
{
    get_search_request_url(base_url, search_mask, language)
}

// ---------------------------------------------------------------------------
// Outcomes of requests
// ---------------------------------------------------------------------------

/// What a login request amounts to: refused credentials when the server did
/// not answer with success, a general error when its answer could not be read.
pub fn login_outcome(status_ok: bool, body_read: bool) -> (r: Result<(), OperationError>)
    ensures
        !status_ok ==> r == Err::<(), OperationError>(OperationError::Authentication),
        status_ok && !body_read ==> r == Err::<(), OperationError>(OperationError::Error),
        status_ok && body_read ==> r is Ok,
{
    if !status_ok {
        Err(OperationError::Authentication)
    } else if !body_read {
        Err(OperationError::Error)
    } else {
        Ok(())
    }
}

/// The results of a search request, from whether the server answered with
/// success and the page it sent (none when it could not be read). Every
/// failure, malformed pages included, is a general error.
pub fn search_outcome(status_ok: bool, body: Option<&str>) -> (r: OperationResult<
    SubtitleSearchResults,
>)
    ensures
        !status_ok || body is None ==> r == Err::<SubtitleSearchResults, OperationError>(
            OperationError::Error,
        ),
        status_ok && body is Some && listing_page(body->0@, RowShape::Marked) is None ==> r
            == Err::<SubtitleSearchResults, OperationError>(OperationError::Error),
        status_ok && body is Some && listing_page(body->0@, RowShape::Marked) is Some ==> r is Ok
            && items_view(r->Ok_0@) == listing_page(body->0@, RowShape::Marked)->0,
        r is Ok ==> forall|i: int|
            0 <= i < r->Ok_0@.len() ==> #[trigger] r->Ok_0@[i].index == i + 1,
{
    if !status_ok {
        return Err(OperationError::Error);
    }
    match body {
        None => Err(OperationError::Error),
        Some(html) => match parse_search_results(html) {
            Ok(results) => Ok(results),
            Err(_) => Err(OperationError::Error),
        },
    }
}

/// The download address found on a fetched page, joined to `base_url`. Every
/// failure, malformed pages included, is a general error.
pub fn download_outcome(status_ok: bool, body: Option<&str>, base_url: &str) -> (r: OptionResult<
    String,
>)
    ensures
        !status_ok || body is None ==> r == Err::<Option<String>, OperationError>(
            OperationError::Error,
        ),
        status_ok && body is Some && download_page(body->0@, Some(base_url@)) is None ==> r
            == Err::<Option<String>, OperationError>(OperationError::Error),
        status_ok && body is Some && download_page(body->0@, Some(base_url@)) is Some ==> r is Ok
            && r->Ok_0 is Some && r->Ok_0->0@ == download_page(body->0@, Some(base_url@))->0,
{
    if !status_ok {
        return Err(OperationError::Error);
    }
    match body {
        None => Err(OperationError::Error),
        Some(html) => match get_sub_download_url_from_page(html, Some(base_url)) {
            Ok(url) => Ok(url),
            Err(_) => Err(OperationError::Error),
        },
    }
}

} // verus!
