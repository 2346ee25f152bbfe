use opensubs_rs::{
    download_outcome, get_request_url, get_search_request_url, get_serial_season_search_url,
    login_outcome, search_outcome, OperationError, BASE_URL,
};

#[test]
fn season_search_url_is_built_from_its_parts() {
    assert_eq!(
        get_serial_season_search_url(BASE_URL, "adventure time", "rus,eng", 2),
        "https://www.opensubtitles.org/en/search/sublanguageid-rus,eng/moviename-adventure+time/season-2/SearchOnlyTVSeries-on"
    );
    assert_eq!(
        get_serial_season_search_url("http://h", "a b c", "rus", 10),
        "http://h/en/search/sublanguageid-rus/moviename-a+b+c/season-10/SearchOnlyTVSeries-on"
    );
    assert_eq!(
        get_serial_season_search_url("", "x", "l", 255),
        "/en/search/sublanguageid-l/moviename-x/season-255/SearchOnlyTVSeries-on"
    );
    assert_eq!(
        get_serial_season_search_url("", "x", "l", 0),
        "/en/search/sublanguageid-l/moviename-x/season-0/SearchOnlyTVSeries-on"
    );
}

#[test]
fn mask_search_url_is_built_from_its_parts() {
    let expected = "https://www.opensubtitles.org/ru/search2?MovieName=midnight+gospel&id=8&action=search&SubLanguageID=rus&SubLanguageID=rus,eng&Season=&Episode=&SubSumCD=&Genre=&MovieByteSize=&MovieLanguage=&MovieImdbRatingSign=1&MovieImdbRating=&MovieCountry=&MovieYearSign=1&MovieYear=&MovieFPS=&SubFormat=&SubAddDate=&Uploader=&IDUser=&Translator=&IMDBID=&MovieHash=&IDMovie=";
    assert_eq!(get_search_request_url(BASE_URL, "midnight gospel", "rus,eng"), expected);
    assert_eq!(get_request_url(BASE_URL, "midnight gospel", "rus,eng"), expected);
}

#[test]
fn login_outcome_tells_refusal_from_failure() {
    assert_eq!(login_outcome(false, true), Err(OperationError::Authentication));
    assert_eq!(login_outcome(false, false), Err(OperationError::Authentication));
    assert_eq!(login_outcome(true, false), Err(OperationError::Error));
    assert_eq!(login_outcome(true, true), Ok(()));
}

#[test]
fn search_outcome_maps_every_failure_to_a_general_error() {
    let page = "<table id=\"search_results\"><tbody><tr class=\"change\"><td><a href=\"/d\">Name</a> [S01E02]</td></tr></tbody></table>";
    assert!(matches!(search_outcome(false, Some(page)), Err(OperationError::Error)));
    assert!(matches!(search_outcome(true, None), Err(OperationError::Error)));
    assert!(matches!(search_outcome(true, Some("<p>nothing</p>")), Err(OperationError::Error)));
    let results = search_outcome(true, Some(page)).expect("results expected");
    assert_eq!(results.len(), 1);
    assert_eq!(results[0].title, "Name");
    assert_eq!(results[0].season, 1);
    assert_eq!(results[0].episode, 2);
}

#[test]
fn download_outcome_joins_the_base_address() {
    let page = "<a class=\"bt-dwl external\" href=\"/en/subtitleserve/sub/1\">Download</a>";
    assert!(matches!(download_outcome(false, Some(page), BASE_URL), Err(OperationError::Error)));
    assert!(matches!(download_outcome(true, None, BASE_URL), Err(OperationError::Error)));
    assert!(matches!(download_outcome(true, Some("<p></p>"), BASE_URL), Err(OperationError::Error)));
    assert_eq!(
        download_outcome(true, Some(page), BASE_URL).unwrap(),
        Some("https://www.opensubtitles.org/en/subtitleserve/sub/1".to_string())
    );
}

#[test]
fn errors_describe_themselves() {
    assert_eq!(OperationError::Error.message(), "General error");
    assert_eq!(OperationError::HtmlParseError.message(), "HTML parse error");
    assert_eq!(OperationError::Authentication.message(), "Invalid login or password");
}
