use opensubs_rs::{
    download_url_from_href, get_page_type, get_sub_download_url_from_page, item_from_heading,
    page_type_for, parse_episode_page, parse_search_results, OperationError, PageType,
};

/// A listing page like the site's: a results table whose data rows are marked.
fn series_search_results() -> String {
    let mut rows = String::new();
    rows.push_str("<tr class=\"head\"><th>Name</th><th>Added</th></tr>");
    rows.push_str(
        "<tr class=\"change even\" id=\"name7863206\"><td id=\"main7863206\"><strong><a class=\"bnone\" \
         href=\"https://www.opensubtitles.org/en/subtitles/7863206/adventure-time-bonnibel-bubblegum-ru\">\
         \"Adventure Time\" Bonnibel Bubblegum (2017)</a></strong><br/>[S10E04]<br/>Russian</td>\
         <td>01/01/2020</td></tr>",
    );
    for i in 2..=40 {
        rows.push_str(&format!(
            "<tr class=\"change odd\"><td><strong><a href=\"/en/subtitles/{i}/x\">Episode {i}</a></strong>\
             <br/>[S10E{i:02}]</td><td>x</td></tr>"
        ));
    }
    format!(
        "<html><body><div><table id=\"search_results\"><tbody>{rows}</tbody></table></div></body></html>"
    )
}

/// A single-item page like the site's.
fn season_page() -> String {
    "<html><body><div class=\"msg\"><h1>Adventure Time <span>Russian</span> subtitles S10E04</h1>\
     <a class=\"bt-dwl external\" href=\"/en/subtitleserve/sub/7863206\" rel=\"nofollow\">Download</a>\
     </div></body></html>"
        .to_string()
}

fn episode_page() -> String {
    "<html><body><h1>Midnight Gospel subtitles S01E02</h1><p>one episode</p></body></html>".to_string()
}

#[test]
fn results_should_contain_search_result_items() {
    let content = series_search_results();

    match parse_search_results(&content) {
        Ok(search_results) => {
            println!("{:?}", search_results);

            assert_eq!(search_results.len(), 40);

            let first_result = search_results.first()
                                            .expect("unable to get first search result");

            assert_eq!(first_result.index, 1);
            assert_eq!(first_result.title, "\"Adventure Time\" Bonnibel Bubblegum (2017)");
            assert_eq!(first_result.details_url, "https://www.opensubtitles.org/en/subtitles/7863206/adventure-time-bonnibel-bubblegum-ru");
            assert_eq!(first_result.season, 10);
            assert_eq!(first_result.episode, 4);
        }
        Err(_) => panic!("results expected")
    }
}

#[test]
fn parse_item_from_episode_page() {
    let content = season_page();

    let page_url: &str = "abc";

    match parse_episode_page(&content, page_url) {
        Ok(results) => {
            let item = results.first().unwrap();

            assert_eq!("Adventure Time Russian S10E04", item.title);
            assert_eq!(1, item.index);
            assert_eq!(10, item.season);
            assert_eq!(4, item.episode);
            assert_eq!(page_url, item.details_url);
        }
        Err(_) => panic!("results expected")
    }
}

#[test]
fn parse_item_from_episode_page_subtitles_word_should_be_removed() {
    let content = season_page();

    match parse_episode_page(&content, "xyz") {
        Ok(results) => {
            let item = results.first().unwrap();
            assert_eq!("Adventure Time Russian S10E04", item.title);
        }
        Err(_) => panic!("results expected")
    }
}

#[test]
fn parse_item_from_episode_page_season_and_episode_should_be_parsed_from_title() {
    let content = season_page();

    match parse_episode_page(&content, "whatever") {
        Ok(results) => {
            let item = results.first().unwrap();
            assert_eq!(10, item.season);
            assert_eq!(4, item.episode);
        }
        Err(_) => panic!("results expected")
    }
}

#[test]
fn parse_sub_download_url_from_episode_page() {
    let content = season_page();

    match get_sub_download_url_from_page(&content, None) {
        Ok(download_url) => {
            match download_url {
                Some(url) => assert_eq!("/en/subtitleserve/sub/7863206", url),
                None => panic!("url expected")
            }
        }
        Err(_) => panic!("results expected")
    }
}

#[test]
fn page_with_multiple_options() {
    let content = series_search_results();
    assert_eq!(get_page_type(&content), PageType::MultipleOptions)
}

#[test]
fn page_with_single_option() {
    let content = episode_page();
    assert_eq!(get_page_type(&content), PageType::SingleOption)
}

#[test]
fn page_type_follows_the_number_of_results_tables() {
    assert_eq!(page_type_for(0), PageType::SingleOption);
    assert_eq!(page_type_for(1), PageType::MultipleOptions);
    assert_eq!(page_type_for(3), PageType::MultipleOptions);
}

#[test]
fn heading_with_subtitles_word_gives_one_numbered_item() {
    let results = parse_episode_page(
        "<h1>Adventure Time subtitles S10E04</h1>",
        "https://example.org/page",
    )
    .expect("results expected");
    assert_eq!(results.len(), 1);
    assert_eq!(results[0].index, 1);
    assert_eq!(results[0].title, "Adventure Time S10E04");
    assert_eq!(results[0].season, 10);
    assert_eq!(results[0].episode, 4);
    assert_eq!(results[0].details_url, "https://example.org/page");
}

#[test]
fn heading_without_marker_has_zero_season_and_episode() {
    let item = item_from_heading("Tideland subtitles", "u");
    assert_eq!(item.title, "Tideland subtitles");
    assert_eq!(item.season, 0);
    assert_eq!(item.episode, 0);
}

#[test]
fn heading_marker_takes_the_last_one_of_its_line() {
    let item = item_from_heading("Show S01E02 and S03E04", "u");
    assert_eq!((item.season, item.episode), (3, 4));
    let item = item_from_heading("Show S01E02\nand S03E04", "u");
    assert_eq!((item.season, item.episode), (1, 2));
    let item = item_from_heading("Intro\nShow S05E06 S07E08\nS09E10", "u");
    assert_eq!((item.season, item.episode), (7, 8));
}

#[test]
fn heading_marker_reads_at_most_two_digits() {
    let item = item_from_heading("S1E123", "u");
    assert_eq!((item.season, item.episode), (1, 12));
    let item = item_from_heading("S123E4", "u");
    assert_eq!((item.season, item.episode), (0, 0));
    let item = item_from_heading("<b>S2</b>E3", "u");
    assert_eq!((item.season, item.episode), (2, 3));
}

#[test]
fn download_url_joins_the_base_when_given() {
    assert_eq!(
        download_url_from_href(Some("/x/y"), Some("https://example.org")),
        Ok(Some("https://example.org/x/y".to_string()))
    );
    assert_eq!(download_url_from_href(Some("/x/y"), None), Ok(Some("/x/y".to_string())));
    assert_eq!(download_url_from_href(None, Some("https://example.org")), Err(OperationError::HtmlParseError));
    let page = "<a class=\"bt-dwl external\" href=\"/x/y\">Download</a>";
    assert_eq!(
        get_sub_download_url_from_page(page, Some("https://example.org")),
        Ok(Some("https://example.org/x/y".to_string()))
    );
    assert_eq!(get_sub_download_url_from_page(page, None), Ok(Some("/x/y".to_string())));
}

#[test]
fn extractors_report_missing_elements() {
    let page = "<div><p>nothing to see</p></div>";
    assert!(matches!(parse_search_results(page), Err(OperationError::HtmlParseError)));
    assert!(matches!(parse_episode_page(page, "u"), Err(OperationError::HtmlParseError)));
    assert_eq!(get_sub_download_url_from_page(page, None), Err(OperationError::HtmlParseError));
    assert!(matches!(parse_search_results(""), Err(OperationError::HtmlParseError)));
    assert!(matches!(parse_episode_page("", "u"), Err(OperationError::HtmlParseError)));
    assert_eq!(get_sub_download_url_from_page("", None), Err(OperationError::HtmlParseError));
}

#[test]
fn download_link_without_target_is_malformed() {
    let page = "<a class=\"bt-dwl external\">Download</a>";
    assert_eq!(get_sub_download_url_from_page(page, None), Err(OperationError::HtmlParseError));
    let page = "<a class=\"bt-dwl\" href=\"/x\">Download</a>";
    assert_eq!(get_sub_download_url_from_page(page, None), Err(OperationError::HtmlParseError));
}

#[test]
fn heading_with_non_ascii_digit_reads_zero_for_that_number() {
    let results = parse_episode_page("<h1>Show S\u{661}E02</h1>", "u").expect("results expected");
    assert_eq!(results[0].title, "Show S\u{661}E02");
    assert_eq!((results[0].season, results[0].episode), (0, 2));
}

#[test]
fn two_reads_of_a_page_differ_in_address_only() {
    let a = parse_episode_page(&season_page(), "xyz").expect("results expected");
    let b = parse_episode_page(&season_page(), "whatever").expect("results expected");
    assert_eq!(a[0].title, b[0].title);
    assert_eq!((a[0].index, a[0].season, a[0].episode), (b[0].index, b[0].season, b[0].episode));
    assert_eq!(b[0].details_url, "whatever");
}
