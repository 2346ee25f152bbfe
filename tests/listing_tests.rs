use opensubs_rs::{
    extract_listing, item_from_row, parse_search_results, parse_search_results_with_shape,
    PageLink, RowShape, TableCell,
};

fn linked_cell(html: &str, text: Option<&str>, href: Option<&str>) -> TableCell {
    TableCell {
        inner_html: html.to_string(),
        link: Some(PageLink {
            text: text.map(|t| t.to_string()),
            href: href.map(|h| h.to_string()),
        }),
    }
}

fn plain_cell(html: &str) -> TableCell {
    TableCell { inner_html: html.to_string(), link: None }
}

fn listing_page(rows: &[&str]) -> String {
    format!(
        "<table id=\"search_results\"><tbody>{}</tbody></table>",
        rows.concat()
    )
}

#[test]
fn every_valid_row_gives_one_item_numbered_in_order() {
    let rows: Vec<Vec<TableCell>> = (0..5)
        .map(|i| {
            let name = format!("Title {i}");
            vec![linked_cell(&format!("<a>{name}</a>"), Some(&name), Some("/d"))]
        })
        .collect();
    let items = extract_listing(&rows, RowShape::Marked);
    assert_eq!(items.len(), 5);
    for (k, item) in items.iter().enumerate() {
        assert_eq!(item.index, k + 1);
        assert_eq!(item.title, format!("Title {k}"));
    }
}

#[test]
fn short_rows_are_left_out_without_moving_the_numbering() {
    let rows = vec![
        vec![linked_cell("<a>First</a>", Some("First"), Some("/1"))],
        vec![linked_cell("<a>x</a>", Some("x"), Some("/2"))],
        vec![linked_cell("<a></a>", Some(""), Some("/3"))],
        vec![linked_cell("<a>Last</a>", Some("Last"), Some("/4"))],
    ];
    let items = extract_listing(&rows, RowShape::Marked);
    assert_eq!(items.len(), 2);
    assert_eq!((items[0].index, items[0].title.as_str()), (1, "First"));
    assert_eq!((items[1].index, items[1].title.as_str(), items[1].details_url.as_str()), (2, "Last", "/4"));
}

#[test]
fn rows_without_usable_title_cell_are_skipped() {
    let rows = vec![
        vec![plain_cell("no link here")],
        vec![linked_cell("<a><img/></a> text", None, Some("/no-text"))],
        vec![],
        vec![plain_cell("first"), linked_cell("<a>Kept</a>", Some("Kept"), None)],
    ];
    let items = extract_listing(&rows, RowShape::Marked);
    assert_eq!(items.len(), 1);
    assert_eq!(items[0].index, 1);
    assert_eq!(items[0].title, "Kept");
    assert_eq!(items[0].details_url, "");
}

#[test]
fn empty_table_gives_empty_batch() {
    let items = extract_listing(&Vec::new(), RowShape::Marked);
    assert!(items.is_empty());
    let page = listing_page(&[]);
    assert_eq!(parse_search_results(&page).map(|v| v.len()), Ok(0));
}

#[test]
fn bracket_marker_gives_season_and_episode() {
    let row = vec![linked_cell("<a>Show</a><br/>[S01E08]", Some("Show"), Some("/s"))];
    let item = item_from_row(3, &row, RowShape::Marked).expect("item expected");
    assert_eq!((item.index, item.season, item.episode), (3, 1, 8));
    let row = vec![linked_cell("<a>Show</a> S01E08", Some("Show"), Some("/s"))];
    let item = item_from_row(1, &row, RowShape::Marked).expect("item expected");
    assert_eq!((item.season, item.episode), (0, 0));
    let row = vec![linked_cell("<a>Show</a> [S1E2] [S3E4] [S123E5]", Some("Show"), None)];
    let item = item_from_row(1, &row, RowShape::Marked).expect("item expected");
    assert_eq!((item.season, item.episode), (1, 2));
    let row = vec![linked_cell("<a>Show</a> [S123E5] [S99E99]", Some("Show"), None)];
    let item = item_from_row(1, &row, RowShape::Marked).expect("item expected");
    assert_eq!((item.season, item.episode), (99, 99));
}

#[test]
fn link_text_newlines_become_spaces() {
    let row = vec![linked_cell("<a>Two\nlines</a>", Some("Two\nlines"), Some("/t"))];
    let item = item_from_row(1, &row, RowShape::Marked).expect("item expected");
    assert_eq!(item.title, "Two lines");
}

#[test]
fn positional_rows_read_title_year_and_marker_from_lines() {
    let rows = vec![
        vec![plain_cell("1"), linked_cell("<a href=\"/m\">Movie</a>\n(2005)\n[S02E03]", Some("Movie"), Some("/m"))],
        vec![plain_cell("2"), plain_cell("Other\nsometime")],
        vec![plain_cell("3"), plain_cell("Alone")],
        vec![plain_cell("only one cell")],
        vec![plain_cell("4"), plain_cell(" ")],
    ];
    let items = extract_listing(&rows, RowShape::Positional);
    assert_eq!(items.len(), 3);
    assert_eq!(items[0].title, "Movie (2005)");
    assert_eq!(items[0].details_url, "/m");
    assert_eq!((items[0].season, items[0].episode), (2, 3));
    assert_eq!(items[1].title, "Other (sometime)");
    assert_eq!((items[1].index, items[1].season, items[1].episode), (2, 0, 0));
    assert_eq!(items[2].title, "Alone ()");
    assert_eq!(items[2].index, 3);
}

#[test]
fn positional_year_keeps_only_the_digits() {
    let row = vec![plain_cell("1"), plain_cell("Film\nreleased (1999) again (2001)")];
    let item = item_from_row(1, &row, RowShape::Positional).expect("item expected");
    assert_eq!(item.title, "Film (2001)");
}

#[test]
fn listing_documents_are_read_in_both_layouts() {
    let page = listing_page(&[
        "<tr class=\"change\"><td><a href=\"/a\">Alpha</a> [S01E01]</td></tr>",
        "<tr class=\"change\"><td><a href=\"/b\">Beta</a></td></tr>",
        "<tr><td><a href=\"/c\">Unmarked</a></td></tr>",
        "<tr class=\"change\"><td>x</td><td><a href=\"/d\">Delta</a> [S02E05]</td></tr>",
    ]);
    let marked = parse_search_results(&page).expect("results expected");
    assert_eq!(marked.len(), 3);
    assert_eq!((marked[0].index, marked[0].title.as_str(), marked[0].season), (1, "Alpha", 1));
    assert_eq!((marked[1].index, marked[1].title.as_str()), (2, "Beta"));
    assert_eq!((marked[2].index, marked[2].title.as_str(), marked[2].details_url.as_str()), (3, "Delta", "/d"));
    assert_eq!((marked[2].season, marked[2].episode), (2, 5));

    let positional = parse_search_results_with_shape(&page, RowShape::Positional).expect("results expected");
    assert_eq!(positional.len(), 1);
    assert_eq!(positional[0].title, "Delta [S02E05] ()");
    assert_eq!(positional[0].index, 1);
}

#[test]
fn table_without_body_is_malformed() {
    let page = "<div id=\"search_results\"><p>no table body</p></div>";
    assert!(parse_search_results(page).is_err());
}

#[test]
fn non_ascii_digits_match_but_read_as_zero() {
    let row = vec![linked_cell("<a>Show</a> [S\u{661}\u{662}E05]", Some("Show"), None)];
    let item = item_from_row(1, &row, RowShape::Marked).expect("item expected");
    assert_eq!((item.season, item.episode), (0, 5));
    let row = vec![plain_cell("1"), plain_cell("Film\n(\u{662}\u{660}\u{660}\u{665})")];
    let item = item_from_row(1, &row, RowShape::Positional).expect("item expected");
    assert_eq!(item.title, "Film (\u{662}\u{660}\u{660}\u{665})");
}

#[test]
fn skipped_rows_consume_no_index_on_a_page() {
    let page = "<table id='search_results'><tbody><tr class='change'><td></td></tr><tr class='change'><td><a href='/a'>Aa</a></td></tr><tr class='change'><td>x</td></tr><tr class='change'><td><a href='/b'>Bb</a></td></tr></tbody></table>";
    let items = parse_search_results(page).expect("results expected");
    assert_eq!(items.len(), 2);
    assert_eq!((items[0].index, items[0].title.as_str(), items[0].details_url.as_str()), (1, "Aa", "/a"));
    assert_eq!((items[1].index, items[1].title.as_str(), items[1].details_url.as_str()), (2, "Bb", "/b"));
    assert_eq!((items[1].season, items[1].episode), (0, 0));
}

#[test]
fn page_rows_give_marker_numbers_or_zeros() {
    let page = "<table id='search_results'><tbody><tr class='change'><td><a href='/d'>Show [S01E08]</a></td></tr></tbody></table>";
    let items = parse_search_results(page).expect("results expected");
    assert_eq!((items[0].title.as_str(), items[0].season, items[0].episode), ("Show [S01E08]", 1, 8));
    let page = "<table id='search_results'><tbody><tr class='change'><td><a href='/m'>Tideland (2005)</a></td></tr></tbody></table>";
    let items = parse_search_results(page).expect("results expected");
    assert_eq!((items[0].title.as_str(), items[0].season, items[0].episode), ("Tideland (2005)", 0, 0));
}
