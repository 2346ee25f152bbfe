use opensubs_rs::strip_html_tags;

#[test]
fn html_tags_should_be_remove_from_string() {
    assert_eq!(
        strip_html_tags("Some text <span class=\"brackets-pair3000\">with</span> tags."),
        "Some text with tags."
    );
    assert_eq!(
        strip_html_tags("Hi<br>How about multiple tags?<span>*</span>"),
        "HiHow about multiple tags?*"
    );
    assert_eq!(
        strip_html_tags("How <span style=\"font-size: 12px\">about</span> html-attributes?"),
        "How about html-attributes?"
    );
    assert_eq!(
        strip_html_tags("How&nbsp;about&nbsp;special&nbsp;combinations?"),
        "How about special combinations?"
    );
    assert_eq!(
        strip_html_tags("12.45&nbsp;GB ↓"),
        "12.45 GB ↓"
    );
    assert_eq!(
        strip_html_tags("12.45\u{a0}GB ↓"),
        "12.45 GB ↓"
    );

    assert_eq!(
        strip_html_tags("<a data-topic_id=\"2510633\" class=\"med tLink ts-text hl-tags bold\" href=\"https://rutracker.org/forum/viewtopic.php?t=2510633\">Терминатор: Хроники Сары Коннор / Битва за будущее / Terminator: The Sarah Connor Chronicles / Сезон: 2 / Серии: 1-22 <span class=\"brackets-pair\">(22)</span> <span class=\"brackets-pair\">[2008, США, фантастика, боевик, драма, BDRemux 1080p]</span> MVO <span class=\"brackets-pair\">(DD 5.<wbr>1 LostFilm)</span></a>"),
        "Терминатор: Хроники Сары Коннор / Битва за будущее / Terminator: The Sarah Connor Chronicles / Сезон: 2 / Серии: 1-22 (22) [2008, США, фантастика, боевик, драма, BDRemux 1080p] MVO (DD 5.1 LostFilm)"
    );
}

#[test]
fn normalize_removes_tags_of_several_kinds() {
    assert_eq!(
        strip_html_tags("Hi<br>How about multiple tags?<span>*</span>"),
        "HiHow about multiple tags?*"
    );
}

#[test]
fn normalize_replaces_nbsp_entities() {
    assert_eq!(
        strip_html_tags("How&nbsp;about&nbsp;special&nbsp;combinations?"),
        "How about special combinations?"
    );
}

#[test]
fn normalize_twice_is_normalize_once() {
    let samples = [
        "Some text <span class=\"x\">with</span> tags.",
        "a&nbsp;b\u{a0}c",
        "&nb<b>sp;",
        "plain text",
        "",
        "< not a tag >",
        "x </ y>",
    ];
    for s in samples.iter() {
        let once = strip_html_tags(s);
        assert_eq!(strip_html_tags(&once), once);
    }
}

#[test]
fn normalize_joins_entity_split_by_a_tag() {
    assert_eq!(strip_html_tags("&nb<b>sp;"), " ");
}

#[test]
fn normalize_strips_tags_that_a_removal_uncovers() {
    assert_eq!(strip_html_tags("<<b>i>"), "");
    assert_eq!(strip_html_tags("<<b>b>"), "");
    assert_eq!(strip_html_tags("<&nbsp;b>x"), "x");
    assert_eq!(strip_html_tags("<</a>a>text"), "text");
    let once = strip_html_tags("a<<b>i>b");
    assert_eq!(once, "ab");
    assert_eq!(strip_html_tags(&once), once);
}

#[test]
fn normalize_keeps_text_that_is_no_tag() {
    assert_eq!(strip_html_tags("1 < 2"), "1 < 2");
    assert_eq!(strip_html_tags("a < b and c > d"), "a  d");
    assert_eq!(strip_html_tags("</>"), "</>");
    assert_eq!(strip_html_tags("< span>x</span>"), "x");
    assert_eq!(strip_html_tags("</c++>"), "");
    assert_eq!(strip_html_tags("<b"), "<b");
}

#[test]
fn normalize_of_empty_text_is_empty() {
    assert_eq!(strip_html_tags(""), "");
}
