use web_archive::html::{
    anchors_from_rows, attribute_of, curated_from_matches, domain_links, foreign_links,
    listed_texts, metas_from_rows, sources_from_rows, split_strings, stylesheets_from_rows,
    HtmlRecord, EMAIL_PATTERN, PHONE_PATTERN, TIMESTAMP_FORMAT,
};

fn page(origin: &str, body: &str) -> HtmlRecord {
    HtmlRecord::with_timestamp(
        origin.to_string(),
        body.to_string(),
        "01-02-2024-10:20:30".to_string(),
    )
}

fn strings(items: &[&str]) -> Option<Vec<String>> {
    Some(items.iter().map(|s| s.to_string()).collect())
}

fn pairs(items: &[(&str, &str)]) -> Option<Vec<(String, String)>> {
    Some(items.iter().map(|(a, b)| (a.to_string(), b.to_string())).collect())
}

const LINKS: &str = r##"<html><body>
<a href="/about">About</a>
<a href="https://other.com">Ext</a>
<a href="contact.html">Contact</a>
<a href="/about">About again</a>
<a href="https://example.com/logo.png">Logo</a>
<a href="https://other.com/movie.webm">Movie</a>
<a href="mailto:someone@example.com">Mail</a>
<a name="top">No target</a>
<a href="http://example.com/thread/7?page=2">Thread</a>
</body></html>"##;

#[test]
fn record_keeps_what_it_is_given() {
    let record = page("https://example.com/", "<p>hi</p>");
    assert_eq!(record.origin, "https://example.com/");
    assert_eq!(record.body, "<p>hi</p>");
    assert_eq!(record.date_time, "01-02-2024-10:20:30");
}

#[test]
fn new_record_is_stamped_with_the_moment() {
    let record = HtmlRecord::new("https://example.com/".to_string(), "<p>hi</p>".to_string());
    assert_eq!(record.origin, "https://example.com/");
    assert_eq!(record.body, "<p>hi</p>");
    let stamp: Vec<char> = record.date_time.chars().collect();
    assert_eq!(stamp.len(), 19);
    for (i, c) in stamp.iter().enumerate() {
        match i {
            2 | 5 | 10 => assert_eq!(*c, '-'),
            13 | 16 => assert_eq!(*c, ':'),
            _ => assert!(c.is_ascii_digit()),
        }
    }
}

#[test]
fn anchors_lists_each_target_once_in_order() {
    let record = page("https://example.com/blog/post", LINKS);
    assert_eq!(
        record.anchors(),
        strings(&[
            "https://example.com/about",
            "https://other.com",
            "https://example.com/contact.html",
            "https://example.com/logo.png",
            "https://other.com/movie.webm",
            "mailto:someone@example.com",
            "http://example.com/thread/7?page=2",
        ])
    );
}

#[test]
fn anchors_of_a_page_without_links_are_absent() {
    assert_eq!(page("https://example.com/", "<p>nothing here</p>").anchors(), None);
    assert_eq!(page("https://example.com/", "").anchors(), None);
    assert_eq!(page("https://example.com/", "<a>no href</a>").domain_anchors(), None);
    assert_eq!(page("https://example.com/", "<a>no href</a>").non_domain_anchors(), None);
}

#[test]
fn anchors_on_an_unusable_origin_keep_only_absolute_links() {
    let record = page("nowhere", LINKS);
    assert_eq!(
        record.anchors(),
        strings(&[
            "https://other.com",
            "https://example.com/logo.png",
            "https://other.com/movie.webm",
            "mailto:someone@example.com",
            "http://example.com/thread/7?page=2",
        ])
    );
    assert_eq!(record.domain_anchors(), None);
}

#[test]
fn domain_anchors_stay_on_the_host() {
    let record = page("https://example.com/blog/post", LINKS);
    assert_eq!(
        record.domain_anchors(),
        strings(&[
            "https://example.com/about",
            "https://example.com/contact.html",
            "http://example.com/thread/7?page=2",
        ])
    );
}

#[test]
fn non_domain_anchors_lead_away() {
    let record = page("https://example.com/blog/post", LINKS);
    assert_eq!(record.non_domain_anchors(), strings(&["https://other.com"]));
}

#[test]
fn domain_and_non_domain_anchors_part_the_page_links() {
    let record = page("https://example.com/blog/post", LINKS);
    let home = record.domain_anchors().unwrap();
    let away = record.non_domain_anchors().unwrap();
    let all = record.anchors().unwrap();
    for link in &home {
        assert!(!away.contains(link));
    }
    for link in &all {
        let page_link = HtmlRecord::is_http(link) && !HtmlRecord::has_extension(link);
        assert_eq!(home.contains(link) || away.contains(link), page_link, "{link}");
    }
    for link in home.iter().chain(away.iter()) {
        assert!(all.contains(link));
    }
}

#[test]
fn curated_anchors_follow_a_pattern() {
    let record = page("https://example.com/blog/post", LINKS);
    assert_eq!(
        record.anchors_curate(r"/thread/\d+"),
        strings(&["http://example.com/thread/7?page=2"])
    );
    assert_eq!(
        record.anchors_curate(r"other\.com"),
        strings(&["https://other.com"])
    );
    assert_eq!(
        record.anchors_curate("^mailto:"),
        strings(&["mailto:someone@example.com"])
    );
    assert_eq!(record.anchors_curate(r"logo\.png$"), None);
    assert_eq!(record.anchors_curate("no such link"), None);
}

#[test]
fn curated_anchors_with_an_invalid_pattern_are_absent() {
    let record = page("https://example.com/blog/post", LINKS);
    assert_eq!(record.anchors_curate("("), None);
    assert_eq!(record.anchors_curate("[a-"), None);
}

#[test]
fn tag_text_strips_breaks_and_trims() {
    let record = page(
        "https://example.com/",
        "<p>\n\tHello  world \n</p><p>\n\t\n</p><p>  </p><p>second</p><div>other</div>",
    );
    assert_eq!(record.tag_text("p"), strings(&["Hello  world", "", "second"]));
    assert_eq!(record.tag_text("div"), strings(&["other"]));
    assert_eq!(record.tag_text("span"), None);
    assert_eq!(record.tag_text("p >"), None);
}

#[test]
fn tag_text_gathers_nested_text() {
    let record = page("https://example.com/", "<ul><li>one <b>two</b></li><li>three</li></ul>");
    assert_eq!(record.tag_text("li"), strings(&["one two", "three"]));
    assert_eq!(record.tag_text("ul > li > b"), strings(&["two"]));
}

#[test]
fn tag_html_gives_the_markup() {
    let record = page("https://example.com/", "<p class=\"x\">a<b>b</b></p><p>c</p>");
    assert_eq!(record.tag_html("p"), strings(&["<p class=\"x\">a<b>b</b></p>", "<p>c</p>"]));
    assert_eq!(record.tag_html("b"), strings(&["<b>b</b>"]));
    assert_eq!(record.tag_html("i"), None);
    assert_eq!(record.tag_html("]["), None);
}

#[test]
fn meta_table_keys_and_values() {
    let record = page(
        "https://example.com/",
        r#"<head><meta name="keywords" content="a,b, c"><meta name="robots"><meta name="keywords" content="later"><meta content="text/html; charset=utf-8"></head>"#,
    );
    let table = record.html_meta().unwrap();
    assert_eq!(table.entries.len(), 4);
    assert_eq!(table.get("keywords"), Some(&vec!["later".to_string()]));
    assert_eq!(table.get("robots"), Some(&vec!["none".to_string()]));
    assert_eq!(
        table.get("Content-Type"),
        Some(&vec!["text/html; charset=utf-8".to_string()])
    );
    assert_eq!(table.get("missing"), None);
    assert_eq!(table.entries[0].1, vec!["a".to_string(), "b".to_string(), " c".to_string()]);
}

#[test]
fn meta_without_name_or_content() {
    let record = page("https://example.com/", r#"<meta charset="utf-8">"#);
    let table = record.html_meta().unwrap();
    assert_eq!(table.get("Content-Type"), Some(&vec!["none".to_string()]));
    assert!(page("https://example.com/", "<p>no meta</p>").html_meta().is_none());
}

#[test]
fn split_strings_cuts_at_each_separator() {
    assert_eq!(split_strings("a,b, c", ','), vec!["a", "b", " c"]);
    assert_eq!(split_strings("", ','), vec![""]);
    assert_eq!(split_strings(",", ','), vec!["", ""]);
}

#[test]
fn emails_are_found_once_each() {
    let record = page(
        "https://example.com/",
        "<p>write to john.doe@example.com or jane+x@site.org, again john.doe@example.com</p>",
    );
    assert_eq!(record.get_emails(), strings(&["john.doe@example.com", "jane+x@site.org"]));
    assert_eq!(page("https://example.com/", "<p>nobody @ home</p>").get_emails(), None);
    assert!(EMAIL_PATTERN.contains('@'));
}

#[test]
fn phone_numbers_are_whole_texts() {
    assert_eq!(page("https://example.com/", "212-555-0199").get_phone_numbers(), strings(&["212-555-0199"]));
    assert_eq!(
        page("https://example.com/", "+1 (212) 555-0199 ext. 12").get_phone_numbers(),
        strings(&["+1 (212) 555-0199 ext. 12"])
    );
    assert_eq!(page("https://example.com/", "call 212-555-0199").get_phone_numbers(), None);
    assert_eq!(page("https://example.com/", "112-555-0199").get_phone_numbers(), None);
    assert!(PHONE_PATTERN.starts_with('^'));
}

#[test]
fn image_links_resolve_against_the_page() {
    let record = page(
        "https://example.com/blog/post",
        r#"<img src="logo.png"><img src="/img/a.jpg"><img src="data:image/png;base64,AAAA"><img src="https://cdn.example.com/B.png"><img alt="none"><img src="logo.png"><img src="../up.gif">"#,
    );
    assert_eq!(
        record.get_image_links(),
        pairs(&[
            ("logo.png", "https://example.com/blog/logo.png"),
            ("/img/a.jpg", "https://example.com/img/a.jpg"),
            ("https://cdn.example.com/B.png", "https://cdn.example.com/B.png"),
            ("../up.gif", "https://example.com/up.gif"),
        ])
    );
}

#[test]
fn image_links_normalize_absolute_references() {
    let record = page("https://example.com/", r#"<img src="HTTPS://CDN.example.com"><img src="data:image/svg+xml,abc">"#);
    assert_eq!(
        record.get_image_links(),
        pairs(&[
            ("HTTPS://CDN.example.com", "https://cdn.example.com/"),
            ("data:image/svg+xml,abc", "data:image/svg+xml,abc"),
        ])
    );
}

#[test]
fn asset_links_of_an_unusable_page_are_absolute_only() {
    let record = page("nowhere", r#"<img src="logo.png"><img src="https://cdn.example.com/b.png">"#);
    assert_eq!(
        record.get_image_links(),
        pairs(&[("https://cdn.example.com/b.png", "https://cdn.example.com/b.png")])
    );
    assert_eq!(page("nowhere", r#"<img src="logo.png">"#).get_image_links(), None);
    assert_eq!(page("https://example.com/", "<p>none</p>").get_image_links(), None);
}

#[test]
fn asset_link_by_cases() {
    let origin = "https://example.com/blog/post";
    assert_eq!(
        HtmlRecord::asset_link(origin, "a.css", false),
        Some("https://example.com/blog/a.css".to_string())
    );
    assert_eq!(
        HtmlRecord::asset_link(origin, "//cdn.example.com/a.css", false),
        Some("https://cdn.example.com/a.css".to_string())
    );
    assert_eq!(
        HtmlRecord::asset_link(origin, "data:image/png;base64,AAAA", false),
        Some("data:image/png;base64,AAAA".to_string())
    );
    assert_eq!(HtmlRecord::asset_link(origin, "data:image/png;base64,AAAA", true), None);
    assert_eq!(
        HtmlRecord::asset_link(origin, "x;base64,y.png", true),
        Some("https://example.com/blog/x;base64,y.png".to_string())
    );
    assert_eq!(HtmlRecord::asset_link(origin, "https://exa mple.com/", false), None);
    assert_eq!(HtmlRecord::asset_link("nowhere", "a.css", false), None);
}

#[test]
fn css_links_are_style_sheets_only() {
    let record = page(
        "https://example.com/blog/post",
        r#"<head><link rel="stylesheet" href="/style.css"><link rel="icon" href="/favicon.ico"><link href="/plain.css"><link rel="stylesheet"><link rel="stylesheet" href="theme.css?v=2"><link rel="stylesheet" href="/style.css"></head>"#,
    );
    assert_eq!(
        record.get_css_links(),
        pairs(&[
            ("/style.css", "https://example.com/style.css"),
            ("theme.css?v=2", "https://example.com/blog/theme.css?v=2"),
        ])
    );
    assert_eq!(page("https://example.com/", r#"<link rel="icon" href="/f.ico">"#).get_css_links(), None);
}

#[test]
fn js_links_are_scripts_with_a_source() {
    let record = page(
        "https://example.com/blog/post",
        r#"<script src="/app.js"></script><script>inline()</script><script src="https://cdn.example.com/lib.js?v=3"></script>"#,
    );
    assert_eq!(
        record.get_js_links(),
        pairs(&[
            ("/app.js", "https://example.com/app.js"),
            ("https://cdn.example.com/lib.js?v=3", "https://cdn.example.com/lib.js?v=3"),
        ])
    );
    assert_eq!(page("https://example.com/", "<script>x</script>").get_js_links(), None);
}

fn row(values: &[Option<&str>]) -> Vec<Option<String>> {
    values.iter().map(|v| v.map(String::from)).collect()
}

#[test]
fn the_stamp_is_day_month_year_and_time() {
    assert_eq!(TIMESTAMP_FORMAT, "%d-%m-%Y-%H:%M:%S");
}

#[test]
fn attribute_of_reads_a_place_of_a_row() {
    let r = row(&[Some("a"), None]);
    assert_eq!(attribute_of(&r, 0), Some(&"a".to_string()));
    assert_eq!(attribute_of(&r, 1), None);
    assert_eq!(attribute_of(&r, 2), None);
    assert_eq!(attribute_of(&Vec::new(), 0), None);
}

#[test]
fn anchors_from_rows_resolves_each_href() {
    let rows = vec![
        row(&[Some("/about")]),
        row(&[None]),
        row(&[Some("https://other.com")]),
        row(&[]),
        row(&[Some("contact.html")]),
        row(&[Some("/about")]),
    ];
    assert_eq!(
        anchors_from_rows("https://example.com/blog/post", &rows),
        vec![
            "https://example.com/about",
            "https://other.com",
            "https://example.com/contact.html",
            "https://example.com/about",
        ]
    );
    assert_eq!(anchors_from_rows("nowhere", &rows), vec!["https://other.com"]);
    assert!(anchors_from_rows("https://example.com", &Vec::new()).is_empty());
}

#[test]
fn sources_from_rows_pairs_raw_and_resolved() {
    let rows = vec![
        row(&[Some("logo.png")]),
        row(&[Some("data:image/png;base64,AAAA")]),
        row(&[None]),
        row(&[Some("logo.png")]),
    ];
    let origin = "https://example.com/blog/post";
    let logo = ("logo.png".to_string(), "https://example.com/blog/logo.png".to_string());
    let data = (
        "data:image/png;base64,AAAA".to_string(),
        "data:image/png;base64,AAAA".to_string(),
    );
    assert_eq!(sources_from_rows(origin, &rows, true), vec![logo.clone(), logo.clone()]);
    assert_eq!(sources_from_rows(origin, &rows, false), vec![logo.clone(), data, logo]);
}

#[test]
fn stylesheets_from_rows_takes_style_sheets_only() {
    let rows = vec![
        row(&[Some("stylesheet"), Some("/style.css")]),
        row(&[Some("icon"), Some("/favicon.ico")]),
        row(&[None, Some("/plain.css")]),
        row(&[Some("stylesheet"), None]),
        row(&[Some("stylesheet")]),
        row(&[Some("Stylesheet"), Some("/upper.css")]),
        row(&[Some("stylesheet"), Some("theme.css")]),
    ];
    assert_eq!(
        stylesheets_from_rows("https://example.com/blog/post", &rows),
        vec![
            ("/style.css".to_string(), "https://example.com/style.css".to_string()),
            ("theme.css".to_string(), "https://example.com/blog/theme.css".to_string()),
        ]
    );
}

#[test]
fn metas_from_rows_keys_by_name() {
    let rows = vec![
        row(&[Some("keywords"), Some("a,b")]),
        row(&[None, Some("text/html")]),
        row(&[Some("robots"), None]),
        row(&[]),
    ];
    let table = metas_from_rows(&rows);
    assert_eq!(table.entries.len(), 4);
    assert_eq!(table.get("keywords"), Some(&vec!["a".to_string(), "b".to_string()]));
    assert_eq!(table.get("robots"), Some(&vec!["none".to_string()]));
    assert_eq!(table.get("Content-Type"), Some(&vec!["none".to_string()]));
    assert!(metas_from_rows(&Vec::new()).entries.is_empty());
}

#[test]
fn listed_texts_strips_trims_and_drops_empty_ones() {
    let texts = vec!["\n\t a b \n".to_string(), "\n\t".to_string(), " ".to_string(), "c".to_string()];
    assert_eq!(listed_texts(&texts), vec!["a b", "", "c"]);
    assert!(listed_texts(&Vec::new()).is_empty());
}

fn owned(items: &[&str]) -> Vec<String> {
    items.iter().map(|s| s.to_string()).collect()
}

#[test]
fn domain_and_foreign_links_part_a_list() {
    let links = owned(&[
        "https://example.com/a",
        "https://other.com/b",
        "https://example.com/a",
        "https://example.com/pic.png",
        "mailto:a@example.com",
        "ftp://example.com/c",
        "http://example.com/d",
        "https://other.com/b",
        "not a url",
    ]);
    assert_eq!(
        domain_links("https://example.com/start", &links),
        vec!["https://example.com/a", "http://example.com/d"]
    );
    assert_eq!(foreign_links("https://example.com/start", &links), vec!["https://other.com/b"]);
    assert!(domain_links("nowhere", &links).is_empty());
    assert!(foreign_links("nowhere", &links).len() == 3);
}

#[test]
fn curated_from_matches_keeps_marked_pages() {
    let links = owned(&[
        "https://example.com/t/1",
        "https://example.com/t/2",
        "https://example.com/t/1",
        "https://example.com/t/3.png",
        "https://example.com/t/4",
        "https://example.com/t/5",
    ]);
    let matched = vec![true, false, true, true, true];
    assert_eq!(
        curated_from_matches(&links, &matched),
        vec!["https://example.com/t/1", "https://example.com/t/4"]
    );
    assert!(curated_from_matches(&links, &Vec::new()).is_empty());
    assert!(curated_from_matches(&Vec::new(), &matched).is_empty());
}
