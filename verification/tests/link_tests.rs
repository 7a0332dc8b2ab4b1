use web_archive::html::HtmlRecord;
use web_archive::url::{join_at_root, ParsedUrl, Unresolvable};
use web_archive::web_archiver::get_file_name;

fn parts(scheme: &str, host: Option<&str>, path: &str, query: Option<&str>) -> ParsedUrl {
    ParsedUrl {
        href: String::new(),
        scheme: scheme.to_string(),
        host: host.map(String::from),
        path: path.to_string(),
        query: query.map(String::from),
    }
}

#[test]
fn absolute_links_resolve_to_themselves() {
    for href in [
        "https://other.com",
        "https://example.com/a/b?c=d#e",
        "HTTP://Example.COM/Path",
        "mailto:someone@example.com",
        "ftp://files.example.com/x.tar",
    ] {
        assert_eq!(HtmlRecord::check_link("https://example.com/blog/", href), Ok(href.to_string()));
        assert_eq!(HtmlRecord::check_link("not a url", href), Ok(href.to_string()));
    }
}

#[test]
fn root_relative_links_join_the_host_root() {
    assert_eq!(
        HtmlRecord::check_link("https://example.com/blog/post?x=1", "/about"),
        Ok("https://example.com/about".to_string())
    );
    assert_eq!(
        HtmlRecord::check_link("https://example.com", "/about"),
        Ok("https://example.com/about".to_string())
    );
    assert_eq!(
        HtmlRecord::check_link("http://example.com:8080/deep/er/", "/x/y.html"),
        Ok("http://example.com/x/y.html".to_string())
    );
}

#[test]
fn path_relative_links_join_the_host_root_too() {
    assert_eq!(
        HtmlRecord::check_link("https://example.com/blog/post", "about.html"),
        Ok("https://example.com/about.html".to_string())
    );
    assert_eq!(
        HtmlRecord::check_link("https://example.com/blog/", ""),
        Ok("https://example.com/".to_string())
    );
    assert_eq!(
        HtmlRecord::parse_link("https://example.com/blog/", "#top"),
        Ok("https://example.com/#top".to_string())
    );
}

#[test]
fn links_of_a_page_without_host_are_unresolvable() {
    assert_eq!(HtmlRecord::check_link("not a url", "/about"), Err(Unresolvable));
    assert_eq!(HtmlRecord::check_link("", "about"), Err(Unresolvable));
    assert_eq!(HtmlRecord::check_link("mailto:someone@example.com", "/about"), Err(Unresolvable));
    assert_eq!(HtmlRecord::parse_link("data:text/plain,hi", "x"), Err(Unresolvable));
}

#[test]
fn join_at_root_places_the_reference_under_the_host() {
    let origin = parts("https", Some("example.com"), "/ignored", None);
    assert_eq!(join_at_root(&origin, "example.com", "/a"), "https://example.com/a");
    assert_eq!(join_at_root(&origin, "example.com", "a"), "https://example.com/a");
    assert_eq!(join_at_root(&origin, "example.com", ""), "https://example.com/");
}

#[test]
fn same_host_ignores_scheme_port_and_path() {
    assert!(HtmlRecord::is_host_related("https://example.com/a", "http://example.com:8080/b?c"));
    assert!(HtmlRecord::is_host_related("https://EXAMPLE.com", "https://example.com/"));
    assert!(!HtmlRecord::is_host_related("https://example.com", "https://www.example.com"));
    assert!(!HtmlRecord::is_host_related("https://example.com", "https://other.com"));
    assert!(!HtmlRecord::is_host_related("https://example.com", "/relative"));
    assert!(!HtmlRecord::is_host_related("nonsense", "https://example.com"));
    assert!(HtmlRecord::is_host_related("mailto:a@b.c", "data:text/plain,x"));
}

#[test]
fn is_http_knows_two_schemes() {
    assert!(HtmlRecord::is_http("http://example.com"));
    assert!(HtmlRecord::is_http("https://example.com"));
    assert!(HtmlRecord::is_http("HTTPS://example.com"));
    assert!(!HtmlRecord::is_http("ftp://example.com"));
    assert!(!HtmlRecord::is_http("mailto:a@b.c"));
    assert!(!HtmlRecord::is_http("httpx://example.com"));
    assert!(!HtmlRecord::is_http("/http"));
    assert!(parts("http", None, "", None).is_http());
    assert!(!parts("htt", None, "", None).is_http());
    assert!(!parts("https2", None, "", None).is_http());
}

#[test]
fn asset_extensions_are_known_exactly() {
    for ext in ["jpeg", "jpg", "css", "js", "webm", "webp", "png"] {
        assert!(HtmlRecord::has_extension(&format!("https://example.com/a/file.{ext}")), "{ext}");
        assert!(HtmlRecord::has_extension(&format!("https://example.com/file.min.{ext}?v=1")));
    }
    for ext in ["JPG", "Png", "html", "gif", "svg", "jsx", "j", "pngg", "", "mp4"] {
        assert!(!HtmlRecord::has_extension(&format!("https://example.com/a/file.{ext}")), "{ext}");
    }
}

#[test]
fn paths_without_extension_have_none() {
    assert!(!HtmlRecord::has_extension("https://example.com"));
    assert!(!HtmlRecord::has_extension("https://example.com/"));
    assert!(!HtmlRecord::has_extension("https://example.com/png"));
    assert!(!HtmlRecord::has_extension("https://example.com/js"));
    assert!(!HtmlRecord::has_extension("https://example.com/a.png/b"));
    assert!(!HtmlRecord::has_extension("https://example.com/a.png/"));
    assert!(!HtmlRecord::has_extension("https://example.com/page?file=a.png"));
    assert!(!HtmlRecord::has_extension("https://example.com/page#a.png"));
    assert!(!HtmlRecord::has_extension("mailto:js"));
    assert!(!HtmlRecord::has_extension("not a url.png"));
    assert!(parts("https", None, "/a/b.css", None).has_extension());
    assert!(!parts("https", None, "/a.css/b", None).has_extension());
    assert!(!parts("https", None, "css", None).has_extension());
    assert!(parts("https", None, ".css", None).has_extension());
}

#[test]
fn parsed_hosts_compare_by_name() {
    let a = parts("https", Some("example.com"), "/", None);
    let b = parts("http", Some("example.com"), "/x", Some("q"));
    let c = parts("https", Some("other.com"), "/", None);
    let d = parts("mailto", None, "x", None);
    assert!(a.same_host(&b));
    assert!(!a.same_host(&c));
    assert!(!a.same_host(&d));
    assert!(d.same_host(&d));
}

#[test]
fn file_name_is_the_last_segment() {
    assert_eq!(get_file_name("https://example.com/a/logo.png"), Some("logo.png".to_string()));
    assert_eq!(get_file_name("https://example.com/a/logo.png#frag"), Some("logo.png".to_string()));
    assert_eq!(get_file_name("https://example.com/a/"), Some(String::new()));
    assert_eq!(get_file_name("https://example.com"), Some(String::new()));
    assert_eq!(get_file_name("https://example.com/a%20b.css"), Some("a%20b.css".to_string()));
    assert_eq!(parts("https", None, "/x/y", None).file_name(), Some("y".to_string()));
}

#[test]
fn file_name_is_absent_with_a_query_or_without_segments() {
    assert_eq!(get_file_name("https://example.com/a/logo.png?v=2"), None);
    assert_eq!(get_file_name("https://example.com/a/logo.png?"), None);
    assert_eq!(get_file_name("data:image/svg+xml,abc"), None);
    assert_eq!(get_file_name("logo.png"), None);
    assert_eq!(parts("https", None, "/x/y", Some("")).file_name(), None);
    assert_eq!(parts("data", None, "x/y", None).file_name(), None);
    assert_eq!(parts("data", None, "", None).file_name(), None);
}

const SAMPLES: [&str; 14] = [
    "https://example.com",
    "https://example.com/a/b.png?x=1#y",
    "http://EXAMPLE.com:8080/a.b/c",
    "https://user:pw@example.com/x.JS",
    "https://sub.example.com/a/style.min.css",
    "ftp://example.com/file.jpeg",
    "mailto:someone@example.com",
    "data:text/plain,hello.png",
    "https://127.0.0.1/a.webp",
    "https://[::1]/a.webm",
    "file:///tmp/a.jpg",
    "https://example.com/a/",
    "/relative.png",
    "not a url",
];

#[test]
fn classification_agrees_with_the_url_parser() {
    for a in SAMPLES {
        let parsed = url::Url::parse(a).ok();
        let http = parsed.as_ref().map_or(false, |u| u.scheme() == "http" || u.scheme() == "https");
        assert_eq!(HtmlRecord::is_http(a), http, "{a}");
        let extension = parsed.as_ref().map_or(false, |u| {
            let segment = u.path().rsplit('/').next().unwrap_or("");
            match segment.rsplit_once('.') {
                Some((_, ext)) => ["jpeg", "jpg", "css", "js", "webm", "webp", "png"].contains(&ext),
                None => false,
            }
        });
        assert_eq!(HtmlRecord::has_extension(a), extension, "{a}");
        let name = parsed.as_ref().and_then(|u| {
            if u.query().is_some() {
                None
            } else {
                u.path_segments().and_then(|s| s.last().map(String::from))
            }
        });
        assert_eq!(get_file_name(a), name, "{a}");
        for b in SAMPLES {
            let same = match (&parsed, url::Url::parse(b)) {
                (Some(x), Ok(y)) => x.host_str() == y.host_str(),
                _ => false,
            };
            assert_eq!(HtmlRecord::is_host_related(a, b), same, "{a} {b}");
        }
    }
}
