//! The record of one fetched page, and what can be read off it: the links it holds, the
//! assets it embeds, text and markup of its elements.

use crate::distinct::{
    all, contains_string, distinct, distinct_pairs, distinct_strings, keep_distinct,
    lemma_distinct_contains, lemma_distinct_no_duplicates, lemma_marked_distinct, marked,
    pairs_view, picks,
};
use crate::markup::{names_view, row_view, rows_view, select_attributes, selected_attributes};
use crate::markup::{select_html, select_text, selected_html, selected_text};
use crate::pattern::{find_all, match_each, pattern_compiles, pattern_finds, pattern_matches};
use crate::text::{
    chars_of, contains, contains_run, equals, split, split_chars, string_of, strings_view,
    strip_breaks,
    trim, trim_chars, without_breaks,
};
use crate::url::{
    has_extension, is_http, join, parse, resolve, root_join, same_host, url_join, url_parse,
    Unresolvable, UrlError,
};
use vstd::prelude::*;

verus! {

/// One fetched page.
#[derive(Debug)]
pub struct HtmlRecord {
    /// The absolute URL that the page was fetched from.
    pub origin: String,
    /// When the page was fetched, in a form fit for a path segment.
    pub date_time: String,
    /// The text of the page as fetched.
    pub body: String,
}

/// The attributes read from one selected element.
pub type Row = Seq<Option<Seq<char>>>;

/// A reference to an asset: its text as written in the page, and the absolute URL that it
/// stands for.
pub type Reference = (Seq<char>, Seq<char>);

/// The value at `index` of a row: what the element holds for the attribute asked for in
/// that place, if anything.
pub open spec fn attribute(row: Row, index: int) -> Option<Seq<char>> {
    if 0 <= index < row.len() {
        row[index]
    } else {
        None
    }
}

/// The target of an anchor whose attributes are `[href]`.
pub open spec fn anchor_pick(origin: Seq<char>) -> spec_fn(Row) -> Option<Seq<char>> {
    |row: Row|
        match attribute(row, 0) {
            Some(raw) => resolve(origin, raw),
            None => None,
        }
}

/// Links of the crawl frontier: on the host of `origin`, fetched over HTTP(S), no asset.
pub open spec fn domain_link(origin: Seq<char>) -> spec_fn(Seq<char>) -> bool {
    |link: Seq<char>| same_host(origin, link) && is_http(link) && !has_extension(link)
}

/// Links that lead away: on another host than `origin`, fetched over HTTP(S), no asset.
pub open spec fn foreign_link(origin: Seq<char>) -> spec_fn(Seq<char>) -> bool {
    |link: Seq<char>| !same_host(origin, link) && is_http(link) && !has_extension(link)
}

/// Links fetched over HTTP(S) that are no asset.
pub open spec fn page_link() -> spec_fn(Seq<char>) -> bool {
    |link: Seq<char>| is_http(link) && !has_extension(link)
}

/// Links that are no asset.
pub open spec fn plain_link() -> spec_fn(Seq<char>) -> bool {
    |link: Seq<char>| !has_extension(link)
}

/// The absolute URL of the asset that `raw` refers to on the page `origin`. A relative
/// reference is resolved against `origin`. An absolute one stands for its normalized
/// self, unless `skip_embedded` is set and it carries base64 data. Where `raw` is
/// malformed, or cannot be resolved, there is none.
pub open spec fn asset_target(origin: Seq<char>, raw: Seq<char>, skip_embedded: bool) -> Option<
    Seq<char>,
> {
    match url_parse(raw) {
        Err(UrlError::RelativeWithoutBase) => url_join(origin, raw),
        Err(UrlError::Malformed) => None,
        Ok(u) => if skip_embedded && contains_run(raw, ";base64,"@) {
            None
        } else {
            Some(u.href)
        },
    }
}

/// The reference of an element whose attributes are `[src]`.
pub open spec fn source_pick(origin: Seq<char>, skip_embedded: bool) -> spec_fn(Row) -> Option<
    Reference,
> {
    |row: Row|
        match attribute(row, 0) {
            Some(raw) => match asset_target(origin, raw, skip_embedded) {
                Some(target) => Some((raw, target)),
                None => None,
            },
            None => None,
        }
}

/// The reference of a `link` element whose attributes are `[rel, href]`: only a style
/// sheet has one.
pub open spec fn stylesheet_pick(origin: Seq<char>) -> spec_fn(Row) -> Option<Reference> {
    |row: Row|
        if attribute(row, 0) == Some("stylesheet"@) {
            match attribute(row, 1) {
                Some(raw) => match asset_target(origin, raw, false) {
                    Some(target) => Some((raw, target)),
                    None => None,
                },
                None => None,
            }
        } else {
            None
        }
}

/// Whether `res` reports `expected`: an empty list is reported as nothing at all.
pub open spec fn reports(res: Option<Vec<String>>, expected: Seq<Seq<char>>) -> bool {
    match res {
        Some(v) => strings_view(v@) == expected && expected.len() > 0,
        None => expected.len() == 0,
    }
}

/// Whether `res` reports the references `expected`: an empty list is reported as nothing
/// at all.
pub open spec fn reports_pairs(
    res: Option<Vec<(String, String)>>,
    expected: Seq<Reference>,
) -> bool {
    match res {
        Some(v) => pairs_view(v@) == expected && expected.len() > 0,
        None => expected.len() == 0,
    }
}

/// The rows that a selection yields, or none at all where the selector is refused.
pub open spec fn rows_or_none(rows: Option<Seq<Row>>) -> Seq<Row> {
    match rows {
        Some(r) => r,
        None => Seq::empty(),
    }
}

/// The form in which the moment of a fetch is written: day, month, year, hour, minute
/// and second.
pub const TIMESTAMP_FORMAT: &'static str = "%d-%m-%Y-%H:%M:%S";

/// Whether `c` is a decimal digit.
pub open spec fn is_digit(c: char) -> bool {
    '0' <= c && c <= '9'
}

/// Whether `text` has the form `DD-MM-YYYY-HH:MM:SS`: nineteen characters, all digits but
/// for `-` in the places 2, 5 and 10 and `:` in the places 13 and 16.
pub open spec fn is_stamp(text: Seq<char>) -> bool {
    &&& text.len() == 19
    &&& forall|i: int|
        0 <= i < 19 ==> if i == 2 || i == 5 || i == 10 {
            #[trigger] text[i] == '-'
        } else if i == 13 || i == 16 {
            text[i] == ':'
        } else {
            is_digit(text[i])
        }
}

/// Whether `text` may be the stamp of a moment: it has the form `DD-MM-YYYY-HH:MM:SS`,
/// or it is longer, as happens only where the year does not fit four digits.
pub open spec fn bears_stamp(text: Seq<char>) -> bool {
    text.len() <= 19 ==> is_stamp(text)
}

/// What `row` holds in the place `index`, if anything.
pub fn attribute_of(row: &Vec<Option<String>>, index: usize) -> (res: Option<&String>)
    ensures
        match res {
            Some(value) => attribute(row_view(*row), index as int) == Some(value@),
            None => attribute(row_view(*row), index as int) is None,
        },
{
    if index < row.len() {
        match &row[index] {
            Some(value) => Some(value),
            None => None,
        }
    } else {
        None
    }
}

/// The targets of the anchors whose `href` the rows hold, on the page `origin`: in order
/// and with repetition. An anchor without `href`, or whose `href` cannot be resolved, has
/// none.
pub fn anchors_from_rows(origin: &str, rows: &Vec<Vec<Option<String>>>) -> (res: Vec<String>)
    ensures
        strings_view(res@) == picks(rows_view(rows@), anchor_pick(origin@)),
{
    let ghost pick = anchor_pick(origin@);
    let mut ret_vec: Vec<String> = Vec::new();
    let mut i: usize = 0;
    assert(strings_view(ret_vec@) =~= picks(rows_view(rows@).take(0), pick));
    while i < rows.len()
        invariant
            i <= rows@.len(),
            pick == anchor_pick(origin@),
            strings_view(ret_vec@) == picks(rows_view(rows@).take(i as int), pick),
        decreases rows@.len() - i,
    {
        let ghost before = strings_view(ret_vec@);
        proof {
            let all_rows = rows_view(rows@);
            assert(all_rows.take(i + 1).drop_last() =~= all_rows.take(i as int));
            assert(all_rows.take(i + 1).last() == row_view(rows@[i as int]));
        }
        match attribute_of(&rows[i], 0) {
            Some(link) => {
                match HtmlRecord::check_link(origin, link.as_str()) {
                    Ok(parse_link) => {
                        ret_vec.push(parse_link);
                        assert(strings_view(ret_vec@) =~= before.push(parse_link@));
                    },
                    Err(_) => {},
                }
            },
            None => {},
        }
        i += 1;
    }
    assert(rows_view(rows@).take(i as int) =~= rows_view(rows@));
    ret_vec
}

/// The references of the elements whose `src` the rows hold, on the page `origin`: for
/// each the `src` as written and the absolute URL that it stands for, in order and with
/// repetition. With `skip_embedded`, references that carry base64 data are left out.
pub fn sources_from_rows(
    origin: &str,
    rows: &Vec<Vec<Option<String>>>,
    skip_embedded: bool,
) -> (res: Vec<(String, String)>)
    ensures
        pairs_view(res@) == picks(rows_view(rows@), source_pick(origin@, skip_embedded)),
{
    let ghost pick = source_pick(origin@, skip_embedded);
    let mut ret_vec: Vec<(String, String)> = Vec::new();
    let mut i: usize = 0;
    assert(pairs_view(ret_vec@) =~= picks(rows_view(rows@).take(0), pick));
    while i < rows.len()
        invariant
            i <= rows@.len(),
            pick == source_pick(origin@, skip_embedded),
            pairs_view(ret_vec@) == picks(rows_view(rows@).take(i as int), pick),
        decreases rows@.len() - i,
    {
        let ghost before = pairs_view(ret_vec@);
        proof {
            let all_rows = rows_view(rows@);
            assert(all_rows.take(i + 1).drop_last() =~= all_rows.take(i as int));
            assert(all_rows.take(i + 1).last() == row_view(rows@[i as int]));
        }
        match attribute_of(&rows[i], 0) {
            Some(link) => {
                match HtmlRecord::asset_link(origin, link.as_str(), skip_embedded) {
                    Some(plink) => {
                        ret_vec.push((link.clone(), plink));
                        assert(pairs_view(ret_vec@) =~= before.push((link@, plink@)));
                    },
                    None => {},
                }
            },
            None => {},
        }
        i += 1;
    }
    assert(rows_view(rows@).take(i as int) =~= rows_view(rows@));
    ret_vec
}

/// The references of the `link` elements whose `rel` and `href` the rows hold, on the
/// page `origin`: for each style sheet with an `href`, the `href` as written and the
/// absolute URL that it stands for, in order and with repetition.
pub fn stylesheets_from_rows(origin: &str, rows: &Vec<Vec<Option<String>>>) -> (res: Vec<
    (String, String),
>)
    ensures
        pairs_view(res@) == picks(rows_view(rows@), stylesheet_pick(origin@)),
{
    let ghost pick = stylesheet_pick(origin@);
    let mut ret_vec: Vec<(String, String)> = Vec::new();
    let mut i: usize = 0;
    assert(pairs_view(ret_vec@) =~= picks(rows_view(rows@).take(0), pick));
    while i < rows.len()
        invariant
            i <= rows@.len(),
            pick == stylesheet_pick(origin@),
            pairs_view(ret_vec@) == picks(rows_view(rows@).take(i as int), pick),
        decreases rows@.len() - i,
    {
        let ghost before = pairs_view(ret_vec@);
        proof {
            let all_rows = rows_view(rows@);
            assert(all_rows.take(i + 1).drop_last() =~= all_rows.take(i as int));
            assert(all_rows.take(i + 1).last() == row_view(rows@[i as int]));
        }
        let is_stylesheet = match attribute_of(&rows[i], 0) {
            Some(rel) => equals(rel.as_str(), "stylesheet"),
            None => false,
        };
        if is_stylesheet {
            match attribute_of(&rows[i], 1) {
                Some(link) => {
                    match HtmlRecord::asset_link(origin, link.as_str(), false) {
                        Some(plink) => {
                            ret_vec.push((link.clone(), plink));
                            assert(pairs_view(ret_vec@) =~= before.push((link@, plink@)));
                        },
                        None => {},
                    }
                },
                None => {},
            }
        }
        i += 1;
    }
    assert(rows_view(rows@).take(i as int) =~= rows_view(rows@));
    ret_vec
}

impl HtmlRecord {
    /// The `href` of each anchor of the page.
    pub open spec fn anchor_rows(&self) -> Seq<Row> {
        rows_or_none(selected_attributes(self.body@, "a"@, seq!["href"@]))
    }

    /// The targets of the anchors of the page, in order and with repetition. An anchor
    /// without `href`, or whose `href` cannot be resolved, has none.
    pub open spec fn anchor_targets(&self) -> Seq<Seq<char>> {
        picks(self.anchor_rows(), anchor_pick(self.origin@))
    }

    /// The set of anchor targets.
    pub open spec fn anchor_set(&self) -> Seq<Seq<char>> {
        distinct(self.anchor_targets(), all())
    }

    /// The set of anchor targets that belong to the crawl frontier.
    pub open spec fn domain_anchor_set(&self) -> Seq<Seq<char>> {
        distinct(self.anchor_targets(), domain_link(self.origin@))
    }

    /// The set of anchor targets that lead to other hosts.
    pub open spec fn foreign_anchor_set(&self) -> Seq<Seq<char>> {
        distinct(self.anchor_targets(), foreign_link(self.origin@))
    }

    /// The `src` of each image of the page.
    pub open spec fn image_rows(&self) -> Seq<Row> {
        rows_or_none(selected_attributes(self.body@, "img"@, seq!["src"@]))
    }

    /// The `rel` and `href` of each `link` element of the page.
    pub open spec fn link_rows(&self) -> Seq<Row> {
        rows_or_none(selected_attributes(self.body@, "link"@, seq!["rel"@, "href"@]))
    }

    /// The `src` of each script of the page.
    pub open spec fn script_rows(&self) -> Seq<Row> {
        rows_or_none(selected_attributes(self.body@, "script"@, seq!["src"@]))
    }

    /// The set of images that the page embeds, base64 data left out.
    pub open spec fn image_set(&self) -> Seq<Reference> {
        distinct(picks(self.image_rows(), source_pick(self.origin@, true)), all())
    }

    /// The set of style sheets that the page links.
    pub open spec fn stylesheet_set(&self) -> Seq<Reference> {
        distinct(picks(self.link_rows(), stylesheet_pick(self.origin@)), all())
    }

    /// The set of scripts that the page loads.
    pub open spec fn script_set(&self) -> Seq<Reference> {
        distinct(picks(self.script_rows(), source_pick(self.origin@, false)), all())
    }

    /// The record of a page fetched from `origin` at `date_time` with the text `body`.
    pub fn with_timestamp(origin: String, body: String, date_time: String) -> (res: HtmlRecord)
        ensures
            res.origin == origin,
            res.body == body,
            res.date_time == date_time,
    {
        HtmlRecord { origin, date_time, body }
    }

    /// The record of a page fetched from `origin` just now with the text `body`, stamped
    /// with the moment.
    pub fn new(origin: String, body: String) -> (res: HtmlRecord)
        ensures
            res.origin == origin,
            res.body == body,
            bears_stamp(res.date_time@),
    {
        let (date_time, _year) = clock_text(TIMESTAMP_FORMAT);
        HtmlRecord::with_timestamp(origin, body, date_time)
    }

    /// The rows of `names` for the elements that `selector` selects; none where the
    /// selector is refused.
    fn rows(&self, selector: &str, names: &Vec<&str>) -> (res: Vec<Vec<Option<String>>>)
        ensures
            rows_view(res@) == rows_or_none(
                selected_attributes(self.body@, selector@, names_view(names@)),
            ),
    {
        match select_attributes(self.body.as_str(), selector, names) {
            Some(rows) => rows,
            None => {
                let rows: Vec<Vec<Option<String>>> = Vec::new();
                assert(rows_view(rows@) =~= Seq::<Row>::empty());
                rows
            },
        }
    }

    /// The targets of the anchors of the page, in order and with repetition.
    fn resolved_anchors(&self) -> (res: Vec<String>)
        ensures
            strings_view(res@) == self.anchor_targets(),
    {
        let names = vec!["href"];
        assert(names_view(names@) =~= seq!["href"@]);
        let rows = self.rows("a", &names);
        anchors_from_rows(self.origin.as_str(), &rows)
    }

    /// All anchor targets of the page that can be resolved, each once, in order of first
    /// occurrence; nothing where there is none.
    pub fn anchors(&self) -> (res: Option<Vec<String>>)
        ensures
            reports(res, self.anchor_set()),
    {
        let links = self.resolved_anchors();
        let found = distinct_strings(&links);
        if found.len() == 0 {
            None
        } else {
            Some(found)
        }
    }

    /// The anchor targets on the page's own host, reached over HTTP(S), that are no
    /// assets: the pages that a crawl of the site goes on to. Each once, in order of first
    /// occurrence; nothing where there is none.
    pub fn domain_anchors(&self) -> (res: Option<Vec<String>>)
        ensures
            reports(res, self.domain_anchor_set()),
    {
        let links = self.resolved_anchors();
        let found = domain_links(self.origin.as_str(), &links);
        if found.len() == 0 {
            None
        } else {
            Some(found)
        }
    }

    /// The anchor targets on other hosts, reached over HTTP(S), that are no assets. Each
    /// once, in order of first occurrence; nothing where there is none.
    pub fn non_domain_anchors(&self) -> (res: Option<Vec<String>>)
        ensures
            reports(res, self.foreign_anchor_set()),
    {
        let links = self.resolved_anchors();
        let found = foreign_links(self.origin.as_str(), &links);
        if found.len() == 0 {
            None
        } else {
            Some(found)
        }
    }

    /// The absolute URL of the asset that `raw` refers to on the page `origin`.
    pub fn asset_link(origin: &str, raw: &str, skip_embedded: bool) -> (res: Option<String>)
        ensures
            crate::url::optional_view(res) == asset_target(origin@, raw@, skip_embedded),
    {
        match parse(raw) {
            Err(UrlError::RelativeWithoutBase) => join(origin, raw),
            Err(UrlError::Malformed) => None,
            Ok(parsed_link) => {
                if skip_embedded && contains(raw, ";base64,") {
                    None
                } else {
                    Some(parsed_link.href)
                }
            },
        }
    }

    /// The images that the page embeds: for each `img` with a `src`, the `src` as written
    /// and the absolute URL that it stands for. Images given as base64 data are left out.
    /// Each pair once, in order of first occurrence; nothing where there is none.
    pub fn get_image_links(&self) -> (res: Option<Vec<(String, String)>>)
        ensures
            reports_pairs(res, self.image_set()),
    {
        let names = vec!["src"];
        assert(names_view(names@) =~= seq!["src"@]);
        let rows = self.rows("img", &names);
        let ret_vec = sources_from_rows(self.origin.as_str(), &rows, true);
        let found = distinct_pairs(&ret_vec);
        if found.len() == 0 {
            None
        } else {
            Some(found)
        }
    }

    /// The style sheets that the page links: for each `link` with `rel="stylesheet"` and
    /// an `href`, the `href` as written and the absolute URL that it stands for. Each pair
    /// once, in order of first occurrence; nothing where there is none.
    pub fn get_css_links(&self) -> (res: Option<Vec<(String, String)>>)
        ensures
            reports_pairs(res, self.stylesheet_set()),
    {
        let names = vec!["rel", "href"];
        assert(names_view(names@) =~= seq!["rel"@, "href"@]);
        let rows = self.rows("link", &names);
        let ret_vec = stylesheets_from_rows(self.origin.as_str(), &rows);
        let found = distinct_pairs(&ret_vec);
        if found.len() == 0 {
            None
        } else {
            Some(found)
        }
    }

    /// The scripts that the page loads: for each `script` with a `src`, the `src` as
    /// written and the absolute URL that it stands for. Each pair once, in order of first
    /// occurrence; nothing where there is none.
    pub fn get_js_links(&self) -> (res: Option<Vec<(String, String)>>)
        ensures
            reports_pairs(res, self.script_set()),
    {
        let names = vec!["src"];
        assert(names_view(names@) =~= seq!["src"@]);
        let rows = self.rows("script", &names);
        let ret_vec = sources_from_rows(self.origin.as_str(), &rows, false);
        let found = distinct_pairs(&ret_vec);
        if found.len() == 0 {
            None
        } else {
            Some(found)
        }
    }

    /// Whether `check_string` and `link` are absolute URLs with the same host.
    pub fn is_host_related(check_string: &str, link: &str) -> (res: bool)
        ensures
            res == same_host(check_string@, link@),
    {
        match (parse(check_string), parse(link)) {
            (Ok(origin_url), Ok(url_to_check)) => origin_url.same_host(&url_to_check),
            _ => false,
        }
    }

    /// The absolute URL that `in_link`, found on the page `origin`, stands for: `in_link`
    /// itself where it is an absolute URL, else `in_link` under the root of `origin`'s
    /// host.
    pub fn check_link(origin: &str, in_link: &str) -> (res: Result<String, Unresolvable>)
        ensures
            match res {
                Ok(link) => resolve(origin@, in_link@) == Some(link@),
                Err(_) => resolve(origin@, in_link@) is None,
            },
    {
        match parse(in_link) {
            Ok(_) => Ok(in_link.to_owned()),
            Err(_) => HtmlRecord::parse_link(origin, in_link),
        }
    }

    /// `unparsed_link` under the root of the host of `origin`. Fails where `origin` is no
    /// absolute URL with a host.
    pub fn parse_link(origin: &str, unparsed_link: &str) -> (res: Result<String, Unresolvable>)
        ensures
            match url_parse(origin@) {
                Ok(o) => match o.host {
                    Some(h) => res matches Ok(link) && link@ == root_join(
                        o.scheme,
                        h,
                        unparsed_link@,
                    ),
                    None => res is Err,
                },
                Err(_) => res is Err,
            },
    {
        match parse(origin) {
            Ok(host) => match &host.host {
                Some(host_string) => Ok(
                    crate::url::join_at_root(&host, host_string.as_str(), unparsed_link),
                ),
                None => Err(Unresolvable),
            },
            Err(_) => Err(Unresolvable),
        }
    }

    /// Whether `link` is an absolute URL with the scheme `http` or `https`.
    pub fn is_http(link: &str) -> (res: bool)
        ensures
            res == is_http(link@),
    {
        match parse(link) {
            Ok(url) => url.is_http(),
            Err(_) => false,
        }
    }

    /// Whether `link` is an absolute URL whose path ends in one of the asset extensions.
    pub fn has_extension(link: &str) -> (res: bool)
        ensures
            res == has_extension(link@),
    {
        match parse(link) {
            Ok(url) => url.has_extension(),
            Err(_) => false,
        }
    }
}

/// The regular expression that finds e-mail addresses.
pub const EMAIL_PATTERN: &'static str =
    r"([a-z0-9_+]([a-z0-9_+.]*[a-z0-9_+])?)@([a-z0-9]+([\-\.]{1}[a-z0-9]+)*\.[a-z]{2,6})";

/// The regular expression that a text matches as a whole when it is a telephone number
/// of the North American plan.
pub const PHONE_PATTERN: &'static str =
    r"^(?:(?:\+?1\s*(?:[.-]\s*)?)?(?:\(\s*([2-9]1[02-9]|[2-9][02-8]1|[2-9][02-8][02-9])\s*\)|([2-9]1[02-9]|[2-9][02-8]1|[2-9][02-8][02-9]))\s*(?:[.-]\s*)?)?([2-9]1[02-9]|[2-9][02-9]1|[2-9][02-9]{2})\s*(?:[.-]\s*)?([0-9]{4})(?:\s*(?:#|x\.?|ext\.?|extension)\s*(\d+))?$";

/// Links that the regular expression `pattern` matches and that are no asset.
pub open spec fn curated_link(pattern: Seq<char>) -> spec_fn(Seq<char>) -> bool {
    |link: Seq<char>| pattern_matches(pattern, link) && !has_extension(link)
}

/// The text of an element as it is listed: without line feeds and tabs, and trimmed. An
/// element whose text holds nothing but line feeds and tabs is not listed.
pub open spec fn text_pick() -> spec_fn(Seq<char>) -> Option<Seq<char>> {
    |raw: Seq<char>|
        {
            let parsed = without_breaks(raw);
            if parsed.len() > 0 {
                Some(trim(parsed))
            } else {
                None
            }
        }
}

/// The list that a selection yields, or an empty one where the selector is refused.
pub open spec fn list_or_none(items: Option<Seq<Seq<char>>>) -> Seq<Seq<char>> {
    match items {
        Some(l) => l,
        None => Seq::empty(),
    }
}

/// What the pattern finds in `text`, each match once; nothing where the pattern does not
/// compile.
pub open spec fn found_set(pattern: Seq<char>, text: Seq<char>) -> Seq<Seq<char>> {
    if pattern_compiles(pattern) {
        distinct(pattern_finds(pattern, text), all())
    } else {
        Seq::empty()
    }
}

/// The key of a `meta` element whose attributes are `[name, content]`: its name, or
/// `Content-Type` where it has none.
pub open spec fn meta_name(row: Row) -> Seq<char> {
    match attribute(row, 0) {
        Some(name) => name,
        None => "Content-Type"@,
    }
}

/// The values of a `meta` element whose attributes are `[name, content]`: the pieces of
/// its content between commas, or the one value `none` where it has no content.
pub open spec fn meta_values(row: Row) -> Seq<Seq<char>> {
    match attribute(row, 1) {
        Some(content) => split(content, ','),
        None => seq!["none"@],
    }
}

/// The table of the `meta` elements `rows`: a later element replaces an earlier one of
/// the same key.
pub open spec fn meta_map(rows: Seq<Row>) -> Map<Seq<char>, Seq<Seq<char>>>
    decreases rows.len(),
{
    if rows.len() == 0 {
        Map::empty()
    } else {
        meta_map(rows.drop_last()).insert(meta_name(rows.last()), meta_values(rows.last()))
    }
}

/// The table that a run of entries stands for: a later entry replaces an earlier one of
/// the same key.
pub open spec fn entries_map(entries: Seq<(String, Vec<String>)>) -> Map<
    Seq<char>,
    Seq<Seq<char>>,
>
    decreases entries.len(),
{
    if entries.len() == 0 {
        Map::empty()
    } else {
        entries_map(entries.drop_last()).insert(
            entries.last().0@,
            strings_view(entries.last().1@),
        )
    }
}

/// The meta information of a page: for each key the list of its values.
#[derive(Debug)]
pub struct MetaTable {
    /// One entry for each `meta` element, in order.
    pub entries: Vec<(String, Vec<String>)>,
}

impl View for MetaTable {
    type V = Map<Seq<char>, Seq<Seq<char>>>;

    open spec fn view(&self) -> Map<Seq<char>, Seq<Seq<char>>> {
        entries_map(self.entries@)
    }
}

impl MetaTable {
    /// The values under `name`, if the table has that key.
    pub fn get(&self, name: &str) -> (res: Option<&Vec<String>>)
        ensures
            match res {
                Some(values) => self@.contains_key(name@) && self@[name@] == strings_view(
                    values@,
                ),
                None => !self@.contains_key(name@),
            },
    {
        let mut i: usize = self.entries.len();
        assert(self.entries@.skip(i as int) =~= Seq::empty());
        while i > 0
            invariant
                i <= self.entries@.len(),
                !entries_map(self.entries@.skip(i as int)).contains_key(name@),
                forall|k: int| i <= k < self.entries@.len() ==> self.entries@[k].0@ != name@,
            decreases i,
        {
            i -= 1;
            if equals(self.entries[i].0.as_str(), name) {
                proof {
                    lemma_entries_unshadowed(self.entries@, i as int);
                }
                return Some(&self.entries[i].1);
            }
            proof {
                lemma_entries_absent(self.entries@.skip(i as int), name@);
            }
        }
        assert(self.entries@.skip(0) =~= self.entries@);
        None
    }
}

/// A table has no key that none of its entries has.
pub proof fn lemma_entries_absent(entries: Seq<(String, Vec<String>)>, name: Seq<char>)
    requires
        forall|k: int| 0 <= k < entries.len() ==> entries[k].0@ != name,
    ensures
        !entries_map(entries).contains_key(name),
    decreases entries.len(),
{
    if entries.len() > 0 {
        lemma_entries_absent(entries.drop_last(), name);
    }
}

/// An entry that no later entry shadows is what the table holds under its key.
pub proof fn lemma_entries_unshadowed(entries: Seq<(String, Vec<String>)>, i: int)
    requires
        0 <= i < entries.len(),
        forall|k: int| i < k < entries.len() ==> entries[k].0@ != entries[i].0@,
    ensures
        entries_map(entries).contains_key(entries[i].0@),
        entries_map(entries)[entries[i].0@] == strings_view(entries[i].1@),
    decreases entries.len(),
{
    if i < entries.len() - 1 {
        lemma_entries_unshadowed(entries.drop_last(), i);
    }
}

impl HtmlRecord {
    /// The set of anchor targets that `pattern` matches and that are no assets. Empty
    /// where `pattern` is no regular expression.
    pub open spec fn curated_anchor_set(&self, pattern: Seq<char>) -> Seq<Seq<char>> {
        if pattern_compiles(pattern) {
            distinct(self.anchor_targets(), curated_link(pattern))
        } else {
            Seq::empty()
        }
    }

    /// The texts of the elements that `tag` selects, as they are listed.
    pub open spec fn text_list(&self, tag: Seq<char>) -> Seq<Seq<char>> {
        picks(list_or_none(selected_text(self.body@, tag)), text_pick())
    }

    /// The markup of the elements that `tag` selects.
    pub open spec fn html_list(&self, tag: Seq<char>) -> Seq<Seq<char>> {
        list_or_none(selected_html(self.body@, tag))
    }

    /// The `name` and `content` of each `meta` element of the page.
    pub open spec fn meta_rows(&self) -> Seq<Row> {
        rows_or_none(selected_attributes(self.body@, "meta"@, seq!["name"@, "content"@]))
    }

    /// The anchor targets that the regular expression `regex` matches and that are no
    /// assets: a way to follow, say, the pages of one thread. Each once, in order of first
    /// occurrence; nothing where there is none, or where `regex` is no regular
    /// expression.
    pub fn anchors_curate(&self, regex: &str) -> (res: Option<Vec<String>>)
        ensures
            reports(res, self.curated_anchor_set(regex@)),
    {
        let links = self.resolved_anchors();
        match match_each(regex, &links) {
            Some(matched) => {
                let found = curated_from_matches(&links, &matched);
                proof {
                    lemma_marked_distinct(
                        strings_view(links@),
                        matched@,
                        plain_link(),
                        curated_link(regex@),
                    );
                }
                if found.len() == 0 {
                    None
                } else {
                    Some(found)
                }
            },
            None => None,
        }
    }

    /// The text of each element that `tag` selects, without line feeds and tabs and
    /// trimmed, in selection order; elements without text are left out. Nothing where
    /// there is none, or where `tag` is no selector.
    pub fn tag_text(&self, tag: &str) -> (res: Option<Vec<String>>)
        ensures
            reports(res, self.text_list(tag@)),
    {
        let texts = match select_text(self.body.as_str(), tag) {
            Some(texts) => texts,
            None => Vec::new(),
        };
        assert(strings_view(texts@) =~= list_or_none(selected_text(self.body@, tag@)));
        let ret_vec = listed_texts(&texts);
        if ret_vec.len() == 0 {
            None
        } else {
            Some(ret_vec)
        }
    }

    /// The markup of each element that `tag` selects, in selection order. Nothing where
    /// there is none, or where `tag` is no selector.
    pub fn tag_html(&self, tag: &str) -> (res: Option<Vec<String>>)
        ensures
            reports(res, self.html_list(tag@)),
    {
        match select_html(self.body.as_str(), tag) {
            Some(ret_vec) => {
                if ret_vec.len() == 0 {
                    None
                } else {
                    Some(ret_vec)
                }
            },
            None => None,
        }
    }

    /// The meta information of the page: one entry for each `meta` element, keyed by its
    /// name, or by `Content-Type` where it has none, and holding the pieces of its content
    /// between commas, or `none` where it has no content. Nothing where the page has no
    /// `meta` element.
    pub fn html_meta(&self) -> (res: Option<MetaTable>)
        ensures
            match res {
                Some(table) => table@ == meta_map(self.meta_rows()) && self.meta_rows().len() > 0,
                None => self.meta_rows().len() == 0,
            },
    {
        let names = vec!["name", "content"];
        assert(names_view(names@) =~= seq!["name"@, "content"@]);
        let rows = self.rows("meta", &names);
        if rows.len() == 0 {
            None
        } else {
            Some(metas_from_rows(&rows))
        }
    }

    /// The e-mail addresses in the text of the page, each once, in order of first
    /// occurrence. Nothing where there is none.
    pub fn get_emails(&self) -> (res: Option<Vec<String>>)
        ensures
            reports(res, found_set(EMAIL_PATTERN@, self.body@)),
    {
        HtmlRecord::find_distinct(EMAIL_PATTERN, self.body.as_str())
    }

    /// The page's text where it is, as a whole, one telephone number of the North American
    /// plan. Nothing where it is not.
    pub fn get_phone_numbers(&self) -> (res: Option<Vec<String>>)
        ensures
            reports(res, found_set(PHONE_PATTERN@, self.body@)),
    {
        HtmlRecord::find_distinct(PHONE_PATTERN, self.body.as_str())
    }

    /// What `pattern` finds in `text`, each match once, in order of first occurrence.
    fn find_distinct(pattern: &str, text: &str) -> (res: Option<Vec<String>>)
        ensures
            reports(res, found_set(pattern@, text@)),
    {
        match find_all(pattern, text) {
            Some(matches) => {
                let found = distinct_strings(&matches);
                if found.len() == 0 {
                    None
                } else {
                    Some(found)
                }
            },
            None => None,
        }
    }
}

/// The links of `links` on the host of `origin`, reached over HTTP(S), that are no
/// assets: each once, in order of first occurrence.
pub fn domain_links(origin: &str, links: &Vec<String>) -> (res: Vec<String>)
    ensures
        strings_view(res@) == distinct(strings_view(links@), domain_link(origin@)),
{
    let mut flags: Vec<bool> = Vec::new();
    let mut i: usize = 0;
    while i < links.len()
        invariant
            i <= links@.len(),
            flags@.len() == i,
            forall|j: int| 0 <= j < i ==> flags@[j] == domain_link(origin@)(#[trigger] links@[j]@),
        decreases links@.len() - i,
    {
        let parsed_link = links[i].as_str();
        let keep = HtmlRecord::is_host_related(origin, parsed_link) && HtmlRecord::is_http(
            parsed_link,
        ) && !HtmlRecord::has_extension(parsed_link);
        flags.push(keep);
        i += 1;
    }
    keep_distinct(links, &flags, Ghost(domain_link(origin@)))
}

/// The links of `links` on other hosts than that of `origin`, reached over HTTP(S), that
/// are no assets: each once, in order of first occurrence.
pub fn foreign_links(origin: &str, links: &Vec<String>) -> (res: Vec<String>)
    ensures
        strings_view(res@) == distinct(strings_view(links@), foreign_link(origin@)),
{
    let mut flags: Vec<bool> = Vec::new();
    let mut i: usize = 0;
    while i < links.len()
        invariant
            i <= links@.len(),
            flags@.len() == i,
            forall|j: int|
                0 <= j < i ==> flags@[j] == foreign_link(origin@)(#[trigger] links@[j]@),
        decreases links@.len() - i,
    {
        let link = links[i].as_str();
        let keep = !HtmlRecord::is_host_related(origin, link) && HtmlRecord::is_http(link)
            && !HtmlRecord::has_extension(link);
        flags.push(keep);
        i += 1;
    }
    keep_distinct(links, &flags, Ghost(foreign_link(origin@)))
}

/// The links of `links` that are marked as matched and are no assets, each once, in
/// order of first occurrence. `matched` holds, place by place, whether the link matched;
/// a link without a mark counts as not matched.
pub fn curated_from_matches(links: &Vec<String>, matched: &Vec<bool>) -> (res: Vec<String>)
    ensures
        strings_view(res@) == distinct(marked(strings_view(links@), matched@), plain_link()),
{
    let ghost all_links = strings_view(links@);
    let mut ret_vec: Vec<String> = Vec::new();
    let mut i: usize = 0;
    assert(strings_view(ret_vec@) =~= distinct(
        marked(all_links.take(0), matched@),
        plain_link(),
    ));
    while i < links.len()
        invariant
            i <= links@.len(),
            all_links == strings_view(links@),
            strings_view(ret_vec@) == distinct(
                marked(all_links.take(i as int), matched@),
                plain_link(),
            ),
        decreases links@.len() - i,
    {
        let ghost before = strings_view(ret_vec@);
        let ghost chosen = marked(all_links.take(i as int), matched@);
        proof {
            assert(all_links.take(i + 1).drop_last() =~= all_links.take(i as int));
            assert(all_links.take(i + 1).last() == links@[i as int]@);
        }
        if i < matched.len() && matched[i] {
            assert(chosen.push(links@[i as int]@).drop_last() =~= chosen);
            if !HtmlRecord::has_extension(links[i].as_str()) && !contains_string(
                &ret_vec,
                &links[i],
            ) {
                ret_vec.push(links[i].clone());
                assert(strings_view(ret_vec@) =~= before.push(links@[i as int]@));
            }
        }
        i += 1;
    }
    assert(all_links.take(i as int) =~= all_links);
    ret_vec
}

/// The texts of `texts` as they are listed: each without line feeds and tabs and
/// trimmed, in order; a text that holds nothing but line feeds and tabs is left out.
pub fn listed_texts(texts: &Vec<String>) -> (res: Vec<String>)
    ensures
        strings_view(res@) == picks(strings_view(texts@), text_pick()),
{
    let mut ret_vec: Vec<String> = Vec::new();
    let mut i: usize = 0;
    assert(strings_view(ret_vec@) =~= picks(strings_view(texts@).take(0), text_pick()));
    while i < texts.len()
        invariant
            i <= texts@.len(),
            strings_view(ret_vec@) == picks(strings_view(texts@).take(i as int), text_pick()),
        decreases texts@.len() - i,
    {
        let ghost before = strings_view(ret_vec@);
        proof {
            let all_texts = strings_view(texts@);
            assert(all_texts.take(i + 1).drop_last() =~= all_texts.take(i as int));
            assert(all_texts.take(i + 1).last() == texts@[i as int]@);
        }
        let text_parsed = strip_breaks(&chars_of(texts[i].as_str()));
        if text_parsed.len() > 0 {
            let trimmed = string_of(&trim_chars(&text_parsed));
            ret_vec.push(trimmed);
            assert(strings_view(ret_vec@) =~= before.push(trimmed@));
        }
        i += 1;
    }
    assert(strings_view(texts@).take(i as int) =~= strings_view(texts@));
    ret_vec
}

/// The table of the `meta` elements whose `name` and `content` the rows hold: one entry
/// for each, keyed by its name, or by `Content-Type` where it has none, and holding the
/// pieces of its content between commas, or `none` where it has no content.
pub fn metas_from_rows(rows: &Vec<Vec<Option<String>>>) -> (res: MetaTable)
    ensures
        res@ == meta_map(rows_view(rows@)),
        res.entries@.len() == rows@.len(),
{
    let mut meta_hash: Vec<(String, Vec<String>)> = Vec::new();
    let mut i: usize = 0;
    assert(rows_view(rows@).take(0) =~= Seq::<Row>::empty());
    while i < rows.len()
        invariant
            i <= rows@.len(),
            meta_hash@.len() == i,
            entries_map(meta_hash@) == meta_map(rows_view(rows@).take(i as int)),
        decreases rows@.len() - i,
    {
        let ghost before = meta_hash@;
        proof {
            let all_rows = rows_view(rows@);
            assert(all_rows.take(i + 1).drop_last() =~= all_rows.take(i as int));
            assert(all_rows.take(i + 1).last() == row_view(rows@[i as int]));
        }
        let name = match attribute_of(&rows[i], 0) {
            Some(name) => name.clone(),
            None => "Content-Type".to_owned(),
        };
        let content = match attribute_of(&rows[i], 1) {
            Some(content) => split_strings(content.as_str(), ','),
            None => {
                let content = vec!["none".to_owned()];
                assert(strings_view(content@) =~= seq!["none"@]);
                content
            },
        };
        meta_hash.push((name, content));
        assert(meta_hash@.drop_last() =~= before);
        i += 1;
    }
    assert(rows_view(rows@).take(i as int) =~= rows_view(rows@));
    MetaTable { entries: meta_hash }
}

/// The pieces of `text` between occurrences of `sep`, as strings.
pub fn split_strings(text: &str, sep: char) -> (res: Vec<String>)
    ensures
        strings_view(res@) == split(text@, sep),
{
    let pieces = split_chars(&chars_of(text), sep);
    let mut out: Vec<String> = Vec::new();
    let mut i: usize = 0;
    while i < pieces.len()
        invariant
            i <= pieces@.len(),
            strings_view(out@) == crate::text::pieces_view(pieces@).take(i as int),
        decreases pieces@.len() - i,
    {
        let ghost before = strings_view(out@);
        let piece = string_of(&pieces[i]);
        out.push(piece);
        assert(strings_view(out@) =~= before.push(pieces@[i as int]@));
        assert(crate::text::pieces_view(pieces@).take(i + 1) =~= crate::text::pieces_view(
            pieces@,
        ).take(i as int).push(pieces@[i as int]@));
        i += 1;
    }
    assert(crate::text::pieces_view(pieces@).take(i as int) =~= crate::text::pieces_view(pieces@));
    out
}

/// The anchors of a page's own site and the anchors that lead away have nothing in
/// common, and together they are the anchors reached over HTTP(S) that are no assets.
pub proof fn law_anchor_partition(record: HtmlRecord)
    ensures
        record.domain_anchor_set().to_set().disjoint(record.foreign_anchor_set().to_set()),
        record.domain_anchor_set().to_set().union(record.foreign_anchor_set().to_set())
            == record.anchor_set().to_set().filter(page_link()),
{
    let targets = record.anchor_targets();
    let origin = record.origin@;
    let home = record.domain_anchor_set().to_set();
    let away = record.foreign_anchor_set().to_set();
    let both = record.anchor_set().to_set().filter(page_link());
    assert forall|l: Seq<char>| !(home.contains(l) && away.contains(l)) by {
        lemma_distinct_contains(targets, domain_link(origin), l);
        lemma_distinct_contains(targets, foreign_link(origin), l);
    }
    assert forall|l: Seq<char>| home.union(away).contains(l) <==> both.contains(l) by {
        lemma_distinct_contains(targets, domain_link(origin), l);
        lemma_distinct_contains(targets, foreign_link(origin), l);
        lemma_distinct_contains(targets, all(), l);
    }
    assert(home.union(away) =~= both);
}

/// Where every anchor of a page is reached over HTTP(S), the anchors of the page's own
/// site and those that lead away are, together, all its anchors but the assets.
pub proof fn law_anchor_partition_of_web_links(record: HtmlRecord)
    requires
        forall|l: Seq<char>| record.anchor_set().contains(l) ==> is_http(l),
    ensures
        record.domain_anchor_set().to_set().union(record.foreign_anchor_set().to_set())
            == record.anchor_set().to_set().filter(plain_link()),
{
    law_anchor_partition(record);
    let anchors = record.anchor_set().to_set();
    assert(anchors.filter(page_link()) =~= anchors.filter(plain_link()));
}

/// Every anchor that a crawl follows is an absolute URL on the page's own host, and was
/// an anchor of the page.
pub proof fn law_frontier_links(record: HtmlRecord, link: Seq<char>)
    requires
        record.domain_anchor_set().contains(link),
    ensures
        url_parse(link) is Ok,
        same_host(record.origin@, link),
        record.anchor_set().contains(link),
        record.domain_anchor_set().no_duplicates(),
{
    lemma_distinct_contains(record.anchor_targets(), domain_link(record.origin@), link);
    lemma_distinct_contains(record.anchor_targets(), all(), link);
    lemma_distinct_no_duplicates(record.anchor_targets(), domain_link(record.origin@));
}

/// Reads the clock with `chrono::Utc::now`, writes the moment in `format` with
/// `chrono::DateTime::format`, and reads the year with `chrono::Datelike::year`. Which
/// moment it is differs from call to call. The contract states what holds of every moment
/// written in [`TIMESTAMP_FORMAT`], the one format admitted: day, month, hour, minute and
/// second are written in two digits each, and the year in four where it lies between 0
/// and 9999, and else with a sign and in more than four characters.
#[verifier::external_body]
pub(crate) fn clock_text(format: &str) -> (res: (String, i32))
    requires
        format@ == TIMESTAMP_FORMAT@,
    ensures
        0 <= res.1 <= 9999 ==> is_stamp(res.0@),
        !(0 <= res.1 <= 9999) ==> res.0@.len() > 19,
{
    let now = ::chrono::Utc::now();
    (now.format(format).to_string(), ::chrono::Datelike::year(&now))
}

} // verus!
