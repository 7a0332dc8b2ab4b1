//! Absolute URLs, taken apart into the components that link handling reads.

use crate::text::{chars_of, joined, last_piece, same_chars, split, split_chars};
use vstd::prelude::*;

verus! {

/// Why a string could not be read as an absolute URL.
#[derive(Clone, Copy, Debug, PartialEq, Eq, Structural)]
pub enum UrlError {
    /// The string is a relative reference: it names no scheme of its own.
    RelativeWithoutBase,
    /// The string is malformed in some other way.
    Malformed,
}

/// The components of an absolute URL.
#[derive(Debug)]
pub struct ParsedUrl {
    /// The normalized serialization of the whole URL.
    pub href: String,
    /// The scheme, lower-cased and without its `:`.
    pub scheme: String,
    /// The host as serialized, if the URL has one.
    pub host: Option<String>,
    /// The path component.
    pub path: String,
    /// The query string without its `?`, if the URL has one.
    pub query: Option<String>,
}

/// The mathematical value of a [`ParsedUrl`].
pub struct UrlView {
    pub href: Seq<char>,
    pub scheme: Seq<char>,
    pub host: Option<Seq<char>>,
    pub path: Seq<char>,
    pub query: Option<Seq<char>>,
}

impl View for ParsedUrl {
    type V = UrlView;

    open spec fn view(&self) -> UrlView {
        UrlView {
            href: self.href@,
            scheme: self.scheme@,
            host: match self.host {
                Some(h) => Some(h@),
                None => None,
            },
            path: self.path@,
            query: match self.query {
                Some(q) => Some(q@),
                None => None,
            },
        }
    }
}

/// The mathematical value of the outcome of parsing.
pub open spec fn outcome_view(outcome: Result<ParsedUrl, UrlError>) -> Result<UrlView, UrlError> {
    match outcome {
        Ok(u) => Ok(u@),
        Err(e) => Err(e),
    }
}

/// The view of a string that may be absent.
pub open spec fn optional_view(value: Option<String>) -> Option<Seq<char>> {
    match value {
        Some(s) => Some(s@),
        None => None,
    }
}

/// A reference that stands for no absolute URL: it is none itself, and the page that
/// held it has no absolute URL with a host to join it to.
#[derive(Clone, Copy, Debug, PartialEq, Eq, Structural)]
pub struct Unresolvable;

/// What the URL parser makes of `input` when it is read as an absolute URL.
pub uninterp spec fn url_parse(input: Seq<char>) -> Result<UrlView, UrlError>;

/// The serialization of the URL that `reference` denotes relative to the absolute URL `base`,
/// if `base` is an absolute URL and the reference can be resolved against it.
pub uninterp spec fn url_join(base: Seq<char>, reference: Seq<char>) -> Option<Seq<char>>;

/// Parses `input` as an absolute URL with `url::Url::parse` and copies out what
/// `Url::as_str`, `Url::scheme`, `Url::host_str`, `Url::path` and `Url::query` return. Of
/// the parser's errors, `ParseError::RelativeUrlWithoutBase` is told apart from the
/// rest. The contract only names the outcome: the same input always parses to the same
/// components, or fails in the same way.
#[verifier::external_body]
pub(crate) fn parse(input: &str) -> (res: Result<ParsedUrl, UrlError>)
    ensures
        outcome_view(res) == url_parse(input@),
{
    match ::url::Url::parse(input) {
        Ok(u) => Ok(ParsedUrl {
            href: u.as_str().to_string(),
            scheme: u.scheme().to_string(),
            host: u.host_str().map(str::to_string),
            path: u.path().to_string(),
            query: u.query().map(str::to_string),
        }),
        Err(::url::ParseError::RelativeUrlWithoutBase) => Err(UrlError::RelativeWithoutBase),
        Err(_) => Err(UrlError::Malformed),
    }
}

/// Parses `base` with `url::Url::parse`, resolves `reference` against it with
/// `url::Url::join` and returns the serialization of the result, or nothing where either
/// step fails. The contract only names the outcome, which the two strings determine.
#[verifier::external_body]
pub(crate) fn join(base: &str, reference: &str) -> (res: Option<String>)
    ensures
        optional_view(res) == url_join(base@, reference@),
{
    match ::url::Url::parse(base) {
        Ok(b) => b.join(reference).ok().map(String::from),
        Err(_) => None,
    }
}

/// The absolute URL made of a scheme, a host and `raw` placed directly under the host's
/// root, whatever path the page that held `raw` had.
pub open spec fn root_join(scheme: Seq<char>, host: Seq<char>, raw: Seq<char>) -> Seq<char> {
    if raw.len() > 0 && raw[0] == '/' {
        scheme + "://"@ + host + raw
    } else {
        scheme + "://"@ + host + "/"@ + raw
    }
}

/// The absolute URL that the reference `raw`, found on the page `origin`, stands for.
/// A reference that is an absolute URL already stands for itself, unchanged. Any other is
/// joined to the root of `origin`'s host, which takes `origin` to be an absolute URL with
/// a host.
pub open spec fn resolve(origin: Seq<char>, raw: Seq<char>) -> Option<Seq<char>> {
    if url_parse(raw) is Ok {
        Some(raw)
    } else {
        match url_parse(origin) {
            Ok(o) => match o.host {
                Some(h) => Some(root_join(o.scheme, h, raw)),
                None => None,
            },
            Err(_) => None,
        }
    }
}

/// Whether `a` and `b` are absolute URLs with the same host. Scheme and port play no part.
pub open spec fn same_host(a: Seq<char>, b: Seq<char>) -> bool {
    match (url_parse(a), url_parse(b)) {
        (Ok(x), Ok(y)) => x.host == y.host,
        _ => false,
    }
}

/// Whether `scheme` is `http` or `https`.
pub open spec fn is_web_scheme(scheme: Seq<char>) -> bool {
    scheme == "http"@ || scheme == "https"@
}

/// Whether `link` is an absolute URL with the scheme `http` or `https`.
pub open spec fn is_http(link: Seq<char>) -> bool {
    match url_parse(link) {
        Ok(u) => is_web_scheme(u.scheme),
        Err(_) => false,
    }
}

/// The extensions of files that are assets rather than pages.
pub open spec fn is_asset_extension(ext: Seq<char>) -> bool {
    ||| ext == "jpeg"@
    ||| ext == "jpg"@
    ||| ext == "css"@
    ||| ext == "js"@
    ||| ext == "webm"@
    ||| ext == "webp"@
    ||| ext == "png"@
}

/// The last segment of a path: what follows its last `/`.
pub open spec fn final_segment(path: Seq<char>) -> Seq<char> {
    split(path, '/').last()
}

/// The extension of a path: what follows the last `.` of its final segment, if that
/// segment holds a `.`.
pub open spec fn path_extension(path: Seq<char>) -> Option<Seq<char>> {
    let pieces = split(final_segment(path), '.');
    if pieces.len() >= 2 {
        Some(pieces.last())
    } else {
        None
    }
}

/// Whether the extension of `path` is one of the asset extensions, compared case by case.
pub open spec fn path_has_asset_extension(path: Seq<char>) -> bool {
    match path_extension(path) {
        Some(ext) => is_asset_extension(ext),
        None => false,
    }
}

/// Whether `link` is an absolute URL whose path has an asset extension.
pub open spec fn has_extension(link: Seq<char>) -> bool {
    match url_parse(link) {
        Ok(u) => path_has_asset_extension(u.path),
        Err(_) => false,
    }
}

/// The name under which a resource at the absolute URL `link` is stored locally: the last
/// segment of the path. There is none where the URL has a query string, is not
/// hierarchical (its path does not start with `/`), or is no absolute URL at all.
pub open spec fn file_name(link: Seq<char>) -> Option<Seq<char>> {
    match url_parse(link) {
        Ok(u) => if u.query is None && u.path.len() > 0 && u.path[0] == '/' {
            Some(split(u.path.skip(1), '/').last())
        } else {
            None
        },
        Err(_) => None,
    }
}

impl ParsedUrl {
    /// Whether the scheme is `http` or `https`.
    pub fn is_http(&self) -> (res: bool)
        ensures
            res == is_web_scheme(self@.scheme),
    {
        let scheme = chars_of(self.scheme.as_str());
        same_chars(&scheme, &chars_of("http")) || same_chars(&scheme, &chars_of("https"))
    }

    /// Whether the path has an asset extension.
    pub fn has_extension(&self) -> (res: bool)
        ensures
            res == path_has_asset_extension(self@.path),
    {
        let path = chars_of(self.path.as_str());
        let segment = last_piece(&path, '/');
        let pieces = split_chars(&segment, '.');
        if pieces.len() < 2 {
            return false;
        }
        let ext = &pieces[pieces.len() - 1];
        assert(ext@ == split(segment@, '.').last()) by {
            assert(crate::text::pieces_view(pieces@).last() == pieces@.last()@);
        }
        same_chars(ext, &chars_of("jpeg")) || same_chars(ext, &chars_of("jpg")) || same_chars(
            ext,
            &chars_of("css"),
        ) || same_chars(ext, &chars_of("js")) || same_chars(ext, &chars_of("webm")) || same_chars(
            ext,
            &chars_of("webp"),
        ) || same_chars(ext, &chars_of("png"))
    }

    /// Whether this URL and `other` have the same host.
    pub fn same_host(&self, other: &ParsedUrl) -> (res: bool)
        ensures
            res == (self@.host == other@.host),
    {
        match (&self.host, &other.host) {
            (Some(a), Some(b)) => *a == *b,
            (None, None) => true,
            _ => false,
        }
    }

    /// The name under which a resource at this URL is stored locally.
    pub fn file_name(&self) -> (res: Option<String>)
        ensures
            match res {
                Some(name) => self@.query is None && self@.path.len() > 0 && self@.path[0] == '/'
                    && name@ == split(self@.path.skip(1), '/').last(),
                None => !(self@.query is None && self@.path.len() > 0 && self@.path[0] == '/'),
            },
    {
        if self.query.is_some() {
            return None;
        }
        let mut path = chars_of(self.path.as_str());
        if path.len() == 0 || path[0] != '/' {
            return None;
        }
        let ghost whole = path@;
        path.remove(0);
        assert(path@ =~= whole.skip(1));
        let name = last_piece(&path, '/');
        Some(crate::text::string_of(&name))
    }
}

/// Joins `raw` to the root of the host of `origin`.
pub fn join_at_root(origin: &ParsedUrl, host: &str, raw: &str) -> (res: String)
    ensures
        res@ == root_join(origin@.scheme, host@, raw@),
{
    let base = joined(joined(origin.scheme.as_str(), "://").as_str(), host);
    let r = chars_of(raw);
    if r.len() > 0 && r[0] == '/' {
        joined(base.as_str(), raw)
    } else {
        joined(joined(base.as_str(), "/").as_str(), raw)
    }
}

/// A reference that is an absolute URL already resolves to itself, whatever the page.
pub proof fn law_absolute_unchanged(origin: Seq<char>, href: Seq<char>)
    requires
        url_parse(href) is Ok,
    ensures
        resolve(origin, href) == Some(href),
{
}

/// A reference that starts at the root (`/x`) resolves to the page's scheme, `://`, the
/// page's host and the reference. The page's own path plays no part.
pub proof fn law_root_relative(origin: Seq<char>, href: Seq<char>)
    requires
        href.len() > 0,
        href[0] == '/',
        url_parse(href) is Err,
        url_parse(origin) is Ok,
        url_parse(origin)->Ok_0.host is Some,
    ensures
        resolve(origin, href) == Some(
            url_parse(origin)->Ok_0.scheme + "://"@ + url_parse(origin)->Ok_0.host->Some_0 + href,
        ),
{
}

/// Two pages with the same scheme and host resolve a reference alike, whatever their
/// paths.
pub proof fn law_resolve_ignores_path(first: Seq<char>, second: Seq<char>, href: Seq<char>)
    requires
        url_parse(first) is Ok,
        url_parse(second) is Ok,
        url_parse(first)->Ok_0.scheme == url_parse(second)->Ok_0.scheme,
        url_parse(first)->Ok_0.host == url_parse(second)->Ok_0.host,
    ensures
        resolve(first, href) == resolve(second, href),
{
}

/// A path whose final segment holds no `.` has no extension, so not an asset's.
pub proof fn law_no_extension(path: Seq<char>)
    requires
        split(final_segment(path), '.').len() < 2,
    ensures
        !path_has_asset_extension(path),
{
}

} // verus!
