//! The archive of one page: where it goes on disk, under which names its assets are
//! stored, and how the page's text is rewritten to point at the stored copies.
//!
//! Nothing here touches the disk or the network. A plan says what to create, fetch and
//! write; whoever carries it out reports each asset that was stored, and the plan
//! rewrites the page accordingly.

use crate::html::HtmlRecord;
use crate::text::{chars_of, joined, ends_with_char, replace, replace_all, replace_chars, string_of};
use crate::url::{file_name, optional_view, parse, url_parse, ParsedUrl, Unresolvable};
use rand::Rng;
use vstd::prelude::*;

verus! {

/// The archiver that fetches pages directly over HTTP.
#[derive(Clone, Copy, Debug)]
pub struct BasicArchiver {}

/// The kinds of asset that are stored with a page.
#[derive(Clone, Copy, Debug, PartialEq, Eq, Structural)]
pub enum AssetKind {
    Image,
    Stylesheet,
    Script,
}

impl AssetKind {
    /// The subdirectory that holds assets of this kind.
    pub open spec fn folder(self) -> Seq<char> {
        match self {
            AssetKind::Image => "images"@,
            AssetKind::Stylesheet => "css"@,
            AssetKind::Script => "js"@,
        }
    }

    /// The extension that a made-up file name of this kind gets.
    pub open spec fn suffix(self) -> Seq<char> {
        match self {
            AssetKind::Image => ".png"@,
            AssetKind::Stylesheet => ".css"@,
            AssetKind::Script => ".js"@,
        }
    }

    /// The subdirectory that holds assets of this kind.
    pub fn directory(self) -> (res: &'static str)
        ensures
            res@ == self.folder(),
    {
        match self {
            AssetKind::Image => "images",
            AssetKind::Stylesheet => "css",
            AssetKind::Script => "js",
        }
    }

    /// The extension that a made-up file name of this kind gets.
    pub fn extension(self) -> (res: &'static str)
        ensures
            res@ == self.suffix(),
    {
        match self {
            AssetKind::Image => ".png",
            AssetKind::Stylesheet => ".css",
            AssetKind::Script => ".js",
        }
    }
}

/// `text` with the character entities of HTML's five special characters decoded, one
/// entity after the other: `&lt;`, `&gt;`, `&quot;`, `&amp;`, `&apos;`.
pub open spec fn decode_entities(text: Seq<char>) -> Seq<char> {
    let lt = replace_all(text, "&lt;"@, "<"@);
    let gt = replace_all(lt, "&gt;"@, ">"@);
    let quot = replace_all(gt, "&quot;"@, "\""@);
    let amp = replace_all(quot, "&amp;"@, "&"@);
    replace_all(amp, "&apos;"@, "'"@)
}

/// `path` with a `/` at its end.
pub open spec fn with_slash(path: Seq<char>) -> Seq<char> {
    if path.len() > 0 && path.last() == '/' {
        path
    } else {
        path + "/"@
    }
}

/// The directory of a page's archive: under `base`, the host, then the page's path, then
/// the moment of the fetch.
pub open spec fn directory_path(
    base: Seq<char>,
    host: Seq<char>,
    path: Seq<char>,
    date_time: Seq<char>,
) -> Seq<char> {
    with_slash(base) + host + with_slash(path) + date_time
}

/// The directory of the archive of the page fetched from `origin` at `date_time`, if
/// `origin` is an absolute URL with a host.
pub open spec fn archive_directory(
    origin: Seq<char>,
    date_time: Seq<char>,
    base: Seq<char>,
) -> Option<Seq<char>> {
    match url_parse(origin) {
        Ok(u) => match u.host {
            Some(h) => Some(directory_path(base, h, u.path, date_time)),
            None => None,
        },
        Err(_) => None,
    }
}

/// The subdirectory of `directory` for assets of `kind`.
pub open spec fn folder_path(directory: Seq<char>, kind: AssetKind) -> Seq<char> {
    directory + "/"@ + kind.folder()
}

/// Where in `directory` the asset `name` of `kind` is stored.
pub open spec fn stored_path(directory: Seq<char>, kind: AssetKind, name: Seq<char>) -> Seq<char> {
    directory + "/"@ + kind.folder() + "/"@ + name
}

/// How the archived page refers to its stored asset `name` of `kind`.
pub open spec fn local_reference(kind: AssetKind, name: Seq<char>) -> Seq<char> {
    "./"@ + kind.folder() + "/"@ + name
}

/// Whether `c` is an ASCII letter or digit.
pub open spec fn is_alphanumeric(c: char) -> bool {
    ('a' <= c && c <= 'z') || ('A' <= c && c <= 'Z') || ('0' <= c && c <= '9')
}

/// Whether `name` is seven ASCII letters and digits.
pub open spec fn is_random_stem(name: Seq<char>) -> bool {
    name.len() == 7 && forall|i: int| 0 <= i < 7 ==> is_alphanumeric(#[trigger] name[i])
}

/// An asset of a page, as planned for the archive.
#[derive(Debug)]
pub struct Asset {
    /// What kind of asset it is.
    pub kind: AssetKind,
    /// The reference as written in the page.
    pub raw: String,
    /// The absolute URL to fetch the asset from.
    pub url: String,
    /// The name of the file that holds the stored copy.
    pub file_name: String,
    /// Whether the file name was made up, the URL offering none.
    pub synthesized: bool,
}

/// The mathematical value of an [`Asset`].
pub struct AssetView {
    pub kind: AssetKind,
    pub raw: Seq<char>,
    pub url: Seq<char>,
    pub file_name: Seq<char>,
    pub synthesized: bool,
}

impl View for Asset {
    type V = AssetView;

    open spec fn view(&self) -> AssetView {
        AssetView {
            kind: self.kind,
            raw: self.raw@,
            url: self.url@,
            file_name: self.file_name@,
            synthesized: self.synthesized,
        }
    }
}

impl AssetView {
    /// Whether the file name is the one that the URL offers, or, where it offers none,
    /// a made-up one: seven letters and digits and the extension of the kind.
    pub open spec fn well_named(self) -> bool {
        match file_name(self.url) {
            Some(name) => !self.synthesized && self.file_name == name,
            None => self.synthesized && exists|stem: Seq<char>|
                is_random_stem(stem) && self.file_name == #[trigger] (stem + self.kind.suffix()),
        }
    }

    /// Whether this is the asset of `kind` planned for `reference`.
    pub open spec fn plans(self, kind: AssetKind, reference: (Seq<char>, Seq<char>)) -> bool {
        self.kind == kind && self.raw == reference.0 && self.url == reference.1
            && self.well_named()
    }
}

/// The views of a run of assets.
pub open spec fn assets_view(assets: Seq<Asset>) -> Seq<AssetView> {
    assets.map_values(|a: Asset| a@)
}

/// Whether `assets` holds, in order, one well-named asset of `kind` for each of
/// `references`.
pub open spec fn plan_covers(
    assets: Seq<AssetView>,
    kind: AssetKind,
    references: Seq<(Seq<char>, Seq<char>)>,
) -> bool {
    assets.len() == references.len() && forall|i: int|
        0 <= i < assets.len() ==> (#[trigger] assets[i]).plans(kind, references[i])
}

/// The plan of one page's archive, and the text of the page as rewritten so far.
#[derive(Debug)]
pub struct PageArchive {
    /// The directory that holds the archive.
    pub directory: String,
    /// The text of the page, with the references to the assets stored so far rewritten.
    pub body: String,
    /// The assets to fetch and store: images first, then style sheets, then scripts.
    pub assets: Vec<Asset>,
}

/// The mathematical value of a [`PageArchive`].
pub struct ArchiveView {
    pub directory: Seq<char>,
    pub body: Seq<char>,
    pub assets: Seq<AssetView>,
}

impl View for PageArchive {
    type V = ArchiveView;

    open spec fn view(&self) -> ArchiveView {
        ArchiveView {
            directory: self.directory@,
            body: self.body@,
            assets: assets_view(self.assets@),
        }
    }
}

impl ArchiveView {
    /// The text of the page once the asset at `index` is stored: every occurrence of the
    /// asset's reference, as the page wrote it, gives way to the reference to the stored
    /// copy.
    pub open spec fn rewritten(self, index: int) -> Seq<char> {
        let asset = self.assets[index];
        replace_all(self.body, asset.raw, local_reference(asset.kind, asset.file_name))
    }

    /// Whether this is the plan of the archive of `record` under `base`, nothing stored
    /// yet: the directory is the record's, the text is as fetched, and the assets are the
    /// record's images, then its style sheets, then its scripts, each well named.
    pub open spec fn plans(self, record: &HtmlRecord, base: Seq<char>) -> bool {
        let images = record.image_set();
        let sheets = record.stylesheet_set();
        let scripts = record.script_set();
        &&& archive_directory(record.origin@, record.date_time@, base) == Some(self.directory)
        &&& self.body == record.body@
        &&& self.assets.len() == images.len() + sheets.len() + scripts.len()
        &&& plan_covers(self.assets.subrange(0, images.len() as int), AssetKind::Image, images)
        &&& plan_covers(
            self.assets.subrange(images.len() as int, (images.len() + sheets.len()) as int),
            AssetKind::Stylesheet,
            sheets,
        )
        &&& plan_covers(
            self.assets.subrange((images.len() + sheets.len()) as int, self.assets.len() as int),
            AssetKind::Script,
            scripts,
        )
    }

    /// Whether the plan holds an asset of `kind`.
    pub open spec fn has_kind(self, kind: AssetKind) -> bool {
        exists|i: int| 0 <= i < self.assets.len() && (#[trigger] self.assets[i]).kind == kind
    }
}

/// Two fetches of one page at different moments are archived in different directories.
pub proof fn law_directory_tells_moments_apart(
    base: Seq<char>,
    host: Seq<char>,
    path: Seq<char>,
    first: Seq<char>,
    second: Seq<char>,
)
    requires
        first != second,
    ensures
        directory_path(base, host, path, first) != directory_path(base, host, path, second),
{
    let stem = with_slash(base) + host + with_slash(path);
    if stem + first == stem + second {
        assert((stem + first).skip(stem.len() as int) =~= first);
        assert((stem + second).skip(stem.len() as int) =~= second);
    }
}

/// Decodes the character entities of HTML's five special characters in `body`.
pub fn replace_encoded_chars(body: String) -> (res: String)
    ensures
        res@ == decode_entities(body@),
{
    let text = chars_of(body.as_str());
    let lt = replace_chars(&text, &chars_of("&lt;"), &chars_of("<"));
    let gt = replace_chars(&lt, &chars_of("&gt;"), &chars_of(">"));
    let quot = replace_chars(&gt, &chars_of("&quot;"), &chars_of("\""));
    let amp = replace_chars(&quot, &chars_of("&amp;"), &chars_of("&"));
    let apos = replace_chars(&amp, &chars_of("&apos;"), &chars_of("'"));
    string_of(&apos)
}

/// The name under which a resource at the absolute URL `link` is stored: the last segment
/// of its path. There is none where the URL has a query string, or no path of segments,
/// or where `link` is no absolute URL.
pub fn get_file_name(link: &str) -> (res: Option<String>)
    ensures
        optional_view(res) == file_name(link@),
{
    match parse(link) {
        Ok(urlp) => urlp.file_name(),
        Err(_) => None,
    }
}

/// Draws seven characters with `rand::Rng::sample_iter` from the distribution
/// `rand::distributions::Alphanumeric`, which yields ASCII letters and digits only. The
/// contract states just that: which seven is a matter of chance.
#[verifier::external_body]
pub(crate) fn random_name_generator() -> (res: String)
    ensures
        is_random_stem(res@),
{
    ::rand::thread_rng().sample_iter(&::rand::distributions::Alphanumeric).take(7).map(
        char::from,
    ).collect()
}

/// `path` with a `/` at its end.
pub fn ensure_slash(path: &str) -> (res: String)
    ensures
        res@ == with_slash(path@),
{
    if ends_with_char(path, '/') {
        path.to_owned()
    } else {
        joined(path, "/")
    }
}

/// The directory of the archive of the page at `url`, fetched at `date_time`, under
/// `base_path`. There is none where the URL has no host.
pub fn directory_for(url: &ParsedUrl, date_time: &str, base_path: &str) -> (res: Option<String>)
    ensures
        optional_view(res) == match url@.host {
            Some(host) => Some(directory_path(base_path@, host, url@.path, date_time@)),
            None => None,
        },
{
    match &url.host {
        Some(root_host_name) => {
            let a_path = ensure_slash(url.path.as_str());
            let base_path = ensure_slash(base_path);
            let site = joined(base_path.as_str(), root_host_name.as_str());
            let page = joined(site.as_str(), a_path.as_str());
            Some(joined(page.as_str(), date_time))
        },
        None => None,
    }
}

/// The made-up name of a file for an asset of `kind`: `stem` with the extension of the
/// kind.
pub fn made_up_name(kind: AssetKind, stem: &str) -> (res: String)
    ensures
        res@ == stem@ + kind.suffix(),
{
    joined(stem, kind.extension())
}

/// The asset of `kind` that the page refers to as `raw` and that is fetched from `url`,
/// named as the URL offers or, failing that, at random.
pub fn name_asset(kind: AssetKind, raw: String, url: String) -> (res: Asset)
    ensures
        res@.plans(kind, (raw@, url@)),
{
    match get_file_name(url.as_str()) {
        Some(file_name) => Asset { kind, raw, url, file_name, synthesized: false },
        None => {
            let stem = random_name_generator();
            let file_name = made_up_name(kind, stem.as_str());
            assert(is_random_stem(stem@) && file_name@ == stem@ + kind.suffix());
            Asset { kind, raw, url, file_name, synthesized: true }
        },
    }
}

/// Adds to `assets` one asset of `kind` for each of `references`, named by its URL or,
/// failing that, at random.
pub fn plan_assets(
    assets: &mut Vec<Asset>,
    kind: AssetKind,
    references: Option<Vec<(String, String)>>,
)
    ensures
        assets_view(final(assets)@).len() == assets_view(old(assets)@).len() + match references {
            Some(r) => r@.len(),
            None => 0,
        },
        assets_view(final(assets)@).take(old(assets)@.len() as int) == assets_view(old(assets)@),
        plan_covers(
            assets_view(final(assets)@).skip(old(assets)@.len() as int),
            kind,
            match references {
                Some(r) => crate::distinct::pairs_view(r@),
                None => Seq::empty(),
            },
        ),
{
    let ghost start = assets@.len() as int;
    let ghost before = assets_view(assets@);
    match references {
        Some(links) => {
            let ghost refs = crate::distinct::pairs_view(links@);
            let mut i: usize = 0;
            assert(assets_view(assets@).take(start) =~= before);
            while i < links.len()
                invariant
                    i <= links@.len(),
                    refs == crate::distinct::pairs_view(links@),
                    start == old(assets)@.len(),
                    before == assets_view(old(assets)@),
                    assets@.len() == start + i,
                    assets_view(assets@).take(start) == before,
                    forall|j: int|
                        0 <= j < i ==> (#[trigger] assets_view(assets@)[start + j]).plans(
                            kind,
                            refs[j],
                        ),
                decreases links@.len() - i,
            {
                let ghost so_far = assets_view(assets@);
                let asset = name_asset(kind, links[i].0.clone(), links[i].1.clone());
                assets.push(asset);
                proof {
                    assert(assets_view(assets@) =~= so_far.push(asset@));
                    assert(assets_view(assets@).take(start) =~= so_far.take(start));
                    assert forall|j: int| 0 <= j < i + 1 implies (#[trigger] assets_view(
                        assets@,
                    )[start + j]).plans(kind, refs[j]) by {
                        if j < i {
                            assert(assets_view(assets@)[start + j] == so_far[start + j]);
                        }
                    }
                }
                i += 1;
            }
            proof {
                let tail = assets_view(assets@).skip(start);
                assert forall|j: int| 0 <= j < tail.len() implies (#[trigger] tail[j]).plans(
                    kind,
                    refs[j],
                ) by {
                    assert(tail[j] == assets_view(assets@)[start + j]);
                }
            }
        },
        None => {
            assert(assets_view(assets@).take(start) =~= before);
            assert(assets_view(assets@).skip(start) =~= Seq::empty());
        },
    }
}

impl PageArchive {
    /// Plans the archive of `html_record` under `base_path`: the directory, and for each
    /// image, style sheet and script of the page the URL to fetch and the file name to
    /// store it under. The page's text is as fetched. Fails where the record's origin is
    /// no absolute URL with a host.
    pub fn plan(html_record: &HtmlRecord, base_path: &str) -> (res: Result<
        PageArchive,
        Unresolvable,
    >)
        ensures
            match res {
                Ok(archive) => archive@.plans(html_record, base_path@),
                Err(_) => archive_directory(html_record.origin@, html_record.date_time@, base_path@)
                    is None,
            },
    {
        let url = match parse(html_record.origin.as_str()) {
            Ok(url) => url,
            Err(_) => { return Err(Unresolvable); },
        };
        let directory = match directory_for(&url, html_record.date_time.as_str(), base_path) {
            Some(directory) => directory,
            None => { return Err(Unresolvable); },
        };
        let mut assets: Vec<Asset> = Vec::new();
        let ghost images = html_record.image_set();
        let ghost sheets = html_record.stylesheet_set();
        let ghost scripts = html_record.script_set();
        plan_assets(&mut assets, AssetKind::Image, html_record.get_image_links());
        let ghost first = assets_view(assets@);
        assert(first.skip(0) =~= first);
        plan_assets(&mut assets, AssetKind::Stylesheet, html_record.get_css_links());
        let ghost second = assets_view(assets@);
        plan_assets(&mut assets, AssetKind::Script, html_record.get_js_links());
        let ghost third = assets_view(assets@);
        proof {
            assert(first.len() == images.len());
            assert(second.len() == images.len() + sheets.len());
            assert(third.subrange(0, images.len() as int) =~= first) by {
                assert(third.take(second.len() as int) == second);
                assert(second.take(first.len() as int) == first);
                assert forall|j: int| 0 <= j < first.len() implies third[j] == first[j] by {
                    assert(third.take(second.len() as int)[j] == third[j]);
                    assert(second.take(first.len() as int)[j] == second[j]);
                }
            }
            assert(third.subrange(images.len() as int, (images.len() + sheets.len()) as int)
                =~= second.skip(first.len() as int)) by {
                assert forall|j: int| first.len() <= j < second.len() implies third[j]
                    == second[j] by {
                    assert(third.take(second.len() as int)[j] == third[j]);
                }
            }
            assert(third.subrange(second.len() as int, third.len() as int) =~= third.skip(
                second.len() as int,
            ));
        }
        Ok(PageArchive { directory, body: html_record.body.clone(), assets })
    }

    /// Whether a subdirectory for assets of `kind` is needed: whether the plan holds one.
    pub fn needs_folder(&self, kind: AssetKind) -> (res: bool)
        ensures
            res == self@.has_kind(kind),
    {
        let mut i: usize = 0;
        while i < self.assets.len()
            invariant
                i <= self.assets@.len(),
                forall|j: int| 0 <= j < i ==> (#[trigger] self@.assets[j]).kind != kind,
            decreases self.assets@.len() - i,
        {
            if self.assets[i].kind == kind {
                assert(self@.assets[i as int].kind == kind);
                return true;
            }
            i += 1;
        }
        false
    }

    /// The subdirectory for assets of `kind`.
    pub fn folder(&self, kind: AssetKind) -> (res: String)
        ensures
            res@ == folder_path(self@.directory, kind),
    {
        joined(joined(self.directory.as_str(), "/").as_str(), kind.directory())
    }

    /// Where the asset at `index` is to be stored, if the plan holds that many.
    pub fn asset_path(&self, index: usize) -> (res: Option<String>)
        ensures
            match res {
                Some(path) => index < self@.assets.len() && path@ == stored_path(
                    self@.directory,
                    self@.assets[index as int].kind,
                    self@.assets[index as int].file_name,
                ),
                None => index >= self@.assets.len(),
            },
    {
        if index >= self.assets.len() {
            return None;
        }
        let asset = &self.assets[index];
        assert(self@.assets[index as int] == asset@);
        let folder = self.folder(asset.kind);
        Some(joined(joined(folder.as_str(), "/").as_str(), asset.file_name.as_str()))
    }

    /// Records that the asset at `index` was fetched and stored: from now on the page
    /// refers to the stored copy wherever it wrote the asset's reference. An index that
    /// the plan does not hold changes nothing.
    pub fn asset_saved(&mut self, index: usize)
        ensures
            final(self)@.directory == old(self)@.directory,
            final(self)@.assets == old(self)@.assets,
            final(self)@.body == if index < old(self)@.assets.len() {
                old(self)@.rewritten(index as int)
            } else {
                old(self)@.body
            },
    {
        if index < self.assets.len() {
            let asset = &self.assets[index];
            assert(self@.assets[index as int] == asset@);
            let local = joined(
                joined(joined("./", asset.kind.directory()).as_str(), "/").as_str(),
                asset.file_name.as_str(),
            );
            let body = replace(self.body.as_str(), asset.raw.as_str(), local.as_str());
            self.body = body;
        }
    }

    /// Where the page itself is written.
    pub fn index_path(&self) -> (res: String)
        ensures
            res@ == self@.directory + "/index.html"@,
    {
        joined(self.directory.as_str(), "/index.html")
    }

    /// Where the picture of the rendered page is written.
    pub fn screenshot_path(&self) -> (res: String)
        ensures
            res@ == self@.directory + "/screenshot.png"@,
    {
        joined(self.directory.as_str(), "/screenshot.png")
    }
}

impl BasicArchiver {
    /// Plans the archive of a page fetched directly, of which there is no picture.
    pub fn plan(html_record: &HtmlRecord, path: &str) -> (res: Result<PageArchive, Unresolvable>)
        ensures
            match res {
                Ok(archive) => archive@.plans(html_record, path@),
                Err(_) => archive_directory(html_record.origin@, html_record.date_time@, path@)
                    is None,
            },
    {
        PageArchive::plan(html_record, path)
    }
}

/// The settings of the browser session that renders pages.
#[derive(Debug)]
pub struct Capabilities {
    /// The key under which the browser looks for its options.
    pub options_key: String,
    /// The arguments that the browser is started with.
    pub args: Vec<String>,
    /// The preferences that are switched on or off, by name.
    pub prefs: Vec<(String, bool)>,
}

/// The settings of the browser session that renders pages: without a window, in private
/// browsing, and without the mark that the browser sets when it is automated.
pub fn get_capabilities() -> (caps: Capabilities)
    ensures
        caps.options_key@ == "moz:firefoxOptions"@,
        crate::text::strings_view(caps.args@) == seq![
            "--headless"@,
            "--disable-blink-features=AutomationControlled"@,
        ],
        caps.prefs@.len() == 1,
        caps.prefs@[0].0@ == "browser.privatebrowsing.autostart"@,
        caps.prefs@[0].1,
{
    let args = vec![
        "--headless".to_owned(),
        "--disable-blink-features=AutomationControlled".to_owned(),
    ];
    assert(crate::text::strings_view(args@) =~= seq![
        "--headless"@,
        "--disable-blink-features=AutomationControlled"@,
    ]);
    let firefox_profile = vec![("browser.privatebrowsing.autostart".to_owned(), true)];
    Capabilities {
        options_key: "moz:firefoxOptions".to_owned(),
        args,
        prefs: firefox_profile,
    }
}

} // verus!
