//! Link extraction and archival planning for a crawler that stays on one site.
//!
//! The library holds the decisions of crawling and archiving, and none of the fetching and
//! writing: which links a page holds and which of them a crawl follows ([`html`]), in what
//! order a site is walked and when the walk ends ([`crawler`]), where the archive of a page
//! goes, what its assets are called and how the page is rewritten to refer to the stored
//! copies ([`web_archiver`]), and what is made of a response once it is in ([`client`]).
//!
//! URLs, HTML and regular expressions are read by parsers from outside: [`url`],
//! [`markup`] and [`pattern`] hold the calls, each behind a contract that names what the
//! parser returns. Everything else is proved: [`text`] and [`distinct`] carry the work on
//! characters and on lists without repetition.

pub mod client;
pub mod crawler;
pub mod distinct;
pub mod html;
pub mod markup;
pub mod pattern;
pub mod text;
pub mod url;
pub mod web_archiver;
