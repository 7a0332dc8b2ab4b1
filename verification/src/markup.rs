//! Queries on HTML text, answered by an HTML parser and a CSS selector engine.
//!
//! A document is only ever looked at through these queries: each takes the text of the
//! document and a selector, and yields plain values for the selected elements.

use crate::text::strings_view;
use crate::url::optional_view;
use vstd::prelude::*;

verus! {

/// The views of the attribute values read from one element.
pub open spec fn row_view(row: Vec<Option<String>>) -> Seq<Option<Seq<char>>> {
    row@.map_values(|v: Option<String>| optional_view(v))
}

/// The views of the attribute values read from a run of elements.
pub open spec fn rows_view(rows: Seq<Vec<Option<String>>>) -> Seq<Seq<Option<Seq<char>>>> {
    rows.map_values(|r: Vec<Option<String>>| row_view(r))
}

/// The views of a list of attribute names.
pub open spec fn names_view(names: Seq<&str>) -> Seq<Seq<char>> {
    names.map_values(|n: &str| n@)
}

/// For the document that `body` parses to: one row for each element that `selector`
/// selects, in the order in which the selection yields them, holding the value of each
/// attribute in `names`, or `None` where the element lacks it. `None` as a whole where
/// `selector` is no valid selector.
pub uninterp spec fn selected_attributes(
    body: Seq<char>,
    selector: Seq<char>,
    names: Seq<Seq<char>>,
) -> Option<Seq<Seq<Option<Seq<char>>>>>;

/// For the document that `body` parses to: the text inside each element that `selector`
/// selects, in selection order. `None` where `selector` is no valid selector.
pub uninterp spec fn selected_text(body: Seq<char>, selector: Seq<char>) -> Option<
    Seq<Seq<char>>,
>;

/// For the document that `body` parses to: the markup of each element that `selector`
/// selects, in selection order. `None` where `selector` is no valid selector.
pub uninterp spec fn selected_html(body: Seq<char>, selector: Seq<char>) -> Option<
    Seq<Seq<char>>,
>;

/// Parses `selector` with `scraper::Selector::parse` and `body` with
/// `scraper::Html::parse_document`, walks the elements that `scraper::Html::select` yields
/// and reads each attribute in `names` with `scraper::node::Element::attr`. The contract
/// only names the outcome, which the three arguments determine.
#[verifier::external_body]
pub(crate) fn select_attributes(body: &str, selector: &str, names: &Vec<&str>) -> (res: Option<
    Vec<Vec<Option<String>>>,
>)
    ensures
        match res {
            Some(rows) => selected_attributes(body@, selector@, names_view(names@)) == Some(
                rows_view(rows@),
            ),
            None => selected_attributes(body@, selector@, names_view(names@)) is None,
        },
{
    let selector = ::scraper::Selector::parse(selector).ok()?;
    let document = ::scraper::Html::parse_document(body);
    let row = |e: ::scraper::ElementRef| {
        names.iter().map(|n| e.value().attr(n).map(String::from)).collect()
    };
    Some(document.select(&selector).map(row).collect())
}

/// Parses `selector` and `body` as [`select_attributes`] does and collects, for each
/// element that `scraper::Html::select` yields, the text nodes below it that
/// `scraper::ElementRef::text` walks. The contract only names the outcome.
#[verifier::external_body]
pub(crate) fn select_text(body: &str, selector: &str) -> (res: Option<Vec<String>>)
    ensures
        match res {
            Some(texts) => selected_text(body@, selector@) == Some(strings_view(texts@)),
            None => selected_text(body@, selector@) is None,
        },
{
    let selector = ::scraper::Selector::parse(selector).ok()?;
    let document = ::scraper::Html::parse_document(body);
    Some(document.select(&selector).map(|e| e.text().collect::<String>()).collect())
}

/// Parses `selector` and `body` as [`select_attributes`] does and serializes each element
/// that `scraper::Html::select` yields with `scraper::ElementRef::html`. The contract only
/// names the outcome.
#[verifier::external_body]
pub(crate) fn select_html(body: &str, selector: &str) -> (res: Option<Vec<String>>)
    ensures
        match res {
            Some(items) => selected_html(body@, selector@) == Some(strings_view(items@)),
            None => selected_html(body@, selector@) is None,
        },
{
    let selector = ::scraper::Selector::parse(selector).ok()?;
    let document = ::scraper::Html::parse_document(body);
    Some(document.select(&selector).map(|e| e.html()).collect())
}

} // verus!
