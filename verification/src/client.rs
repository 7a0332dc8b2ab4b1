//! What is made of a response once it has come in: the part of fetching that needs no
//! network.

use crate::html::{bears_stamp, HtmlRecord};
use crate::url::{parse, url_parse};
use crate::web_archiver::{decode_entities, replace_encoded_chars};
use vstd::prelude::*;

verus! {

/// Why a fetch gave nothing.
#[derive(Clone, Copy, Debug, PartialEq, Eq, Structural)]
pub enum FetchError {
    /// What was to be fetched is no absolute URL.
    InvalidUrl,
    /// The server answered with this status, which is not success.
    Status(u16),
}

/// Whether `status` reports success: whether it is one of the statuses 200 to 299.
pub open spec fn is_success(status: u16) -> bool {
    200 <= status <= 299
}

/// Accepts a response by its status.
pub fn check_status(status: u16) -> (res: Result<(), FetchError>)
    ensures
        res == if is_success(status) {
            Ok::<(), FetchError>(())
        } else {
            Err::<(), FetchError>(FetchError::Status(status))
        },
{
    if 200 <= status && status <= 299 {
        Ok(())
    } else {
        Err(FetchError::Status(status))
    }
}

/// The record of the page that a direct request for `url_str` brought: its origin is the
/// URL in normalized form, its text is `body` with character entities decoded, and it is
/// stamped with the moment. There is none where `url_str` is no absolute URL, or the
/// status does not report success.
pub fn page_from_response(url_str: &str, status: u16, body: String) -> (res: Result<
    HtmlRecord,
    FetchError,
>)
    ensures
        match url_parse(url_str@) {
            Ok(u) => if is_success(status) {
                res matches Ok(record) && record.origin@ == u.href && record.body@
                    == decode_entities(body@) && bears_stamp(record.date_time@)
            } else {
                res matches Err(e) && e == FetchError::Status(status)
            },
            Err(_) => res matches Err(e) && e == FetchError::InvalidUrl,
        },
{
    let url_parsed = match parse(url_str) {
        Ok(url_parsed) => url_parsed,
        Err(_) => { return Err(FetchError::InvalidUrl); },
    };
    match check_status(status) {
        Ok(_) => {},
        Err(e) => { return Err(e); },
    }
    let body = replace_encoded_chars(body);
    Ok(HtmlRecord::new(url_parsed.href, body))
}

/// The record of the page that a browser rendered at `url`: its origin is `url` as
/// given, its text is `source` with character entities decoded, and it is stamped with
/// the moment.
pub fn page_from_source(url: &str, source: String) -> (res: HtmlRecord)
    ensures
        res.origin@ == url@,
        res.body@ == decode_entities(source@),
        bears_stamp(res.date_time@),
{
    let body = replace_encoded_chars(source);
    HtmlRecord::new(url.to_owned(), body)
}

} // verus!
