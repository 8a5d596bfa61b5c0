use vstd::prelude::*;
use crate::bencode::decoder::decode;
use crate::bencode::model::decode_spec;
use crate::error::{BittorrentError, tracker_error};
use crate::tracker::request::{TrackerRequest, params_view};
use crate::tracker::response::{ResponseModel, TrackerResponse, spec_response};

verus! {

/// Why the `url` crate refused a URL.
#[verifier::external_type_specification]
#[verifier::external_body]
pub struct ExParseError(url::ParseError);

/// The URL that stands for `base` with `params` added to its query, or
/// nothing where `base` is no absolute URL.
pub uninterp spec fn url_with_params(base: Seq<char>, params: Seq<(Seq<char>, Seq<char>)>)
    -> Option<Seq<char>>;

/// Parses `base` and adds `params` to its query.
///
/// Trusted: `Url::parse_with_params` of the `url` crate parses an absolute
/// URL and appends the pairs to its query string, or returns why the text
/// is no absolute URL; the outcome depends on the text and the pairs alone.
#[verifier::external_body]
pub(crate) fn parse_with_params(base: &str, params: &Vec<(String, String)>) -> (r: Result<
    String,
    url::ParseError,
>)
    ensures
        match r {
            Ok(text) => url_with_params(base@, params_view(params@)) == Some(text@),
            Err(_) => url_with_params(base@, params_view(params@)) is None,
        },
{
    match url::Url::parse_with_params(base, params) {
        Ok(parsed) => Ok(String::from(parsed)),
        Err(e) => Err(e),
    }
}

/// The words of the `url` crate for a refusal.
///
/// Trusted: this is the `Display` text of `url::ParseError`; nothing is said
/// of it.
#[verifier::external_body]
pub(crate) fn parse_error_text(error: &url::ParseError) -> String {
    error.to_string()
}

/// The URL to fetch for an announce: the tracker's URL with the query
/// parameters of `request` added as form parameters. Every value is
/// form-encoded on the way, the hashes that `to_query_params` has
/// percent-encoded too.
pub fn announce_url(tracker_url: &str, request: &TrackerRequest) -> (r: Result<
    String,
    BittorrentError,
>)
    ensures
        match r {
            Ok(text) => url_with_params(tracker_url@, request.spec_query_params()) == Some(text@),
            Err(e) => url_with_params(tracker_url@, request.spec_query_params()) is None
                && e is UrlParseError,
        },
{
    let params = request.to_query_params();
    match parse_with_params(tracker_url, &params) {
        Ok(text) => Ok(text),
        Err(e) => Err(BittorrentError::UrlParseError(parse_error_text(&e))),
    }
}

/// What the body that a tracker sent says.
pub open spec fn spec_read_response(success: bool, body: Seq<u8>) -> Option<ResponseModel> {
    if !success {
        None
    } else {
        match decode_spec(body) {
            Some(v) => spec_response(v),
            None => None,
        }
    }
}

/// Reads what a tracker answered: `success` says whether the HTTP status was
/// one of success, `body` is what came with it. A status of failure and a
/// response that is not what the schema asks for are tracker errors; a body
/// that is no bencoding is a bencode error.
pub fn read_response(success: bool, body: &[u8]) -> (r: Result<TrackerResponse, BittorrentError>)
    ensures
        match r {
            Ok(response) => spec_read_response(success, body@) == Some(response@),
            Err(e) => {
                &&& spec_read_response(success, body@) is None
                &&& e is BencodeError <==> success && decode_spec(body@) is None
                &&& e is BencodeError || e is TrackerError
            },
        },
{
    if !success {
        return Err(tracker_error("HTTP error"));
    }
    match decode(body) {
        Ok(decoded) => TrackerResponse::from_bencode(decoded),
        Err(e) => Err(e),
    }
}

} // verus!
