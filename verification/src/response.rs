//! Responses, as the `hotaru` crate sends them.

use hotaru::http::HttpResponse;
use vstd::prelude::*;

verus! {

/// A response of the `hotaru` crate.
#[verifier::external_type_specification]
#[verifier::external_body]
pub struct ExHttpResponse(hotaru::http::HttpResponse);

/// What a response holds.
pub ghost struct ResponseView {
    /// The code of the status.
    pub code: u16,
    /// The type of the content, without its parameters.
    pub media: Seq<char>,
    pub body: Seq<u8>,
}

/// What a response of the `hotaru` crate holds.
pub uninterp spec fn response_view(response: hotaru::http::HttpResponse) -> ResponseView;

/// `hotaru::http::response_templates::normal_response`: a response with the given status, which
/// must be a known one, and body. Its content is plain text until it is told otherwise.
#[verifier::external_body]
pub(crate) fn plain_response(code: u16, body: Vec<u8>) -> (response: HttpResponse)
    requires
        code == 200 || code == 400 || code == 404 || code == 500,
    ensures
        response_view(response) == (ResponseView { code, media: "text/plain"@, body: body@ }),
{
    hotaru::http::response_templates::normal_response(code, body)
}

/// `hotaru::http::HttpResponse::content_type` with the type of JSON: the response, said to be
/// JSON and otherwise as it was.
#[verifier::external_body]
pub(crate) fn as_json(response: HttpResponse) -> (said: HttpResponse)
    ensures
        response_view(said) == (ResponseView {
            media: "application/json"@,
            ..response_view(response)
        }),
{
    response.content_type(hotaru::http::HttpContentType::ApplicationJson())
}

/// `hotaru::http::response_templates::html_response`: a response with a page.
#[verifier::external_body]
pub(crate) fn page(body: &str) -> (response: HttpResponse)
    ensures
        response_view(response) == (ResponseView {
            code: 200,
            media: "text/html"@,
            body: vstd::utf8::encode_utf8(body@),
        }),
{
    hotaru::http::response_templates::html_response(body)
}

} // verus!
