//! HTTP responses, as the API writes them.
use vstd::prelude::*;
use crate::api::utils::headers::{Headers, headers_text};
use crate::api::utils::mime_type::{MimeType, mime_name};
use crate::api::utils::status_code::{StatusCode, status_text};
use crate::api::utils::string_map::{Pair, pairs_insert};
use crate::codec::{decimal, to_decimal};
use crate::text::{lowercase, string_from_chars};

verus! {

/// The headers of a response with `body`: its mime type and its length in
/// bytes, or none without a body.
pub open spec fn response_headers(body: Option<Seq<char>>, mime: MimeType) -> Seq<Pair> {
    match body {
        Some(b) => pairs_insert(
            pairs_insert(Seq::empty(), lowercase("Content-Type"@), lowercase(mime_name(mime))),
            lowercase("Content-Length"@),
            lowercase(decimal((vstd::utf8::encode_utf8(b).len() as usize) as nat)),
        ),
        None => seq![],
    }
}

/// The text of a response: the status line, the headers, then the body
/// after an empty line.
pub open spec fn response_text(status: StatusCode, headers: Seq<Pair>, body: Option<Seq<char>>) -> Seq<char> {
    "HTTP/1.1 "@ + status_text(status) + headers_text(headers) + match body {
        Some(b) => "\r\n\r\n"@ + b,
        None => "\r\n"@,
    }
}

/// A struct that holds the data of an HTTP response
pub struct Response {
    pub status_code: StatusCode,
    pub headers: Headers,
    pub body: Option<String>,
}

impl Response {
    /// Create a new Response; with a body it gets the headers of its mime
    /// type and its length.
    pub fn new(status_code: StatusCode, body: Option<String>, mime_type: MimeType) -> (r: Response)
        ensures
            r.status_code == status_code,
            r.body == body,
            r.headers.pairs() == response_headers(
                match body {
                    Some(b) => Some(b@),
                    None => None,
                },
                mime_type,
            ),
    {
        let mut headers = Headers::new();
        if let Some(b) = &body {
            let mime = mime_type.to_string();
            headers.insert("Content-Type", mime.as_str());
            let length = string_from_chars(to_decimal(b.as_str().len()).as_slice());
            headers.insert("Content-Length", length.as_str());
        }
        Response { status_code, headers, body }
    }

    /// The response as the text that is sent.
    pub fn to_string(&self) -> (text: String)
        ensures
            text@ == response_text(
                self.status_code,
                self.headers.pairs(),
                match self.body {
                    Some(b) => Some(b@),
                    None => None,
                },
            ),
    {
        let mut text = String::new();
        text.append("HTTP/1.1 ");
        text.append(self.status_code.to_string().as_str());
        text.append(self.headers.to_string().as_str());
        match &self.body {
            Some(b) => {
                text.append("\r\n\r\n");
                text.append(b.as_str());
            },
            None => {
                text.append("\r\n");
            },
        }
        text
    }
}

} // verus!
