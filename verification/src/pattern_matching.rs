//! Responses of a web server, and what to say about them.

use vstd::prelude::*;
use crate::text::{
    decimal_of, lowercase_of, push_decimal, push_str, same_str, to_lowercase, to_string,
};

verus! {

#[derive(Debug, PartialEq, Eq, Structural)]
pub enum HttpStatus {
    /// Code 200.
    Okay,
    /// Code 404.
    NotFound,
    /// Code 500.
    ServerError,
    /// Any other code.
    Custom(u16),
}

#[derive(Debug)]
pub struct HttpResponse {
    pub status: HttpStatus,
    pub body: Option<String>,
    pub headers: Vec<(String, String)>,
}

/// The text of a body, where there is one.
pub open spec fn body_text(body: Option<String>) -> Option<Seq<char>> {
    match body {
        Some(text) => Some(text@),
        None => None,
    }
}

/// What is said of a response with the given status and body: success with
/// the body, an error by its name, or the code of another status, which
/// counts as an error from 400 on.
pub open spec fn response_message(status: HttpStatus, body: Option<Seq<char>>) -> Seq<char> {
    match status {
        HttpStatus::Okay => match body {
            Some(text) => "Success: "@ + text,
            None => "Success: No content"@,
        },
        HttpStatus::NotFound => "Error: Resource not found"@,
        HttpStatus::ServerError => "Error: Internal server error"@,
        HttpStatus::Custom(code) => if code < 400 {
            "Info: Status "@ + decimal_of(code as nat)
        } else {
            "Error: Status "@ + decimal_of(code as nat)
        },
    }
}

/// The numeric code of a status.
pub open spec fn status_code(status: HttpStatus) -> u16 {
    match status {
        HttpStatus::Okay => 200,
        HttpStatus::NotFound => 404,
        HttpStatus::ServerError => 500,
        HttpStatus::Custom(code) => code,
    }
}

/// Whether the header at `i` names the content type, in whatever case.
pub open spec fn names_content_type(headers: Seq<(String, String)>, i: int) -> bool {
    lowercase_of(headers[i].0@) == "content-type"@
}

impl HttpResponse {
    /// A response with the given status, without body or headers.
    pub fn new(status: HttpStatus) -> (r: Self)
        ensures
            r.status == status,
            r.body is None,
            r.headers@.len() == 0,
    {
        HttpResponse { status, body: None, headers: Vec::new() }
    }

    /// The response with `body` in place of its body.
    pub fn with_body(self, body: String) -> (r: Self)
        ensures
            r.status == self.status,
            r.body == Some(body),
            r.headers == self.headers,
    {
        HttpResponse { status: self.status, body: Some(body), headers: self.headers }
    }

    /// The response with one more header behind the others.
    pub fn with_header(self, key: String, value: String) -> (r: Self)
        ensures
            r.status == self.status,
            r.body == self.body,
            r.headers@ == self.headers@.push((key, value)),
    {
        let mut headers: Vec<(String, String)> = self.headers;
        headers.push((key, value));
        HttpResponse { status: self.status, body: self.body, headers }
    }
}

fn status_line(prefix: &str, code: u16) -> (line: String)
    ensures
        line@ == prefix@ + decimal_of(code as nat),
{
    let mut out: Vec<char> = Vec::new();
    push_str(&mut out, prefix);
    push_decimal(&mut out, code as u64);
    assert(out@ =~= prefix@ + decimal_of(code as nat));
    to_string(&out)
}

fn literal(text: &str) -> (s: String)
    ensures
        s@ == text@,
{
    let mut out: Vec<char> = Vec::new();
    push_str(&mut out, text);
    assert(out@ =~= text@);
    to_string(&out)
}

/// What to say of `response`, told by its status and body together.
pub fn handle_response(response: HttpResponse) -> (message: String)
    ensures
        message@ == response_message(response.status, body_text(response.body)),
{
    match response {
        HttpResponse { status: HttpStatus::Okay, body: Some(body), .. } => {
            let mut out: Vec<char> = Vec::new();
            push_str(&mut out, "Success: ");
            push_str(&mut out, body.as_str());
            assert(out@ =~= "Success: "@ + body@);
            to_string(&out)
        },
        HttpResponse { status: HttpStatus::Okay, body: None, .. } => literal("Success: No content"),
        HttpResponse { status: HttpStatus::NotFound, .. } => literal("Error: Resource not found"),
        HttpResponse { status: HttpStatus::ServerError, .. } => literal(
            "Error: Internal server error",
        ),
        HttpResponse { status: HttpStatus::Custom(code), .. } => {
            if code < 400 {
                status_line("Info: Status ", code)
            } else {
                status_line("Error: Status ", code)
            }
        },
    }
}

/// What to say of `response`, told by its status first and its body second.
pub fn handle_response_alternative(response: HttpResponse) -> (message: String)
    ensures
        message@ == response_message(response.status, body_text(response.body)),
{
    match response.status {
        HttpStatus::Okay => match response.body {
            Some(body) => {
                let mut out: Vec<char> = Vec::new();
                push_str(&mut out, "Success: ");
                push_str(&mut out, body.as_str());
                assert(out@ =~= "Success: "@ + body@);
                to_string(&out)
            },
            None => literal("Success: No content"),
        },
        HttpStatus::NotFound => literal("Error: Resource not found"),
        HttpStatus::ServerError => literal("Error: Internal server error"),
        HttpStatus::Custom(code) => {
            if code < 400 {
                status_line("Info: Status ", code)
            } else {
                status_line("Error: Status ", code)
            }
        },
    }
}

/// The numeric code of the response's status.
pub fn extract_status_code(response: &HttpResponse) -> (code: u16)
    ensures
        code == status_code(response.status),
{
    match &response.status {
        HttpStatus::Okay => 200,
        HttpStatus::NotFound => 404,
        HttpStatus::ServerError => 500,
        HttpStatus::Custom(code) => *code,
    }
}

/// Whether the response's code lies from 200 up to, not including, 300.
pub fn is_success(response: &HttpResponse) -> (success: bool)
    ensures
        success == (200 <= status_code(response.status) < 300),
{
    match &response.status {
        HttpStatus::Okay => true,
        HttpStatus::Custom(code) => 200 <= *code && *code < 300,
        _ => false,
    }
}

/// The value of the first header that names the content type.
pub fn extract_content_type(response: &HttpResponse) -> (r: Option<String>)
    ensures
        match r {
            Some(value) => exists|i: int|
                0 <= i < response.headers@.len() && names_content_type(response.headers@, i)
                    && value@ == response.headers@[i].1@ && forall|j: int|
                    0 <= j < i ==> !names_content_type(response.headers@, j),
            None => forall|j: int|
                0 <= j < response.headers@.len() ==> !names_content_type(response.headers@, j),
        },
{
    let mut i: usize = 0;
    while i < response.headers.len()
        invariant
            i <= response.headers.len(),
            forall|j: int| 0 <= j < i ==> !names_content_type(response.headers@, j),
        decreases response.headers.len() - i,
    {
        let lower: String = to_lowercase(response.headers[i].0.as_str());
        if same_str(lower.as_str(), "content-type") {
            assert(names_content_type(response.headers@, i as int));
            return Some(response.headers[i].1.clone());
        }
        i = i + 1;
    }
    None
}

} // verus!
