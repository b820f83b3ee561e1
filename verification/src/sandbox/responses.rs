//! What the proxy answers.
use vstd::prelude::*;

use crate::text;

verus! {

/// The name of a status code.
pub open spec fn status_name(code: u16) -> Seq<char> {
    match code {
        400 => "Bad Request"@,
        403 => "Forbidden"@,
        407 => "Proxy Authentication Required"@,
        408 => "Request Timeout"@,
        502 => "Bad Gateway"@,
        503 => "Service Unavailable"@,
        _ => "Error"@,
    }
}

/// An error response: the status, the size of the message in bytes, and the message.
pub open spec fn error_text(code: u16, message: Seq<char>) -> Seq<char> {
    "HTTP/1.1 "@ + crate::text::decimal_digits(code as nat) + " "@ + status_name(code)
        + "\r\nContent-Type: text/plain\r\nContent-Length: "@ + crate::text::decimal_digits(
        vstd::utf8::encode_utf8(message).len() as usize as nat,
    ) + "\r\nConnection: close\r\n\r\n"@ + message
}

fn status_of(code: u16) -> (name: &'static str)
    ensures
        name@ == status_name(code),
{
    match code {
        400 => "Bad Request",
        403 => "Forbidden",
        407 => "Proxy Authentication Required",
        408 => "Request Timeout",
        502 => "Bad Gateway",
        503 => "Service Unavailable",
        _ => "Error",
    }
}

/// Writes an error response.
pub fn write_error(code: u16, message: &str) -> (response: String)
    ensures
        response@ == error_text(code, message@),
{
    let mut response = "HTTP/1.1 ".to_owned();
    response.append(text::decimal(code as u64).as_str());
    response.append(" ");
    response.append(status_of(code));
    response.append("\r\nContent-Type: text/plain\r\nContent-Length: ");
    let size: usize = message.len();
    response.append(text::decimal(size as u64).as_str());
    response.append("\r\nConnection: close\r\n\r\n");
    response.append(message);
    assert(response@ =~= error_text(code, message@));
    response
}

/// Why a request could not be read.
#[derive(Debug, Clone, Copy, PartialEq, Eq, Structural)]
pub enum ReadFailure {
    /// The time for the request is over.
    TimedOut,
    /// A read did not end in its time.
    WouldBlock,
    /// The request is too large, or not UTF-8.
    InvalidData,
    /// Anything else.
    Other,
}

/// What a client whose request could not be read is answered, if it is answered at all.
pub open spec fn read_failure_text(failure: ReadFailure) -> Option<Seq<char>> {
    match failure {
        ReadFailure::TimedOut => Some(error_text(408, "Proxy request timed out"@)),
        ReadFailure::WouldBlock => Some(error_text(408, "Proxy request timed out"@)),
        ReadFailure::InvalidData => Some(error_text(400, "Request too large or invalid"@)),
        ReadFailure::Other => None,
    }
}

/// Answers a client whose request could not be read.
pub fn write_request_read_error(failure: ReadFailure) -> (response: Option<String>)
    ensures
        response.deep_view() == read_failure_text(failure),
{
    match failure {
        ReadFailure::TimedOut => Some(write_error(408, "Proxy request timed out")),
        ReadFailure::WouldBlock => Some(write_error(408, "Proxy request timed out")),
        ReadFailure::InvalidData => Some(write_error(400, "Request too large or invalid")),
        ReadFailure::Other => None,
    }
}

/// Whether an answer has this status line.
pub open spec fn is_named(code: u16, name: Seq<char>, answer: Seq<char>) -> bool {
    ("HTTP/1.1 "@ + crate::text::decimal_digits(code as nat) + " "@ + name + "\r\n"@).is_prefix_of(
        answer,
    )
}

/// An answer begins with its status, says how many bytes its message has and that the connection is
/// closed, and ends with a blank line and the message.
pub proof fn answers_are_complete(code: u16, message: Seq<char>)
    requires
        vstd::utf8::encode_utf8(message).len() <= usize::MAX,
    ensures
        ("HTTP/1.1 "@ + crate::text::decimal_digits(code as nat) + " "@).is_prefix_of(
            error_text(code, message),
        ),
        ("\r\nContent-Length: "@ + crate::text::decimal_digits(
            vstd::utf8::encode_utf8(message).len(),
        ) + "\r\nConnection: close\r\n\r\n"@ + message).is_suffix_of(error_text(code, message)),
        code == 400 ==> is_named(code, "Bad Request"@, error_text(code, message)),
        code == 403 ==> is_named(code, "Forbidden"@, error_text(code, message)),
        code == 407 ==> is_named(code, "Proxy Authentication Required"@, error_text(code, message)),
        code == 408 ==> is_named(code, "Request Timeout"@, error_text(code, message)),
        code == 502 ==> is_named(code, "Bad Gateway"@, error_text(code, message)),
        code == 503 ==> is_named(code, "Service Unavailable"@, error_text(code, message)),
{
    let start = "HTTP/1.1 "@ + crate::text::decimal_digits(code as nat) + " "@;
    let size = crate::text::decimal_digits(vstd::utf8::encode_utf8(message).len());
    let whole = error_text(code, message);
    assert(whole.take(start.len() as int) =~= start);
    reveal_strlit("\r\nContent-Type: text/plain\r\nContent-Length: ");
    reveal_strlit("\r\nContent-Length: ");
    let end = "\r\nContent-Length: "@ + size + "\r\nConnection: close\r\n\r\n"@ + message;
    assert(whole.skip(whole.len() - end.len()) =~= end);
    reveal_strlit("\r\n");
    let line = start + status_name(code) + "\r\n"@;
    assert(whole.take(line.len() as int) =~= line);
}

} // verus!
