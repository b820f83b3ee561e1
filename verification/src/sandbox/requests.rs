//! How the proxy reads a request.
use vstd::prelude::*;

use super::responses::ReadFailure;
use crate::bytes::{first_line, utf8_text};
use crate::text;

verus! {

/// The most bytes that the request line and the headers may have together.
pub const MAX_REQUEST_SIZE: usize = 8192;

/// The shortest time that a read is given, in nanoseconds.
pub const MIN_READ_TIMEOUT: u64 = 1_000_000;

/// The time that the next read is given, in nanoseconds.
pub open spec fn read_time(total_read: usize, deadline: u64, now: u64) -> Result<u64, ReadFailure> {
    if total_read >= MAX_REQUEST_SIZE {
        Err(ReadFailure::InvalidData)
    } else if now > deadline {
        Err(ReadFailure::TimedOut)
    } else if deadline - now < MIN_READ_TIMEOUT {
        Ok(MIN_READ_TIMEOUT)
    } else {
        Ok((deadline - now) as u64)
    }
}

/// How long the next read may take, unless the request is too large already or the time is over.
pub fn next_read(total_read: usize, deadline: u64, now: u64) -> (timeout: Result<u64, ReadFailure>)
    ensures
        timeout == read_time(total_read, deadline, now),
{
    if total_read >= MAX_REQUEST_SIZE {
        return Err(ReadFailure::InvalidData);
    }
    if now > deadline {
        return Err(ReadFailure::TimedOut);
    }
    let remaining: u64 = deadline - now;
    if remaining < MIN_READ_TIMEOUT {
        Ok(MIN_READ_TIMEOUT)
    } else {
        Ok(remaining)
    }
}

/// What the bytes at hand add to a line.
#[derive(Debug, PartialEq, Eq)]
pub enum LinePart {
    /// There are no bytes any more: the line ends as it is.
    Ended,
    /// The request is too large, or not UTF-8.
    Failed(ReadFailure),
    /// This text, from that many bytes, and whether it ends the line.
    Text { text: String, size: usize, complete: bool },
}

/// What the bytes at hand add to a line.
pub enum LinePartView {
    Ended,
    Failed(ReadFailure),
    Text { text: Seq<char>, size: usize, complete: bool },
}

impl DeepView for LinePart {
    type V = LinePartView;

    open spec fn deep_view(&self) -> LinePartView {
        match self {
            LinePart::Ended => LinePartView::Ended,
            LinePart::Failed(failure) => LinePartView::Failed(*failure),
            LinePart::Text { text, size, complete } => LinePartView::Text {
                text: text@,
                size: *size,
                complete: *complete,
            },
        }
    }
}

/// The part of a line that the bytes at hand hold: up to the first line break, within the size
/// that is left to the request, and UTF-8.
pub open spec fn line_part(total_read: usize, available: Seq<u8>) -> LinePartView {
    let size = crate::bytes::line_size(available);
    let line = available.take(size as int);
    if available.len() == 0 {
        LinePartView::Ended
    } else if total_read + size > MAX_REQUEST_SIZE {
        LinePartView::Failed(ReadFailure::InvalidData)
    } else if !vstd::utf8::valid_utf8(line) {
        LinePartView::Failed(ReadFailure::InvalidData)
    } else {
        LinePartView::Text {
            text: vstd::utf8::decode_utf8(line),
            size: size as usize,
            complete: line.last() == 10,
        }
    }
}

/// Takes the next part of a line from the bytes at hand.
pub fn read_bounded_request_line(total_read: usize, available: &[u8]) -> (part: LinePart)
    requires
        total_read <= MAX_REQUEST_SIZE,
    ensures
        part.deep_view() == line_part(total_read, available@),
        part matches LinePart::Text { size, .. } ==> 0 < size <= available@.len() && total_read + size
            <= MAX_REQUEST_SIZE,
{
    if available.len() == 0 {
        return LinePart::Ended;
    }
    proof {
        crate::bytes::line_size_bounded(available@);
    }
    let size: usize = first_line(available);
    let complete = available[size - 1] == 10;
    if size > MAX_REQUEST_SIZE - total_read {
        return LinePart::Failed(ReadFailure::InvalidData);
    }
    let line = vstd::slice::slice_subrange(available, 0, size);
    assert(line@ =~= available@.take(size as int));
    match utf8_text(line) {
        Some(text) => LinePart::Text { text: text.to_owned(), size, complete },
        None => LinePart::Failed(ReadFailure::InvalidData),
    }
}

/// A port that is no number.
#[derive(Debug, Clone, Copy, PartialEq, Eq, Structural)]
pub struct InvalidPort;

/// Where a character first stands.
pub open spec fn first_at(text: Seq<char>, c: char, at: int) -> bool {
    0 <= at < text.len() && text[at] == c && forall|j: int| 0 <= j < at ==> text[j] != c
}

/// Where a character last stands.
pub open spec fn last_at(text: Seq<char>, c: char, at: int) -> bool {
    0 <= at < text.len() && text[at] == c && forall|j: int| at < j < text.len() ==> text[j] != c
}

/// The host and the port of a target: behind a closing bracket or the last colon stands the port,
/// and without one it is 443.
pub open spec fn host_port(target: Seq<char>) -> Option<(Seq<char>, u16)> {
    if target.contains(']') {
        let end = choose|end: int| first_at(target, ']', end);
        let rest = target.skip(end + 1);
        let port = if rest.len() > 0 && rest[0] == ':' {
            crate::text::u16_value(rest.skip(1))
        } else {
            Some(443)
        };
        match port {
            Some(port) => Some((target.take(end + 1), port)),
            None => None,
        }
    } else if target.contains(':') {
        let at = choose|at: int| last_at(target, ':', at);
        match crate::text::u16_value(target.skip(at + 1)) {
            Some(port) => Some((target.take(at), port)),
            None => None,
        }
    } else {
        Some((target, 443))
    }
}

/// Reads the host and the port of a target.
pub fn parse_host_port(target: &str) -> (parsed: Result<(&str, u16), InvalidPort>)
    ensures
        match parsed {
            Ok((host, port)) => host_port(target@) == Some((host@, port)),
            Err(_) => host_port(target@) is None,
        },
{
    let chars = text::chars_of(target);
    let count: usize = target.unicode_len();
    match text::find(&chars, ']') {
        Some(end) => {
            proof {
                assert(first_at(target@, ']', end as int));
                let chosen = choose|end: int| first_at(target@, ']', end);
                assert(chosen == end) by {
                    assert(target@[chosen] == ']' && target@[end as int] == ']');
                }
                assert(target@.contains(']'));
            }
            let host = target.substring_char(0, end + 1);
            assert(host@ =~= target@.take(end + 1));
            if end + 1 < count && chars[end + 1] == ':' {
                let digits = target.substring_char(end + 2, count);
                assert(digits@ =~= target@.skip(end + 1).skip(1));
                match text::parse_u16(digits) {
                    Some(port) => Ok((host, port)),
                    None => Err(InvalidPort),
                }
            } else {
                Ok((host, 443))
            }
        },
        None => match text::find_last(&chars, ':') {
            Some(at) => {
                proof {
                    assert(last_at(target@, ':', at as int));
                    let chosen = choose|at: int| last_at(target@, ':', at);
                    assert(chosen == at) by {
                        assert(target@[chosen] == ':' && target@[at as int] == ':');
                    }
                    assert(target@.contains(':'));
                }
                let host = target.substring_char(0, at);
                assert(host@ =~= target@.take(at as int));
                let digits = target.substring_char(at + 1, count);
                assert(digits@ =~= target@.skip(at + 1));
                match text::parse_u16(digits) {
                    Some(port) => Ok((host, port)),
                    None => Err(InvalidPort),
                }
            },
            None => Ok((target, 443)),
        },
    }
}

/// A host and a port are read back from the target that names them.
pub proof fn target_round_trip(host: Seq<char>, port: u16)
    requires
        !host.contains(']'),
    ensures
        host_port(host.push(':') + crate::text::decimal_digits(port as nat)) == Some((host, port)),
{
    let digits = crate::text::decimal_digits(port as nat);
    let target = host.push(':') + digits;
    crate::text::decimal_round_trip(port as nat);
    assert(crate::text::is_digit(digits[0]));
    assert(!target.contains(']')) by {
        if target.contains(']') {
            let j = choose|j: int| 0 <= j < target.len() && target[j] == ']';
            if j < host.len() {
                assert(host[j] == ']');
            } else if j > host.len() {
                assert(crate::text::is_digit(digits[j - host.len() - 1]));
            }
        }
    }
    assert(last_at(target, ':', host.len() as int)) by {
        assert forall|j: int| host.len() < j < target.len() implies target[j] != ':' by {
            assert(crate::text::is_digit(digits[j - host.len() - 1]));
        }
    }
    let at = choose|at: int| last_at(target, ':', at);
    assert(at == host.len()) by {
        assert(target[at] == ':' && target[host.len() as int] == ':');
    }
    assert(target.contains(':'));
    assert(target.take(at) =~= host);
    assert(target.skip(at + 1) =~= digits);
}

/// The credentials of a header line, if it is the `Proxy-Authorization` header.
pub open spec fn header_credentials(line: Seq<char>) -> Option<Seq<char>> {
    if line.contains(':') {
        let at = choose|at: int| first_at(line, ':', at);
        if crate::text::lower(crate::text::trimmed(line.take(at))) == crate::text::lower(
            "Proxy-Authorization"@,
        ) {
            Some(crate::text::trimmed(line.skip(at + 1)))
        } else {
            None
        }
    } else {
        None
    }
}

/// Reads the credentials of a header line.
pub fn parse_credentials(line: &str) -> (credentials: Option<String>)
    ensures
        credentials.deep_view() == header_credentials(line@),
{
    let chars = text::chars_of(line);
    match text::find(&chars, ':') {
        Some(at) => {
            proof {
                assert(first_at(line@, ':', at as int));
                let chosen = choose|at: int| first_at(line@, ':', at);
                assert(chosen == at) by {
                    assert(line@[chosen] == ':' && line@[at as int] == ':');
                }
                assert(line@.contains(':'));
            }
            let name = line.substring_char(0, at);
            let value = line.substring_char(at + 1, line.unicode_len());
            assert(name@ =~= line@.take(at as int));
            assert(value@ =~= line@.skip(at + 1));
            if text::eq_ignore_ascii_case(text::trim(name), "Proxy-Authorization") {
                Some(text::trim(value).to_owned())
            } else {
                None
            }
        },
        None => None,
    }
}

/// Of a target in brackets the closing bracket ends the host, so that its colons are none before a
/// port; and a target without a port means port 443.
pub proof fn targets_name_hosts(host: Seq<char>, port: u16, name: Seq<char>)
    requires
        host.len() > 0,
        host.last() == ']',
        !host.drop_last().contains(']'),
        !name.contains(']'),
        !name.contains(':'),
    ensures
        host_port(host.push(':') + crate::text::decimal_digits(port as nat)) == Some((host, port)),
        host_port(host) == Some((host, 443u16)),
        host_port(name) == Some((name, 443u16)),
{
    let digits = crate::text::decimal_digits(port as nat);
    crate::text::decimal_round_trip(port as nat);
    assert(crate::text::is_digit(digits[0]));
    let end = host.len() - 1;
    lemma_bracket(host.push(':') + digits, host);
    lemma_bracket(host, host);
    let target = host.push(':') + digits;
    assert(target.take(end + 1) =~= host);
    assert(target.skip(end + 1).skip(1) =~= digits);
    assert(target.skip(end + 1)[0] == ':');
    assert(host.take(end + 1) =~= host);
}

proof fn lemma_bracket(target: Seq<char>, host: Seq<char>)
    requires
        host.len() > 0,
        host.last() == ']',
        !host.drop_last().contains(']'),
        host.len() <= target.len(),
        forall|i: int| 0 <= i < host.len() ==> target[i] == host[i],
    ensures
        target.contains(']'),
        (choose|end: int| first_at(target, ']', end)) == host.len() - 1,
{
    let end = host.len() - 1;
    assert(target[end] == ']');
    assert forall|j: int| 0 <= j < end implies target[j] != ']' by {
        assert(host.drop_last()[j] == target[j]);
    }
    assert(first_at(target, ']', end));
    let chosen = choose|end: int| first_at(target, ']', end);
    assert(target[chosen] == ']');
}

/// A target whose port is no number is none.
pub proof fn ports_are_numbers(host: Seq<char>, port: Seq<char>)
    requires
        !host.contains(']'),
        !port.contains(']'),
        !port.contains(':'),
        port.len() == 0 || exists|i: int|
            0 <= i < port.len() && !('0' <= #[trigger] port[i] <= '9') && !(i == 0 && port[i]
                == '+'),
    ensures
        host_port(host.push(':') + port) is None,
{
    let target = host.push(':') + port;
    let n = host.len() as int;
    assert(!target.contains(']')) by {
        if target.contains(']') {
            let j = choose|j: int| 0 <= j < target.len() && target[j] == ']';
            if j < n {
                assert(host[j] == ']');
            } else if j > n {
                assert(port[j - n - 1] == ']');
            }
        }
    }
    assert(target[n] == ':');
    assert forall|j: int| n < j < target.len() implies target[j] != ':' by {
        assert(port[j - n - 1] == target[j]);
        assert(port.contains(port[j - n - 1]));
    }
    assert(last_at(target, ':', n));
    let at = choose|at: int| last_at(target, ':', at);
    assert(target[at] == ':');
    assert(target.contains(':'));
    assert(target.skip(n + 1) =~= port);
    if port.len() > 0 {
        let i = choose|i: int|
            0 <= i < port.len() && !('0' <= #[trigger] port[i] <= '9') && !(i == 0 && port[i]
                == '+');
        let digits = if port[0] == '+' {
            port.skip(1)
        } else {
            port
        };
        let k = if port[0] == '+' {
            i - 1
        } else {
            i
        };
        assert(digits[k] == port[i]);
        assert(!crate::text::is_digit(digits[k]));
    }
}

} // verus!
