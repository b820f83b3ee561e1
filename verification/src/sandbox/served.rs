//! Whole requests: what a client sends, and what comes of it.
use vstd::prelude::*;

use super::addresses::{AddressClass, SocketAddress};
use super::allowlist::AllowedDomainRule;
use super::requests::MAX_REQUEST_SIZE;
use super::session::{PhaseView, ProxyActionView, ProxyEventView, SessionView};

verus! {

/// Whether bytes are a line of text: UTF-8, with a line break at the end and nowhere else.
pub open spec fn is_line(bytes: Seq<u8>) -> bool {
    &&& vstd::utf8::valid_utf8(bytes)
    &&& bytes.len() > 0
    &&& bytes.last() == 10
    &&& forall|i: int| 0 <= i < bytes.len() - 1 ==> bytes[i] != 10
}

/// The text of a line.
pub open spec fn line_text(bytes: Seq<u8>) -> Seq<char> {
    vstd::utf8::decode_utf8(bytes)
}

/// Whether a line holds nothing but white space.
pub open spec fn is_blank(bytes: Seq<u8>) -> bool {
    forall|i: int|
        0 <= i < line_text(bytes).len() ==> crate::text::is_space(#[trigger] line_text(bytes)[i])
}

/// The size of all lines together.
pub open spec fn size_of_all(lines: Seq<Seq<u8>>) -> nat
    decreases lines.len(),
{
    if lines.len() == 0 {
        0
    } else {
        size_of_all(lines.drop_last()) + lines.last().len()
    }
}

/// The lines as they come in one by one.
pub open spec fn inputs(lines: Seq<Seq<u8>>) -> Seq<ProxyEventView> {
    Seq::new(lines.len(), |i: int| ProxyEventView::Input(lines[i]))
}

/// Whether lines are the head of a request, without the blank line at its end: a request line and
/// headers, not too large.
pub open spec fn is_head(lines: Seq<Seq<u8>>) -> bool {
    &&& lines.len() > 0
    &&& size_of_all(lines) <= MAX_REQUEST_SIZE
    &&& forall|i: int| 0 <= i < lines.len() ==> is_line(#[trigger] lines[i])
    &&& forall|i: int| 1 <= i < lines.len() ==> !is_blank(#[trigger] lines[i])
}

/// Whether a header gives these credentials: it is named `Proxy-Authorization`, in whatever letter
/// case, and they are what follows its first colon, without the white space around.
pub open spec fn authorizes(header: Seq<u8>, credentials: Seq<char>) -> bool {
    let text = crate::text::trimmed(line_text(header));
    exists|at: int|
        0 <= at < text.len() && #[trigger] text[at] == ':' && !text.take(at).contains(':')
            && crate::text::lower(crate::text::trimmed(text.take(at))) == "proxy-authorization"@
            && credentials == crate::text::trimmed(text.skip(at + 1))
}

/// A session behind the head of a request.
pub open spec fn behind_head(
    token: Seq<char>,
    rules: Seq<AllowedDomainRule>,
    deadline: u64,
    lines: Seq<Seq<u8>>,
) -> SessionView {
    super::session::session_run(token, rules, deadline, inputs(lines))
}

proof fn lemma_credentials(header: Seq<u8>)
    ensures
        ({
            let found = super::requests::header_credentials(
                crate::text::trimmed(line_text(header)),
            );
            &&& found matches Some(credentials) ==> authorizes(header, credentials)
            &&& forall|credentials: Seq<char>| #[trigger]
                authorizes(header, credentials) ==> found == Some(credentials)
        }),
{
    let text = crate::text::trimmed(line_text(header));
    reveal_strlit("Proxy-Authorization");
    reveal_strlit("proxy-authorization");
    assert(crate::text::lower("Proxy-Authorization"@) =~= "proxy-authorization"@);
    let found = super::requests::header_credentials(text);
    if found is Some {
        let at = choose|at: int| super::requests::first_at(text, ':', at);
        lemma_first_colon(text);
        assert(text[at] == ':');
        assert(!text.take(at).contains(':')) by {
            if text.take(at).contains(':') {
                let j = choose|j: int| 0 <= j < at && text.take(at)[j] == ':';
                assert(text[j] == ':');
            }
        }
    }
    assert forall|credentials: Seq<char>| #[trigger] authorizes(header, credentials) implies found
        == Some(credentials) by {
        let at = choose|at: int|
            0 <= at < text.len() && #[trigger] text[at] == ':' && !text.take(at).contains(':')
                && crate::text::lower(crate::text::trimmed(text.take(at)))
                == "proxy-authorization"@ && credentials == crate::text::trimmed(
                text.skip(at + 1),
            );
        assert forall|j: int| 0 <= j < at implies text[j] != ':' by {
            assert(text.take(at)[j] == text[j]);
        }
        assert(super::requests::first_at(text, ':', at));
        let chosen = choose|at: int| super::requests::first_at(text, ':', at);
        assert(text[chosen] == ':' && text[at] == ':');
        assert(chosen == at);
        assert(text.contains(':'));
    }
}

proof fn lemma_first_colon(text: Seq<char>)
    requires
        text.contains(':'),
    ensures
        exists|at: int| super::requests::first_at(text, ':', at),
    decreases text.len(),
{
    let i = choose|i: int| 0 <= i < text.len() && text[i] == ':';
    if text.take(i).contains(':') {
        lemma_first_colon(text.take(i));
        let at = choose|at: int| super::requests::first_at(text.take(i), ':', at);
        assert(text[at] == text.take(i)[at]);
        assert forall|j: int| 0 <= j < at implies text[j] != ':' by {
            assert(text.take(i)[j] == text[j]);
        }
        assert(super::requests::first_at(text, ':', at));
    } else {
        assert forall|j: int| 0 <= j < i implies text[j] != ':' by {
            assert(text.take(i)[j] == text[j]);
        }
        assert(super::requests::first_at(text, ':', i));
    }
}

proof fn lemma_sizes(lines: Seq<Seq<u8>>)
    requires
        lines.len() > 0,
    ensures
        size_of_all(lines.drop_last()) <= size_of_all(lines),
{
}

/// A header that gives no credentials leaves those that an earlier one gave, and a header that gives credentials
/// replaces them.
pub proof fn other_headers_leave_credentials(
    token: Seq<char>,
    rules: Seq<AllowedDomainRule>,
    session: SessionView,
    header: Seq<u8>,
)
    requires
        session.phase == PhaseView::Headers,
        session.line == Seq::<char>::empty(),
        is_line(header),
        !is_blank(header),
        session.total_read + header.len() <= MAX_REQUEST_SIZE,
    ensures
        ({
            let after = super::session::session_step(
                token,
                rules,
                session,
                ProxyEventView::Input(header),
            ).session;
            &&& (forall|any: Seq<char>| !#[trigger] authorizes(header, any)) ==> after.credentials
                == session.credentials
            &&& forall|given: Seq<char>| #[trigger]
                authorizes(header, given) ==> after.credentials == Some(given)
            &&& after.request == session.request
            &&& after.phase == PhaseView::Headers
        }),
{
    crate::bytes::lemma_line_size(header, header.len() - 1);
    assert(header.take(header.len() as int) =~= header);
    crate::text::only_space_vanishes(line_text(header));
    assert(session.line + line_text(header) =~= line_text(header));
    lemma_credentials(header);
    let found = super::requests::header_credentials(crate::text::trimmed(line_text(header)));
    if let Some(credentials) = found {
        assert(authorizes(header, credentials));
    }
}

/// The head of a request is read line by line: the first line is the request, and of the headers
/// the last one that gives credentials counts, whatever stands before and behind it.
pub proof fn heads_are_read(
    token: Seq<char>,
    rules: Seq<AllowedDomainRule>,
    deadline: u64,
    lines: Seq<Seq<u8>>,
)
    requires
        is_head(lines),
    ensures
        ({
            let session = behind_head(token, rules, deadline, lines);
            &&& session.phase == PhaseView::Headers
            &&& session.request == line_text(lines[0])
            &&& session.line == Seq::<char>::empty()
            &&& session.total_read == size_of_all(lines)
            &&& session.deadline == deadline
            &&& match session.credentials {
                Some(credentials) => exists|i: int|
                    #![trigger lines[i]]
                    1 <= i < lines.len() && authorizes(lines[i], credentials) && forall|
                        j: int,
                        other: Seq<char>,
                    |
                        i < j < lines.len() ==> !#[trigger] authorizes(lines[j], other),
                None => forall|j: int, other: Seq<char>|
                    1 <= j < lines.len() ==> !#[trigger] authorizes(lines[j], other),
            }
        }),
    decreases lines.len(),
{
    let before = lines.drop_last();
    let line = lines.last();
    let n = lines.len() - 1;
    assert(lines[n] == line);
    assert(is_line(lines[n]));
    crate::bytes::lemma_line_size(line, line.len() - 1);
    assert(line.take(line.len() as int) =~= line);
    assert(inputs(lines).drop_last() =~= inputs(before));
    assert(inputs(lines).last() == ProxyEventView::Input(line));
    let session = behind_head(token, rules, deadline, lines);
    let earlier = behind_head(token, rules, deadline, before);
    assert forall|i: int| 0 <= i < n implies #[trigger] before[i] == lines[i] by {}
    if n == 0 {
        assert(before =~= Seq::<Seq<u8>>::empty());
        assert(inputs(before) =~= Seq::<ProxyEventView>::empty());
        assert(Seq::<char>::empty() + line_text(line) =~= line_text(line));
        assert(size_of_all(before) == 0);
    } else {
        lemma_sizes(lines);
        assert(is_head(before));
        heads_are_read(token, rules, deadline, before);
        assert(!is_blank(lines[n]));
        crate::text::only_space_vanishes(line_text(line));
        assert(earlier.line + line_text(line) =~= line_text(line));
        lemma_credentials(line);
        let found = super::requests::header_credentials(crate::text::trimmed(line_text(line)));
        match found {
            Some(credentials) => {
                assert(session.credentials == Some(credentials));
                assert(authorizes(lines[n], credentials));
            },
            None => {
                assert(session.credentials == earlier.credentials);
                assert forall|other: Seq<char>| !#[trigger] authorizes(lines[n], other) by {}
                if let Some(credentials) = earlier.credentials {
                    let i = choose|i: int|
                        #![trigger before[i]]
                        1 <= i < before.len() && authorizes(before[i], credentials) && forall|
                            j: int,
                            other: Seq<char>,
                        |
                            i < j < before.len() ==> !#[trigger] authorizes(before[j], other);
                    assert(authorizes(lines[i], credentials));
                    assert forall|j: int, other: Seq<char>| i < j < lines.len() implies !#[trigger] authorizes(
                        lines[j],
                        other,
                    ) by {
                        if j < n {
                            assert(!authorizes(before[j], other));
                        }
                    }
                } else {
                    assert forall|j: int, other: Seq<char>| 1 <= j < lines.len() implies !#[trigger] authorizes(
                        lines[j],
                        other,
                    ) by {
                        if j < n {
                            assert(!authorizes(before[j], other));
                        }
                    }
                }
            },
        }
    }
}

/// Whether a request line asks with a method for a target: these are its first two words.
pub open spec fn requests(
    request: Seq<char>,
    method: Seq<char>,
    target: Seq<char>,
    gap: Seq<char>,
    tail: Seq<char>,
) -> bool {
    &&& request == method + gap + (target + tail)
    &&& method.len() > 0 && gap.len() > 0 && target.len() > 0
    &&& forall|i: int| 0 <= i < method.len() ==> !crate::text::is_space(#[trigger] method[i])
    &&& forall|i: int| 0 <= i < gap.len() ==> crate::text::is_space(#[trigger] gap[i])
    &&& forall|i: int| 0 <= i < target.len() ==> !crate::text::is_space(#[trigger] target[i])
    &&& tail.len() > 0 ==> crate::text::is_space(tail[0])
}

proof fn lemma_request_words(
    request: Seq<char>,
    method: Seq<char>,
    target: Seq<char>,
    gap: Seq<char>,
    tail: Seq<char>,
)
    requires
        requests(request, method, target, gap, tail),
    ensures
        ({
            let words = crate::text::words(crate::text::trimmed(request));
            words.len() >= 2 && words[0] == method && words[1] == target
        }),
{
    crate::text::trimming_keeps_words(request);
    crate::text::space_parts_words(method, gap, target + tail);
    let space = tail.take(if tail.len() > 0 { 1int } else { 0 });
    let rest = tail.skip(space.len() as int);
    assert(target + space + rest =~= target + tail);
    crate::text::space_parts_words(target, space, rest);
}

proof fn lemma_blank_step(
    token: Seq<char>,
    rules: Seq<AllowedDomainRule>,
    session: SessionView,
    blank: Seq<u8>,
)
    requires
        session.phase == PhaseView::Headers,
        session.line == Seq::<char>::empty(),
        is_line(blank),
        is_blank(blank),
        session.total_read + blank.len() <= MAX_REQUEST_SIZE,
    ensures
        ({
            let step = super::session::session_step(
                token,
                rules,
                session,
                ProxyEventView::Input(blank),
            );
            match super::session::verdict(token, session.request, session.credentials) {
                super::session::VerdictView::Refuse(code, message) => step.action
                    == ProxyActionView::Respond(super::responses::error_text(code, message)),
                super::session::VerdictView::Abort => step.action == ProxyActionView::Abort,
                super::session::VerdictView::Inspect(host) => step.action
                    == ProxyActionView::Inspect(host) && step.session.phase == PhaseView::Host(
                    host,
                ),
            }
        }),
{
    crate::bytes::lemma_line_size(blank, blank.len() - 1);
    assert(blank.take(blank.len() as int) =~= blank);
    crate::text::only_space_vanishes(line_text(blank));
    assert(session.line + line_text(blank) =~= line_text(blank));
}

/// What a session does with the blank line behind the head of a request.
pub open spec fn answer_to(
    token: Seq<char>,
    rules: Seq<AllowedDomainRule>,
    deadline: u64,
    lines: Seq<Seq<u8>>,
    blank: Seq<u8>,
) -> ProxyActionView {
    super::session::session_step(
        token,
        rules,
        behind_head(token, rules, deadline, lines),
        ProxyEventView::Input(blank),
    ).action
}

/// Whether lines and a blank one are a whole request.
pub open spec fn is_whole(lines: Seq<Seq<u8>>, blank: Seq<u8>) -> bool {
    &&& is_head(lines)
    &&& is_line(blank)
    &&& is_blank(blank)
    &&& size_of_all(lines) + blank.len() <= MAX_REQUEST_SIZE
}

/// The credentials of a request are those that its last authorizing header gives.
pub proof fn last_authorization_counts(
    token: Seq<char>,
    rules: Seq<AllowedDomainRule>,
    deadline: u64,
    lines: Seq<Seq<u8>>,
    i: int,
    credentials: Seq<char>,
)
    requires
        is_head(lines),
        1 <= i < lines.len(),
        authorizes(lines[i], credentials),
        forall|j: int, other: Seq<char>|
            i < j < lines.len() ==> !#[trigger] authorizes(lines[j], other),
    ensures
        behind_head(token, rules, deadline, lines).credentials == Some(credentials),
{
    heads_are_read(token, rules, deadline, lines);
    let session = behind_head(token, rules, deadline, lines);
    assert(authorizes(lines[i], credentials));
    let found = session.credentials->0;
    let k = choose|k: int|
        #![trigger lines[k]]
        1 <= k < lines.len() && authorizes(lines[k], found) && forall|j: int, other: Seq<char>|
            k < j < lines.len() ==> !#[trigger] authorizes(lines[j], other);
    assert(!(i < k));
    assert(!(k < i));
    lemma_credentials(lines[i]);
    assert(authorizes(lines[i], found));
}

/// A `CONNECT` request to port 443 with the right credentials in whatever header, be there others
/// before and behind it, has its host looked at: its name in lower case, without a dot at the end.
pub proof fn right_credentials_are_heard(
    token: Seq<char>,
    rules: Seq<AllowedDomainRule>,
    deadline: u64,
    lines: Seq<Seq<u8>>,
    blank: Seq<u8>,
    i: int,
    host: Seq<char>,
    gap: Seq<char>,
    tail: Seq<char>,
)
    requires
        is_whole(lines, blank),
        requests(line_text(lines[0]), "CONNECT"@, host + ":443"@, gap, tail),
        !host.contains(']'),
        1 <= i < lines.len(),
        authorizes(
            lines[i],
            "Basic "@ + super::base64::encoded(vstd::utf8::encode_utf8("workmux:"@ + token)),
        ),
        forall|j: int, other: Seq<char>|
            i < j < lines.len() ==> !#[trigger] authorizes(lines[j], other),
    ensures
        answer_to(token, rules, deadline, lines, blank) == ProxyActionView::Inspect(
            if host.len() > 0 && host.last() == '.' {
                crate::text::lower(host.drop_last())
            } else {
                crate::text::lower(host)
            },
        ),
{
    let session = behind_head(token, rules, deadline, lines);
    heads_are_read(token, rules, deadline, lines);
    last_authorization_counts(
        token,
        rules,
        deadline,
        lines,
        i,
        "Basic "@ + super::base64::encoded(vstd::utf8::encode_utf8("workmux:"@ + token)),
    );
    lemma_request_words(line_text(lines[0]), "CONNECT"@, host + ":443"@, gap, tail);
    lemma_port_443();
    super::requests::target_round_trip(host, 443);
    reveal_strlit(":443");
    assert(host.push(':') + crate::text::decimal_digits(443) =~= host + ":443"@);
    lemma_blank_step(token, rules, session, blank);
    lemma_normal_host(host);
}

proof fn lemma_port_443()
    ensures
        crate::text::decimal_digits(443) == seq!['4', '4', '3'],
{
    assert(crate::text::decimal_digits(4) =~= seq!['4']);
    assert(crate::text::decimal_digits(44) =~= seq!['4', '4']);
    assert(crate::text::decimal_digits(443) =~= seq!['4', '4', '3']);
}

proof fn lemma_normal_host(host: Seq<char>)
    ensures
        super::session::normal_host(host) == (if host.len() > 0 && host.last() == '.' {
            crate::text::lower(host.drop_last())
        } else {
            crate::text::lower(host)
        }),
{
    if host.len() > 0 {
        assert(crate::text::lower(host).last() == crate::text::lower_char(host.last()));
        assert(crate::text::lower(host).drop_last() =~= crate::text::lower(host.drop_last()));
    }
}

/// What a request is answered that lacks the right method, credentials or port: the method is asked
/// for first, then the credentials, then the port.
pub proof fn wrong_requests_are_refused(
    token: Seq<char>,
    rules: Seq<AllowedDomainRule>,
    deadline: u64,
    lines: Seq<Seq<u8>>,
    blank: Seq<u8>,
    method: Seq<char>,
    host: Seq<char>,
    port: u16,
    gap: Seq<char>,
    tail: Seq<char>,
)
    requires
        is_whole(lines, blank),
        requests(
            line_text(lines[0]),
            method,
            host.push(':') + crate::text::decimal_digits(port as nat),
            gap,
            tail,
        ),
        !host.contains(']'),
    ensures
        ({
            let answer = answer_to(token, rules, deadline, lines, blank);
            let given = behind_head(token, rules, deadline, lines).credentials;
            let right = "Basic "@ + super::base64::encoded(
                vstd::utf8::encode_utf8("workmux:"@ + token),
            );
            let none = forall|j: int, other: Seq<char>|
                1 <= j < lines.len() ==> !#[trigger] authorizes(lines[j], other);
            &&& given is None <==> none
            &&& method != "CONNECT"@ ==> answer == ProxyActionView::Respond(
                super::responses::error_text(400, "Expected CONNECT method"@),
            )
            &&& method == "CONNECT"@ && none ==> answer == ProxyActionView::Respond(
                super::responses::error_text(407, "Proxy authentication required"@),
            )
            &&& method == "CONNECT"@ && given is Some && given != Some(right) ==> answer
                == ProxyActionView::Respond(
                super::responses::error_text(407, "Invalid proxy credentials"@),
            )
            &&& method == "CONNECT"@ && given == Some(right) && port != 443 ==> answer
                == ProxyActionView::Respond(
                super::responses::error_text(403, "Only port 443 is allowed"@),
            )
        }),
{
    let session = behind_head(token, rules, deadline, lines);
    heads_are_read(token, rules, deadline, lines);
    let target = host.push(':') + crate::text::decimal_digits(port as nat);
    lemma_request_words(line_text(lines[0]), method, target, gap, tail);
    super::requests::target_round_trip(host, port);
    lemma_blank_step(token, rules, session, blank);
}

/// A host that is no IP literal and on which a rule decides is resolved, the first of its addresses
/// that is public, or private where the rule allows it, is connected to, and the client gets its
/// tunnel.
pub proof fn allowed_hosts_are_tunnelled(
    token: Seq<char>,
    rules: Seq<AllowedDomainRule>,
    session: SessionView,
    host: Seq<char>,
    rule: AllowedDomainRule,
    addrs: Seq<SocketAddress>,
    n: int,
)
    requires
        session.phase == PhaseView::Host(host),
        super::allowlist::deciding_rule(host, rules) == Some(rule),
        0 <= n < addrs.len(),
        opens_to(rule.allow_private_ips, addrs[n]),
        forall|m: int| 0 <= m < n ==> !opens_to(rule.allow_private_ips, #[trigger] addrs[m]),
    ensures
        ({
            let asked = super::session::session_step(
                token,
                rules,
                session,
                ProxyEventView::IpLiteral(false),
            );
            let resolved = super::session::session_step(
                token,
                rules,
                asked.session,
                ProxyEventView::Resolved(Some(addrs)),
            );
            let connected = super::session::session_step(
                token,
                rules,
                resolved.session,
                ProxyEventView::Connected(true),
            );
            &&& asked.action == ProxyActionView::Resolve(host + ":443"@)
            &&& resolved.action == ProxyActionView::Connect(addrs[n])
            &&& connected.action == ProxyActionView::Tunnel(
                "HTTP/1.1 200 Connection Established\r\n\r\n"@,
            )
        }),
{
    lemma_first_open(addrs, rule.allow_private_ips, n);
}

proof fn lemma_first_open(addrs: Seq<SocketAddress>, private: bool, n: int)
    requires
        0 <= n < addrs.len(),
        opens_to(private, addrs[n]),
        forall|m: int| 0 <= m < n ==> !opens_to(private, #[trigger] addrs[m]),
    ensures
        super::addresses::allowed_of(addrs, private).len() > 0,
        super::addresses::allowed_of(addrs, private)[0] == addrs[n],
{
    let head = addrs.take(n);
    let one = seq![addrs[n]];
    let tail = addrs.skip(n + 1);
    assert(addrs =~= head + one + tail);
    super::addresses::rules_open_addresses(head + one, tail, addrs[n], private);
    super::addresses::rules_open_addresses(head, one, addrs[n], private);
    let kept = super::addresses::allowed_of(head, private);
    if kept.len() > 0 {
        super::addresses::blocked_addresses_stay_out(head, private, 0);
        let m = choose|m: int| 0 <= m < head.len() && head[m] == kept[0];
        assert(!opens_to(private, addrs[m]));
    }
}

/// Whether a rule that allows private addresses or not opens an address.
pub open spec fn opens_to(allow_private_ips: bool, addr: SocketAddress) -> bool {
    let class = super::addresses::class_of(addr.ip);
    class == AddressClass::Public || (allow_private_ips && class == AddressClass::PrivateRoutable)
}

/// A host is refused that is an IP literal, on which no rule decides, that cannot be resolved, that
/// has no address which the rule opens, or that cannot be connected to; the client is told which.
pub proof fn other_hosts_are_refused(
    token: Seq<char>,
    rules: Seq<AllowedDomainRule>,
    session: SessionView,
    host: Seq<char>,
    private: bool,
    addr: SocketAddress,
    addrs: Seq<SocketAddress>,
)
    ensures
        session.phase == PhaseView::Host(host) ==> super::session::session_step(
            token,
            rules,
            session,
            ProxyEventView::IpLiteral(true),
        ).action == ProxyActionView::Respond(
            super::responses::error_text(403, "IP literal hostnames not allowed"@),
        ),
        session.phase == PhaseView::Host(host) && super::allowlist::deciding_rule(
            host,
            rules,
        ) is None ==> super::session::session_step(
            token,
            rules,
            session,
            ProxyEventView::IpLiteral(false),
        ).action == ProxyActionView::Respond(
            super::responses::error_text(403, "Domain not allowed"@),
        ),
        session.phase == PhaseView::Addresses(host, private) ==> super::session::session_step(
            token,
            rules,
            session,
            ProxyEventView::Resolved(None),
        ).action == ProxyActionView::Respond(
            super::responses::error_text(502, "DNS resolution failed"@),
        ),
        session.phase == PhaseView::Addresses(host, private) && (forall|m: int|
            0 <= m < addrs.len() ==> !opens_to(private, #[trigger] addrs[m]))
            ==> super::session::session_step(
            token,
            rules,
            session,
            ProxyEventView::Resolved(Some(addrs)),
        ).action == ProxyActionView::Respond(
            super::responses::error_text(403, "No resolved IPs are allowed"@),
        ),
        session.phase == PhaseView::Connection(addr) ==> super::session::session_step(
            token,
            rules,
            session,
            ProxyEventView::Connected(false),
        ).action == ProxyActionView::Respond(
            super::responses::error_text(502, "Connection to target failed"@),
        ),
{
    let keep = |addr: SocketAddress| super::addresses::address_allowed(addr.ip, private);
    if (forall|m: int| 0 <= m < addrs.len() ==> !opens_to(private, #[trigger] addrs[m]))
        && addrs.filter(keep).len() > 0 {
        crate::lists::lemma_kept_was_there(addrs, keep, 0);
        let m = choose|m: int| 0 <= m < addrs.len() && addrs[m] == addrs.filter(keep)[0];
        assert(!opens_to(private, addrs[m]));
    }
}

/// While a session reads, it is given the time up to its deadline, and at least a thousandth of a
/// second; what it knows stays. Behind the deadline it is answered that its time is over, and where
/// it has read all that a request may have, that this was too much.
pub proof fn reading_is_bounded(
    token: Seq<char>,
    rules: Seq<AllowedDomainRule>,
    session: SessionView,
    now: u64,
)
    requires
        session.phase is RequestLine || session.phase is Headers,
    ensures
        ({
            let step = super::session::session_step(
                token,
                rules,
                session,
                ProxyEventView::Proceed(now),
            );
            &&& session.total_read < 8192 && now <= session.deadline ==> {
                &&& step.session == session
                &&& step.action matches ProxyActionView::Read(time)
                &&& time >= 1_000_000
                &&& time >= session.deadline - now
                &&& time == 1_000_000 || time == session.deadline - now
            }
            &&& session.total_read < 8192 && now > session.deadline ==> step.action
                == ProxyActionView::Respond(
                super::responses::error_text(408, "Proxy request timed out"@),
            )
            &&& session.total_read >= 8192 ==> step.action == ProxyActionView::Respond(
                super::responses::error_text(400, "Request too large or invalid"@),
            )
        }),
{
}

/// What follows a line in the bytes at hand is left for later, and a line whose end has not come is
/// kept.
pub proof fn lines_are_taken_whole(
    token: Seq<char>,
    rules: Seq<AllowedDomainRule>,
    session: SessionView,
    line: Seq<u8>,
    rest: Seq<u8>,
    part: Seq<u8>,
)
    requires
        session.phase is RequestLine || session.phase is Headers,
        is_line(line),
        part.len() > 0,
        !part.contains(10),
        vstd::utf8::valid_utf8(part),
    ensures
        super::session::session_step(token, rules, session, ProxyEventView::Input(line + rest))
            == super::session::session_step(token, rules, session, ProxyEventView::Input(line)),
        session.total_read + line.len() <= 8192 ==> super::session::session_step(
            token,
            rules,
            session,
            ProxyEventView::Input(line),
        ).used == line.len(),
        session.total_read + line.len() > 8192 ==> super::session::session_step(
            token,
            rules,
            session,
            ProxyEventView::Input(line),
        ).action == ProxyActionView::Respond(
            super::responses::error_text(400, "Request too large or invalid"@),
        ),
        session.total_read + part.len() <= 8192 ==> ({
            let step = super::session::session_step(
                token,
                rules,
                session,
                ProxyEventView::Input(part),
            );
            &&& step.used == part.len()
            &&& step.action == ProxyActionView::Continue
            &&& step.session == (SessionView {
                line: session.line + line_text(part),
                total_read: (session.total_read + part.len()) as usize,
                ..session
            })
        }),
{
    crate::bytes::lemma_line_size(line, line.len() - 1);
    let both = line + rest;
    assert(both[line.len() - 1] == 10);
    crate::bytes::lemma_line_size(both, line.len() - 1);
    assert(both.take(line.len() as int) =~= line);
    assert(line.take(line.len() as int) =~= line);
    assert forall|j: int| 0 <= j < part.len() implies part[j] != 10 by {
        assert(part.contains(part[j]));
    }
    crate::bytes::lemma_line_size(part, part.len() as int);
    assert(part.take(part.len() as int) =~= part);
    assert(part.contains(part.last()));
}

/// A request that names no target is refused, and one whose target cannot be read is given up.
pub proof fn broken_requests_are_not_served(
    token: Seq<char>,
    rules: Seq<AllowedDomainRule>,
    deadline: u64,
    lines: Seq<Seq<u8>>,
    blank: Seq<u8>,
    word: Seq<char>,
    space: Seq<char>,
    target: Seq<char>,
    gap: Seq<char>,
    tail: Seq<char>,
)
    requires
        is_whole(lines, blank),
        forall|i: int| 0 <= i < word.len() ==> !crate::text::is_space(#[trigger] word[i]),
        forall|i: int| 0 <= i < space.len() ==> crate::text::is_space(#[trigger] space[i]),
    ensures
        line_text(lines[0]) == word + space ==> answer_to(token, rules, deadline, lines, blank)
            == ProxyActionView::Respond(
            super::responses::error_text(400, "Expected CONNECT method"@),
        ),
        requests(line_text(lines[0]), "CONNECT"@, target, gap, tail) && super::requests::host_port(
            target,
        ) is None ==> answer_to(token, rules, deadline, lines, blank) == ProxyActionView::Abort,
{
    let session = behind_head(token, rules, deadline, lines);
    heads_are_read(token, rules, deadline, lines);
    lemma_blank_step(token, rules, session, blank);
    if line_text(lines[0]) == word + space {
        let none = Seq::<char>::empty();
        assert(word + space + none =~= word + space);
        crate::text::space_parts_words(word, space, none);
        crate::text::trimming_keeps_words(word + space);
    }
    if requests(line_text(lines[0]), "CONNECT"@, target, gap, tail) {
        lemma_request_words(line_text(lines[0]), "CONNECT"@, target, gap, tail);
    }
}

/// A client whose request cannot be read is answered that its time is over, or that its request is no good; where
/// the connection itself failed it is not answered. Either way the session is over.
pub proof fn failed_reads_are_answered(
    token: Seq<char>,
    rules: Seq<AllowedDomainRule>,
    session: SessionView,
    bytes: Seq<u8>,
)
    requires
        session.phase is RequestLine || session.phase is Headers,
    ensures
        ({
            let after = |failure: super::responses::ReadFailure|
                super::session::session_step(
                    token,
                    rules,
                    session,
                    ProxyEventView::ReadFailed(failure),
                );
            let late = ProxyActionView::Respond(
                super::responses::error_text(408, "Proxy request timed out"@),
            );
            let bad = ProxyActionView::Respond(
                super::responses::error_text(400, "Request too large or invalid"@),
            );
            &&& after(super::responses::ReadFailure::TimedOut).action == late
            &&& after(super::responses::ReadFailure::WouldBlock).action == late
            &&& after(super::responses::ReadFailure::InvalidData).action == bad
            &&& after(super::responses::ReadFailure::Other).action == ProxyActionView::Abort
            &&& after(super::responses::ReadFailure::TimedOut).session.phase == PhaseView::Closed
            &&& after(super::responses::ReadFailure::Other).session.phase == PhaseView::Closed
            &&& bytes.len() > 0 && bytes.last() == 10 && !bytes.drop_last().contains(10)
                && !vstd::utf8::valid_utf8(bytes) ==> super::session::session_step(
                token,
                rules,
                session,
                ProxyEventView::Input(bytes),
            ).action == bad
        }),
{
    if bytes.len() > 0 && bytes.last() == 10 && !bytes.drop_last().contains(10) {
        let n = bytes.len() - 1;
        assert forall|j: int| 0 <= j < n implies bytes[j] != 10 by {
            assert(bytes.drop_last()[j] == bytes[j]);
            assert(bytes.drop_last().contains(bytes.drop_last()[j]));
        }
        crate::bytes::lemma_line_size(bytes, n);
        assert(bytes.take(bytes.len() as int) =~= bytes);
    }
}

/// Where a client ends its side, the line that it was sending counts as ended: the request line is the request, and
/// behind the headers the request is judged as behind a blank line.
pub proof fn ended_streams_end_lines(
    token: Seq<char>,
    rules: Seq<AllowedDomainRule>,
    session: SessionView,
    blank: Seq<u8>,
)
    requires
        is_line(blank),
        is_blank(blank),
        session.total_read + blank.len() <= MAX_REQUEST_SIZE,
    ensures
        session.phase == PhaseView::RequestLine ==> ({
            let step = super::session::session_step(
                token,
                rules,
                session,
                ProxyEventView::Input(Seq::empty()),
            );
            &&& step.action == ProxyActionView::Continue
            &&& step.used == 0
            &&& step.session.phase == PhaseView::Headers
            &&& step.session.request == session.line
        }),
        session.phase == PhaseView::Headers && session.line == Seq::<char>::empty()
            ==> super::session::session_step(
            token,
            rules,
            session,
            ProxyEventView::Input(Seq::empty()),
        ).action == super::session::session_step(
            token,
            rules,
            session,
            ProxyEventView::Input(blank),
        ).action,
{
    if session.phase == PhaseView::Headers && session.line == Seq::<char>::empty() {
        lemma_blank_step(token, rules, session, blank);
        crate::text::only_space_vanishes(session.line);
    }
}

/// An event that a session did not ask for ends it without an answer.
pub proof fn answers_out_of_turn_end_sessions(
    token: Seq<char>,
    rules: Seq<AllowedDomainRule>,
    session: SessionView,
    event: ProxyEventView,
)
    requires
        match event {
            ProxyEventView::Proceed(_) => !(session.phase is RequestLine || session.phase is Headers),
            ProxyEventView::Input(_) => !(session.phase is RequestLine || session.phase is Headers),
            ProxyEventView::ReadFailed(_) => !(session.phase is RequestLine
                || session.phase is Headers),
            ProxyEventView::IpLiteral(_) => !(session.phase is Host),
            ProxyEventView::Resolved(_) => !(session.phase is Addresses),
            ProxyEventView::Connected(_) => !(session.phase is Connection),
        },
    ensures
        super::session::session_step(token, rules, session, event).action == ProxyActionView::Abort,
        super::session::session_step(token, rules, session, event).session.phase
            == PhaseView::Closed,
{
}

} // verus!
