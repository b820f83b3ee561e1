//! A connection to the proxy, from the first byte to the tunnel.
//!
//! The session decides; its host reads, resolves, connects and writes what the session asks for,
//! and answers with an event.
use vstd::prelude::*;

use super::addresses::{allowed_target_addrs, SocketAddress};
use super::allowlist::{matching_rule, AllowedDomainRule};
use super::base64::base64_encode;
use super::requests::{
    next_read, parse_credentials, parse_host_port, read_bounded_request_line, LinePart,
    LinePartView, MAX_REQUEST_SIZE,
};
use super::responses::{write_error, write_request_read_error, ReadFailure};
use crate::text;

verus! {

/// The time that a client has for its request, in nanoseconds.
pub const AUTH_TIMEOUT: u64 = 5_000_000_000;

/// The time that a connection to a target may take, in nanoseconds.
pub const CONNECT_TIMEOUT: u64 = 10_000_000_000;

/// The time that a refused client has to take its answer, in nanoseconds.
pub const REJECT_LINGER_TIMEOUT: u64 = 100_000_000;

/// The one port that the proxy connects to.
pub const ALLOWED_PORT: u16 = 443;

/// What every connection of a proxy shares.
pub struct ProxyContext {
    pub token: String,
    pub allowed_domains: Vec<AllowedDomainRule>,
}

/// The credentials that a token stands for.
pub open spec fn expected_credentials(token: Seq<char>) -> Seq<char> {
    "Basic "@ + super::base64::encoded(vstd::utf8::encode_utf8("workmux:"@ + token))
}

/// Compares without stopping at the first difference.
pub fn constant_time_eq(left: &[u8], right: &[u8]) -> (equal: bool)
    ensures
        equal == (left@ == right@),
{
    let count: usize = left.len();
    if count != right.len() {
        return false;
    }
    let mut difference: u8 = 0;
    assert(left@.take(0) =~= right@.take(0));
    for i in 0..count
        invariant
            count == left@.len(),
            count == right@.len(),
            difference == 0 <==> left@.take(i as int) == right@.take(i as int),
    {
        let a: u8 = left[i];
        let b: u8 = right[i];
        proof {
            assert((difference | (a ^ b)) == 0 <==> difference == 0 && a == b) by (bit_vector);
            let l = left@.take(i + 1);
            let r = right@.take(i + 1);
            assert(l.drop_last() =~= left@.take(i as int));
            assert(r.drop_last() =~= right@.take(i as int));
            assert(l.last() == a && r.last() == b);
            if left@.take(i as int) == right@.take(i as int) && a == b {
                assert(l =~= left@.take(i as int).push(a));
                assert(r =~= right@.take(i as int).push(b));
            }
        }
        difference = difference | (a ^ b);
    }
    assert(left@.take(left@.len() as int) =~= left@);
    assert(right@.take(right@.len() as int) =~= right@);
    difference == 0
}

fn credentials_match(credentials: &str, token: &str) -> (yes: bool)
    ensures
        yes == (credentials@ == expected_credentials(token@)),
{
    let mut login = "workmux:".to_owned();
    login.append(token);
    let mut expected = "Basic ".to_owned();
    expected.append(base64_encode(login.as_str()).as_str());
    proof {
        vstd::utf8::encode_utf8_decode_utf8(credentials@);
        vstd::utf8::encode_utf8_decode_utf8(expected@);
    }
    constant_time_eq(credentials.as_bytes(), expected.as_str().as_bytes())
}

/// A host name in lower case, without a dot at its end.
pub open spec fn normal_host(host: Seq<char>) -> Seq<char> {
    let host = crate::text::lower(host);
    if host.len() > 0 && host.last() == '.' {
        host.drop_last()
    } else {
        host
    }
}

fn normalize_host(host: &str) -> (normal: String)
    ensures
        normal@ == normal_host(host@),
{
    let lower = text::to_ascii_lowercase(host);
    let count: usize = lower.as_str().unicode_len();
    if count > 0 && lower.as_str().get_char(count - 1) == '.' {
        let rest = lower.as_str().substring_char(0, count - 1);
        assert(rest@ =~= lower@.drop_last());
        rest.to_owned()
    } else {
        lower
    }
}

/// What becomes of a request that was read.
pub enum Verdict {
    /// It is refused with this status and message.
    Refuse(u16, &'static str),
    /// Its connection is given up without an answer.
    Abort,
    /// It asks for this host.
    Inspect(String),
}

/// What becomes of a request that was read.
pub enum VerdictView {
    Refuse(u16, Seq<char>),
    Abort,
    Inspect(Seq<char>),
}

impl DeepView for Verdict {
    type V = VerdictView;

    open spec fn deep_view(&self) -> VerdictView {
        match self {
            Verdict::Refuse(code, message) => VerdictView::Refuse(*code, message@),
            Verdict::Abort => VerdictView::Abort,
            Verdict::Inspect(host) => VerdictView::Inspect(host@),
        }
    }
}

/// The verdict on a request line and the credentials that came with it: the method comes first,
/// then the target, the credentials and the port.
pub open spec fn verdict(
    token: Seq<char>,
    request: Seq<char>,
    credentials: Option<Seq<char>>,
) -> VerdictView {
    let words = crate::text::words(crate::text::trimmed(request));
    if words.len() < 2 || words[0] != "CONNECT"@ {
        VerdictView::Refuse(400, "Expected CONNECT method"@)
    } else {
        match super::requests::host_port(words[1]) {
            None => VerdictView::Abort,
            Some((host, port)) => match credentials {
                None => VerdictView::Refuse(407, "Proxy authentication required"@),
                Some(credentials) => if credentials != expected_credentials(token) {
                    VerdictView::Refuse(407, "Invalid proxy credentials"@)
                } else if port != ALLOWED_PORT {
                    VerdictView::Refuse(403, "Only port 443 is allowed"@)
                } else {
                    VerdictView::Inspect(normal_host(host))
                },
            },
        }
    }
}

/// Judges a request that was read.
pub fn judge_request(token: &str, request: &str, credentials: &Option<String>) -> (result: Verdict)
    ensures
        result.deep_view() == verdict(token@, request@, credentials.deep_view()),
{
    let words = text::split_whitespace(text::trim(request));
    let ghost expected = crate::text::words(crate::text::trimmed(request@));
    assert(words.deep_view() == expected);
    if words.len() < 2 {
        return Verdict::Refuse(400, "Expected CONNECT method");
    }
    assert(words@[0]@ == expected[0]);
    assert(words@[1]@ == expected[1]);
    if !text::same_text(words[0].as_str(), "CONNECT") {
        return Verdict::Refuse(400, "Expected CONNECT method");
    }
    match parse_host_port(words[1].as_str()) {
        Err(_) => Verdict::Abort,
        Ok((host, port)) => match credentials {
            None => Verdict::Refuse(407, "Proxy authentication required"),
            Some(given) => if !credentials_match(given.as_str(), token) {
                Verdict::Refuse(407, "Invalid proxy credentials")
            } else if port != ALLOWED_PORT {
                Verdict::Refuse(403, "Only port 443 is allowed")
            } else {
                Verdict::Inspect(normalize_host(host))
            },
        },
    }
}

/// How far a session has come.
pub enum Phase {
    /// It reads the request line.
    RequestLine,
    /// It reads the headers.
    Headers,
    /// It asked whether this host is an IP literal.
    Host(String),
    /// It asked for the addresses of this host; the rule for it allows private addresses or not.
    Addresses(String, bool),
    /// It asked for a connection to this address.
    Connection(SocketAddress),
    /// It is over.
    Closed,
}

/// How far a session has come.
pub enum PhaseView {
    RequestLine,
    Headers,
    Host(Seq<char>),
    Addresses(Seq<char>, bool),
    Connection(SocketAddress),
    Closed,
}

impl DeepView for Phase {
    type V = PhaseView;

    open spec fn deep_view(&self) -> PhaseView {
        match self {
            Phase::RequestLine => PhaseView::RequestLine,
            Phase::Headers => PhaseView::Headers,
            Phase::Host(host) => PhaseView::Host(host@),
            Phase::Addresses(host, private) => PhaseView::Addresses(host@, *private),
            Phase::Connection(address) => PhaseView::Connection(*address),
            Phase::Closed => PhaseView::Closed,
        }
    }
}

/// What happened to a connection.
pub enum ProxyEvent {
    /// The session may go on reading at this time.
    Proceed(u64),
    /// These bytes are at hand; none are, when the client has ended its side.
    Input(Vec<u8>),
    /// Reading failed.
    ReadFailed(ReadFailure),
    /// Whether the host is an IP literal.
    IpLiteral(bool),
    /// The addresses of the host, if it could be resolved.
    Resolved(Option<Vec<SocketAddress>>),
    /// Whether the connection to the target stands.
    Connected(bool),
}

/// What happened to a connection.
pub enum ProxyEventView {
    Proceed(u64),
    Input(Seq<u8>),
    ReadFailed(ReadFailure),
    IpLiteral(bool),
    Resolved(Option<Seq<SocketAddress>>),
    Connected(bool),
}

impl DeepView for ProxyEvent {
    type V = ProxyEventView;

    open spec fn deep_view(&self) -> ProxyEventView {
        match self {
            ProxyEvent::Proceed(now) => ProxyEventView::Proceed(*now),
            ProxyEvent::Input(bytes) => ProxyEventView::Input(bytes@),
            ProxyEvent::ReadFailed(failure) => ProxyEventView::ReadFailed(*failure),
            ProxyEvent::IpLiteral(yes) => ProxyEventView::IpLiteral(*yes),
            ProxyEvent::Resolved(None) => ProxyEventView::Resolved(None),
            ProxyEvent::Resolved(Some(addrs)) => ProxyEventView::Resolved(Some(addrs@)),
            ProxyEvent::Connected(yes) => ProxyEventView::Connected(*yes),
        }
    }
}

/// What the host of a session does next.
#[derive(Debug)]
pub enum ProxyAction {
    /// Report the time.
    Continue,
    /// Read within that many nanoseconds.
    Read(u64),
    /// Answer with this text and close.
    Respond(String),
    /// Close.
    Abort,
    /// Take the limit off reads, and say whether this host is an IP literal.
    Inspect(String),
    /// Resolve this host and port.
    Resolve(String),
    /// Connect to this address.
    Connect(SocketAddress),
    /// Answer with this text, forward what was read and not used, and tunnel.
    Tunnel(&'static str),
}

/// What the host of a session does next.
pub enum ProxyActionView {
    Continue,
    Read(u64),
    Respond(Seq<char>),
    Abort,
    Inspect(Seq<char>),
    Resolve(Seq<char>),
    Connect(SocketAddress),
    Tunnel(Seq<char>),
}

impl DeepView for ProxyAction {
    type V = ProxyActionView;

    open spec fn deep_view(&self) -> ProxyActionView {
        match self {
            ProxyAction::Continue => ProxyActionView::Continue,
            ProxyAction::Read(time) => ProxyActionView::Read(*time),
            ProxyAction::Respond(text) => ProxyActionView::Respond(text@),
            ProxyAction::Abort => ProxyActionView::Abort,
            ProxyAction::Inspect(host) => ProxyActionView::Inspect(host@),
            ProxyAction::Resolve(target) => ProxyActionView::Resolve(target@),
            ProxyAction::Connect(address) => ProxyActionView::Connect(*address),
            ProxyAction::Tunnel(text) => ProxyActionView::Tunnel(text@),
        }
    }
}

/// A connection to the proxy.
pub struct ProxySession {
    deadline: u64,
    total_read: usize,
    line: String,
    request: String,
    credentials: Option<String>,
    phase: Phase,
}

/// What a session knows.
pub struct SessionView {
    /// When the request must have been read, in nanoseconds.
    pub deadline: u64,
    /// The bytes of the request that were read.
    pub total_read: usize,
    /// The line that is being read.
    pub line: Seq<char>,
    /// The request line.
    pub request: Seq<char>,
    /// The credentials of the last header that held some.
    pub credentials: Option<Seq<char>>,
    pub phase: PhaseView,
}

/// What a session does on an event: what it knows then, how many of the bytes at hand it used,
/// and what it asks for.
pub struct StepView {
    pub session: SessionView,
    pub used: usize,
    pub action: ProxyActionView,
}

/// A session as it begins.
pub open spec fn fresh_session(deadline: u64) -> SessionView {
    SessionView {
        deadline,
        total_read: 0,
        line: Seq::empty(),
        request: Seq::empty(),
        credentials: None,
        phase: PhaseView::RequestLine,
    }
}

/// The end of a session.
pub open spec fn ending(session: SessionView, used: usize, action: ProxyActionView) -> StepView {
    StepView { session: SessionView { phase: PhaseView::Closed, ..session }, used, action }
}

/// The end of a session whose request is refused.
pub open spec fn refusal(
    session: SessionView,
    used: usize,
    code: u16,
    message: Seq<char>,
) -> StepView {
    ending(
        session,
        used,
        ProxyActionView::Respond(super::responses::error_text(code, message)),
    )
}

/// The end of a session whose request could not be read.
pub open spec fn read_failed(session: SessionView, failure: ReadFailure) -> StepView {
    match super::responses::read_failure_text(failure) {
        Some(text) => ending(session, 0, ProxyActionView::Respond(text)),
        None => ending(session, 0, ProxyActionView::Abort),
    }
}

/// What a session does at the end of a line.
pub open spec fn line_ended(token: Seq<char>, session: SessionView, used: usize) -> StepView {
    if session.phase is RequestLine {
        StepView {
            session: SessionView {
                request: session.line,
                line: Seq::empty(),
                phase: PhaseView::Headers,
                ..session
            },
            used,
            action: ProxyActionView::Continue,
        }
    } else {
        let line = crate::text::trimmed(session.line);
        if line.len() > 0 {
            StepView {
                session: SessionView {
                    line: Seq::empty(),
                    credentials: match super::requests::header_credentials(line) {
                        Some(credentials) => Some(credentials),
                        None => session.credentials,
                    },
                    ..session
                },
                used,
                action: ProxyActionView::Continue,
            }
        } else {
            match verdict(token, session.request, session.credentials) {
                VerdictView::Refuse(code, message) => refusal(session, used, code, message),
                VerdictView::Abort => ending(session, used, ProxyActionView::Abort),
                VerdictView::Inspect(host) => StepView {
                    session: SessionView { phase: PhaseView::Host(host), ..session },
                    used,
                    action: ProxyActionView::Inspect(host),
                },
            }
        }
    }
}

/// What a session that reads does with bytes.
pub open spec fn input_read(token: Seq<char>, session: SessionView, bytes: Seq<u8>) -> StepView {
    match super::requests::line_part(session.total_read, bytes) {
        LinePartView::Ended => line_ended(token, session, 0),
        LinePartView::Failed(failure) => read_failed(session, failure),
        LinePartView::Text { text, size, complete } => {
            let longer = SessionView {
                line: session.line + text,
                total_read: (session.total_read + size) as usize,
                ..session
            };
            if complete {
                line_ended(token, longer, size)
            } else {
                StepView { session: longer, used: size, action: ProxyActionView::Continue }
            }
        },
    }
}

/// What a session does once it knows whether its host is an IP literal.
pub open spec fn host_inspected(
    rules: Seq<AllowedDomainRule>,
    session: SessionView,
    host: Seq<char>,
    literal: bool,
) -> StepView {
    if literal {
        refusal(session, 0, 403, "IP literal hostnames not allowed"@)
    } else {
        match super::allowlist::deciding_rule(host, rules) {
            None => refusal(session, 0, 403, "Domain not allowed"@),
            Some(rule) => StepView {
                session: SessionView {
                    phase: PhaseView::Addresses(host, rule.allow_private_ips),
                    ..session
                },
                used: 0,
                action: ProxyActionView::Resolve(host + ":443"@),
            },
        }
    }
}

/// What a session does once its host was resolved.
pub open spec fn host_resolved(
    session: SessionView,
    private: bool,
    addrs: Option<Seq<SocketAddress>>,
) -> StepView {
    match addrs {
        None => refusal(session, 0, 502, "DNS resolution failed"@),
        Some(addrs) => {
            let allowed = super::addresses::allowed_of(addrs, private);
            if allowed.len() == 0 {
                refusal(session, 0, 403, "No resolved IPs are allowed"@)
            } else {
                StepView {
                    session: SessionView { phase: PhaseView::Connection(allowed[0]), ..session },
                    used: 0,
                    action: ProxyActionView::Connect(allowed[0]),
                }
            }
        },
    }
}

/// What a session does on an event. One that does not answer what was asked ends it.
pub open spec fn session_step(
    token: Seq<char>,
    rules: Seq<AllowedDomainRule>,
    session: SessionView,
    event: ProxyEventView,
) -> StepView {
    let reads = session.phase is RequestLine || session.phase is Headers;
    match event {
        ProxyEventView::Proceed(now) if reads => match super::requests::read_time(
            session.total_read,
            session.deadline,
            now,
        ) {
            Ok(time) => StepView { session, used: 0, action: ProxyActionView::Read(time) },
            Err(failure) => read_failed(session, failure),
        },
        ProxyEventView::Input(bytes) if reads => input_read(token, session, bytes),
        ProxyEventView::ReadFailed(failure) if reads => read_failed(session, failure),
        ProxyEventView::IpLiteral(literal) => match session.phase {
            PhaseView::Host(host) => host_inspected(rules, session, host, literal),
            _ => ending(session, 0, ProxyActionView::Abort),
        },
        ProxyEventView::Resolved(addrs) => match session.phase {
            PhaseView::Addresses(_, private) => host_resolved(session, private, addrs),
            _ => ending(session, 0, ProxyActionView::Abort),
        },
        ProxyEventView::Connected(true) if session.phase is Connection => ending(
            session,
            0,
            ProxyActionView::Tunnel("HTTP/1.1 200 Connection Established\r\n\r\n"@),
        ),
        ProxyEventView::Connected(false) if session.phase is Connection => refusal(
            session,
            0,
            502,
            "Connection to target failed"@,
        ),
        _ => ending(session, 0, ProxyActionView::Abort),
    }
}

/// A step of a session.
pub struct ProxyStep {
    pub session: ProxySession,
    /// How many of the bytes at hand were used.
    pub used: usize,
    pub action: ProxyAction,
}

impl DeepView for ProxySession {
    type V = SessionView;

    closed spec fn deep_view(&self) -> SessionView {
        SessionView {
            deadline: self.deadline,
            total_read: self.total_read,
            line: self.line@,
            request: self.request@,
            credentials: self.credentials.deep_view(),
            phase: self.phase.deep_view(),
        }
    }
}

impl DeepView for ProxyStep {
    type V = StepView;

    open spec fn deep_view(&self) -> StepView {
        StepView {
            session: self.session.deep_view(),
            used: self.used,
            action: self.action.deep_view(),
        }
    }
}

impl ProxySession {
    #[verifier::type_invariant]
    spec fn well_formed(&self) -> bool {
        self.total_read <= MAX_REQUEST_SIZE
    }

    /// A session whose request must have been read by then.
    pub fn new(deadline: u64) -> (session: Self)
        ensures
            session.deep_view() == fresh_session(deadline),
    {
        ProxySession {
            deadline,
            total_read: 0,
            line: String::new(),
            request: String::new(),
            credentials: None,
            phase: Phase::RequestLine,
        }
    }

    fn with_phase(self, phase: Phase) -> (session: Self)
        ensures
            session.deep_view() == (SessionView {
                phase: phase.deep_view(),
                ..self.deep_view()
            }),
    {
        proof {
            use_type_invariant(&self);
        }
        ProxySession {
            deadline: self.deadline,
            total_read: self.total_read,
            line: self.line,
            request: self.request,
            credentials: self.credentials,
            phase,
        }
    }

    fn end(self, used: usize, action: ProxyAction) -> (step: ProxyStep)
        ensures
            step.deep_view() == ending(self.deep_view(), used, action.deep_view()),
    {
        ProxyStep { session: self.with_phase(Phase::Closed), used, action }
    }

    fn refuse(self, used: usize, code: u16, message: &str) -> (step: ProxyStep)
        ensures
            step.deep_view() == refusal(self.deep_view(), used, code, message@),
    {
        self.end(used, ProxyAction::Respond(write_error(code, message)))
    }

    fn fail(self, failure: ReadFailure) -> (step: ProxyStep)
        ensures
            step.deep_view() == read_failed(self.deep_view(), failure),
    {
        match write_request_read_error(failure) {
            Some(text) => self.end(0, ProxyAction::Respond(text)),
            None => self.end(0, ProxyAction::Abort),
        }
    }

    fn end_line(self, context: &ProxyContext, used: usize) -> (step: ProxyStep)
        ensures
            step.deep_view() == line_ended(context.token@, self.deep_view(), used),
    {
        proof {
            use_type_invariant(&self);
        }
        if let Phase::RequestLine = self.phase {
            let session = ProxySession {
                deadline: self.deadline,
                total_read: self.total_read,
                line: String::new(),
                request: self.line,
                credentials: self.credentials,
                phase: Phase::Headers,
            };
            assert(session.line@ =~= Seq::<char>::empty());
            return ProxyStep { session, used, action: ProxyAction::Continue };
        }
        let line = text::trim(self.line.as_str());
        if !line.is_empty() {
            let credentials = match parse_credentials(line) {
                Some(found) => Some(found),
                None => self.credentials,
            };
            let session = ProxySession {
                deadline: self.deadline,
                total_read: self.total_read,
                line: String::new(),
                request: self.request,
                credentials,
                phase: self.phase,
            };
            assert(session.line@ =~= Seq::<char>::empty());
            return ProxyStep { session, used, action: ProxyAction::Continue };
        }
        match judge_request(context.token.as_str(), self.request.as_str(), &self.credentials) {
            Verdict::Refuse(code, message) => self.refuse(used, code, message),
            Verdict::Abort => self.end(used, ProxyAction::Abort),
            Verdict::Inspect(host) => {
                let asked = host.as_str().to_owned();
                ProxyStep {
                    session: self.with_phase(Phase::Host(host)),
                    used,
                    action: ProxyAction::Inspect(asked),
                }
            },
        }
    }

    fn take_input(self, context: &ProxyContext, bytes: &Vec<u8>) -> (step: ProxyStep)
        ensures
            step.deep_view() == input_read(context.token@, self.deep_view(), bytes@),
    {
        proof {
            use_type_invariant(&self);
        }
        match read_bounded_request_line(self.total_read, bytes.as_slice()) {
            LinePart::Ended => self.end_line(context, 0),
            LinePart::Failed(failure) => self.fail(failure),
            LinePart::Text { text, size, complete } => {
                let mut line = self.line;
                line.append(text.as_str());
                let longer = ProxySession {
                    deadline: self.deadline,
                    total_read: self.total_read + size,
                    line,
                    request: self.request,
                    credentials: self.credentials,
                    phase: self.phase,
                };
                if complete {
                    longer.end_line(context, size)
                } else {
                    ProxyStep { session: longer, used: size, action: ProxyAction::Continue }
                }
            },
        }
    }

    fn inspect(self, context: &ProxyContext, host: String, literal: bool) -> (step: ProxyStep)
        ensures
            step.deep_view() == host_inspected(
                context.allowed_domains@,
                self.deep_view(),
                host@,
                literal,
            ),
    {
        if literal {
            return self.refuse(0, 403, "IP literal hostnames not allowed");
        }
        match matching_rule(host.as_str(), &context.allowed_domains) {
            None => self.refuse(0, 403, "Domain not allowed"),
            Some(rule) => {
                let mut target = host.as_str().to_owned();
                target.append(":443");
                ProxyStep {
                    session: self.with_phase(Phase::Addresses(host, rule.allow_private_ips)),
                    used: 0,
                    action: ProxyAction::Resolve(target),
                }
            },
        }
    }

    fn resolve(self, private: bool, addrs: Option<Vec<SocketAddress>>) -> (step: ProxyStep)
        ensures
            step.deep_view() == host_resolved(
                self.deep_view(),
                private,
                match addrs {
                    Some(addrs) => Some(addrs@),
                    None => None,
                },
            ),
    {
        match addrs {
            None => self.refuse(0, 502, "DNS resolution failed"),
            Some(addrs) => {
                let allowed = allowed_target_addrs(&addrs, private);
                if allowed.len() == 0 {
                    self.refuse(0, 403, "No resolved IPs are allowed")
                } else {
                    let target = allowed[0];
                    ProxyStep {
                        session: self.with_phase(Phase::Connection(target)),
                        used: 0,
                        action: ProxyAction::Connect(target),
                    }
                }
            },
        }
    }

    fn reads(&self) -> (yes: bool)
        ensures
            yes == (self.deep_view().phase is RequestLine || self.deep_view().phase is Headers),
    {
        match &self.phase {
            Phase::RequestLine => true,
            Phase::Headers => true,
            _ => false,
        }
    }

    /// Takes an event, and says what is to be done.
    pub fn step(self, context: &ProxyContext, event: ProxyEvent) -> (step: ProxyStep)
        ensures
            step.deep_view() == session_step(
                context.token@,
                context.allowed_domains@,
                self.deep_view(),
                event.deep_view(),
            ),
    {
        let reads = self.reads();
        match event {
            ProxyEvent::Proceed(now) => {
                if !reads {
                    return self.end(0, ProxyAction::Abort);
                }
                match next_read(self.total_read, self.deadline, now) {
                    Ok(time) => ProxyStep {
                        session: self,
                        used: 0,
                        action: ProxyAction::Read(time),
                    },
                    Err(failure) => self.fail(failure),
                }
            },
            ProxyEvent::Input(bytes) => {
                if !reads {
                    return self.end(0, ProxyAction::Abort);
                }
                self.take_input(context, &bytes)
            },
            ProxyEvent::ReadFailed(failure) => {
                if !reads {
                    return self.end(0, ProxyAction::Abort);
                }
                self.fail(failure)
            },
            ProxyEvent::IpLiteral(literal) => {
                let host = match &self.phase {
                    Phase::Host(host) => Some(host.as_str().to_owned()),
                    _ => None,
                };
                match host {
                    Some(host) => self.inspect(context, host, literal),
                    None => self.end(0, ProxyAction::Abort),
                }
            },
            ProxyEvent::Resolved(addrs) => {
                let private = match &self.phase {
                    Phase::Addresses(_, private) => Some(*private),
                    _ => None,
                };
                match private {
                    Some(private) => self.resolve(private, addrs),
                    None => self.end(0, ProxyAction::Abort),
                }
            },
            ProxyEvent::Connected(connected) => {
                let asked = match &self.phase {
                    Phase::Connection(_) => true,
                    _ => false,
                };
                if !asked {
                    self.end(0, ProxyAction::Abort)
                } else if connected {
                    self.end(
                        0,
                        ProxyAction::Tunnel("HTTP/1.1 200 Connection Established\r\n\r\n"),
                    )
                } else {
                    self.refuse(0, 502, "Connection to target failed")
                }
            },
        }
    }
}

/// A session behind a run of events.
pub open spec fn session_run(
    token: Seq<char>,
    rules: Seq<AllowedDomainRule>,
    deadline: u64,
    events: Seq<ProxyEventView>,
) -> SessionView
    decreases events.len(),
{
    if events.len() == 0 {
        fresh_session(deadline)
    } else {
        let before = session_run(token, rules, deadline, events.drop_last());
        session_step(token, rules, before, events.last()).session
    }
}

/// Whether a session has shown that it may ask for a host: it brought the credentials, and a rule
/// decides on the host.
pub open spec fn entitled(
    token: Seq<char>,
    rules: Seq<AllowedDomainRule>,
    session: SessionView,
    host: Seq<char>,
    private: bool,
) -> bool {
    &&& verdict(token, session.request, session.credentials) == VerdictView::Inspect(host)
    &&& super::allowlist::deciding_rule(host, rules) matches Some(rule) && rule.allow_private_ips
        == private
}

/// What holds of every session.
pub open spec fn session_sound(
    token: Seq<char>,
    rules: Seq<AllowedDomainRule>,
    session: SessionView,
) -> bool {
    &&& session.total_read <= MAX_REQUEST_SIZE
    &&& match session.phase {
        PhaseView::Host(host) => verdict(token, session.request, session.credentials)
            == VerdictView::Inspect(host),
        PhaseView::Addresses(host, private) => entitled(token, rules, session, host, private),
        PhaseView::Connection(addr) => exists|host: Seq<char>, private: bool| #[trigger]
            entitled(token, rules, session, host, private) && super::addresses::address_allowed(
                addr.ip,
                private,
            ),
        _ => true,
    }
}

proof fn lemma_step_sound(
    token: Seq<char>,
    rules: Seq<AllowedDomainRule>,
    session: SessionView,
    event: ProxyEventView,
)
    requires
        session_sound(token, rules, session),
    ensures
        session_sound(token, rules, session_step(token, rules, session, event).session),
{
    let after = session_step(token, rules, session, event).session;
    match event {
        ProxyEventView::Input(bytes) => {
            crate::bytes::line_size_bounded(bytes);
        },
        ProxyEventView::Resolved(Some(addrs)) => {
            if let PhaseView::Addresses(host, private) = session.phase {
                let allowed = super::addresses::allowed_of(addrs, private);
                if allowed.len() > 0 {
                    let keep = |addr: SocketAddress|
                        super::addresses::address_allowed(addr.ip, private);
                    crate::lists::lemma_kept_was_there(addrs, keep, 0);
                    assert(entitled(token, rules, after, host, private));
                }
            }
        },
        _ => {},
    }
}

/// Every session has read no more than a request may have, and has a right to what it asks for.
pub proof fn sessions_are_sound(
    token: Seq<char>,
    rules: Seq<AllowedDomainRule>,
    deadline: u64,
    events: Seq<ProxyEventView>,
)
    ensures
        session_sound(token, rules, session_run(token, rules, deadline, events)),
    decreases events.len(),
{
    if events.len() > 0 {
        sessions_are_sound(token, rules, deadline, events.drop_last());
        lemma_step_sound(
            token,
            rules,
            session_run(token, rules, deadline, events.drop_last()),
            events.last(),
        );
    }
}

/// A connection is asked for only by a client that brought the credentials in a `CONNECT` request
/// to port 443, for a host that a rule decides on, and to an address that this rule allows.
pub proof fn connects_only_where_allowed(
    token: Seq<char>,
    rules: Seq<AllowedDomainRule>,
    deadline: u64,
    events: Seq<ProxyEventView>,
    event: ProxyEventView,
    addr: SocketAddress,
) -> (host: Seq<char>)
    requires
        session_step(
            token,
            rules,
            session_run(token, rules, deadline, events),
            event,
        ).action == ProxyActionView::Connect(addr),
    ensures
        ({
            let session = session_run(token, rules, deadline, events);
            &&& session.credentials == Some(expected_credentials(token))
            &&& super::allowlist::deciding_rule(host, rules) matches Some(rule)
                && super::addresses::address_allowed(addr.ip, rule.allow_private_ips)
            &&& super::addresses::class_of(addr.ip)
                != super::addresses::AddressClass::AlwaysBlocked
            &&& exists|name: Seq<char>| #[trigger]
                normal_host(name) == host && super::requests::host_port(
                    crate::text::words(crate::text::trimmed(session.request))[1],
                ) == Some((name, ALLOWED_PORT))
        }),
{
    let session = session_run(token, rules, deadline, events);
    sessions_are_sound(token, rules, deadline, events);
    let host = session.phase->Addresses_0;
    let private = session.phase->Addresses_1;
    if let ProxyEventView::Resolved(Some(addrs)) = event {
        let keep = |addr: SocketAddress| super::addresses::address_allowed(addr.ip, private);
        crate::lists::lemma_kept_was_there(addrs, keep, 0);
    }
    host
}

/// A host is resolved only behind the answer that it is no IP literal.
pub proof fn resolves_no_ip_literal(
    token: Seq<char>,
    rules: Seq<AllowedDomainRule>,
    session: SessionView,
    event: ProxyEventView,
)
    requires
        session_step(token, rules, session, event).action is Resolve,
    ensures
        event == ProxyEventView::IpLiteral(false),
{
}

/// A tunnel stands only behind a connection that was asked for and made.
pub proof fn tunnels_only_what_connected(
    token: Seq<char>,
    rules: Seq<AllowedDomainRule>,
    session: SessionView,
    event: ProxyEventView,
)
    requires
        session_step(token, rules, session, event).action is Tunnel,
    ensures
        session.phase is Connection,
        event == ProxyEventView::Connected(true),
{
}

/// A session is answered once: what ends it is an answer, a tunnel or giving up, and each of these
/// ends it.
pub proof fn answers_end_sessions(
    token: Seq<char>,
    rules: Seq<AllowedDomainRule>,
    session: SessionView,
    event: ProxyEventView,
)
    ensures
        ({
            let step = session_step(token, rules, session, event);
            step.session.phase is Closed == (step.action is Respond || step.action is Tunnel
                || step.action is Abort)
        }),
{
}

/// A closed session does nothing more.
pub proof fn closed_sessions_stay_closed(
    token: Seq<char>,
    rules: Seq<AllowedDomainRule>,
    session: SessionView,
    event: ProxyEventView,
)
    requires
        session.phase is Closed,
    ensures
        session_step(token, rules, session, event).session == session,
        session_step(token, rules, session, event).action is Abort,
{
}

/// A header line that is not about credentials changes nothing of what a session has heard before it: the request and
/// the credentials that an earlier header gave stay, and the session reads on.
pub proof fn other_lines_change_nothing(token: Seq<char>, session: SessionView, used: usize)
    requires
        session.phase is Headers,
        crate::text::trimmed(session.line).len() > 0,
        super::requests::header_credentials(crate::text::trimmed(session.line)) is None,
    ensures
        line_ended(token, session, used) == (StepView {
            session: SessionView { line: Seq::empty(), ..session },
            used,
            action: ProxyActionView::Continue,
        }),
{
}

} // verus!
