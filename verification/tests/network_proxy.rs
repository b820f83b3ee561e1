use workmux::sandbox::addresses::{
    allowed_target_addrs, classify_ip, is_private_ip, AddressClass, IpAddress, SocketAddress,
};
use workmux::sandbox::allowlist::{domain_matches, matching_rule, AllowedDomainRule};
use workmux::sandbox::base64::base64_encode;
use workmux::sandbox::capacity::{next_drain, reject_over_capacity, ConnectionLimit};
use workmux::sandbox::requests::{
    next_read, parse_credentials, parse_host_port, read_bounded_request_line, InvalidPort, LinePart,
    MAX_REQUEST_SIZE,
};
use workmux::sandbox::responses::{write_error, write_request_read_error, ReadFailure};
use workmux::sandbox::session::{
    constant_time_eq, ProxyAction, ProxyContext, ProxyEvent, ProxySession, AUTH_TIMEOUT,
};

const MILLISECOND: u64 = 1_000_000;

fn rule(host: &str, allow_private_ips: bool) -> AllowedDomainRule {
    AllowedDomainRule {
        host: host.to_string(),
        allow_private_ips,
    }
}

fn v4(text: &str) -> [u8; 4] {
    let octets: Vec<u8> = text.split('.').map(|part| part.parse().unwrap()).collect();
    [octets[0], octets[1], octets[2], octets[3]]
}

fn groups(text: &str) -> Vec<u16> {
    let mut found = Vec::new();
    for part in text.split(':').filter(|part| !part.is_empty()) {
        if part.contains('.') {
            let octets = v4(part);
            found.push(u16::from(octets[0]) * 256 + u16::from(octets[1]));
            found.push(u16::from(octets[2]) * 256 + u16::from(octets[3]));
        } else {
            found.push(u16::from_str_radix(part, 16).unwrap());
        }
    }
    found
}

fn ip(text: &str) -> IpAddress {
    if !text.contains(':') {
        return IpAddress::V4(v4(text));
    }
    let mut all = [0u16; 8];
    let (head, tail) = match text.split_once("::") {
        Some((head, tail)) => (groups(head), groups(tail)),
        None => (groups(text), Vec::new()),
    };
    for (at, group) in head.iter().enumerate() {
        all[at] = *group;
    }
    for (at, group) in tail.iter().rev().enumerate() {
        all[7 - at] = *group;
    }
    IpAddress::V6(all)
}

fn addr(text: &str) -> SocketAddress {
    SocketAddress {
        ip: ip(text),
        port: 443,
        flow_info: 0,
        scope_id: 0,
    }
}

/// What a client got to see.
struct Outcome {
    response: String,
    tunnel: bool,
    target: Option<SocketAddress>,
    resolved: Option<String>,
    leftover: Vec<u8>,
}

struct World {
    literal: bool,
    addrs: Option<Vec<SocketAddress>>,
    connected: bool,
}

fn converse(context: &ProxyContext, input: &[u8], world: World) -> Outcome {
    let mut session = ProxySession::new(AUTH_TIMEOUT);
    let mut rest: Vec<u8> = input.to_vec();
    let mut outcome = Outcome {
        response: String::new(),
        tunnel: false,
        target: None,
        resolved: None,
        leftover: Vec::new(),
    };
    let mut event = ProxyEvent::Proceed(0);
    loop {
        let step = session.step(context, event);
        session = step.session;
        rest.drain(..step.used);
        event = match step.action {
            ProxyAction::Continue => ProxyEvent::Proceed(0),
            ProxyAction::Read(_) => ProxyEvent::Input(rest.clone()),
            ProxyAction::Respond(text) => {
                outcome.response = text;
                return outcome;
            }
            ProxyAction::Abort => return outcome,
            ProxyAction::Inspect(_) => ProxyEvent::IpLiteral(world.literal),
            ProxyAction::Resolve(target) => {
                outcome.resolved = Some(target);
                ProxyEvent::Resolved(world.addrs.clone())
            }
            ProxyAction::Connect(target) => {
                outcome.target = Some(target);
                ProxyEvent::Connected(world.connected)
            }
            ProxyAction::Tunnel(text) => {
                outcome.response = text.to_string();
                outcome.tunnel = true;
                outcome.leftover = rest;
                return outcome;
            }
        };
    }
}

fn context(rules: Vec<AllowedDomainRule>) -> ProxyContext {
    ProxyContext {
        token: "mytoken".to_string(),
        allowed_domains: rules,
    }
}

fn public_world() -> World {
    World {
        literal: false,
        addrs: Some(vec![addr("8.8.8.8")]),
        connected: true,
    }
}

fn proxy_auth(token: &str) -> String {
    format!("Basic {}", base64_encode(&format!("workmux:{token}")))
}

fn proxy_connect_request(host_port: &str, auth_header: &str, auth: &str) -> String {
    format!("CONNECT {host_port} HTTP/1.1\r\n{auth_header}: {auth}\r\n\r\n")
}

fn status_line(outcome: &Outcome) -> String {
    outcome.response.lines().next().unwrap_or("").to_string()
}

#[test]
fn domain_exact_match() {
    assert!(domain_matches("example.com", "example.com"));
    assert!(domain_matches("api.anthropic.com", "api.anthropic.com"));
}

#[test]
fn domain_case_insensitive() {
    assert!(domain_matches("Example.COM", "example.com"));
    assert!(domain_matches("example.com", "Example.COM"));
}

#[test]
fn domain_wildcard_match() {
    assert!(domain_matches("foo.googleapis.com", "*.googleapis.com"));
    assert!(domain_matches("bar.baz.googleapis.com", "*.googleapis.com"));
}

#[test]
fn domain_wildcard_does_not_match_base() {
    assert!(!domain_matches("example.com", "*.example.com"));
}

#[test]
fn domain_no_match() {
    assert!(!domain_matches("evil.com", "example.com"));
    assert!(!domain_matches("notexample.com", "example.com"));
    assert!(!domain_matches("evil.com", "*.example.com"));
}

#[test]
fn matching_rule_exact_beats_wildcard_regardless_of_order() {
    let rules = vec![
        rule("*.example.com", false),
        rule("artifactory.example.com", true),
    ];
    let matched = matching_rule("artifactory.example.com", &rules).unwrap();
    assert_eq!(matched.host, "artifactory.example.com");
    assert!(matched.allow_private_ips);
}

#[test]
fn matching_rule_longest_wildcard_wins() {
    let rules = vec![
        rule("*.example.com", false),
        rule("*.internal.example.com", true),
    ];
    let matched = matching_rule("npm.internal.example.com", &rules).unwrap();
    assert_eq!(matched.host, "*.internal.example.com");
    assert!(matched.allow_private_ips);
}

#[test]
fn last_of_equally_specific_rules_decides() {
    let rules = vec![rule("example.com", false), rule("EXAMPLE.com", true)];
    assert!(matching_rule("example.com", &rules).unwrap().allow_private_ips);
    assert!(matching_rule("other.com", &rules).is_none());
}

#[test]
fn private_ip_rfc1918() {
    assert!(is_private_ip(&ip("10.0.0.1")));
    assert!(is_private_ip(&ip("172.16.0.1")));
    assert!(is_private_ip(&ip("192.168.1.1")));
}

#[test]
fn private_ip_loopback() {
    assert!(is_private_ip(&ip("127.0.0.1")));
    assert!(is_private_ip(&ip("::1")));
}

#[test]
fn private_ip_link_local() {
    assert!(is_private_ip(&ip("169.254.1.1")));
}

#[test]
fn private_ip_cgnat() {
    assert!(is_private_ip(&ip("100.64.0.1")));
    assert!(is_private_ip(&ip("100.127.255.255")));
}

#[test]
fn private_ip_multicast() {
    assert!(is_private_ip(&ip("224.0.0.1")));
}

#[test]
fn private_ip_ipv6_ula() {
    assert!(is_private_ip(&ip("fc00::1")));
    assert!(is_private_ip(&ip("fd12::1")));
}

#[test]
fn private_ip_ipv6_link_local() {
    assert!(is_private_ip(&ip("fe80::1")));
}

#[test]
fn private_ip_v4_mapped_v6() {
    assert!(is_private_ip(&ip("::ffff:127.0.0.1")));
    assert!(is_private_ip(&ip("::ffff:10.0.0.1")));
    assert!(!is_private_ip(&ip("::ffff:8.8.8.8")));
}

#[test]
fn public_ip_allowed() {
    assert!(!is_private_ip(&ip("8.8.8.8")));
    assert!(!is_private_ip(&ip("1.1.1.1")));
    assert!(!is_private_ip(&ip("2607:f8b0:4004:800::200e")));
}

#[test]
fn not_private_ip_100_non_cgnat() {
    assert!(!is_private_ip(&ip("100.0.0.1")));
}

#[test]
fn ip_classes_at_their_edges() {
    assert_eq!(classify_ip(&ip("172.15.255.255")), AddressClass::Public);
    assert_eq!(classify_ip(&ip("172.31.255.255")), AddressClass::PrivateRoutable);
    assert_eq!(classify_ip(&ip("172.32.0.0")), AddressClass::Public);
    assert_eq!(classify_ip(&ip("100.128.0.0")), AddressClass::Public);
    assert_eq!(classify_ip(&ip("223.255.255.255")), AddressClass::Public);
    assert_eq!(classify_ip(&ip("239.255.255.255")), AddressClass::AlwaysBlocked);
    assert_eq!(classify_ip(&ip("0.0.0.0")), AddressClass::AlwaysBlocked);
    assert_eq!(classify_ip(&ip("255.255.255.255")), AddressClass::AlwaysBlocked);
    assert_eq!(classify_ip(&ip("febf::1")), AddressClass::AlwaysBlocked);
    assert_eq!(classify_ip(&ip("fec0::1")), AddressClass::Public);
    assert_eq!(classify_ip(&ip("ff02::1")), AddressClass::AlwaysBlocked);
    assert_eq!(classify_ip(&ip("fdff::1")), AddressClass::PrivateRoutable);
}

#[test]
fn allowed_target_addrs_rejects_private_without_opt_in() {
    let addrs = vec![addr("10.0.0.1"), addr("8.8.8.8")];
    let allowed = allowed_target_addrs(&addrs, false);
    assert_eq!(allowed, vec![addrs[1]]);
}

#[test]
fn allowed_target_addrs_accepts_private_routable_with_opt_in() {
    let addrs = vec![addr("10.0.0.1"), addr("100.64.0.1"), addr("fd12::1")];
    let allowed = allowed_target_addrs(&addrs, true);
    assert_eq!(allowed, vec![addrs[0], addrs[1], addrs[2]]);
}

#[test]
fn allowed_target_addrs_rejects_always_blocked_with_opt_in() {
    let addrs = vec![
        addr("127.0.0.1"),
        addr("169.254.1.1"),
        addr("0.0.0.0"),
        addr("224.0.0.1"),
        addr("255.255.255.255"),
        addr("::1"),
        addr("fe80::1"),
    ];
    assert!(allowed_target_addrs(&addrs, true).is_empty());
}

#[test]
fn allowed_target_addrs_classifies_ipv4_mapped_ipv6() {
    let addrs = vec![
        addr("::ffff:8.8.8.8"),
        addr("::ffff:10.0.0.1"),
        addr("::ffff:127.0.0.1"),
    ];
    let without_private = allowed_target_addrs(&addrs, false);
    assert_eq!(without_private, vec![addrs[0]]);
    let with_private = allowed_target_addrs(&addrs, true);
    assert_eq!(with_private, vec![addrs[0], addrs[1]]);
}

#[test]
fn parse_host_port_standard() {
    let (host, port) = parse_host_port("example.com:443").unwrap();
    assert_eq!(host, "example.com");
    assert_eq!(port, 443);
}

#[test]
fn parse_host_port_non_standard() {
    let (host, port) = parse_host_port("example.com:8443").unwrap();
    assert_eq!(host, "example.com");
    assert_eq!(port, 8443);
}

#[test]
fn parse_host_port_no_port() {
    let (host, port) = parse_host_port("example.com").unwrap();
    assert_eq!(host, "example.com");
    assert_eq!(port, 443);
}

#[test]
fn parse_host_port_brackets_and_errors() {
    assert_eq!(parse_host_port("[::1]:8443").unwrap(), ("[::1]", 8443));
    assert_eq!(parse_host_port("[::1]").unwrap(), ("[::1]", 443));
    assert_eq!(parse_host_port("[::1]x9").unwrap(), ("[::1]", 443));
    assert_eq!(parse_host_port("example.com:+443").unwrap(), ("example.com", 443));
    assert_eq!(parse_host_port("example.com:"), Err(InvalidPort));
    assert_eq!(parse_host_port("example.com:65536"), Err(InvalidPort));
    assert_eq!(parse_host_port("[::1]:http"), Err(InvalidPort));
    assert_eq!(parse_host_port("a:b:443").unwrap(), ("a:b", 443));
}

#[test]
fn base64_encode_basic_auth() {
    assert_eq!(base64_encode("workmux:mytoken"), "d29ya211eDpteXRva2Vu");
    assert_eq!(base64_encode(""), "");
    assert_eq!(base64_encode("a"), "YQ==");
    assert_eq!(base64_encode("ab"), "YWI=");
    assert_eq!(base64_encode("abc"), "YWJj");
}

#[test]
fn base64_encode_multibyte_and_all_symbols() {
    assert_eq!(base64_encode("é"), "w6k=");
    assert_eq!(base64_encode("?>~"), "Pz5+");
    assert_eq!(base64_encode("???"), "Pz8/");
}

#[test]
fn proxy_returns_503_at_connection_limit() {
    let mut limit = ConnectionLimit::new(1);
    assert_eq!(limit.try_acquire(), Ok(()));
    assert_eq!(limit.try_acquire(), Err(1));
    assert_eq!(limit.active(), 1);

    let response = reject_over_capacity();
    assert!(response.starts_with("HTTP/1.1 503 Service Unavailable\r\n"));
    assert!(response.contains("Connection: close\r\n"));
    assert!(response.ends_with("workmux network proxy connection limit reached"));
}

#[test]
fn proxy_admits_connection_after_slot_is_released() {
    let mut limit = ConnectionLimit::new(1);
    assert!(limit.try_acquire().is_ok());
    limit.release();
    assert_eq!(limit.active(), 0);
    assert!(limit.try_acquire().is_ok());

    let outcome = converse(
        &context(Vec::new()),
        b"CONNECT example.com:443 HTTP/1.1\r\n\r\n",
        public_world(),
    );
    assert!(outcome.response.contains("407"));
}

#[test]
fn limit_of_nothing_admits_nothing() {
    let mut limit = ConnectionLimit::new(0);
    assert_eq!(limit.try_acquire(), Err(0));
}

#[test]
fn refused_clients_are_drained_up_to_a_request() {
    assert_eq!(next_drain(0), Some(1024));
    assert_eq!(next_drain(MAX_REQUEST_SIZE - 1), Some(1));
    assert_eq!(next_drain(MAX_REQUEST_SIZE), None);
    assert_eq!(next_drain(MAX_REQUEST_SIZE + 5), None);
}

#[test]
fn oversized_unterminated_request_line_is_rejected() {
    let outcome = converse(
        &context(Vec::new()),
        &vec![b'x'; MAX_REQUEST_SIZE + 1],
        public_world(),
    );
    assert!(status_line(&outcome).contains("400"));
}

#[test]
fn request_of_the_greatest_size_is_read() {
    let mut request = b"CONNECT example.com:443 HTTP/1.1\r\nX: ".to_vec();
    request.resize(MAX_REQUEST_SIZE - 4, b'x');
    request.extend_from_slice(b"\r\n\r\n");
    assert_eq!(request.len(), MAX_REQUEST_SIZE);
    let outcome = converse(&context(Vec::new()), &request, public_world());
    assert!(status_line(&outcome).contains("407"));
}

#[test]
fn request_deadline_stops_dribbling_client() {
    let deadline = 30 * MILLISECOND;
    assert_eq!(next_read(0, deadline, 0), Ok(deadline));
    assert_eq!(next_read(1, deadline, deadline), Ok(MILLISECOND));
    let error = next_read(2, deadline, deadline + 1).unwrap_err();
    assert!(matches!(error, ReadFailure::TimedOut | ReadFailure::WouldBlock));
    assert_eq!(next_read(MAX_REQUEST_SIZE, deadline, 0), Err(ReadFailure::InvalidData));
}

#[test]
fn request_lines_are_cut_at_line_breaks() {
    assert_eq!(
        read_bounded_request_line(0, b"ab\ncd"),
        LinePart::Text {
            text: "ab\n".to_string(),
            size: 3,
            complete: true
        }
    );
    assert_eq!(
        read_bounded_request_line(0, b"ab"),
        LinePart::Text {
            text: "ab".to_string(),
            size: 2,
            complete: false
        }
    );
    assert_eq!(read_bounded_request_line(0, b""), LinePart::Ended);
    assert_eq!(
        read_bounded_request_line(MAX_REQUEST_SIZE - 1, b"ab"),
        LinePart::Failed(ReadFailure::InvalidData)
    );
    assert_eq!(
        read_bounded_request_line(0, &[0xff, b'\n']),
        LinePart::Failed(ReadFailure::InvalidData)
    );
    assert_eq!(
        read_bounded_request_line(0, "é\n".as_bytes()),
        LinePart::Text {
            text: "é\n".to_string(),
            size: 3,
            complete: true
        }
    );
}

#[test]
fn proxy_rejects_missing_auth() {
    let outcome = converse(
        &context(vec![rule("example.com", false)]),
        b"CONNECT example.com:443 HTTP/1.1\r\n\r\n",
        public_world(),
    );
    assert!(status_line(&outcome).contains("407"));
    assert!(outcome.response.ends_with("Proxy authentication required"));
}

#[test]
fn proxy_rejects_wrong_auth() {
    let request = proxy_connect_request(
        "example.com:443",
        "Proxy-Authorization",
        &proxy_auth("wrong-token"),
    );
    let outcome = converse(
        &context(vec![rule("example.com", false)]),
        request.as_bytes(),
        public_world(),
    );
    assert!(status_line(&outcome).contains("407"));
    assert!(outcome.response.ends_with("Invalid proxy credentials"));
}

#[test]
fn proxy_accepts_lowercase_auth_header() {
    let request = proxy_connect_request(
        "example.com:443",
        "proxy-authorization",
        &proxy_auth("mytoken"),
    );
    let outcome = converse(
        &context(vec![rule("example.com", false)]),
        request.as_bytes(),
        public_world(),
    );
    assert!(!status_line(&outcome).contains("407"));
    assert!(outcome.tunnel);
    assert_eq!(outcome.response, "HTTP/1.1 200 Connection Established\r\n\r\n");
    assert_eq!(outcome.resolved, Some("example.com:443".to_string()));
    assert_eq!(outcome.target, Some(addr("8.8.8.8")));
}

#[test]
fn proxy_rejects_non_443_port() {
    let request = proxy_connect_request(
        "example.com:80",
        "Proxy-Authorization",
        &proxy_auth("mytoken"),
    );
    let outcome = converse(
        &context(vec![rule("example.com", false)]),
        request.as_bytes(),
        public_world(),
    );
    assert!(status_line(&outcome).contains("403"));
    assert!(outcome.response.ends_with("Only port 443 is allowed"));
}

#[test]
fn proxy_rejects_unlisted_domain() {
    let request = proxy_connect_request(
        "denied.com:443",
        "Proxy-Authorization",
        &proxy_auth("mytoken"),
    );
    let outcome = converse(
        &context(vec![rule("allowed.com", false)]),
        request.as_bytes(),
        public_world(),
    );
    assert!(status_line(&outcome).contains("403"));
    assert!(outcome.response.ends_with("Domain not allowed"));
    assert!(outcome.resolved.is_none());
}

#[test]
fn pipelined_data_forwarded_through_tunnel() {
    let extra_data = b"SIMULATED_TLS_CLIENT_HELLO";
    let mut pipelined = Vec::new();
    pipelined.extend_from_slice(
        format!(
            "CONNECT example.com:443 HTTP/1.1\r\nHost: example.com\r\nProxy-Authorization: {}\r\n\r\n",
            proxy_auth("mytoken")
        )
        .as_bytes(),
    );
    pipelined.extend_from_slice(extra_data);
    let outcome = converse(
        &context(vec![rule("example.com", false)]),
        &pipelined,
        public_world(),
    );
    assert!(outcome.tunnel);
    assert_eq!(outcome.leftover, extra_data);
}

#[test]
fn proxy_rejects_ip_literal_hostname() {
    let request = proxy_connect_request(
        "8.8.8.8:443",
        "Proxy-Authorization",
        &proxy_auth("mytoken"),
    );
    let world = World {
        literal: true,
        ..public_world()
    };
    let outcome = converse(&context(vec![rule("8.8.8.8", false)]), request.as_bytes(), world);
    assert!(status_line(&outcome).contains("403"));
    assert!(outcome.response.ends_with("IP literal hostnames not allowed"));
}

#[test]
fn proxy_reports_what_the_network_refuses() {
    let request = proxy_connect_request(
        "Example.COM.:443",
        "Proxy-Authorization",
        &proxy_auth("mytoken"),
    );
    let rules = || context(vec![rule("example.com", false)]);
    let unresolved = World {
        addrs: None,
        ..public_world()
    };
    let outcome = converse(&rules(), request.as_bytes(), unresolved);
    assert!(outcome.response.ends_with("DNS resolution failed"));
    assert_eq!(outcome.resolved, Some("example.com:443".to_string()));

    let private = World {
        addrs: Some(vec![addr("10.0.0.1"), addr("127.0.0.1")]),
        ..public_world()
    };
    let outcome = converse(&rules(), request.as_bytes(), private);
    assert!(outcome.response.ends_with("No resolved IPs are allowed"));

    let unreachable = World {
        connected: false,
        ..public_world()
    };
    let outcome = converse(&rules(), request.as_bytes(), unreachable);
    assert!(status_line(&outcome).contains("502"));
    assert!(outcome.response.ends_with("Connection to target failed"));
}

#[test]
fn proxy_answers_other_methods_and_drops_bad_ports() {
    let outcome = converse(
        &context(Vec::new()),
        b"GET / HTTP/1.1\r\n\r\n",
        public_world(),
    );
    assert!(outcome.response.ends_with("Expected CONNECT method"));
    let outcome = converse(
        &context(Vec::new()),
        b"CONNECT example.com:x HTTP/1.1\r\n\r\n",
        public_world(),
    );
    assert_eq!(outcome.response, "");
    assert!(!outcome.tunnel);
}

#[test]
fn last_credentials_count() {
    let request = format!(
        "CONNECT example.com:443 HTTP/1.1\r\nProxy-Authorization: {}\r\nproxy-authorization : {}\r\n\r\n",
        proxy_auth("mytoken"),
        proxy_auth("wrong-token")
    );
    let outcome = converse(
        &context(vec![rule("example.com", false)]),
        request.as_bytes(),
        public_world(),
    );
    assert!(outcome.response.ends_with("Invalid proxy credentials"));
}

#[test]
fn headers_without_credentials_are_passed_over() {
    assert_eq!(parse_credentials("Host: example.com"), None);
    assert_eq!(parse_credentials("no colon"), None);
    assert_eq!(
        parse_credentials("PROXY-authorization:  Basic x "),
        Some("Basic x".to_string())
    );
}

#[test]
fn error_responses_count_bytes() {
    assert_eq!(
        write_error(403, "Domain not allowed"),
        "HTTP/1.1 403 Forbidden\r\nContent-Type: text/plain\r\nContent-Length: 18\r\nConnection: close\r\n\r\nDomain not allowed"
    );
    assert!(write_error(418, "é").contains("HTTP/1.1 418 Error\r\n"));
    assert!(write_error(418, "é").contains("Content-Length: 2\r\n"));
    assert!(write_error(400, "").contains("400 Bad Request"));
    assert!(write_error(408, "").contains("408 Request Timeout"));
    assert!(write_error(502, "").contains("502 Bad Gateway"));
}

#[test]
fn read_failures_are_answered_or_not() {
    let timed_out = write_request_read_error(ReadFailure::TimedOut).unwrap();
    assert!(timed_out.contains("408 Request Timeout"));
    assert!(timed_out.ends_with("Proxy request timed out"));
    assert_eq!(
        write_request_read_error(ReadFailure::WouldBlock),
        Some(timed_out)
    );
    assert!(write_request_read_error(ReadFailure::InvalidData)
        .unwrap()
        .ends_with("Request too large or invalid"));
    assert_eq!(write_request_read_error(ReadFailure::Other), None);
}

#[test]
fn comparison_of_secrets_is_equality() {
    assert!(constant_time_eq(b"abc", b"abc"));
    assert!(!constant_time_eq(b"abc", b"abd"));
    assert!(!constant_time_eq(b"abc", b"ab"));
    assert!(constant_time_eq(b"", b""));
}

#[test]
fn answered_sessions_do_nothing_more() {
    let rules = context(Vec::new());
    let step = ProxySession::new(10).step(&rules, ProxyEvent::Proceed(11));
    match step.action {
        ProxyAction::Respond(response) => assert!(response.contains("408")),
        _ => panic!("an answer"),
    }
    let step = step.session.step(&rules, ProxyEvent::Input(b"CONNECT".to_vec()));
    assert!(matches!(step.action, ProxyAction::Abort));
    assert_eq!(step.used, 0);
    let step = step.session.step(&rules, ProxyEvent::Connected(true));
    assert!(matches!(step.action, ProxyAction::Abort));
}
