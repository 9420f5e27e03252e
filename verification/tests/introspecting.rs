//! The introspection call: what may be reached, what is posted, and what is
//! made of the answer.
use authenticate_oauth2::introspection::{
    judged, Endpoint, Event, Request, Response, SocketAddress, Step,
};
use authenticate_oauth2::{AuthenticateError, Http};
use std::time::Duration;

fn endpoint(host: &str, authority: &str, path: &str, loopback: bool) -> Endpoint {
    Endpoint {
        host: host.to_string(),
        authority: authority.to_string(),
        path: path.to_string(),
        loopback,
    }
}

fn local() -> Http {
    match Http::at(Ok(endpoint("localhost", "localhost", "/introspect", true))) {
        Ok(http) => http,
        Err(refused) => panic!("{}", refused.message),
    }
}

fn beyond(authority: &str) -> Http {
    match Http::at(Ok(endpoint("as.example", authority, "/introspect", false))) {
        Ok(http) => http,
        Err(refused) => panic!("{}", refused.message),
    }
}

fn v4(octets: [u8; 4]) -> SocketAddress {
    SocketAddress::V4 { octets, port: 80 }
}

fn v6(segments: [u16; 8]) -> SocketAddress {
    SocketAddress::V6 { segments, port: 80, flowinfo: 0, scope_id: 0 }
}

fn response(status: u16, reason: &str, text: &str) -> Response {
    Response { status, reason: reason.to_string(), text: text.to_string() }
}

fn refused(step: Step) -> String {
    match step {
        Step::Finished(Err(error)) => error.message,
        _ => panic!("not refused"),
    }
}

fn exchanged(step: Step) -> (Vec<SocketAddress>, Duration, Request) {
    match step {
        Step::Exchange { addresses, timeout, request } => (addresses, timeout, request),
        _ => panic!("no exchange"),
    }
}

fn message<T>(outcome: Result<T, AuthenticateError>) -> String {
    match outcome {
        Ok(_) => panic!("not refused"),
        Err(error) => error.message,
    }
}

#[test]
fn an_offline_node_refuses_an_endpoint_beyond_itself_and_says_why() {
    let failure = refused(beyond("as.example:8080").step("token", Event::Begun));

    assert!(failure.contains("offline (ADR-0045)"));
    assert!(failure.contains("as.example"));
    assert_eq!(
        failure,
        "the node is offline (ADR-0045) and the introspection endpoint 'as.example' is not \
         loopback: configure the node online, or an endpoint on this host"
    );
}

#[test]
fn an_offline_node_is_refused_again_if_the_name_is_resolved_all_the_same() {
    let resolved = Event::Resolved(Ok(vec![v4([127, 0, 0, 1])]));
    let failure = refused(beyond("as.example").step("token", resolved));

    assert!(failure.contains("is not loopback"));
    assert!(message(beyond("as.example").reachable(Err("gone".to_string()))).contains("loopback"));
}

#[test]
fn an_online_node_and_a_loopback_endpoint_are_resolved() {
    assert!(matches!(beyond("as.example").online().step("token", Event::Begun), Step::Resolve));
    assert!(matches!(local().step("token", Event::Begun), Step::Resolve));
}

#[test]
fn an_offline_node_connects_to_loopback_alone() {
    let all = vec![
        v4([10, 0, 0, 1]),
        v4([127, 9, 8, 7]),
        v6([0, 0, 0, 0, 0, 0, 0, 1]),
        v6([0, 0, 0, 0, 0, 0xffff, 0x7f00, 1]),
        v6([1, 0, 0, 0, 0, 0, 0, 1]),
        v4([126, 0, 0, 127]),
    ];
    let open = local().reachable(Ok(all)).expect("two of them");

    assert_eq!(open.len(), 2);
    assert!(matches!(open[0], SocketAddress::V4 { octets: [127, 9, 8, 7], .. }));
    assert!(matches!(open[1], SocketAddress::V6 { segments: [0, 0, 0, 0, 0, 0, 0, 1], .. }));
}

#[test]
fn an_online_node_connects_to_every_address() {
    let all = vec![v4([10, 0, 0, 1]), v4([127, 0, 0, 1]), v6([1, 0, 0, 0, 0, 0, 0, 1])];
    let open = beyond("as.example").online().reachable(Ok(all)).expect("all of them");

    assert_eq!(open.len(), 3);
    assert!(matches!(open[0], SocketAddress::V4 { octets: [10, 0, 0, 1], port: 80 }));
    assert!(matches!(open[2], SocketAddress::V6 { segments: [1, 0, 0, 0, 0, 0, 0, 1], .. }));
}

#[test]
fn a_name_without_a_loopback_address_and_one_that_does_not_resolve_are_refused() {
    assert_eq!(
        message(local().reachable(Ok(vec![v4([10, 0, 0, 1])]))),
        "the node is offline (ADR-0045) and 'localhost' resolves to no loopback address"
    );
    assert_eq!(
        message(local().reachable(Err("'localhost' does not resolve".to_string()))),
        "the introspection endpoint 'localhost' does not resolve"
    );
}

#[test]
fn a_url_that_could_not_be_read_is_refused_with_the_reason() {
    assert_eq!(
        message(Http::at(Err("has no host".to_string()))),
        "the introspection endpoint has no host"
    );
}

#[test]
fn a_401_names_the_credentials_and_another_status_names_itself() {
    assert!(
        judged(&response(401, "Unauthorized", ""))
            .expect_err("refused")
            .message
            .contains("client credentials")
    );
    assert!(
        judged(&response(503, "Service Unavailable", ""))
            .expect_err("refused")
            .message
            .contains("'503 Service Unavailable' and not 200")
    );
}

#[test]
fn a_status_is_judged_word_for_word() {
    assert_eq!(judged(&response(200, "OK", "{}")).expect("a body"), "{}");
    assert_eq!(
        message(judged(&response(403, "Forbidden", "{}"))),
        "the authorization server refused this node's client credentials: '403 Forbidden'"
    );
    assert_eq!(
        message(judged(&response(0, "", "{}"))),
        "the introspection endpoint answered '0 ' and not 200"
    );
    assert_eq!(
        message(judged(&response(201, "Created", "{}"))),
        "the introspection endpoint answered '201 Created' and not 200"
    );
}

#[test]
fn a_200_without_a_body_is_no_answer() {
    let none = "the introspection endpoint answered '200 OK' without a body";

    assert_eq!(message(judged(&response(200, "OK", ""))), none);
    assert_eq!(refused(local().step("token", Event::Answered(Ok(response(200, "OK", ""))))), none);
    assert_eq!(judged(&response(200, "OK", " ")).expect("a body"), " ");
}

#[test]
fn a_token_is_form_encoded_so_its_punctuation_survives_the_post() {
    let request = local().request("a+b/c=d.e-f");

    assert_eq!(request.body, b"token=a%2Bb%2Fc%3Dd.e-f&token_type_hint=access_token");
}

#[test]
fn a_request_has_its_headers_and_no_credentials_without_a_client() {
    let request = beyond("as.example:8080").request("t");
    let headers: Vec<(&str, &str)> =
        request.headers.iter().map(|(name, value)| (name.as_str(), value.as_str())).collect();

    assert_eq!(request.method, "POST");
    assert_eq!(request.path, "/introspect");
    assert_eq!(
        headers,
        vec![
            ("Host", "as.example:8080"),
            ("Accept", "application/json"),
            ("Content-Type", "application/x-www-form-urlencoded"),
        ]
    );
}

#[test]
fn a_client_is_named_with_http_basic() {
    let request = local().as_client("xmip-node", "s3cret").request("t");

    assert_eq!(
        request.headers[3],
        ("Authorization".to_string(), "Basic eG1pcC1ub2RlOnMzY3JldA==".to_string())
    );
}

#[test]
fn an_exchange_carries_the_addresses_the_timeout_and_the_request() {
    let resolved = || Event::Resolved(Ok(vec![v4([127, 0, 0, 1])]));
    let (addresses, timeout, request) = exchanged(local().step("t&t", resolved()));
    let slower = local().with_timeout(Duration::from_millis(7500));
    let (_, longer, _) = exchanged(slower.step("t", resolved()));

    assert_eq!(addresses.len(), 1);
    assert_eq!(timeout, Duration::from_secs(5));
    assert_eq!(request.body, b"token=t%26t&token_type_hint=access_token");
    assert_eq!(longer, Duration::from_millis(7500));
}

#[test]
fn an_endpoint_that_does_not_answer_is_refused_by_its_authority() {
    let failure = refused(
        beyond("as.example:8080")
            .online()
            .step("token", Event::Answered(Err("connection refused".to_string()))),
    );

    assert_eq!(
        failure,
        "the introspection endpoint as.example:8080 did not answer: connection refused"
    );
}

#[test]
fn an_answer_ends_the_call() {
    let step = local().step("token", Event::Answered(Ok(response(200, "OK", "body"))));

    match step {
        Step::Finished(Ok(body)) => assert_eq!(body, "body"),
        _ => panic!("not finished"),
    }
}

#[test]
fn the_secret_is_not_shown_and_the_client_id_is() {
    let shown = local().online().as_client("xmip-node", "s3cret").clone().shown();
    let text = format!("{shown:?}");

    assert_eq!(shown.client.as_deref(), Some("xmip-node"));
    assert!(shown.online);
    assert_eq!(shown.endpoint.host, "localhost");
    assert!(text.contains("xmip-node"));
    assert!(!text.contains("s3cret"));
    assert_eq!(local().shown().client, None);
    assert!(!local().shown().online);
}
