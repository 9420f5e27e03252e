//! Which claims are proven, and which are refused for what.
use authenticate_oauth2::answer::{Stamp, Subject};
use authenticate_oauth2::introspection::{
    Endpoint, Event, Request, Response, SocketAddress, Step,
};
use authenticate_oauth2::{
    mechanism, Answer, Audience, AuthenticateError, Http, Introspection, Mechanism, Presented,
    Verified, Verifier, BEARER_TOKEN, TOKEN,
};
use std::sync::{Arc, Mutex};

const NOW: i64 = 1_800_000_000;

type Asked = Arc<Mutex<Vec<Request>>>;

/// An authorization server on loopback that answers each introspection
/// request the way RFC 7662 section 2.2 says, and keeps what it was asked.
struct Server {
    http: Http,
    status: u16,
    reason: String,
    answer: String,
    asked: Asked,
}

impl Introspection for Server {
    fn introspect(&self, token: &str) -> Result<String, AuthenticateError> {
        let mut event = Event::Begun;
        loop {
            event = match self.http.step(token, event) {
                Step::Resolve => Event::Resolved(Ok(vec![SocketAddress::V4 {
                    octets: [127, 0, 0, 1],
                    port: 4711,
                }])),
                Step::Exchange { request, .. } => {
                    self.asked.lock().expect("a list").push(request);
                    Event::Answered(Ok(Response {
                        status: self.status,
                        reason: self.reason.clone(),
                        text: self.answer.clone(),
                    }))
                }
                Step::Finished(outcome) => return outcome,
            }
        }
    }
}

fn at(host: &str, path: &str, loopback: bool) -> Http {
    let endpoint = Endpoint {
        host: host.to_string(),
        authority: format!("{host}:4711"),
        path: path.to_string(),
        loopback,
    };
    match Http::at(Ok(endpoint)) {
        Ok(http) => http,
        Err(refused) => panic!("{}", refused.message),
    }
}

fn over(http: Http, status: u16, reason: &str, answer: &str) -> (Server, Asked) {
    let asked: Asked = Arc::new(Mutex::new(Vec::new()));
    let server = Server {
        http,
        status,
        reason: reason.to_string(),
        answer: answer.to_string(),
        asked: asked.clone(),
    };
    (server, asked)
}

fn server(status: u16, reason: &str, answer: &str) -> (Server, Asked) {
    let http = at("127.0.0.1", "/introspect", true).as_client("xmip-node", "s3cret");
    over(http, status, reason, answer)
}

fn clocked(server: Server) -> Verifier {
    Verifier::new(server).with_clock(|| NOW)
}

fn answering(answer: &str) -> Verifier {
    let (server, _asked) = server(200, "OK", answer);
    clocked(server)
}

fn active(extra: &str) -> String {
    let exp = NOW + 300;
    format!(
        r#"{{"active":true,"sub":"partner-x","scope":"orders:read orders:write","exp":{exp}{extra}}}"#
    )
}

fn presented(token: &str) -> Presented {
    Presented::passed(mechanism::oauth2(), "partner-x").with_proof(TOKEN, token)
}

fn refusal(ours: &Verifier) -> String {
    ours.verify(&presented("token")).expect_err("refused").message
}

fn answer() -> Answer {
    Answer {
        active: Some(true),
        exp: Stamp::Absent,
        nbf: Stamp::Absent,
        iss: None,
        aud: Audience::Unstated,
        scope: None,
        sub: Subject::Named("partner-x".to_string()),
        client_id: None,
    }
}

fn checked(ours: &Verifier, answer: &Answer, now: i64) -> Option<String> {
    ours.check_at(answer, "partner-x", now).err().map(|error| error.message)
}

#[test]
fn an_active_token_is_proven_by_asking_the_server_over_loopback() {
    let (server, asked) = server(200, "OK", &active(""));

    let verified = clocked(server)
        .requiring_scope("orders:read")
        .verify(&presented("mF_9.B5f-4/1JqM"))
        .expect("proven");
    let requests = asked.lock().expect("a list");
    let request = &requests[0];

    assert_eq!(verified, Verified::Proven);
    assert_eq!(requests.len(), 1);
    assert_eq!(request.method, "POST");
    assert_eq!(request.path, "/introspect");
    assert!(request.headers.contains(&(
        "Authorization".to_string(),
        "Basic eG1pcC1ub2RlOnMzY3JldA==".to_string()
    )));
    assert!(request.body.ends_with(b"token=mF_9.B5f-4%2F1JqM&token_type_hint=access_token"));
}

#[test]
fn a_token_the_server_calls_inactive_is_refused_as_such() {
    let (server, _asked) = server(200, "OK", r#"{"active":false}"#);

    let failure = clocked(server).verify(&presented("revoked")).expect_err("refused");

    assert!(failure.message.contains("not active"));
    assert_eq!(
        failure.message,
        "the authorization server says the token is not active: \
         expired, revoked, or never its own"
    );
}

#[test]
fn a_token_without_a_required_scope_is_refused_by_the_scope() {
    let (server, _asked) = server(200, "OK", &active(""));

    let failure = clocked(server)
        .requiring_scope("orders:delete")
        .verify(&presented("token"))
        .expect_err("refused");

    assert!(failure.message.contains("'orders:delete'"));
}

#[test]
fn a_bearer_proof_is_read_and_a_subject_that_is_not_the_claim_is_refused() {
    let (server, asked) = server(200, "OK", &active(""));
    let claim =
        Presented::passed(mechanism::oauth2(), "someone-else").with_proof(BEARER_TOKEN, "token");

    let failure = clocked(server).verify(&claim).expect_err("refused");

    assert!(failure.message.contains("subject"));
    assert!(asked.lock().expect("a list")[0].body.starts_with(b"token=token&"));
}

#[test]
fn an_answer_the_server_has_let_expire_is_refused_by_its_expiry() {
    let answer = format!(r#"{{"active":true,"sub":"partner-x","exp":{}}}"#, NOW - 300);
    let (server, _asked) = server(200, "OK", &answer);

    let failure = clocked(server).verify(&presented("token")).expect_err("refused");

    assert!(failure.message.contains("expired"));
    assert_eq!(failure.message, "the token expired at 1799999700 and it is 1800000000");
}

#[test]
fn another_audience_is_refused_and_an_array_of_audiences_is_read() {
    let (one, _asked) = server(200, "OK", &active(r#","aud":["billing","xmip"]"#));
    let (other, _asked_other) = server(200, "OK", &active(r#","aud":"billing""#));

    let named = clocked(one).expecting_audience("xmip").verify(&presented("token"));
    let failure = clocked(other)
        .expecting_audience("xmip")
        .verify(&presented("token"))
        .expect_err("refused");

    assert_eq!(named.expect("proven"), Verified::Proven);
    assert!(failure.message.contains("audience"));
}

#[test]
fn a_server_that_refuses_the_nodes_credentials_is_named_as_the_reason() {
    let (server, _asked) = server(401, "Unauthorized", "");

    let failure = clocked(server).verify(&presented("token")).expect_err("refused");

    assert!(failure.message.contains("client credentials"));
}

#[test]
fn an_offline_node_does_not_call_a_server_beyond_itself() {
    let (server, asked) = over(at("as.example", "/introspect", false), 200, "OK", &active(""));

    let failure = Verifier::new(server).verify(&presented("token")).expect_err("refused");

    assert!(failure.message.contains("offline (ADR-0045)"));
    assert!(asked.lock().expect("a list").is_empty());
}

#[test]
fn another_mechanism_and_a_missing_proof_are_each_refused_by_name() {
    let (server, asked) = over(at("127.0.0.1", "/", true), 200, "OK", &active(""));
    let ours = Verifier::new(server);
    let other = Presented::passed(Mechanism::named("bearer"), "mF_9.B5f…");
    let bare = Presented::passed(mechanism::oauth2(), "partner-x");

    let not_ours = ours.verify(&other).expect_err("refused");
    let missing = ours.verify(&bare).expect_err("refused");

    assert!(not_ours.message.contains("'bearer' was presented"));
    assert!(missing.message.contains("oauth2.token"));
    assert_eq!(
        not_ours.message,
        "'bearer' was presented and this authenticator verifies oauth2"
    );
    assert_eq!(
        missing.message,
        "no oauth2.token proof and no bearer.token proof was presented"
    );
    assert_eq!(ours.mechanism().name(), "oauth2");
    assert!(asked.lock().expect("a list").is_empty());
}

#[test]
fn nothing_is_cached() {
    let (server, asked) = server(200, "OK", &active(""));
    let ours = clocked(server);

    assert!(ours.verify(&presented("token")).is_ok());
    assert!(ours.verify(&presented("token")).is_ok());
    assert_eq!(asked.lock().expect("a list").len(), 2);
}

#[test]
fn an_oauth2_token_goes_before_a_bearer_token() {
    let (server, asked) = server(200, "OK", &active(""));
    let claim = Presented::passed(mechanism::oauth2(), "partner-x")
        .with_proof(TOKEN, "first")
        .with_proof(BEARER_TOKEN, "second");

    assert!(clocked(server).verify(&claim).is_ok());
    assert!(asked.lock().expect("a list")[0].body.starts_with(b"token=first&"));
}

#[test]
fn the_later_of_two_proofs_under_a_name_holds() {
    let claim = presented("one").with_proof("other", "two").with_proof(TOKEN, "three");

    assert_eq!(claim.proof_named(TOKEN), Some("three"));
    assert_eq!(claim.proof_named("other"), Some("two"));
    assert_eq!(claim.proof_named(BEARER_TOKEN), None);
    assert_eq!(claim.value, "partner-x");
}

#[test]
fn a_reply_that_is_not_json_is_refused_as_such() {
    assert_eq!(
        refusal(&answering("active")),
        "the introspection response is not JSON: expected value at line 1 column 1"
    );
    assert_eq!(
        refusal(&answering("")),
        "the introspection endpoint answered '200 OK' without a body"
    );
    assert_eq!(
        answering("").conclude(Ok(String::new()), "partner-x").expect_err("refused").message,
        "the introspection response is not JSON: EOF while parsing a value at line 1 column 0"
    );
}

#[test]
fn an_answer_must_say_in_a_boolean_that_the_token_is_active() {
    let none = "the introspection response has no boolean `active`";

    assert_eq!(refusal(&answering("{}")), none);
    assert_eq!(refusal(&answering(r#"{"active":"true","sub":"partner-x"}"#)), none);
    assert_eq!(refusal(&answering(r#"{"active":1,"sub":"partner-x"}"#)), none);
    assert_eq!(refusal(&answering(r#"["active",true]"#)), none);
    assert_eq!(refusal(&answering("null")), none);
}

#[test]
fn the_last_of_two_members_of_a_name_holds() {
    assert!(refusal(&answering(r#"{"active":true,"sub":"partner-x","active":false}"#))
        .contains("not active"));
}

#[test]
fn an_expiry_that_is_there_and_is_no_integer_is_refused() {
    let no_exp = "the introspection response has an `exp` that is not an integer in range";
    let no_nbf = "the introspection response has an `nbf` that is not an integer in range";

    for time in [
        "100.5", "1799999700.0", "1.8e9", "1e30", "-0", "18446744073709551616", "\"1\"",
        "true", "[1]", "{}",
    ] {
        let exp = format!(r#"{{"active":true,"sub":"partner-x","exp":{time}}}"#);
        let nbf = format!(r#"{{"active":true,"sub":"partner-x","nbf":{time}}}"#);
        assert_eq!(refusal(&answering(&exp)), no_exp, "{time}");
        assert_eq!(refusal(&answering(&nbf)), no_nbf, "{time}");
    }
}

#[test]
fn an_unreadable_time_is_refused_in_the_order_of_the_checks() {
    let inactive = r#"{"active":false,"exp":1.5}"#;
    let both = r#"{"active":true,"sub":"partner-x","exp":1,"nbf":1.5}"#;

    assert!(refusal(&answering(inactive)).contains("not active"));
    assert!(refusal(&answering(both)).contains("expired at 1 "));
}

#[test]
fn a_time_past_the_signed_range_is_read_all_the_same() {
    let never = r#"{"active":true,"sub":"partner-x","exp":9223372036854775808}"#;
    let last = r#"{"active":true,"sub":"partner-x","exp":18446744073709551615}"#;
    let far = r#"{"active":true,"sub":"partner-x","nbf":9223372036854775808}"#;

    assert!(answering(never).verify(&presented("token")).is_ok());
    assert!(answering(last).verify(&presented("token")).is_ok());
    assert_eq!(
        refusal(&answering(far)),
        "the token is not valid before 9223372036854775808 and it is 1800000000"
    );
    let strict = answering("").with_leeway(i64::MIN);
    let late = Answer { exp: Stamp::Late(1 << 63), ..answer() };
    assert_eq!(checked(&strict, &late, 0), None);
    assert_eq!(
        checked(&strict, &late, 1).as_deref(),
        Some("the token expired at 9223372036854775808 and it is 1")
    );
    let coming = Answer { nbf: Stamp::Late(1 << 63), ..answer() };
    assert_eq!(checked(&answering(""), &coming, i64::MAX), None);
}

#[test]
fn a_subject_that_is_there_and_is_no_text_gives_way_to_no_client() {
    let failure = "the introspection response has a `sub` that is not a string";

    for sub in ["7", "[\"partner-x\"]"] {
        let answer = format!(r#"{{"active":true,"sub":{sub},"client_id":"partner-x"}}"#);
        assert_eq!(refusal(&answering(&answer)), failure, "{sub}");
    }
    let client = r#"{"active":true,"client_id":"partner-x"}"#;
    assert!(answering(client).verify(&presented("token")).is_ok());
}

#[test]
fn a_member_that_is_null_is_as_good_as_none() {
    let client = r#"{"active":true,"sub":null,"client_id":"partner-x"}"#;
    let timeless = r#"{"active":true,"sub":"partner-x","exp":null,"nbf":null}"#;
    let nobody = r#"{"active":true,"sub":null,"client_id":null}"#;
    let elsewhere = r#"{"active":true,"sub":"partner-x","exp":null,"iss":"other","aud":"other"}"#;
    let strict = answering(elsewhere).expecting_issuer("as").expecting_audience("xmip");

    assert!(answering(client).verify(&presented("token")).is_ok());
    assert!(answering(timeless).verify(&presented("token")).is_ok());
    assert_eq!(
        refusal(&answering(nobody)),
        "the introspection response names no `sub` and no `client_id`"
    );
    assert_eq!(refusal(&strict), "the token's issuer is not 'as'");
    assert_eq!(
        refusal(&answering(r#"{"active":null,"sub":"partner-x"}"#)),
        "the introspection response has no boolean `active`"
    );
}

#[test]
fn a_client_that_is_no_text_is_no_client() {
    assert_eq!(
        refusal(&answering(r#"{"active":true,"client_id":7}"#)),
        "the introspection response names no `sub` and no `client_id`"
    );
}

#[test]
fn leeway_is_given_on_both_sides_and_no_further() {
    let (server, _asked) = server(200, "OK", "");
    let ours = Verifier::new(server);
    let expiring = Answer { exp: Stamp::At(1000), ..answer() };
    let coming = Answer { nbf: Stamp::At(1000), ..answer() };

    assert_eq!(checked(&ours, &expiring, 1060), None);
    assert_eq!(
        checked(&ours, &expiring, 1061).as_deref(),
        Some("the token expired at 1000 and it is 1061")
    );
    assert_eq!(checked(&ours, &coming, 940), None);
    assert_eq!(
        checked(&ours, &coming, 939).as_deref(),
        Some("the token is not valid before 1000 and it is 939")
    );
    let strict = ours.with_leeway(0);
    assert_eq!(checked(&strict, &expiring, 1000), None);
    assert!(checked(&strict, &expiring, 1001).is_some());
    assert_eq!(checked(&strict, &coming, 1000), None);
    assert!(checked(&strict, &coming, 999).is_some());
}

#[test]
fn times_at_the_ends_of_their_range_are_held_there() {
    let (server, _asked) = server(200, "OK", "");
    let ours = Verifier::new(server);
    let never = Answer { exp: Stamp::At(i64::MAX), ..answer() };
    let always = Answer { nbf: Stamp::At(i64::MIN), ..answer() };
    let long_gone = Answer { exp: Stamp::At(i64::MIN), ..answer() };

    assert_eq!(checked(&ours, &never, i64::MAX), None);
    assert_eq!(checked(&ours, &always, i64::MIN), None);
    assert_eq!(
        checked(&ours, &long_gone, 0).as_deref(),
        Some("the token expired at -9223372036854775808 and it is 0")
    );
    let behind = ours.with_leeway(-60);
    assert_eq!(checked(&behind, &long_gone, i64::MIN), None);
    assert_eq!(checked(&behind, &always, i64::MIN), None);
}

#[test]
fn an_issuer_is_held_to_where_one_is_expected() {
    let (server, _asked) = server(200, "OK", "");
    let ours = Verifier::new(server).expecting_issuer("other").expecting_issuer("as");
    let by = |iss: Option<&str>| Answer { iss: iss.map(str::to_string), ..answer() };

    assert_eq!(checked(&ours, &by(Some("as")), NOW), None);
    assert_eq!(
        checked(&ours, &by(Some("other")), NOW).as_deref(),
        Some("the token's issuer is not 'as'")
    );
    assert_eq!(
        checked(&ours, &by(None), NOW).as_deref(),
        Some("the token's issuer is not 'as'")
    );
}

#[test]
fn an_audience_is_held_to_where_one_is_expected() {
    let (server, _asked) = server(200, "OK", "");
    let ours = Verifier::new(server).expecting_audience("xmip");
    let to = |aud: Audience| Answer { aud, ..answer() };
    let failure = Some("the token's audience does not name 'xmip'".to_string());

    assert_eq!(checked(&ours, &to(Audience::One("xmip".to_string())), NOW), None);
    assert_eq!(
        checked(&ours, &to(Audience::Many(vec![None, Some("xmip".to_string())])), NOW),
        None
    );
    assert_eq!(checked(&ours, &to(Audience::Many(vec![None])), NOW), failure);
    assert_eq!(checked(&ours, &to(Audience::Many(Vec::new())), NOW), failure);
    assert_eq!(checked(&ours, &to(Audience::One("XMIP".to_string())), NOW), failure);
    assert_eq!(checked(&ours, &to(Audience::Unstated), NOW), failure);
}

#[test]
fn an_audience_is_read_out_of_the_answer() {
    let expecting = |aud: &str| {
        answering(&active(&format!(r#","aud":{aud}"#)))
            .expecting_audience("xmip")
            .verify(&presented("token"))
    };

    assert!(expecting(r#""xmip""#).is_ok());
    assert!(expecting(r#"[7,null,"xmip"]"#).is_ok());
    assert!(expecting(r#"[["xmip"]]"#).is_err());
    assert!(expecting(r#"{"xmip":"xmip"}"#).is_err());
    assert!(expecting("7").is_err());
}

#[test]
fn every_required_scope_must_be_granted_and_the_first_missing_is_named() {
    let (server, _asked) = server(200, "OK", "");
    let ours = Verifier::new(server).requiring_scope("a").requiring_scope("b");
    let with = |scope: &str| Answer { scope: Some(scope.to_string()), ..answer() };
    let lacks = |scope: &str| {
        Some(format!("the token does not carry the scope '{scope}' this node requires"))
    };

    assert_eq!(checked(&ours, &with("a b"), NOW), None);
    assert_eq!(checked(&ours, &with("b  c a"), NOW), None);
    assert_eq!(checked(&ours, &with("a"), NOW), lacks("b"));
    assert_eq!(checked(&ours, &with("c"), NOW), lacks("a"));
    assert_eq!(checked(&ours, &with("ab"), NOW), lacks("a"));
    assert_eq!(checked(&ours, &with("a\tb"), NOW), lacks("a"));
    assert_eq!(checked(&ours, &answer(), NOW), lacks("a"));
    let spaced = ours.requiring_scope("a b");
    assert_eq!(checked(&spaced, &with("a b"), NOW), lacks("a b"));
}

#[test]
fn an_empty_scope_is_granted_by_none_and_by_two_spaces() {
    let (server, _asked) = server(200, "OK", "");
    let ours = Verifier::new(server).requiring_scope("");
    let with = |scope: &str| Answer { scope: Some(scope.to_string()), ..answer() };

    assert_eq!(checked(&ours, &answer(), NOW), None);
    assert_eq!(checked(&ours, &with("a  b"), NOW), None);
    assert!(checked(&ours, &with("a b"), NOW).is_some());
}

#[test]
fn a_client_stands_in_for_a_subject_that_is_not_there() {
    let (server, _asked) = server(200, "OK", "");
    let ours = Verifier::new(server);
    let named = |sub: Option<&str>, client: Option<&str>| Answer {
        sub: match sub {
            Some(sub) => Subject::Named(sub.to_string()),
            None => Subject::Absent,
        },
        client_id: client.map(str::to_string),
        ..answer()
    };

    assert_eq!(checked(&ours, &named(None, Some("partner-x")), NOW), None);
    assert_eq!(
        checked(&ours, &named(Some("other"), Some("partner-x")), NOW).as_deref(),
        Some("the token's subject is not the claimed value")
    );
    assert_eq!(
        checked(&ours, &named(None, None), NOW).as_deref(),
        Some("the introspection response names no `sub` and no `client_id`")
    );
}

#[test]
fn a_check_goes_by_the_clock() {
    let (server, _asked) = server(200, "OK", "");
    let ours = Verifier::new(server).with_clock(|| 2000);
    let until = |exp: i64| Answer { exp: Stamp::At(exp), ..answer() };

    assert!(ours.check(&until(1940), "partner-x").is_ok());
    assert!(ours.check(&until(1939), "partner-x").is_err());
}

#[test]
fn a_reply_is_concluded_from() {
    let (server, _asked) = server(200, "OK", "");
    let ours = clocked(server);
    let refused = Err(AuthenticateError::new("unheard".to_string()));

    assert_eq!(ours.conclude(Ok(active("")), "partner-x").expect("proven"), Verified::Proven);
    assert_eq!(ours.conclude(refused, "partner-x").expect_err("refused").message, "unheard");
}

#[test]
fn without_a_clock_of_its_own_a_verifier_goes_by_the_systems() {
    let (server, _asked) = server(200, "OK", "");
    let ours = Verifier::new(server);
    let until = |exp: i64| Answer { exp: Stamp::At(exp), ..answer() };

    assert!(ours.check(&until(1_700_000_000), "partner-x").is_err());
    assert!(ours.check(&until(i64::MAX), "partner-x").is_ok());
}
