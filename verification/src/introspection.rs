//! The introspection call: RFC 7662 section 2, asked of an authorization
//! server the configuration names.
//!
//! [`Introspection`] is the seam: given a token it answers the JSON the
//! server said. [`Http`] is what this crate knows of making the call itself:
//! one `POST` of `token=<token>` as a form over plain HTTP/1.1, with the
//! client credentials RFC 7662 section 2.1 requires as HTTP Basic. It opens
//! no connection: [`Http::step`] says what is to be done next, its caller
//! does that and reports what came of it.
//!
//! Offline is the default (ADR-0045). A name is resolved and a connection
//! opened only where the endpoint is loopback (an address in `127.0.0.0/8`,
//! `::1`, or the name `localhost` resolving to one) or where the
//! configuration has said the node is [`online`](Http::online). Otherwise the
//! call is refused and the refusal says which of the two would change it.
use crate::base64;
use crate::claim::{told, AuthenticateError};
use crate::clock::seconds;
use crate::percent;
use crate::text::{decimal, decimal_text, enclosed};
use std::time::Duration;
use vstd::prelude::*;
use vstd::string::StringExecFns;
use vstd::utf8::{
    decode_utf8,
    encode_utf8,
    encode_utf8_decode_utf8,
    is_ascii_chars_encode_utf8,
};

verus! {

/// Asks an authorization server about one token.
pub trait Introspection: Send + Sync {
    /// The JSON body of the server's introspection response, or, where the
    /// server cannot be asked or does not answer `200` with a body, an error
    /// that says which.
    fn introspect(&self, token: &str) -> Result<String, AuthenticateError>;
}

/// Whether `server`, asked about a token, can reply this: the body of the
/// response, or the reason why there is none.
pub open spec fn replies<S: Introspection>(
    server: S,
    token: Seq<char>,
    reply: Result<Seq<char>, Seq<char>>,
) -> bool {
    exists|asked: &str, replied: Result<String, AuthenticateError>|
        asked@ == token && told(replied) == reply && #[trigger] call_ensures(
            S::introspect,
            (&server, asked),
            replied,
        )
}

/// Where an introspection endpoint is.
#[derive(Debug)]
pub struct Endpoint {
    /// The name or the address of the host.
    pub host: String,
    /// Host and port, as the `Host` header has them.
    pub authority: String,
    /// The path to post to.
    pub path: String,
    /// Whether the host is a loopback address or the name `localhost`.
    pub loopback: bool,
}

/// What an [`Endpoint`] holds.
pub struct Place {
    pub host: Seq<char>,
    pub authority: Seq<char>,
    pub path: Seq<char>,
    pub loopback: bool,
}

impl View for Endpoint {
    type V = Place;

    open spec fn view(&self) -> Place {
        Place {
            host: self.host@,
            authority: self.authority@,
            path: self.path@,
            loopback: self.loopback,
        }
    }
}

impl Clone for Endpoint {
    fn clone(&self) -> (endpoint: Self)
        ensures
            endpoint@ == self@,
    {
        Endpoint {
            host: self.host.clone(),
            authority: self.authority.clone(),
            path: self.path.clone(),
            loopback: self.loopback,
        }
    }
}

/// An address that a connection can be opened to.
#[derive(Debug, Clone, Copy)]
pub enum SocketAddress {
    V4 { octets: [u8; 4], port: u16 },
    V6 { segments: [u16; 8], port: u16, flowinfo: u32, scope_id: u32 },
}

impl SocketAddress {
    /// Whether the address is this host's own: in `127.0.0.0/8`, or `::1`.
    pub open spec fn loopback(self) -> bool {
        match self {
            SocketAddress::V4 { octets, .. } => octets@[0] == 127,
            SocketAddress::V6 { segments, .. } => segments@ == seq![0u16, 0, 0, 0, 0, 0, 0, 1],
        }
    }

    /// Whether the address is this host's own: in `127.0.0.0/8`, or `::1`.
    pub fn is_loopback(&self) -> (yes: bool)
        ensures
            yes == self.loopback(),
    {
        match self {
            SocketAddress::V4 { octets, .. } => octets[0] == 127,
            SocketAddress::V6 { segments, .. } => {
                let yes = segments[0] == 0 && segments[1] == 0 && segments[2] == 0 && segments[3]
                    == 0 && segments[4] == 0 && segments[5] == 0 && segments[6] == 0 && segments[7]
                    == 1;
                proof {
                    if yes {
                        assert(segments@ =~= seq![0u16, 0, 0, 0, 0, 0, 0, 1]);
                    }
                }
                yes
            },
        }
    }
}

/// An HTTP request. It may carry the client's credentials, so it is not made
/// for showing.
pub struct Request {
    pub method: String,
    pub path: String,
    /// Names and values, in order.
    pub headers: Vec<(String, String)>,
    pub body: Vec<u8>,
}

/// What a [`Request`] holds.
pub struct Posted {
    pub method: Seq<char>,
    pub path: Seq<char>,
    pub headers: Seq<(Seq<char>, Seq<char>)>,
    pub body: Seq<u8>,
}

/// What a list of headers holds.
pub open spec fn fields(headers: Seq<(String, String)>) -> Seq<(Seq<char>, Seq<char>)> {
    headers.map_values(|header: (String, String)| (header.0@, header.1@))
}

impl View for Request {
    type V = Posted;

    open spec fn view(&self) -> Posted {
        Posted {
            method: self.method@,
            path: self.path@,
            headers: fields(self.headers@),
            body: self.body@,
        }
    }
}

/// An HTTP response: its status line and its body as text.
#[derive(Debug)]
pub struct Response {
    pub status: u16,
    pub reason: String,
    pub text: String,
}

/// What a [`Response`] holds.
pub struct Received {
    pub status: u16,
    pub reason: Seq<char>,
    pub text: Seq<char>,
}

impl View for Response {
    type V = Received;

    open spec fn view(&self) -> Received {
        Received { status: self.status, reason: self.reason@, text: self.text@ }
    }
}

/// The introspection endpoint over plain HTTP/1.1.
pub struct Http {
    endpoint: Endpoint,
    client: Option<(String, String)>,
    online: bool,
    timeout: Duration,
}

/// What an [`Http`] is configured with.
pub struct Configured {
    pub endpoint: Place,
    pub client: Option<(Seq<char>, Seq<char>)>,
    pub online: bool,
    pub timeout: Duration,
}

impl View for Http {
    type V = Configured;

    closed spec fn view(&self) -> Configured {
        Configured {
            endpoint: self.endpoint@,
            client: match self.client {
                Some((id, secret)) => Some((id@, secret@)),
                None => None,
            },
            online: self.online,
            timeout: self.timeout,
        }
    }
}

impl Clone for Http {
    fn clone(&self) -> (http: Self)
        ensures
            http@ == self@,
    {
        Http {
            endpoint: self.endpoint.clone(),
            client: match &self.client {
                Some((id, secret)) => Some((id.clone(), secret.clone())),
                None => None,
            },
            online: self.online,
            timeout: self.timeout,
        }
    }
}

/// What may be shown of an [`Http`]: the client secret does not belong in a
/// log line; the client id says whose it is.
#[derive(Debug)]
pub struct Shown {
    pub endpoint: Endpoint,
    pub client: Option<String>,
    pub online: bool,
}

/// What a [`Shown`] holds.
pub struct Visible {
    pub endpoint: Place,
    pub client: Option<Seq<char>>,
    pub online: bool,
}

impl View for Shown {
    type V = Visible;

    open spec fn view(&self) -> Visible {
        Visible {
            endpoint: self.endpoint@,
            client: match self.client {
                Some(id) => Some(id@),
                None => None,
            },
            online: self.online,
        }
    }
}

/// What happened: the call begins, or what came of the step before.
#[derive(Debug)]
pub enum Event {
    /// Nothing has been done yet.
    Begun,
    /// The host's name was resolved, or why it was not.
    Resolved(Result<Vec<SocketAddress>, String>),
    /// The endpoint answered, or why it did not.
    Answered(Result<Response, String>),
}

/// What an [`Event`] holds.
pub enum Happened {
    Begun,
    Resolved(Result<Seq<SocketAddress>, Seq<char>>),
    Answered(Result<Received, Seq<char>>),
}

impl View for Event {
    type V = Happened;

    open spec fn view(&self) -> Happened {
        match self {
            Event::Begun => Happened::Begun,
            Event::Resolved(Ok(addresses)) => Happened::Resolved(Ok(addresses@)),
            Event::Resolved(Err(failure)) => Happened::Resolved(Err(failure@)),
            Event::Answered(Ok(answer)) => Happened::Answered(Ok(answer@)),
            Event::Answered(Err(failure)) => Happened::Answered(Err(failure@)),
        }
    }
}

/// What is to be done next.
pub enum Step {
    /// Resolve the name of the endpoint's host.
    Resolve,
    /// Connect to one of the addresses and exchange the request for a
    /// response, within the time given for each.
    Exchange { addresses: Vec<SocketAddress>, timeout: Duration, request: Request },
    /// Nothing: this is what came of the call.
    Finished(Result<String, AuthenticateError>),
}

/// What a [`Step`] holds.
pub enum Due {
    Resolve,
    Exchange { addresses: Seq<SocketAddress>, timeout: Duration, request: Posted },
    Finished(Result<Seq<char>, Seq<char>>),
}

impl View for Step {
    type V = Due;

    open spec fn view(&self) -> Due {
        match self {
            Step::Resolve => Due::Resolve,
            Step::Exchange { addresses, timeout, request } => Due::Exchange {
                addresses: addresses@,
                timeout: *timeout,
                request: request@,
            },
            Step::Finished(outcome) => Due::Finished(told(*outcome)),
        }
    }
}

impl Configured {
    /// What may be shown in a log.
    pub open spec fn visible(self) -> Visible {
        Visible {
            endpoint: self.endpoint,
            client: match self.client {
                Some((id, secret)) => Some(id),
                None => None,
            },
            online: self.online,
        }
    }

    /// Whether the endpoint may be asked at all: the node is online, or the
    /// endpoint says it is on this host.
    pub open spec fn admits_endpoint(self) -> bool {
        self.online || self.endpoint.loopback
    }

    /// Whether a connection may be opened to an address.
    pub open spec fn admits(self, address: SocketAddress) -> bool {
        self.online || address.loopback()
    }

    /// Why an endpoint that is not admitted is refused.
    pub open spec fn offline(self) -> Seq<char> {
        "the node is offline (ADR-0045) and the introspection endpoint '"@ + self.endpoint.host
            + "' is not loopback: configure the node online, or an endpoint on this host"@
    }

    /// Why an endpoint is refused that has no address on this host.
    pub open spec fn nowhere(self) -> Seq<char> {
        "the node is offline (ADR-0045) and '"@ + self.endpoint.host
            + "' resolves to no loopback address"@
    }

    /// The addresses this node may connect to, of those the host's name was
    /// resolved to.
    pub open spec fn reach(self, resolved: Result<Seq<SocketAddress>, Seq<char>>) -> Result<
        Seq<SocketAddress>,
        Seq<char>,
    > {
        if !self.admits_endpoint() {
            Err(self.offline())
        } else {
            match resolved {
                Err(failure) => Err("the introspection endpoint "@ + failure),
                Ok(addresses) => {
                    let open = addresses.filter(|address: SocketAddress| self.admits(address));
                    if open.len() == 0 {
                        Err(self.nowhere())
                    } else {
                        Ok(open)
                    }
                },
            }
        }
    }

    /// The credentials of HTTP Basic.
    pub open spec fn credential(id: Seq<char>, secret: Seq<char>) -> Seq<char> {
        base64::encoded(encode_utf8(id + ":"@ + secret))
    }

    /// The form that asks about a token.
    pub open spec fn form(token: Seq<char>) -> Seq<u8> {
        encode_utf8("token="@) + percent::encoded(encode_utf8(token)) + encode_utf8(
            "&token_type_hint=access_token"@,
        )
    }

    /// The request that asks about a token.
    pub open spec fn post(self, token: Seq<char>) -> Posted {
        let headers = seq![
            ("Host"@, self.endpoint.authority),
            ("Accept"@, "application/json"@),
            ("Content-Type"@, "application/x-www-form-urlencoded"@),
        ];
        Posted {
            method: "POST"@,
            path: self.endpoint.path,
            headers: match self.client {
                Some((id, secret)) => headers.push(
                    ("Authorization"@, "Basic "@ + Self::credential(id, secret)),
                ),
                None => headers,
            },
            body: Self::form(token),
        }
    }

    /// What comes of a call, given what the name would be resolved to and
    /// what would come of an exchange.
    pub open spec fn outcome(
        self,
        resolved: Result<Seq<SocketAddress>, Seq<char>>,
        answered: Result<Received, Seq<char>>,
    ) -> Result<Seq<char>, Seq<char>> {
        match self.reach(resolved) {
            Err(refusal) => Err(refusal),
            Ok(_) => match answered {
                Ok(answer) => judgement(answer),
                Err(failure) => Err(self.unanswered(failure)),
            },
        }
    }

    /// Why a call fails that the endpoint did not answer.
    pub open spec fn unanswered(self, failure: Seq<char>) -> Seq<char> {
        "the introspection endpoint "@ + self.endpoint.authority + " did not answer: "@ + failure
    }

    /// What is to be done next, given what happened.
    pub open spec fn due(self, token: Seq<char>, event: Happened) -> Due {
        match event {
            Happened::Begun => if self.admits_endpoint() {
                Due::Resolve
            } else {
                Due::Finished(Err(self.offline()))
            },
            Happened::Resolved(resolved) => match self.reach(resolved) {
                Ok(addresses) => Due::Exchange {
                    addresses,
                    timeout: self.timeout,
                    request: self.post(token),
                },
                Err(refusal) => Due::Finished(Err(refusal)),
            },
            Happened::Answered(Ok(answer)) => Due::Finished(judgement(answer)),
            Happened::Answered(Err(failure)) => Due::Finished(Err(self.unanswered(failure))),
        }
    }
}

/// The body of a `200` that has one; a `200` without a body, or any other
/// status, refused, naming it.
pub open spec fn judgement(answer: Received) -> Result<Seq<char>, Seq<char>> {
    let status = decimal(answer.status as int) + " "@ + answer.reason;
    if answer.status == 200 {
        if answer.text.len() > 0 {
            Ok(answer.text)
        } else {
            Err("the introspection endpoint answered '"@ + status + "' without a body"@)
        }
    } else if answer.status == 401 || answer.status == 403 {
        Err(
            "the authorization server refused this node's client credentials: '"@ + status + "'"@,
        )
    } else {
        Err("the introspection endpoint answered '"@ + status + "' and not 200"@)
    }
}

/// The body of a `200` that has one; a `200` without a body, or any other
/// status, refused, naming it.
pub fn judged(answer: &Response) -> (outcome: Result<String, AuthenticateError>)
    ensures
        told(outcome) == judgement(answer@),
{
    let status = enclosed(decimal_text(answer.status as i128).as_str(), " ", answer.reason.as_str());
    match answer.status {
        200 => if answer.text.as_str().is_empty() {
            Err(
                AuthenticateError::new(
                    enclosed(
                        "the introspection endpoint answered '",
                        status.as_str(),
                        "' without a body",
                    ),
                ),
            )
        } else {
            Ok(answer.text.clone())
        },
        401 | 403 => Err(
            AuthenticateError::new(
                enclosed(
                    "the authorization server refused this node's client credentials: '",
                    status.as_str(),
                    "'",
                ),
            ),
        ),
        _ => Err(
            AuthenticateError::new(
                enclosed(
                    "the introspection endpoint answered '",
                    status.as_str(),
                    "' and not 200",
                ),
            ),
        ),
    }
}

impl Http {
    /// The endpoint that a URL was read as: `http://host[:port]/path`. The
    /// node is taken to be offline, no client credentials, five seconds to
    /// answer. Where the URL could not be read, or names an endpoint that
    /// plain HTTP does not reach, the reason is passed on.
    pub fn at(read: Result<Endpoint, String>) -> (http: Result<Self, AuthenticateError>)
        ensures
            match read {
                Ok(endpoint) => http matches Ok(http) && http@ == (Configured {
                    endpoint: endpoint@,
                    client: None,
                    online: false,
                    timeout: seconds(5),
                }),
                Err(refused) => http matches Err(error) && error.message@
                    == "the introspection endpoint "@ + refused@,
            },
    {
        match read {
            Ok(endpoint) => Ok(
                Http { endpoint, client: None, online: false, timeout: Duration::from_secs(5) },
            ),
            Err(refused) => Err(
                AuthenticateError::new(
                    "the introspection endpoint ".to_owned().concat(refused.as_str()),
                ),
            ),
        }
    }

    /// The configuration says this node may reach beyond itself.
    #[must_use]
    pub fn online(self) -> (http: Self)
        ensures
            http@ == (Configured { online: true, ..self@ }),
    {
        Http { online: true, ..self }
    }

    /// Authenticate to the endpoint as this client, with HTTP Basic.
    #[must_use]
    pub fn as_client(self, id: &str, secret: &str) -> (http: Self)
        ensures
            http@ == (Configured { client: Some((id@, secret@)), ..self@ }),
    {
        Http { client: Some((id.to_owned(), secret.to_owned())), ..self }
    }

    /// How long the server has to accept the connection and to answer.
    #[must_use]
    pub fn with_timeout(self, timeout: Duration) -> (http: Self)
        ensures
            http@ == (Configured { timeout, ..self@ }),
    {
        Http { timeout, ..self }
    }

    /// What may be shown of this in a log.
    pub fn shown(&self) -> (shown: Shown)
        ensures
            shown@ == self@.visible(),
    {
        Shown {
            endpoint: self.endpoint.clone(),
            client: match &self.client {
                Some((id, _)) => Some(id.clone()),
                None => None,
            },
            online: self.online,
        }
    }

    fn offline_error(&self) -> (error: AuthenticateError)
        ensures
            error.message@ == self@.offline(),
    {
        AuthenticateError::new(
            enclosed(
                "the node is offline (ADR-0045) and the introspection endpoint '",
                self.endpoint.host.as_str(),
                "' is not loopback: configure the node online, or an endpoint on this host",
            ),
        )
    }

    /// The addresses this node may connect to, given what it may reach and
    /// what the host's name was resolved to.
    pub fn reachable(&self, resolved: Result<Vec<SocketAddress>, String>) -> (open: Result<
        Vec<SocketAddress>,
        AuthenticateError,
    >)
        ensures
            match (resolved, open) {
                (Ok(all), Ok(open)) => self@.reach(Ok(all@)) == Ok::<_, Seq<char>>(open@),
                (Ok(all), Err(error)) => self@.reach(Ok(all@)) == Err::<Seq<SocketAddress>, _>(
                    error.message@,
                ),
                (Err(failure), Ok(open)) => false,
                (Err(failure), Err(error)) => self@.reach(Err(failure@)) == Err::<
                    Seq<SocketAddress>,
                    _,
                >(error.message@),
            },
    {
        if !self.online && !self.endpoint.loopback {
            return Err(self.offline_error());
        }
        let all = match resolved {
            Ok(all) => all,
            Err(failure) => {
                return Err(
                    AuthenticateError::new(
                        "the introspection endpoint ".to_owned().concat(failure.as_str()),
                    ),
                );
            },
        };
        let ghost admits = |address: SocketAddress| self@.admits(address);
        let mut open: Vec<SocketAddress> = Vec::new();
        let mut i: usize = 0;
        assert(open@ =~= all@.take(0).filter(admits)) by {
            reveal(Seq::filter);
        }
        while i < all.len()
            invariant
                i <= all.len(),
                admits == (|address: SocketAddress| self@.admits(address)),
                open@ == all@.take(i as int).filter(admits),
            decreases all.len() - i,
        {
            assert(all@.take(i + 1).drop_last() =~= all@.take(i as int));
            assert(all@.take(i + 1).filter(admits) == if admits(all@[i as int]) {
                all@.take(i as int).filter(admits).push(all@[i as int])
            } else {
                all@.take(i as int).filter(admits)
            }) by {
                reveal(Seq::filter);
            }
            if self.online || all[i].is_loopback() {
                open.push(all[i]);
            }
            i = i + 1;
        }
        assert(all@.take(all@.len() as int) =~= all@);
        if open.is_empty() {
            return Err(
                AuthenticateError::new(
                    enclosed(
                        "the node is offline (ADR-0045) and '",
                        self.endpoint.host.as_str(),
                        "' resolves to no loopback address",
                    ),
                ),
            );
        }
        Ok(open)
    }

    /// The request that asks about a token.
    pub fn request(&self, token: &str) -> (request: Request)
        ensures
            request@ == self@.post(token@),
    {
        let mut body = "token=".as_bytes_vec();
        let mut encoded = percent::encode(token);
        body.append(&mut encoded);
        let mut hint = "&token_type_hint=access_token".as_bytes_vec();
        body.append(&mut hint);
        let mut headers: Vec<(String, String)> = Vec::new();
        headers.push(("Host".to_owned(), self.endpoint.authority.clone()));
        headers.push(("Accept".to_owned(), "application/json".to_owned()));
        headers.push(("Content-Type".to_owned(), "application/x-www-form-urlencoded".to_owned()));
        if let Some((id, secret)) = &self.client {
            let credential = base64::encode(
                enclosed(id.as_str(), ":", secret.as_str()).as_str().as_bytes(),
            );
            headers.push(
                ("Authorization".to_owned(), "Basic ".to_owned().concat(credential.as_str())),
            );
        }
        assert(fields(headers@) =~= self@.post(token@).headers);
        assert(body@ =~= Configured::form(token@));
        Request { method: "POST".to_owned(), path: self.endpoint.path.clone(), headers, body }
    }

    /// What is to be done next to ask about a token, given what happened.
    /// A call begins with [`Event::Begun`] and goes on until
    /// [`Step::Finished`].
    pub fn step(&self, token: &str, event: Event) -> (step: Step)
        ensures
            step@ == self@.due(token@, event@),
    {
        match event {
            Event::Begun => if self.online || self.endpoint.loopback {
                Step::Resolve
            } else {
                Step::Finished(Err(self.offline_error()))
            },
            Event::Resolved(resolved) => match self.reachable(resolved) {
                Ok(addresses) => Step::Exchange {
                    addresses,
                    timeout: self.timeout,
                    request: self.request(token),
                },
                Err(refusal) => Step::Finished(Err(refusal)),
            },
            Event::Answered(Ok(answer)) => Step::Finished(judged(&answer)),
            Event::Answered(Err(failure)) => {
                let mut message = enclosed(
                    "the introspection endpoint ",
                    self.endpoint.authority.as_str(),
                    " did not answer: ",
                );
                message.append(failure.as_str());
                Step::Finished(Err(AuthenticateError::new(message)))
            },
        }
    }
}

/// What a reader of a form takes for the value of its first field: what
/// stands between the first `=` and the first `&`.
pub open spec fn first_value(form: Seq<u8>) -> Seq<u8> {
    form.subrange(form.index_of_first(0x3d)->0 + 1, form.index_of_first(0x26)->0)
}

/// An offline node connects to no address but its own host's, and only where
/// the endpoint is on it.
pub proof fn offline_stays_on_this_host(http: Configured, token: Seq<char>, event: Happened)
    requires
        !http.online,
    ensures
        http.due(token, event) matches Due::Exchange { addresses, .. } ==> http.endpoint.loopback
            && addresses.len() > 0 && forall|i: int|
            0 <= i < addresses.len() ==> (#[trigger] addresses[i]).loopback(),
{
    if let Happened::Resolved(Ok(all)) = event {
        let admits = |address: SocketAddress| http.admits(address);
        broadcast use vstd::seq_lib::group_filter_ensures;
        assert forall|i: int| 0 <= i < all.filter(admits).len() implies (#[trigger] all.filter(
            admits,
        )[i]).loopback() by {
            assert(admits(all.filter(admits)[i]));
        }
    }
}

/// An offline node does nothing at all for an endpoint beyond itself, and
/// either of the two changes that the refusal names would have it go on.
pub proof fn offline_refusal_names_its_remedies(http: Configured, token: Seq<char>)
    requires
        !http.online,
        !http.endpoint.loopback,
    ensures
        http.due(token, Happened::Begun) == Due::Finished(Err(http.offline())),
        forall|resolved: Result<Seq<SocketAddress>, Seq<char>>| #[trigger]
            http.due(token, Happened::Resolved(resolved)) == Due::Finished(Err(http.offline())),
        (Configured { online: true, ..http }).due(token, Happened::Begun) == Due::Resolve,
        (Configured { endpoint: Place { loopback: true, ..http.endpoint }, ..http }).due(
            token,
            Happened::Begun,
        ) == Due::Resolve,
{
}

/// An online node may connect to every address the name was resolved to.
pub proof fn online_reaches_every_address(http: Configured, resolved: Seq<SocketAddress>)
    requires
        http.online,
        resolved.len() > 0,
    ensures
        http.reach(Ok(resolved)) == Ok::<_, Seq<char>>(resolved),
{
    let admits = |address: SocketAddress| http.admits(address);
    lemma_filter_keeps_all(resolved, admits);
}

proof fn lemma_filter_keeps_all(
    addresses: Seq<SocketAddress>,
    admits: spec_fn(SocketAddress) -> bool,
)
    requires
        forall|address: SocketAddress| #[trigger] admits(address),
    ensures
        addresses.filter(admits) == addresses,
    decreases addresses.len(),
{
    reveal(Seq::filter);
    if addresses.len() > 0 {
        lemma_filter_keeps_all(addresses.drop_last(), admits);
        assert(addresses.drop_last().push(addresses.last()) =~= addresses);
    }
}

/// A call is over after three steps at the latest, and one exchange is the
/// most that it makes: the name is resolved before the exchange, and what
/// comes of the exchange ends the call.
pub proof fn a_call_makes_one_exchange(
    http: Configured,
    token: Seq<char>,
    resolved: Result<Seq<SocketAddress>, Seq<char>>,
    answered: Result<Received, Seq<char>>,
)
    ensures
        http.due(token, Happened::Begun) is Resolve || http.due(token, Happened::Begun) is Finished,
        http.due(token, Happened::Resolved(resolved)) is Exchange || http.due(
            token,
            Happened::Resolved(resolved),
        ) is Finished,
        http.due(token, Happened::Answered(answered)) is Finished,
{
}

/// The steps of a call come to its outcome: whichever of them finishes it
/// finishes it with that, and the last one does if no other did.
pub proof fn a_call_comes_to_its_outcome(
    http: Configured,
    token: Seq<char>,
    resolved: Result<Seq<SocketAddress>, Seq<char>>,
    answered: Result<Received, Seq<char>>,
)
    ensures
        http.due(token, Happened::Begun) matches Due::Finished(outcome) ==> outcome == http.outcome(
            resolved,
            answered,
        ),
        http.due(token, Happened::Resolved(resolved)) matches Due::Finished(outcome) ==> outcome
            == http.outcome(resolved, answered),
        http.due(token, Happened::Resolved(resolved)) is Exchange ==> http.due(
            token,
            Happened::Answered(answered),
        ) == Due::Finished(http.outcome(resolved, answered)),
{
}

/// A call gives a body back only where the endpoint answered `200` with one,
/// and then that one.
pub proof fn only_a_200_is_an_answer(
    http: Configured,
    token: Seq<char>,
    event: Happened,
    body: Seq<char>,
)
    ensures
        http.due(token, event) == Due::Finished(Ok(body)) <==> (event matches Happened::Answered(
            Ok(answer),
        ) && answer.status == 200 && answer.text == body && body.len() > 0),
{
}

/// What is shown in a log is the same whatever the client secret is.
pub proof fn the_secret_is_not_shown(
    http: Configured,
    id: Seq<char>,
    secret: Seq<char>,
    other: Seq<char>,
)
    ensures
        (Configured { client: Some((id, secret)), ..http }).visible() == (Configured {
            client: Some((id, other)),
            ..http
        }).visible(),
{
}

/// A token's punctuation survives the post: what a reader of the form takes
/// for its first value decodes to the token, whatever is in it.
pub proof fn the_token_reads_back(http: Configured, token: Seq<char>)
    ensures
        decode_utf8(percent::decoded(first_value(http.post(token).body))) == token,
{
    let value = percent::encoded(encode_utf8(token));
    let form = http.post(token).body;
    reveal_strlit("token=");
    reveal_strlit("&token_type_hint=access_token");
    is_ascii_chars_encode_utf8("token="@);
    is_ascii_chars_encode_utf8("&token_type_hint=access_token"@);
    let end = 6 + value.len();
    assert forall|i: int| 0 <= i < value.len() implies value[i] != 0x26 && value[i] != 0x3d by {
        percent::encoding_leaves_no_punctuation(encode_utf8(token), i);
    }
    assert(form[5] == 0x3d);
    assert(form[end as int] == 0x26);
    form.index_of_first_ensures(0x3d);
    form.index_of_first_ensures(0x26);
    assert(form.index_of_first(0x3d) == Some(5int));
    assert(form.index_of_first(0x26) == Some(end as int));
    assert(first_value(form) =~= value);
    percent::decoding_undoes_encoding(encode_utf8(token));
    encode_utf8_decode_utf8(token);
}

/// The server can read the client's id and secret back out of the request.
pub proof fn the_credential_reads_back(id: Seq<char>, secret: Seq<char>)
    ensures
        decode_utf8(base64::decoded(Configured::credential(id, secret))) == id + ":"@ + secret,
{
    base64::decoding_undoes_encoding(encode_utf8(id + ":"@ + secret));
    encode_utf8_decode_utf8(id + ":"@ + secret);
}

} // verus!
