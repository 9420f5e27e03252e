//! The oauth2 authenticator: which claims it takes up, and what the
//! authorization server's answer must say.
use crate::answer::{
    moment,
    named,
    names,
    said,
    subject_said,
    text_of,
    Answer,
    Moment,
    Said,
    Stamp,
    Subject,
    SubjectSaid,
};
use crate::claim::{ruled, told, AuthenticateError, Claim, Mechanism, Presented, Verified};
use crate::clock::{now, Clock, FnClock, SystemClock};
use crate::introspection::{replies, Introspection};
use crate::json::{json_read, Json};
use crate::mechanism;
use crate::text::{
    characters,
    contents,
    decimal,
    decimal_text,
    enclosed,
    pieces,
    pieces_hold_no_separator,
    same_text,
    split,
};
use vstd::prelude::*;
use vstd::string::StringExecFns;

verus! {

/// The proof an oauth2 claim carries its token under.
pub const TOKEN: &'static str = "oauth2.token";

/// The proof name of a token that was read off an `Authorization` header.
pub const BEARER_TOKEN: &'static str = "bearer.token";

/// A time moved by the leeway, and held at the least `i64` where that would
/// take it below.
pub open spec fn moved(seconds: int, leeway: int) -> int {
    if seconds + leeway < i64::MIN {
        i64::MIN as int
    } else {
        seconds + leeway
    }
}

fn moved_by(seconds: i128, leeway: i64) -> (sum: i128)
    requires
        i64::MIN <= seconds <= u64::MAX,
    ensures
        sum == moved(seconds as int, leeway as int),
{
    let sum: i128 = seconds + leeway as i128;
    if sum < i64::MIN as i128 {
        i64::MIN as i128
    } else {
        sum
    }
}

/// What is wrong with an answer.
pub enum Refusal {
    /// The server says that the token is not active.
    Inactive,
    /// The server does not say whether the token is active.
    NoActive,
    /// The server gives an `exp` that cannot be read.
    UnreadableExpiry,
    /// The token has expired.
    Expired { expiry: int, now: i64 },
    /// The server gives an `nbf` that cannot be read.
    UnreadableStart,
    /// The token is not valid yet.
    NotYet { not_before: int, now: i64 },
    /// The token is not by the expected issuer.
    Issuer(Seq<char>),
    /// The token is not for the expected audience.
    Audience(Seq<char>),
    /// The token lacks a required scope.
    Scope(Seq<char>),
    /// The server gives a `sub` that is no text.
    UnreadableSubject,
    /// The token is about someone else.
    OtherSubject,
    /// The server does not say whom the token is about.
    NoSubject,
}

impl Refusal {
    /// The reason as it is given.
    pub open spec fn text(self) -> Seq<char> {
        match self {
            Refusal::Inactive =>
                "the authorization server says the token is not active: expired, revoked, or never its own"@,
            Refusal::NoActive => "the introspection response has no boolean `active`"@,
            Refusal::UnreadableExpiry =>
                "the introspection response has an `exp` that is not an integer in range"@,
            Refusal::Expired { expiry, now } => "the token expired at "@ + decimal(expiry)
                + " and it is "@ + decimal(now as int),
            Refusal::UnreadableStart =>
                "the introspection response has an `nbf` that is not an integer in range"@,
            Refusal::NotYet { not_before, now } => "the token is not valid before "@ + decimal(
                not_before,
            ) + " and it is "@ + decimal(now as int),
            Refusal::Issuer(issuer) => "the token's issuer is not '"@ + issuer + "'"@,
            Refusal::Audience(audience) => "the token's audience does not name '"@ + audience
                + "'"@,
            Refusal::Scope(scope) => "the token does not carry the scope '"@ + scope
                + "' this node requires"@,
            Refusal::UnreadableSubject =>
                "the introspection response has a `sub` that is not a string"@,
            Refusal::OtherSubject => "the token's subject is not the claimed value"@,
            Refusal::NoSubject => "the introspection response names no `sub` and no `client_id`"@,
        }
    }
}

/// The scopes that a `scope` grants: what stands between its spaces.
pub open spec fn granted(scope: Option<Seq<char>>) -> Seq<Seq<char>> {
    match scope {
        Some(scope) => pieces(scope, ' '),
        None => pieces(seq![], ' '),
    }
}

/// The first of the required scopes that is not among the granted ones.
pub open spec fn first_missing(required: Seq<Seq<char>>, granted: Seq<Seq<char>>) -> Option<
    Seq<char>,
>
    decreases required.len(),
{
    if required.len() == 0 {
        None
    } else if !granted.contains(required.first()) {
        Some(required.first())
    } else {
        first_missing(required.drop_first(), granted)
    }
}

/// Whom a token is about: its `sub`, or its `client_id` where it has no
/// `sub`.
pub open spec fn about(said: Said) -> Option<Seq<char>> {
    match said.sub {
        SubjectSaid::Named(sub) => Some(sub),
        SubjectSaid::Absent => said.client_id,
        SubjectSaid::Unreadable => None,
    }
}

/// What an answer must say.
pub struct Expected {
    pub issuer: Option<Seq<char>>,
    pub audience: Option<Seq<char>>,
    pub scopes: Seq<Seq<char>>,
    pub leeway: i64,
}

impl Expected {
    /// Whether what an answer says has expired.
    pub open spec fn expired(self, said: Said, now: i64) -> bool {
        said.exp matches Moment::At(expiry) && now > moved(expiry, self.leeway as int)
    }

    /// Whether what an answer says is not valid yet.
    pub open spec fn early(self, said: Said, now: i64) -> bool {
        said.nbf matches Moment::At(not_before) && moved(now as int, self.leeway as int)
            < not_before
    }

    /// Whether the `exp` of an answer lets it pass: it has none, or one that
    /// can be read and has not passed.
    pub open spec fn unexpired(self, said: Said, now: i64) -> bool {
        !(said.exp is Unreadable) && !self.expired(said, now)
    }

    /// Whether the `nbf` of an answer lets it pass: it has none, or one that
    /// can be read and has come.
    pub open spec fn begun(self, said: Said, now: i64) -> bool {
        !(said.nbf is Unreadable) && !self.early(said, now)
    }

    /// What is wrong with an answer about a claimed subject, if anything is.
    pub open spec fn ruling(self, said: Said, subject: Seq<char>, now: i64) -> Result<(), Refusal> {
        if said.active is None {
            Err(Refusal::NoActive)
        } else if !said.active->0 {
            Err(Refusal::Inactive)
        } else if said.exp is Unreadable {
            Err(Refusal::UnreadableExpiry)
        } else if self.expired(said, now) {
            Err(Refusal::Expired { expiry: said.exp->At_0, now })
        } else if said.nbf is Unreadable {
            Err(Refusal::UnreadableStart)
        } else if self.early(said, now) {
            Err(Refusal::NotYet { not_before: said.nbf->At_0, now })
        } else if self.issuer is Some && said.iss != self.issuer {
            Err(Refusal::Issuer(self.issuer->0))
        } else if self.audience is Some && !named(said.aud, self.audience->0) {
            Err(Refusal::Audience(self.audience->0))
        } else if first_missing(self.scopes, granted(said.scope)) is Some {
            Err(Refusal::Scope(first_missing(self.scopes, granted(said.scope))->0))
        } else if said.sub is Unreadable {
            Err(Refusal::UnreadableSubject)
        } else {
            match about(said) {
                Some(named) if named == subject => Ok(()),
                Some(_) => Err(Refusal::OtherSubject),
                None => Err(Refusal::NoSubject),
            }
        }
    }

    /// Whether an answer about a claimed subject is all that is asked of it.
    pub open spec fn all_holds(self, said: Said, subject: Seq<char>, now: i64) -> bool {
        &&& said.active == Some(true)
        &&& self.unexpired(said, now)
        &&& self.begun(said, now)
        &&& self.issuer is Some ==> said.iss == self.issuer
        &&& self.audience is Some ==> named(said.aud, self.audience->0)
        &&& forall|i: int|
            0 <= i < self.scopes.len() ==> granted(said.scope).contains(
                #[trigger] self.scopes[i],
            )
        &&& about(said) == Some(subject)
    }

    /// The same with the reason as it is given.
    pub open spec fn told_ruling(self, said: Said, subject: Seq<char>, now: i64) -> Result<
        (),
        Seq<char>,
    > {
        match self.ruling(said, subject, now) {
            Ok(()) => Ok(()),
            Err(refusal) => Err(refusal.text()),
        }
    }

    /// What comes of a claim, given what the server replied.
    pub open spec fn conclusion(
        self,
        reply: Result<Seq<char>, Seq<char>>,
        subject: Seq<char>,
        now: i64,
    ) -> Result<Verified, Seq<char>> {
        match reply {
            Err(refusal) => Err(refusal),
            Ok(body) => match json_read(body) {
                Err(failure) => Err("the introspection response is not JSON: "@ + failure),
                Ok(json) => match self.told_ruling(said(json), subject, now) {
                    Ok(()) => Ok(Verified::Proven),
                    Err(refusal) => Err(refusal),
                },
            },
        }
    }
}

/// Whether a reply is an answer, so that it takes the time to judge it.
pub open spec fn is_answer(reply: Result<Seq<char>, Seq<char>>) -> bool {
    reply matches Ok(body) && json_read(body) is Ok
}

/// The token of a claim, or why the claim is refused without asking.
pub open spec fn token_of(claim: Claim) -> Result<Seq<char>, Seq<char>> {
    if claim.mechanism != "oauth2"@ {
        Err("'"@ + claim.mechanism + "' was presented and this authenticator verifies oauth2"@)
    } else if claim.proofs.dom().contains(TOKEN@) {
        Ok(claim.proofs[TOKEN@])
    } else if claim.proofs.dom().contains(BEARER_TOKEN@) {
        Ok(claim.proofs[BEARER_TOKEN@])
    } else {
        Err("no "@ + TOKEN@ + " proof and no "@ + BEARER_TOKEN@ + " proof was presented"@)
    }
}

/// A server that can be asked, whichever it is.
trait Seam: Send + Sync {
    spec fn answers(&self, token: Seq<char>, reply: Result<Seq<char>, Seq<char>>) -> bool;

    fn ask(&self, token: &str) -> (reply: Result<String, AuthenticateError>)
        ensures
            self.answers(token@, told(reply)),
    ;
}

/// A server that was given.
struct Asked<S>(S);

impl<S: Introspection> Seam for Asked<S> {
    closed spec fn answers(&self, token: Seq<char>, reply: Result<Seq<char>, Seq<char>>) -> bool {
        replies(self.0, token, reply)
    }

    fn ask(&self, token: &str) -> (reply: Result<String, AuthenticateError>) {
        let reply = self.0.introspect(token);
        assert(call_ensures(S::introspect, (&self.0, token), reply));
        reply
    }
}

/// The oauth2 authenticator: where to ask, and what the answer must say.
pub struct Verifier {
    server: Box<dyn Seam>,
    issuer: Option<String>,
    audience: Option<String>,
    scopes: Vec<String>,
    leeway: i64,
    clock: Box<dyn Clock>,
}

/// The texts of a list of them.
pub open spec fn texts(list: Seq<String>) -> Seq<Seq<char>> {
    list.map_values(|text: String| text@)
}

impl View for Verifier {
    type V = Expected;

    closed spec fn view(&self) -> Expected {
        Expected {
            issuer: match self.issuer {
                Some(issuer) => Some(issuer@),
                None => None,
            },
            audience: match self.audience {
                Some(audience) => Some(audience@),
                None => None,
            },
            scopes: texts(self.scopes@),
            leeway: self.leeway,
        }
    }
}

impl Verifier {
    #[verifier::type_invariant]
    spec fn well_formed(self) -> bool {
        self.clock.readable()
    }

    /// Whether the server that is asked can reply this to this token.
    pub closed spec fn answers(self, token: Seq<char>, reply: Result<Seq<char>, Seq<char>>) -> bool {
        self.server.answers(token, reply)
    }

    /// Whether the clock can show this time.
    pub closed spec fn shows(self, seconds: i64) -> bool {
        self.clock.shows(seconds)
    }

    /// Whether another verifier asks the same server.
    pub open spec fn asks_as(self, other: Verifier) -> bool {
        forall|token: Seq<char>, reply: Result<Seq<char>, Seq<char>>| #[trigger]
            self.answers(token, reply) == other.answers(token, reply)
    }

    /// Whether another verifier goes by the same clock.
    pub open spec fn goes_by_clock_of(self, other: Verifier) -> bool {
        forall|seconds: i64| #[trigger] self.shows(seconds) == other.shows(seconds)
    }

    /// Asks `server`, expecting no issuer, audience or scope, with sixty
    /// seconds of leeway.
    #[must_use]
    pub fn new(server: impl Introspection + 'static) -> (made: Self)
        ensures
            made@ == (Expected { issuer: None, audience: None, scopes: seq![], leeway: 60 }),
            forall|token: Seq<char>, reply: Result<Seq<char>, Seq<char>>| #[trigger]
                made.answers(token, reply) == replies(server, token, reply),
            forall|seconds: i64| #[trigger] made.shows(seconds) == call_ensures(now, (), seconds),
    {
        let made = Verifier {
            server: Box::new(Asked(server)),
            issuer: None,
            audience: None,
            scopes: Vec::new(),
            leeway: 60,
            clock: Box::new(SystemClock),
        };
        assert(made@.scopes =~= seq![]);
        made
    }

    /// Refuse a token whose `iss` is not this.
    #[must_use]
    pub fn expecting_issuer(self, issuer: &str) -> (made: Self)
        ensures
            made@ == (Expected { issuer: Some(issuer@), ..self@ }),
            made.asks_as(self),
            made.goes_by_clock_of(self),
    {
        proof {
            use_type_invariant(&self);
        }
        Verifier { issuer: Some(issuer.to_owned()), ..self }
    }

    /// Refuse a token whose `aud` does not name this.
    #[must_use]
    pub fn expecting_audience(self, audience: &str) -> (made: Self)
        ensures
            made@ == (Expected { audience: Some(audience@), ..self@ }),
            made.asks_as(self),
            made.goes_by_clock_of(self),
    {
        proof {
            use_type_invariant(&self);
        }
        Verifier { audience: Some(audience.to_owned()), ..self }
    }

    /// Refuse a token whose `scope` lacks this. May be said more than once.
    #[must_use]
    pub fn requiring_scope(self, scope: &str) -> (made: Self)
        ensures
            made@ == (Expected { scopes: self@.scopes.push(scope@), ..self@ }),
            made.asks_as(self),
            made.goes_by_clock_of(self),
    {
        proof {
            use_type_invariant(&self);
        }
        let ghost before = self@;
        let mut scopes = self.scopes;
        scopes.push(scope.to_owned());
        assert(texts(scopes@) =~= before.scopes.push(scope@));
        Verifier { scopes, ..self }
    }

    /// How far a clock may be off before `exp` and `nbf` bite.
    #[must_use]
    pub fn with_leeway(self, seconds: i64) -> (made: Self)
        ensures
            made@ == (Expected { leeway: seconds, ..self@ }),
            made.asks_as(self),
            made.goes_by_clock_of(self),
    {
        proof {
            use_type_invariant(&self);
        }
        Verifier { leeway: seconds, ..self }
    }

    /// Where the time comes from.
    #[must_use]
    pub fn with_clock<F: Fn() -> i64 + Send + Sync + 'static>(self, clock: F) -> (made: Self)
        requires
            clock.requires(()),
        ensures
            made@ == self@,
            made.asks_as(self),
            forall|seconds: i64| #[trigger]
                made.shows(seconds) == clock.ensures((), seconds),
    {
        Verifier { clock: Box::new(FnClock(clock)), ..self }
    }

    fn missing_scope(&self, scope: &Option<String>) -> (missing: Option<&str>)
        ensures
            match missing {
                Some(missing) => first_missing(self@.scopes, granted(text_of(*scope))) == Some(
                    missing@,
                ),
                None => first_missing(self@.scopes, granted(text_of(*scope))) is None,
            },
    {
        let list = match scope {
            Some(scope) => split(scope.as_str(), ' '),
            None => split("", ' '),
        };
        proof {
            reveal_strlit("");
            assert(""@ =~= seq![]);
        }
        let ghost given = granted(text_of(*scope));
        let mut i: usize = 0;
        assert(self@.scopes.skip(0) =~= self@.scopes);
        while i < self.scopes.len()
            invariant
                i <= self.scopes.len(),
                contents(list@) == given,
                given == granted(text_of(*scope)),
                first_missing(self@.scopes, given) == first_missing(
                    self@.scopes.skip(i as int),
                    given,
                ),
            decreases self.scopes.len() - i,
        {
            let required = characters(self.scopes[i].as_str());
            let ghost rest = self@.scopes.skip(i as int);
            assert(rest.first() == required@);
            assert(rest.drop_first() =~= self@.scopes.skip(i + 1));
            if !holds(&list, &required) {
                return Some(self.scopes[i].as_str());
            }
            i = i + 1;
        }
        None
    }

    /// Whether an answer, at this time, is what it must be to prove a claim
    /// to be `subject`.
    pub fn check_at(&self, answer: &Answer, subject: &str, now: i64) -> (outcome: Result<
        (),
        AuthenticateError,
    >)
        ensures
            ruled(outcome) == self@.told_ruling(answer@, subject@, now),
    {
        match answer.active {
            Some(true) => {},
            Some(false) => {
                return Err(
                    AuthenticateError::new(
                        "the authorization server says the token is not active: expired, revoked, or never its own".to_owned(),
                    ),
                );
            },
            None => {
                return Err(
                    AuthenticateError::new(
                        "the introspection response has no boolean `active`".to_owned(),
                    ),
                );
            },
        }
        if let Stamp::Unreadable = answer.exp {
            return Err(
                AuthenticateError::new(
                    "the introspection response has an `exp` that is not an integer in range".to_owned(),
                ),
            );
        }
        if let Some(expiry) = answer.exp.time() {
            if now as i128 > moved_by(expiry, self.leeway) {
                let mut message = enclosed(
                    "the token expired at ",
                    decimal_text(expiry).as_str(),
                    " and it is ",
                );
                message.append(decimal_text(now as i128).as_str());
                return Err(AuthenticateError::new(message));
            }
        }
        if let Stamp::Unreadable = answer.nbf {
            return Err(
                AuthenticateError::new(
                    "the introspection response has an `nbf` that is not an integer in range".to_owned(),
                ),
            );
        }
        if let Some(not_before) = answer.nbf.time() {
            if moved_by(now as i128, self.leeway) < not_before {
                let mut message = enclosed(
                    "the token is not valid before ",
                    decimal_text(not_before).as_str(),
                    " and it is ",
                );
                message.append(decimal_text(now as i128).as_str());
                return Err(AuthenticateError::new(message));
            }
        }
        if let Some(issuer) = &self.issuer {
            let same = match &answer.iss {
                Some(iss) => same_text(iss.as_str(), issuer.as_str()),
                None => false,
            };
            if !same {
                return Err(
                    AuthenticateError::new(
                        enclosed("the token's issuer is not '", issuer.as_str(), "'"),
                    ),
                );
            }
        }
        if let Some(audience) = &self.audience {
            if !names(&answer.aud, audience.as_str()) {
                return Err(
                    AuthenticateError::new(
                        enclosed("the token's audience does not name '", audience.as_str(), "'"),
                    ),
                );
            }
        }
        if let Some(missing) = self.missing_scope(&answer.scope) {
            return Err(
                AuthenticateError::new(
                    enclosed(
                        "the token does not carry the scope '",
                        missing,
                        "' this node requires",
                    ),
                ),
            );
        }
        let about = match &answer.sub {
            Subject::Named(sub) => Some(sub),
            Subject::Absent => match &answer.client_id {
                Some(client_id) => Some(client_id),
                None => None,
            },
            Subject::Unreadable => {
                return Err(
                    AuthenticateError::new(
                        "the introspection response has a `sub` that is not a string".to_owned(),
                    ),
                );
            },
        };
        match about {
            Some(named) => if same_text(named.as_str(), subject) {
                Ok(())
            } else {
                Err(
                    AuthenticateError::new(
                        "the token's subject is not the claimed value".to_owned(),
                    ),
                )
            },
            None => Err(
                AuthenticateError::new(
                    "the introspection response names no `sub` and no `client_id`".to_owned(),
                ),
            ),
        }
    }

    /// Whether an answer, at the time the clock shows, is what it must be to
    /// prove a claim to be `subject`.
    pub fn check(&self, answer: &Answer, subject: &str) -> (outcome: Result<(), AuthenticateError>)
        ensures
            exists|now: i64| #[trigger]
                self.shows(now) && ruled(outcome) == self@.told_ruling(answer@, subject@, now),
    {
        proof {
            use_type_invariant(self);
        }
        let now: i64 = self.clock.read();
        assert(self.shows(now));
        self.check_at(answer, subject, now)
    }

    /// What comes of a claim to be `subject`, given what the server replied.
    pub fn conclude(&self, reply: Result<String, AuthenticateError>, subject: &str) -> (outcome:
        Result<Verified, AuthenticateError>)
        ensures
            exists|now: i64| #[trigger]
                self@.conclusion(told(reply), subject@, now) == ruled(outcome) && (is_answer(
                    told(reply),
                ) ==> self.shows(now)),
    {
        let body = match reply {
            Ok(body) => body,
            Err(refusal) => {
                assert(self@.conclusion(told(reply), subject@, 0) == Err::<Verified, _>(
                    refusal.message@,
                ));
                return Err(refusal);
            },
        };
        match Answer::read(body.as_str()) {
            Ok(answer) => {
                let checked = self.check(&answer, subject);
                let ghost now = choose|now: i64| #[trigger]
                    self.shows(now) && ruled(checked) == self@.told_ruling(answer@, subject@, now);
                let outcome = match checked {
                    Ok(()) => Ok(Verified::Proven),
                    Err(refusal) => Err(refusal),
                };
                assert(self@.conclusion(told(reply), subject@, now) == ruled(outcome));
                outcome
            },
            Err(failure) => {
                let message = "the introspection response is not JSON: ".to_owned().concat(
                    failure.as_str(),
                );
                assert(self@.conclusion(told(reply), subject@, 0) == Err::<Verified, _>(message@));
                Err(AuthenticateError::new(message))
            },
        }
    }

    /// The mechanism that this verifies.
    pub fn mechanism(&self) -> (mechanism: Mechanism)
        ensures
            mechanism@ == "oauth2"@,
    {
        mechanism::oauth2()
    }

    /// Verifies a claim, by asking the authorization server about the token
    /// that was presented with it.
    pub fn verify(&self, presented: &Presented) -> (outcome: Result<Verified, AuthenticateError>)
        ensures
            match token_of(presented@) {
                Err(refusal) => ruled(outcome) == Err::<Verified, _>(refusal),
                Ok(token) => exists|reply: Result<Seq<char>, Seq<char>>, now: i64|
                    self.answers(token, reply) && (is_answer(reply) ==> self.shows(now))
                        && ruled(outcome) == #[trigger] self@.conclusion(
                        reply,
                        presented@.value,
                        now,
                    ),
            },
    {
        let name = presented.mechanism.name();
        if !same_text(name, self.mechanism().name()) {
            return Err(
                AuthenticateError::new(
                    enclosed("'", name, "' was presented and this authenticator verifies oauth2"),
                ),
            );
        }
        let token = match presented.proof_named(TOKEN) {
            Some(token) => token,
            None => match presented.proof_named(BEARER_TOKEN) {
                Some(token) => token,
                None => {
                    let mut message = enclosed("no ", TOKEN, " proof and no ");
                    message.append(BEARER_TOKEN);
                    message.append(" proof was presented");
                    return Err(AuthenticateError::new(message));
                },
            },
        };
        let reply = self.server.ask(token);
        let outcome = self.conclude(reply, presented.value.as_str());
        assert(token_of(presented@) == Ok::<_, Seq<char>>(token@));
        assert(self.answers(token@, told(reply)));
        let ghost now = choose|now: i64| #[trigger]
            self@.conclusion(told(reply), presented@.value, now) == ruled(outcome) && (is_answer(
                told(reply),
            ) ==> self.shows(now));
        assert(ruled(outcome) == self@.conclusion(told(reply), presented@.value, now));
        outcome
    }
}

fn holds(list: &Vec<Vec<char>>, wanted: &Vec<char>) -> (yes: bool)
    ensures
        yes == contents(list@).contains(wanted@),
{
    let mut i: usize = 0;
    while i < list.len()
        invariant
            i <= list.len(),
            forall|j: int| 0 <= j < i ==> #[trigger] contents(list@)[j] != wanted@,
        decreases list.len() - i,
    {
        if same_characters(&list[i], wanted) {
            assert(contents(list@)[i as int] == wanted@);
            return true;
        }
        i = i + 1;
    }
    false
}

fn same_characters(left: &Vec<char>, right: &Vec<char>) -> (same: bool)
    ensures
        same == (left@ == right@),
{
    if left.len() != right.len() {
        return false;
    }
    let mut i: usize = 0;
    while i < left.len()
        invariant
            i <= left.len(),
            left.len() == right.len(),
            forall|j: int| 0 <= j < i ==> left@[j] == right@[j],
        decreases left.len() - i,
    {
        if left[i] != right[i] {
            return false;
        }
        i = i + 1;
    }
    assert(left@ =~= right@);
    true
}

pub(crate) proof fn lemma_first_missing(required: Seq<Seq<char>>, granted: Seq<Seq<char>>)
    ensures
        first_missing(required, granted) is None <==> forall|i: int|
            0 <= i < required.len() ==> granted.contains(#[trigger] required[i]),
    decreases required.len(),
{
    if required.len() > 0 {
        lemma_first_missing(required.drop_first(), granted);
        if first_missing(required, granted) is None {
            assert forall|i: int| 0 <= i < required.len() implies granted.contains(
                #[trigger] required[i],
            ) by {
                if i > 0 {
                    assert(required.drop_first()[i - 1] == required[i]);
                }
            }
        } else if granted.contains(required.first()) {
            let rest = required.drop_first();
            let i = choose|i: int| 0 <= i < rest.len() && !granted.contains(#[trigger] rest[i]);
            assert(!granted.contains(required[i + 1]));
        } else {
            assert(!granted.contains(required[0]));
        }
    }
}

/// An answer proves a claim exactly where everything that is asked of it
/// holds: it is active, its `exp` and `nbf` let it pass, it is by the issuer
/// and for the audience that are expected if any are, carries every required
/// scope, and is about the claimed subject.
pub proof fn proven_where_everything_holds(
    expected: Expected,
    said: Said,
    subject: Seq<char>,
    now: i64,
)
    ensures
        expected.ruling(said, subject, now) is Ok <==> expected.all_holds(said, subject, now),
{
    lemma_first_missing(expected.scopes, granted(said.scope));
}

/// `exp` has not passed and `nbf` has come, give or take the leeway, and
/// neither is there without being readable. The bounds are those of whole
/// numbers, except where a sum falls below the least `i64` and is compared
/// with it.
pub proof fn the_time_is_between_the_bounds(expected: Expected, said: Said, now: i64)
    requires
        said.exp matches Moment::At(expiry) ==> now > i64::MIN || expiry + expected.leeway
            >= i64::MIN,
        said.nbf matches Moment::At(not_before) ==> not_before > i64::MIN || now + expected.leeway
            >= i64::MIN,
    ensures
        expected.unexpired(said, now) <==> match said.exp {
            Moment::Absent => true,
            Moment::At(expiry) => now <= expiry + expected.leeway,
            Moment::Unreadable => false,
        },
        expected.begun(said, now) <==> match said.nbf {
            Moment::Absent => true,
            Moment::At(not_before) => not_before - expected.leeway <= now,
            Moment::Unreadable => false,
        },
{
}

/// An `exp` or `nbf` that is there and is neither an integer nor `null` does
/// not pass for none: the answer is refused.
pub proof fn an_unreadable_time_is_refused(
    expected: Expected,
    json: Json,
    name: Seq<char>,
    subject: Seq<char>,
    now: i64,
)
    requires
        name == "exp"@ || name == "nbf"@,
        json.member(name) matches Some(inner) && inner.integer() is None && !(inner is Null),
    ensures
        expected.ruling(said(json), subject, now) is Err,
{
}

/// A `client_id` stands in for a subject only where there is no `sub`: one
/// that is there and is neither a text nor `null` refuses the answer.
pub proof fn an_unreadable_subject_is_refused(
    expected: Expected,
    json: Json,
    subject: Seq<char>,
    now: i64,
)
    requires
        json.member("sub"@) matches Some(inner) && inner.text() is None && !(inner is Null),
    ensures
        about(said(json)) is None,
        expected.ruling(said(json), subject, now) is Err,
{
}

/// An `exp`, `nbf` or `sub` that is `null` says what one that is not there
/// says.
pub proof fn null_is_as_good_as_none(json: Json, name: Seq<char>)
    requires
        name == "exp"@ || name == "nbf"@ || name == "sub"@,
        json.member(name) == Some(Json::Null),
    ensures
        name == "exp"@ ==> said(json).exp == moment(None),
        name == "nbf"@ ==> said(json).nbf == moment(None),
        name == "sub"@ ==> said(json).sub == subject_said(None) && about(said(json)) == said(
            json,
        ).client_id,
{
}

/// More leeway refuses no token that less of it lets pass.
pub proof fn leeway_only_widens(
    expected: Expected,
    wider: i64,
    said: Said,
    subject: Seq<char>,
    now: i64,
)
    requires
        expected.leeway <= wider,
        expected.ruling(said, subject, now) is Ok,
    ensures
        (Expected { leeway: wider, ..expected }).ruling(said, subject, now) is Ok,
{
}

/// Requiring one more scope lets pass exactly the tokens that passed before
/// and carry it; in which order scopes are required does not matter.
pub proof fn a_scope_only_narrows(
    expected: Expected,
    scope: Seq<char>,
    said: Said,
    subject: Seq<char>,
    now: i64,
)
    ensures
        (Expected { scopes: expected.scopes.push(scope), ..expected }).ruling(said, subject, now)
            is Ok <==> expected.ruling(said, subject, now) is Ok && granted(said.scope).contains(
            scope,
        ),
{
    let more = expected.scopes.push(scope);
    lemma_first_missing(expected.scopes, granted(said.scope));
    lemma_first_missing(more, granted(said.scope));
    assert(more[expected.scopes.len() as int] == scope);
    assert(forall|i: int| 0 <= i < expected.scopes.len() ==> more[i] == #[trigger] expected.scopes[i]);
}

/// Expecting an issuer or an audience where none was expected lets pass no
/// token that did not pass before.
pub proof fn an_expectation_only_narrows(
    expected: Expected,
    issuer: Seq<char>,
    audience: Seq<char>,
    said: Said,
    subject: Seq<char>,
    now: i64,
)
    ensures
        (Expected { issuer: Some(issuer), ..expected }).ruling(said, subject, now) is Ok
            ==> (Expected { issuer: None, ..expected }).ruling(said, subject, now) is Ok,
        (Expected { audience: Some(audience), ..expected }).ruling(said, subject, now) is Ok
            ==> (Expected { audience: None, ..expected }).ruling(said, subject, now) is Ok,
{
}

/// A scope with a space in it is never granted.
pub proof fn a_scope_has_no_space(scope: Option<Seq<char>>, wanted: Seq<char>)
    requires
        granted(scope).contains(wanted),
    ensures
        !wanted.contains(' '),
{
    let text = match scope {
        Some(text) => text,
        None => seq![],
    };
    pieces_hold_no_separator(text, ' ');
}

/// One answer proves no more than one claim.
pub proof fn an_answer_is_about_one_subject(
    expected: Expected,
    other: Expected,
    said: Said,
    subject: Seq<char>,
    second: Seq<char>,
    now: i64,
    later: i64,
)
    requires
        expected.ruling(said, subject, now) is Ok,
        other.ruling(said, second, later) is Ok,
    ensures
        subject == second,
{
}

/// A claim is proven by nothing but an answer that holds: not by a refusal
/// of the server, and not by a reply that is not JSON.
pub proof fn only_an_answer_proves(
    expected: Expected,
    reply: Result<Seq<char>, Seq<char>>,
    subject: Seq<char>,
    now: i64,
)
    ensures
        expected.conclusion(reply, subject, now) is Ok <==> (reply matches Ok(body)
            && json_read(body) matches Ok(json) && expected.ruling(said(json), subject, now) is Ok),
{
}

/// Where the server could not be asked or refused to answer, the reason is
/// passed on word for word.
pub proof fn a_refusal_is_passed_on(
    expected: Expected,
    reason: Seq<char>,
    subject: Seq<char>,
    now: i64,
)
    ensures
        expected.conclusion(Err(reason), subject, now) == Err::<Verified, _>(reason),
{
}

/// A token that the server calls inactive is refused as such, whatever else
/// the answer says and whatever is expected of it.
pub proof fn an_inactive_token_is_refused(
    expected: Expected,
    said: Said,
    subject: Seq<char>,
    now: i64,
)
    requires
        said.active == Some(false),
    ensures
        expected.told_ruling(said, subject, now) == Err::<(), _>(Refusal::Inactive.text()),
{
}

/// A token presented as `oauth2.token` is the one that is asked about,
/// whatever was presented as `bearer.token`; without one, the latter is.
pub proof fn an_oauth2_token_goes_first(claim: Claim, token: Seq<char>, bearer: Seq<char>)
    requires
        claim.mechanism == "oauth2"@,
    ensures
        token_of(Claim { proofs: claim.proofs.insert(TOKEN@, token), ..claim }) == Ok::<
            _,
            Seq<char>,
        >(token),
        token_of(
            Claim {
                proofs: claim.proofs.insert(BEARER_TOKEN@, bearer).insert(TOKEN@, token),
                ..claim
            },
        ) == Ok::<_, Seq<char>>(token),
        token_of(
            Claim { proofs: claim.proofs.remove(TOKEN@).insert(BEARER_TOKEN@, bearer), ..claim },
        ) == Ok::<_, Seq<char>>(bearer),
{
    reveal_strlit("oauth2.token");
    reveal_strlit("bearer.token");
    assert(TOKEN@[0] != BEARER_TOKEN@[0]);
}

} // verus!
