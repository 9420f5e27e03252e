//! What holds of the library as a whole, said of what goes into its functions
//! and what comes out of them.
use crate::answer::{
    named,
    names,
    said,
    subject_said,
    Answer,
    Audience,
    Stamp,
    Subject,
};
use crate::authenticator::{about, first_missing, granted, lemma_first_missing, Expected, Verifier};
use crate::base64;
use crate::claim::{AuthenticateError, Mechanism, Presented, Verified};
use crate::introspection::{
    judged,
    replies,
    Configured,
    Due,
    Endpoint,
    Event,
    Happened,
    Http,
    Introspection,
    Request,
    Response,
    Shown,
    SocketAddress,
    Step,
};
use crate::json::{json_read, Json};
use crate::percent;
use crate::text::{a_word_is_one_piece, decimal, is_word_of, pieces_are_the_words, pieces_of_a_join};
use vstd::prelude::*;
use vstd::utf8::encode_utf8;

verus! {

/// Whether an outcome is a refusal with this reason.
pub open spec fn says<T>(outcome: Result<T, AuthenticateError>, reason: Seq<char>) -> bool {
    outcome matches Err(error) && error.message@ == reason
}

/// What an object has under a name, or `null` where it has nothing.
pub open spec fn found(members: Map<Seq<char>, Json>, name: Seq<char>) -> Json {
    if members.dom().contains(name) {
        members[name]
    } else {
        Json::Null
    }
}

/// Whether an `exp` lets a token pass at this time: it is `null`, or a time
/// that has not passed by more than the leeway. The least `i64` is a time that
/// nothing lies before.
pub open spec fn exp_passes(exp: Json, leeway: int, now: int) -> bool {
    match exp {
        Json::Null => true,
        Json::Number(Some(time)) => i64::MIN <= time <= u64::MAX && (now == i64::MIN || now <= time
            + leeway),
        _ => false,
    }
}

/// Whether an `nbf` lets a token pass at this time: it is `null`, or a time
/// that has come or will within the leeway. The least `i64` is a time that
/// nothing lies before.
pub open spec fn nbf_passes(nbf: Json, leeway: int, now: int) -> bool {
    match nbf {
        Json::Null => true,
        Json::Number(Some(time)) => i64::MIN <= time <= u64::MAX && (time == i64::MIN || time
            - leeway <= now),
        _ => false,
    }
}

/// Whether an `aud`, a text or an array of them, names an audience.
pub open spec fn aud_names(aud: Json, audience: Seq<char>) -> bool {
    aud == Json::Text(audience) || (aud matches Json::Array(many) && many.contains(
        Json::Text(audience),
    ))
}

/// Whether a `scope` carries a scope: it is one of the words between its
/// spaces. Without a text there is one word, the empty one.
pub open spec fn scope_carries(scope: Json, wanted: Seq<char>) -> bool {
    match scope {
        Json::Text(text) => is_word_of(text, ' ', wanted),
        _ => wanted.len() == 0,
    }
}

/// Whether an object, as an introspection response, proves a claim to be
/// `subject` at this time.
pub open spec fn document_proves(
    members: Map<Seq<char>, Json>,
    expected: Expected,
    subject: Seq<char>,
    now: i64,
) -> bool {
    &&& found(members, "active"@) == Json::Bool(true)
    &&& exp_passes(found(members, "exp"@), expected.leeway as int, now as int)
    &&& nbf_passes(found(members, "nbf"@), expected.leeway as int, now as int)
    &&& expected.issuer matches Some(issuer) ==> found(members, "iss"@) == Json::Text(issuer)
    &&& expected.audience matches Some(audience) ==> aud_names(found(members, "aud"@), audience)
    &&& forall|i: int|
        0 <= i < expected.scopes.len() ==> scope_carries(
            found(members, "scope"@),
            #[trigger] expected.scopes[i],
        )
    &&& {
        ||| found(members, "sub"@) == Json::Text(subject)
        ||| found(members, "sub"@) is Null && found(members, "client_id"@) == Json::Text(subject)
    }
}

/// A `sub` that is a text is whom the token is about, whatever else the object
/// holds.
pub proof fn a_subject_goes_before_a_client(members: Map<Seq<char>, Json>, subject: Seq<char>)
    requires
        members.dom().contains("sub"@),
        members["sub"@] == Json::Text(subject),
    ensures
        about(said(Json::Object(members))) == Some(subject),
{
}

/// Without a `sub`, or where it is `null`, a `client_id` that is a text is whom
/// the token is about, and without one of those it is about nobody.
pub proof fn a_client_stands_in(members: Map<Seq<char>, Json>, client: Seq<char>)
    requires
        found(members, "sub"@) is Null,
    ensures
        found(members, "client_id"@) == Json::Text(client) ==> about(said(Json::Object(members)))
            == Some(client),
        !(found(members, "client_id"@) is Text) ==> about(said(Json::Object(members))) is None,
{
}

/// An `aud` that is an array names exactly the texts that are among its
/// elements, one that is a text names itself and nothing else, and any other
/// names nobody.
pub proof fn an_audience_is_one_of_those_named(
    members: Map<Seq<char>, Json>,
    audience: Seq<char>,
)
    ensures
        named(said(Json::Object(members)).aud, audience) <==> aud_names(
            found(members, "aud"@),
            audience,
        ),
        forall|many: Seq<Json>|
            found(members, "aud"@) == Json::Array(many) ==> (named(
                said(Json::Object(members)).aud,
                audience,
            ) <==> #[trigger] many.contains(Json::Text(audience))),
{
    if let Json::Array(many) = found(members, "aud"@) {
        let texts = many.map_values(|one: Json| one.text());
        assert(said(Json::Object(members)).aud == crate::answer::AudienceSaid::Many(texts));
        if many.contains(Json::Text(audience)) {
            let i = choose|i: int| 0 <= i < many.len() && many[i] == Json::Text(audience);
            assert(texts[i] == Some(audience));
        }
        if texts.contains(Some(audience)) {
            let i = choose|i: int| 0 <= i < texts.len() && texts[i] == Some(audience);
            assert(many[i] == Json::Text(audience));
        }
    }
}

/// What a `scope` grants is the words of it, all of them and nothing else.
pub proof fn what_is_granted_is_carried(members: Map<Seq<char>, Json>, wanted: Seq<char>)
    ensures
        granted(said(Json::Object(members)).scope).contains(wanted) <==> scope_carries(
            found(members, "scope"@),
            wanted,
        ),
{
    let scope = found(members, "scope"@);
    if let Json::Text(text) = scope {
        pieces_are_the_words(text, ' ', wanted);
    } else {
        let none: Seq<char> = seq![];
        let all = granted(said(Json::Object(members)).scope);
        assert(all =~= seq![none]);
        assert(all[0] == none);
        if wanted.len() == 0 {
            assert(wanted =~= none);
        }
    }
}

/// A word between spaces is granted wherever it stands: alone, first, last or
/// in the middle.
pub proof fn every_word_of_a_scope_is_granted(
    members: Map<Seq<char>, Json>,
    before: Seq<char>,
    word: Seq<char>,
    after: Seq<char>,
    scope: Seq<char>,
)
    requires
        !word.contains(' '),
        members.dom().contains("scope"@),
        members["scope"@] == Json::Text(scope),
        scope == word || scope == before + seq![' '] + word || scope == word + seq![' '] + after
            || scope == before + seq![' '] + word + seq![' '] + after,
    ensures
        granted(said(Json::Object(members)).scope).contains(word),
{
    a_word_is_one_piece(word, ' ');
    pieces_of_a_join(word, ' ', after);
    pieces_of_a_join(before, ' ', word);
    pieces_of_a_join(before, ' ', word.push(' ') + after);
    assert(before + seq![' '] + word =~= before.push(' ') + word);
    assert(word + seq![' '] + after =~= word.push(' ') + after);
    assert(before + seq![' '] + word + seq![' '] + after =~= before.push(' ') + (word.push(' ')
        + after));
    let all = granted(said(Json::Object(members)).scope);
    let head = crate::text::pieces(before, ' ');
    if scope == word || scope == word + seq![' '] + after {
        assert(all[0] == word);
    } else {
        assert(all[head.len() as int] == word);
    }
}

/// A reply proves a claim exactly where it is a JSON object whose members prove
/// it: see [`document_proves`].
pub proof fn a_reply_proves_what_its_members_prove(
    expected: Expected,
    body: Seq<char>,
    json: Json,
    subject: Seq<char>,
    now: i64,
)
    requires
        json_read(body) == Ok::<Json, Seq<char>>(json),
    ensures
        expected.conclusion(Ok(body), subject, now) is Ok <==> (json matches Json::Object(members)
            && document_proves(members, expected, subject, now)),
{
    if let Json::Object(members) = json {
        lemma_first_missing(expected.scopes, granted(said(json).scope));
        if let Some(audience) = expected.audience {
            an_audience_is_one_of_those_named(members, audience);
        }
        assert forall|i: int| 0 <= i < expected.scopes.len() implies granted(
            said(json).scope,
        ).contains(#[trigger] expected.scopes[i]) == scope_carries(
            found(members, "scope"@),
            expected.scopes[i],
        ) by {
            what_is_granted_is_carried(members, expected.scopes[i]);
        }
        crate::authenticator::proven_where_everything_holds(expected, said(json), subject, now);
    }
}

/// Whether a time that was read is what a member says: none where that is
/// `null`, the integer where it is one, and unreadable where it is anything
/// else.
pub open spec fn stamp_is(stamp: Stamp, member: Json) -> bool {
    match stamp {
        Stamp::Absent => member is Null,
        Stamp::At(time) => member == Json::Number(Some(time as int)),
        Stamp::Late(time) => member == Json::Number(Some(time as int)),
        Stamp::Unreadable => match member {
            Json::Null => false,
            Json::Number(Some(time)) => !(i64::MIN <= time <= u64::MAX),
            _ => true,
        },
    }
}

/// Whether a text that was read is what a member says: there where that is
/// that text, and not where it is no text.
pub open spec fn text_is(text: Option<String>, member: Json) -> bool {
    match text {
        Some(text) => member == Json::Text(text@),
        None => !(member is Text),
    }
}

/// An answer is read out of an object member by member, each under its own
/// name.
pub proof fn an_answer_is_read_member_by_member(
    body: &str,
    answer: Answer,
    members: Map<Seq<char>, Json>,
)
    requires
        json_read(body@) == Ok::<Json, Seq<char>>(Json::Object(members)),
        call_ensures(Answer::read, (body,), Ok(answer)),
    ensures
        match answer.active {
            Some(active) => found(members, "active"@) == Json::Bool(active),
            None => !(found(members, "active"@) is Bool),
        },
        stamp_is(answer.exp, found(members, "exp"@)),
        stamp_is(answer.nbf, found(members, "nbf"@)),
        text_is(answer.iss, found(members, "iss"@)),
        match answer.aud {
            Audience::One(one) => found(members, "aud"@) == Json::Text(one@),
            Audience::Many(many) => found(members, "aud"@) matches Json::Array(elements)
                && elements.len() == many@.len() && forall|i: int|
                0 <= i < many@.len() ==> text_is(#[trigger] many@[i], elements[i]),
            Audience::Unstated => !(found(members, "aud"@) is Text) && !(found(members, "aud"@)
                is Array),
        },
        text_is(answer.scope, found(members, "scope"@)),
        match answer.sub {
            Subject::Absent => found(members, "sub"@) is Null,
            Subject::Named(name) => found(members, "sub"@) == Json::Text(name@),
            Subject::Unreadable => !(found(members, "sub"@) is Null) && !(found(members, "sub"@)
                is Text),
        },
        text_is(answer.client_id, found(members, "client_id"@)),
{
    let json = Json::Object(members);
    assert(answer@ == said(json));
    assert(answer@.exp == crate::answer::moment(json.member("exp"@)));
    assert(answer@.nbf == crate::answer::moment(json.member("nbf"@)));
    assert(answer@.sub == subject_said(json.member("sub"@)));
    if let Audience::Many(many) = answer.aud {
        let texts = many@.map_values(|one: Option<String>| crate::answer::text_of(one));
        assert(answer@.aud == crate::answer::AudienceSaid::Many(texts));
        let elements = found(members, "aud"@)->Array_0;
        assert(texts == elements.map_values(|one: Json| one.text()));
        assert(texts.len() == elements.len());
        assert forall|i: int| 0 <= i < many@.len() implies text_is(
            #[trigger] many@[i],
            elements[i],
        ) by {
            assert(texts[i] == crate::answer::text_of(many@[i]));
            assert(texts[i] == elements[i].text());
        }
    }
}

/// A text that is read as anything but an object is an answer that says
/// nothing, and one that is not JSON is no answer: what is wrong with it is
/// passed on.
pub proof fn what_is_no_object_says_nothing(body: &str, read: Result<Answer, String>)
    requires
        call_ensures(Answer::read, (body,), read),
    ensures
        json_read(body@) matches Ok(json) && !(json is Object) ==> (read matches Ok(answer)
            && answer.active is None && answer.exp is Absent && answer.nbf is Absent && answer.iss
            is None && answer.aud is Unstated && answer.scope is None && answer.sub is Absent
            && answer.client_id is None),
        json_read(body@) matches Ok(json) ==> read is Ok,
        json_read(body@) matches Err(failure) ==> (read matches Err(text) && text@ == failure),
{
    if let Ok(json) = json_read(body@) {
        if !(json is Object) {
            let answer = read->Ok_0;
            assert(answer@ == said(json));
            assert(answer@.exp is Absent);
            assert(answer@.nbf is Absent);
            assert(answer@.iss is None);
            assert(answer@.aud is Unstated);
            assert(answer@.scope is None);
            assert(answer@.sub is Absent);
            assert(answer@.client_id is None);
        }
    }
}

/// Whether an audience that was read names this one.
pub open spec fn audience_names(aud: Audience, audience: Seq<char>) -> bool {
    match aud {
        Audience::One(one) => one@ == audience,
        Audience::Many(many) => exists|i: int|
            0 <= i < many@.len() && (#[trigger] many@[i] matches Some(one) && one@ == audience),
        Audience::Unstated => false,
    }
}

/// An audience names itself, or what one of its elements is.
pub proof fn names_tells_who_is_named(aud: Audience, audience: &str, yes: bool)
    requires
        call_ensures(names, (&aud, audience), yes),
    ensures
        yes <==> audience_names(aud, audience@),
{
    assert(yes == named(aud@, audience@));
    lemma_named_is_audience_names(aud, audience@);
}

proof fn lemma_named_is_audience_names(aud: Audience, audience: Seq<char>)
    ensures
        named(aud@, audience) <==> audience_names(aud, audience),
{
    if let Audience::Many(many) = aud {
        let texts = many@.map_values(|one: Option<String>| crate::answer::text_of(one));
        assert(aud@ == crate::answer::AudienceSaid::Many(texts));
        if texts.contains(Some(audience)) {
            let i = choose|i: int| 0 <= i < texts.len() && texts[i] == Some(audience);
            assert(many@[i] is Some);
        }
        if audience_names(aud, audience) {
            let i = choose|i: int|
                0 <= i < many@.len() && (#[trigger] many@[i] matches Some(one) && one@ == audience);
            assert(texts[i] == Some(audience));
        }
    }
}

/// Whether the `exp` of an answer lets it pass at this time.
pub open spec fn unexpired(exp: Stamp, leeway: int, now: int) -> bool {
    match exp {
        Stamp::Absent => true,
        Stamp::At(time) => now == i64::MIN || now <= time + leeway,
        Stamp::Late(time) => now == i64::MIN || now <= time + leeway,
        Stamp::Unreadable => false,
    }
}

/// Whether the `nbf` of an answer lets it pass at this time.
pub open spec fn begun(nbf: Stamp, leeway: int, now: int) -> bool {
    match nbf {
        Stamp::Absent => true,
        Stamp::At(time) => time == i64::MIN || time - leeway <= now,
        Stamp::Late(time) => time - leeway <= now,
        Stamp::Unreadable => false,
    }
}

/// Whether an answer is by the issuer that is expected, if one is.
pub open spec fn is_by(answer: Answer, issuer: Option<Seq<char>>) -> bool {
    issuer matches Some(issuer) ==> (answer.iss matches Some(iss) && iss@ == issuer)
}

/// Whether an answer is for the audience that is expected, if one is.
pub open spec fn is_for(answer: Answer, audience: Option<Seq<char>>) -> bool {
    audience matches Some(audience) ==> audience_names(answer.aud, audience)
}

/// Whether an answer carries a scope.
pub open spec fn carries(answer: Answer, wanted: Seq<char>) -> bool {
    match answer.scope {
        Some(scope) => is_word_of(scope@, ' ', wanted),
        None => wanted.len() == 0,
    }
}

/// Whether an answer is about a subject.
pub open spec fn is_about(answer: Answer, subject: Seq<char>) -> bool {
    match answer.sub {
        Subject::Named(sub) => sub@ == subject,
        Subject::Absent => answer.client_id matches Some(client) && client@ == subject,
        Subject::Unreadable => false,
    }
}

proof fn lemma_carries(answer: Answer, wanted: Seq<char>)
    ensures
        granted(answer@.scope).contains(wanted) <==> carries(answer, wanted),
{
    match answer.scope {
        Some(scope) => {
            pieces_are_the_words(scope@, ' ', wanted);
        },
        None => {
            let none: Seq<char> = seq![];
            let all = granted(answer@.scope);
            assert(all =~= seq![none]);
            assert(all[0] == none);
            if wanted.len() == 0 {
                assert(wanted =~= none);
            }
        },
    }
}

proof fn lemma_time_of(answer: Answer, expected: Expected, now: i64)
    ensures
        unexpired(answer.exp, expected.leeway as int, now as int) <==> expected.unexpired(
            answer@,
            now,
        ),
        begun(answer.nbf, expected.leeway as int, now as int) <==> expected.begun(answer@, now),
{
}

/// Whether an answer is all that is asked of it.
pub open spec fn answer_holds(
    expected: Expected,
    answer: Answer,
    subject: Seq<char>,
    now: i64,
) -> bool {
    &&& answer.active == Some(true)
    &&& unexpired(answer.exp, expected.leeway as int, now as int)
    &&& begun(answer.nbf, expected.leeway as int, now as int)
    &&& is_by(answer, expected.issuer)
    &&& is_for(answer, expected.audience)
    &&& forall|i: int|
        0 <= i < expected.scopes.len() ==> carries(answer, #[trigger] expected.scopes[i])
    &&& is_about(answer, subject)
}

/// An answer passes the check exactly where it is active, its `exp` has not
/// passed and its `nbf` has come give or take the leeway, it is by the issuer
/// and for the audience that are expected if any are, carries every required
/// scope and is about the claimed subject.
pub proof fn a_check_passes_where_the_answer_holds(
    ours: Verifier,
    answer: Answer,
    subject: &str,
    now: i64,
    outcome: Result<(), AuthenticateError>,
)
    requires
        call_ensures(Verifier::check_at, (&ours, &answer, subject, now), outcome),
    ensures
        outcome is Ok <==> answer_holds(ours@, answer, subject@, now),
{
    lemma_answer_holds(ours@, answer, subject@, now);
}

/// The same at a time that the clock shows.
pub proof fn a_check_goes_by_the_clock(
    ours: Verifier,
    answer: Answer,
    subject: &str,
    outcome: Result<(), AuthenticateError>,
)
    requires
        call_ensures(Verifier::check, (&ours, &answer, subject), outcome),
    ensures
        exists|now: i64| #[trigger]
            ours.shows(now) && (outcome is Ok <==> answer_holds(ours@, answer, subject@, now)) && (
            outcome is Err ==> says(outcome, ours@.told_ruling(answer@, subject@, now)->Err_0)),
{
    let now = choose|now: i64| #[trigger]
        ours.shows(now) && crate::claim::ruled(outcome) == ours@.told_ruling(
            answer@,
            subject@,
            now,
        );
    lemma_answer_holds(ours@, answer, subject@, now);
}

proof fn lemma_answer_holds(expected: Expected, answer: Answer, subject: Seq<char>, now: i64)
    ensures
        expected.told_ruling(answer@, subject, now) is Ok <==> answer_holds(
            expected,
            answer,
            subject,
            now,
        ),
{
    lemma_time_of(answer, expected, now);
    lemma_first_missing(expected.scopes, granted(answer@.scope));
    if let Some(audience) = expected.audience {
        lemma_named_is_audience_names(answer.aud, audience);
    }
    assert forall|i: int| 0 <= i < expected.scopes.len() implies granted(answer@.scope).contains(
        #[trigger] expected.scopes[i],
    ) == carries(answer, expected.scopes[i]) by {
        lemma_carries(answer, expected.scopes[i]);
    }
    assert(is_about(answer, subject) <==> about(answer@) == Some(subject));
    assert(is_by(answer, expected.issuer) <==> (expected.issuer is Some ==> answer@.iss
        == expected.issuer));
    crate::authenticator::proven_where_everything_holds(expected, answer@, subject, now);
}

proof fn lemma_first_missing_is(required: Seq<Seq<char>>, granted: Seq<Seq<char>>, k: int)
    requires
        0 <= k < required.len(),
        !granted.contains(required[k]),
        forall|j: int| 0 <= j < k ==> granted.contains(#[trigger] required[j]),
    ensures
        first_missing(required, granted) == Some(required[k]),
    decreases k,
{
    if k > 0 {
        assert(granted.contains(required[0]));
        let rest = required.drop_first();
        assert forall|j: int| 0 <= j < k - 1 implies granted.contains(#[trigger] rest[j]) by {
            assert(granted.contains(required[j + 1]));
        }
        lemma_first_missing_is(rest, granted, k - 1);
    }
}

/// Of all that is wrong with an answer, the first is what the refusal says, in
/// the order: `active`, `exp`, `nbf`, issuer, audience, scopes as they were
/// required, subject.
pub proof fn a_refusal_says_what_is_wrong_first(
    ours: Verifier,
    answer: Answer,
    subject: &str,
    now: i64,
    outcome: Result<(), AuthenticateError>,
)
    requires
        call_ensures(Verifier::check_at, (&ours, &answer, subject, now), outcome),
    ensures
        answer.active is None ==> says(
            outcome,
            "the introspection response has no boolean `active`"@,
        ),
        answer.active == Some(false) ==> says(
            outcome,
            "the authorization server says the token is not active: expired, revoked, or never its own"@,
        ),
        answer.active == Some(true) ==> {
            let leeway = ours@.leeway as int;
            if !unexpired(answer.exp, leeway, now as int) {
                match answer.exp {
                    Stamp::At(time) => says(
                        outcome,
                        "the token expired at "@ + decimal(time as int) + " and it is "@ + decimal(
                            now as int,
                        ),
                    ),
                    Stamp::Late(time) => says(
                        outcome,
                        "the token expired at "@ + decimal(time as int) + " and it is "@ + decimal(
                            now as int,
                        ),
                    ),
                    _ => says(
                        outcome,
                        "the introspection response has an `exp` that is not an integer in range"@,
                    ),
                }
            } else if !begun(answer.nbf, leeway, now as int) {
                match answer.nbf {
                    Stamp::At(time) => says(
                        outcome,
                        "the token is not valid before "@ + decimal(time as int) + " and it is "@
                            + decimal(now as int),
                    ),
                    Stamp::Late(time) => says(
                        outcome,
                        "the token is not valid before "@ + decimal(time as int) + " and it is "@
                            + decimal(now as int),
                    ),
                    _ => says(
                        outcome,
                        "the introspection response has an `nbf` that is not an integer in range"@,
                    ),
                }
            } else if !is_by(answer, ours@.issuer) {
                says(outcome, "the token's issuer is not '"@ + ours@.issuer->0 + "'"@)
            } else if !is_for(answer, ours@.audience) {
                says(outcome, "the token's audience does not name '"@ + ours@.audience->0 + "'"@)
            } else {
                &&& forall|k: int|
                    0 <= k < ours@.scopes.len() && !carries(answer, #[trigger] ours@.scopes[k])
                        && (forall|j: int|
                        0 <= j < k ==> carries(answer, #[trigger] ours@.scopes[j])) ==> says(
                        outcome,
                        "the token does not carry the scope '"@ + ours@.scopes[k]
                            + "' this node requires"@,
                    )
                &&& (forall|j: int|
                    0 <= j < ours@.scopes.len() ==> carries(answer, #[trigger] ours@.scopes[j]))
                    && !is_about(answer, subject@) ==> if answer.sub is Unreadable {
                    says(outcome, "the introspection response has a `sub` that is not a string"@)
                } else if answer.sub is Absent && answer.client_id is None {
                    says(outcome, "the introspection response names no `sub` and no `client_id`"@)
                } else {
                    says(outcome, "the token's subject is not the claimed value"@)
                }
            }
        },
{
    let expected = ours@;
    lemma_time_of(answer, expected, now);
    lemma_first_missing(expected.scopes, granted(answer@.scope));
    if let Some(audience) = expected.audience {
        lemma_named_is_audience_names(answer.aud, audience);
    }
    assert forall|i: int| 0 <= i < expected.scopes.len() implies granted(answer@.scope).contains(
        #[trigger] expected.scopes[i],
    ) == carries(answer, expected.scopes[i]) by {
        lemma_carries(answer, expected.scopes[i]);
    }
    assert(is_about(answer, subject@) <==> about(answer@) == Some(subject@));
    assert(is_by(answer, expected.issuer) <==> (expected.issuer is Some ==> answer@.iss
        == expected.issuer));
    assert forall|k: int|
        0 <= k < expected.scopes.len() && !carries(answer, #[trigger] expected.scopes[k]) && (
        forall|j: int|
            0 <= j < k ==> carries(answer, #[trigger] expected.scopes[j])) implies first_missing(
        expected.scopes,
        granted(answer@.scope),
    ) == Some(expected.scopes[k]) by {
        assert forall|j: int| 0 <= j < k implies granted(answer@.scope).contains(
            #[trigger] expected.scopes[j],
        ) by {
            assert(carries(answer, expected.scopes[j]));
        }
        lemma_first_missing_is(expected.scopes, granted(answer@.scope), k);
    }
}

/// Whether this is what comes of a claim to be `subject`, given the reply that
/// came and the time it was judged at: a refusal is passed on, a text that is
/// not JSON is refused as such, and anything else proves what its members
/// prove, at a time that the clock can show, or is refused for what is wrong
/// with it.
pub open spec fn comes_of(
    ours: Verifier,
    reply: Result<Seq<char>, Seq<char>>,
    subject: Seq<char>,
    now: i64,
    outcome: Result<Verified, AuthenticateError>,
) -> bool {
    match reply {
        Err(reason) => says(outcome, reason),
        Ok(body) => match json_read(body) {
            Err(failure) => says(outcome, "the introspection response is not JSON: "@ + failure),
            Ok(json) => {
                &&& ours.shows(now)
                &&& outcome is Ok <==> (json matches Json::Object(members) && document_proves(
                    members,
                    ours@,
                    subject,
                    now,
                ))
                &&& outcome is Err ==> says(
                    outcome,
                    ours@.told_ruling(said(json), subject, now)->Err_0,
                )
            },
        },
    }
}

/// A reply that is a text comes to what its members prove, and one that is a
/// refusal to that refusal.
pub proof fn a_reply_is_concluded_from(
    ours: Verifier,
    reply: Result<String, AuthenticateError>,
    subject: &str,
    outcome: Result<Verified, AuthenticateError>,
)
    requires
        call_ensures(Verifier::conclude, (&ours, reply, subject), outcome),
    ensures
        match reply {
            Ok(body) => exists|now: i64| #[trigger]
                comes_of(ours, Ok(body@), subject@, now, outcome),
            Err(error) => says(outcome, error.message@),
        },
{
    let given: Result<Seq<char>, Seq<char>> = match reply {
        Ok(body) => Ok(body@),
        Err(error) => Err(error.message@),
    };
    let now = choose|now: i64| #[trigger]
        ours@.conclusion(given, subject@, now) == crate::claim::ruled(outcome) && (
        crate::authenticator::is_answer(given) ==> ours.shows(now));
    lemma_comes_of(ours, given, subject@, now, outcome);
}

proof fn lemma_comes_of(
    ours: Verifier,
    reply: Result<Seq<char>, Seq<char>>,
    subject: Seq<char>,
    now: i64,
    outcome: Result<Verified, AuthenticateError>,
)
    requires
        ours@.conclusion(reply, subject, now) == crate::claim::ruled(outcome),
        crate::authenticator::is_answer(reply) ==> ours.shows(now),
    ensures
        comes_of(ours, reply, subject, now, outcome),
{
    if let Ok(body) = reply {
        if let Ok(json) = json_read(body) {
            a_reply_proves_what_its_members_prove(ours@, body, json, subject, now);
        }
    }
}

/// A claim by another mechanism is refused by its name, and one without a token
/// for want of one. Otherwise the server is asked about the token presented as
/// `oauth2.token`, or, without one, as `bearer.token`, and what it replies
/// settles the claim.
pub proof fn a_claim_is_settled_by_asking_about_its_token(
    ours: Verifier,
    presented: Presented,
    outcome: Result<Verified, AuthenticateError>,
)
    requires
        call_ensures(Verifier::verify, (&ours, &presented), outcome),
    ensures
        ({
            let name = presented.mechanism.name@;
            let proofs = presented@.proofs;
            if name != "oauth2"@ {
                says(
                    outcome,
                    "'"@ + name + "' was presented and this authenticator verifies oauth2"@,
                )
            } else if !proofs.dom().contains("oauth2.token"@) && !proofs.dom().contains(
                "bearer.token"@,
            ) {
                says(
                    outcome,
                    "no "@ + "oauth2.token"@ + " proof and no "@ + "bearer.token"@
                        + " proof was presented"@,
                )
            } else {
                let token = if proofs.dom().contains("oauth2.token"@) {
                    proofs["oauth2.token"@]
                } else {
                    proofs["bearer.token"@]
                };
                exists|reply: Result<Seq<char>, Seq<char>>, now: i64|
                    ours.answers(token, reply) && #[trigger] comes_of(
                        ours,
                        reply,
                        presented.value@,
                        now,
                        outcome,
                    )
            }
        }),
{
    if let Ok(token) = crate::authenticator::token_of(presented@) {
        let (reply, now) = choose|reply: Result<Seq<char>, Seq<char>>, now: i64|
            ours.answers(token, reply) && (crate::authenticator::is_answer(reply) ==> ours.shows(
                now,
            )) && crate::claim::ruled(outcome) == #[trigger] ours@.conclusion(
                reply,
                presented@.value,
                now,
            );
        lemma_comes_of(ours, reply, presented@.value, now, outcome);
    }
}

/// What can be replied to a token is what asking the server about that token
/// can give, its text or its reason.
pub proof fn a_reply_is_what_the_server_gave<S: Introspection>(
    server: S,
    token: Seq<char>,
    reply: Result<Seq<char>, Seq<char>>,
)
    requires
        replies(server, token, reply),
    ensures
        exists|asked: &str, replied: Result<String, AuthenticateError>|
            asked@ == token && #[trigger] call_ensures(S::introspect, (&server, asked), replied)
                && match replied {
                Ok(body) => reply == Ok::<Seq<char>, Seq<char>>(body@),
                Err(error) => reply == Err::<Seq<char>, Seq<char>>(error.message@),
            },
{
    let (asked, replied) = choose|asked: &str, replied: Result<String, AuthenticateError>|
        asked@ == token && crate::claim::told(replied) == reply && #[trigger] call_ensures(
            S::introspect,
            (&server, asked),
            replied,
        );
    assert(call_ensures(S::introspect, (&server, asked), replied));
}

/// A new verifier goes by `now`.
pub proof fn a_new_verifier_goes_by_now<S: Introspection + 'static>(
    server: S,
    ours: Verifier,
    time: i64,
)
    requires
        call_ensures(Verifier::new, (server,), ours),
        ours.shows(time),
    ensures
        call_ensures(crate::clock::now, (), time),
{
}

/// Telling a verifier what to expect changes neither whom it asks nor the clock
/// it goes by.
pub proof fn expectations_leave_server_and_clock(
    ours: Verifier,
    text: &str,
    seconds: i64,
    made: Verifier,
    token: Seq<char>,
    reply: Result<Seq<char>, Seq<char>>,
    time: i64,
)
    requires
        call_ensures(Verifier::expecting_issuer, (ours, text), made) || call_ensures(
            Verifier::expecting_audience,
            (ours, text),
            made,
        ) || call_ensures(Verifier::requiring_scope, (ours, text), made) || call_ensures(
            Verifier::with_leeway,
            (ours, seconds),
            made,
        ),
    ensures
        made.answers(token, reply) == ours.answers(token, reply),
        made.shows(time) == ours.shows(time),
{
}

/// A claim with another proof has that proof under its name and every other
/// proof it had before, and nothing else of it changes.
pub proof fn a_proof_is_found_under_its_name(
    presented: Presented,
    name: &str,
    given: &str,
    made: Presented,
    other: &str,
    before: Option<&str>,
    after: Option<&str>,
)
    requires
        call_ensures(Presented::with_proof, (presented, name, given), made),
        call_ensures(Presented::proof_named, (&presented, other), before),
        call_ensures(Presented::proof_named, (&made, other), after),
    ensures
        other@ == name@ ==> (after matches Some(found) && found@ == given@),
        other@ != name@ ==> match (before, after) {
            (Some(before), Some(after)) => before@ == after@,
            (None, None) => true,
            _ => false,
        },
        made.value@ == presented.value@,
        made.mechanism.name@ == presented.mechanism.name@,
{
    assert(made@.value == presented@.value);
    assert(made@.mechanism == presented@.mechanism);
}

/// A proof is looked up in the proofs that a claim carries.
pub proof fn a_proof_is_one_that_is_carried(
    presented: Presented,
    name: &str,
    found: Option<&str>,
)
    requires
        call_ensures(Presented::proof_named, (&presented, name), found),
    ensures
        match found {
            Some(given) => presented@.proofs.dom().contains(name@) && presented@.proofs[name@]
                == given@,
            None => !presented@.proofs.dom().contains(name@),
        },
{
}

/// A claim as it is passed has the value and the mechanism it was passed with,
/// and no proof.
pub proof fn a_claim_is_passed_as_it_is(
    mechanism: Mechanism,
    value: &str,
    made: Presented,
    name: &str,
    found: Option<&str>,
)
    requires
        call_ensures(Presented::passed, (mechanism, value), made),
        call_ensures(Presented::proof_named, (&made, name), found),
    ensures
        made.value@ == value@,
        made.mechanism.name@ == mechanism.name@,
        found is None,
{
    assert(made@.value == value@);
    assert(made@.mechanism == mechanism@);
}

/// A mechanism is called what it was named.
pub proof fn a_mechanism_has_its_name(given: &str, mechanism: Mechanism, name: &str)
    requires
        call_ensures(Mechanism::named, (given,), mechanism),
        call_ensures(Mechanism::name, (&mechanism,), name),
    ensures
        name@ == given@,
        mechanism.name@ == given@,
{
}

/// Whether an address is this host's own: in `127.0.0.0/8`, or `::1`.
pub open spec fn on_this_host(address: SocketAddress) -> bool {
    match address {
        SocketAddress::V4 { octets, .. } => octets@[0] == 127,
        SocketAddress::V6 { segments, .. } => {
            &&& forall|i: int| 0 <= i < 7 ==> #[trigger] segments@[i] == 0
            &&& segments@[7] == 1
        },
    }
}

/// An address is loopback exactly where it is this host's own.
pub proof fn loopback_is_this_host(address: SocketAddress, yes: bool)
    requires
        call_ensures(SocketAddress::is_loopback, (&address,), yes),
    ensures
        yes <==> on_this_host(address),
{
    lemma_loopback(address);
}

proof fn lemma_loopback(address: SocketAddress)
    ensures
        address.loopback() <==> on_this_host(address),
{
    if let SocketAddress::V6 { segments, .. } = address {
        let own = seq![0u16, 0, 0, 0, 0, 0, 0, 1];
        if on_this_host(address) {
            assert(segments@ =~= own);
        }
        if address.loopback() {
            assert(segments@ == own);
        }
    }
}

/// The addresses that may be connected to, of those that a name was resolved
/// to: all of them online, and this host's own offline, in their order.
pub open spec fn admitted(online: bool, all: Seq<SocketAddress>) -> Seq<SocketAddress> {
    if online {
        all
    } else {
        all.filter(|address: SocketAddress| on_this_host(address))
    }
}

proof fn lemma_admitted(http: Configured, all: Seq<SocketAddress>)
    ensures
        all.filter(|address: SocketAddress| http.admits(address)) == admitted(http.online, all),
    decreases all.len(),
{
    let ours = |address: SocketAddress| http.admits(address);
    let own = |address: SocketAddress| on_this_host(address);
    reveal(Seq::filter);
    if all.len() > 0 {
        lemma_admitted(http, all.drop_last());
        lemma_loopback(all.last());
        assert(ours(all.last()) == (http.online || own(all.last())));
        assert(all.drop_last().push(all.last()) =~= all);
    }
}

/// The addresses that may be connected to are none where the node is offline
/// and the endpoint beyond it, none where the name was not resolved, and
/// otherwise the admitted ones, if there are any; each refusal says why.
pub proof fn what_is_reachable_is_what_is_admitted(
    http: Http,
    resolved: Result<Vec<SocketAddress>, String>,
    open: Result<Vec<SocketAddress>, AuthenticateError>,
)
    requires
        call_ensures(Http::reachable, (&http, resolved), open),
    ensures
        if !http@.online && !http@.endpoint.loopback {
            says(
                open,
                "the node is offline (ADR-0045) and the introspection endpoint '"@
                    + http@.endpoint.host
                    + "' is not loopback: configure the node online, or an endpoint on this host"@,
            )
        } else {
            match resolved {
                Err(failure) => says(open, "the introspection endpoint "@ + failure@),
                Ok(all) => if admitted(http@.online, all@).len() == 0 {
                    says(
                        open,
                        "the node is offline (ADR-0045) and '"@ + http@.endpoint.host
                            + "' resolves to no loopback address"@,
                    )
                } else {
                    open matches Ok(open) && open@ == admitted(http@.online, all@)
                },
            }
        },
{
    if let Ok(all) = resolved {
        lemma_admitted(http@, all@);
    }
}

/// Whether a request asks about a token: a `POST` to the endpoint's path, with
/// its authority as the host, the client's credentials if there are any, and
/// the token in the form.
pub open spec fn asks_about(request: Request, http: Configured, token: Seq<char>) -> bool {
    let headers = request.headers@;
    &&& request.method@ == "POST"@
    &&& request.path@ == http.endpoint.path
    &&& headers.len() == if http.client is Some {
        4int
    } else {
        3int
    }
    &&& headers[0].0@ == "Host"@
    &&& headers[0].1@ == http.endpoint.authority
    &&& headers[1].0@ == "Accept"@
    &&& headers[1].1@ == "application/json"@
    &&& headers[2].0@ == "Content-Type"@
    &&& headers[2].1@ == "application/x-www-form-urlencoded"@
    &&& http.client matches Some((id, secret)) ==> headers[3].0@ == "Authorization"@
        && headers[3].1@ == "Basic "@ + base64::encoded(encode_utf8(id + ":"@ + secret))
    &&& request.body@ == encode_utf8("token="@) + percent::encoded(encode_utf8(token))
        + encode_utf8("&token_type_hint=access_token"@)
}

/// A request asks about the token it was made for.
pub proof fn a_request_asks_about_its_token(http: Http, token: &str, request: Request)
    requires
        call_ensures(Http::request, (&http, token), request),
    ensures
        asks_about(request, http@, token@),
{
    lemma_posted(http@, token@, request);
}

proof fn lemma_posted(http: Configured, token: Seq<char>, request: Request)
    requires
        request@ == http.post(token),
    ensures
        asks_about(request, http, token),
{
    let headers = request.headers@;
    let fields = crate::introspection::fields(headers);
    assert(request@.headers == fields);
    assert(fields.len() == headers.len());
    assert forall|i: int| 0 <= i < headers.len() implies #[trigger] fields[i] == (
        headers[i].0@,
        headers[i].1@,
    ) by {}
    assert(fields[0] == (headers[0].0@, headers[0].1@));
    assert(fields[1] == (headers[1].0@, headers[1].1@));
    assert(fields[2] == (headers[2].0@, headers[2].1@));
    if http.client is Some {
        assert(fields[3] == (headers[3].0@, headers[3].1@));
    }
    assert(request@.method == request.method@);
    assert(request@.path == request.path@);
    assert(request@.body == request.body@);
}

/// An endpoint is asked where it was configured to be: at its path, under its
/// authority, and at its host in what is said of it.
pub proof fn an_endpoint_is_asked_where_it_is(
    endpoint: Endpoint,
    http: Http,
    token: &str,
    request: Request,
)
    requires
        call_ensures(Http::at, (Ok(endpoint),), Ok(http)),
        call_ensures(Http::request, (&http, token), request),
    ensures
        request.path@ == endpoint.path@,
        request.headers@.len() == 3,
        request.headers@[0].1@ == endpoint.authority@,
        http@.endpoint.host == endpoint.host@,
        http@.endpoint.authority == endpoint.authority@,
        http@.endpoint.path == endpoint.path@,
        http@.endpoint.loopback == endpoint.loopback,
        !http@.online,
        http@.client is None,
        http@.timeout == crate::clock::seconds(5),
{
    assert(http@.endpoint == endpoint@);
    lemma_posted(http@, token@, request);
}

/// Every request that is exchanged goes to the path of the endpoint that is
/// configured, so that two endpoints with different paths are asked at
/// different paths.
pub proof fn an_exchange_goes_to_the_endpoints_path(
    http: Configured,
    token: Seq<char>,
    event: Happened,
)
    ensures
        http.due(token, event) matches Due::Exchange { request, .. } ==> request.path
            == http.endpoint.path && request.method == "POST"@,
{
}

/// A response with status `200` and a body gives that body, `401` and `403` are
/// refused as the credentials' fault, and any other is refused by its status.
pub open spec fn is_judged(answer: Response, outcome: Result<String, AuthenticateError>) -> bool {
    let status = decimal(answer.status as int) + " "@ + answer.reason@;
    if answer.status == 200 && answer.text@.len() > 0 {
        outcome matches Ok(body) && body@ == answer.text@
    } else if answer.status == 200 {
        says(outcome, "the introspection endpoint answered '"@ + status + "' without a body"@)
    } else if answer.status == 401 || answer.status == 403 {
        says(
            outcome,
            "the authorization server refused this node's client credentials: '"@ + status
                + "'"@,
        )
    } else {
        says(outcome, "the introspection endpoint answered '"@ + status + "' and not 200"@)
    }
}

/// A response is judged by its status and its body.
pub proof fn a_response_is_judged(answer: Response, outcome: Result<String, AuthenticateError>)
    requires
        call_ensures(judged, (&answer,), outcome),
    ensures
        is_judged(answer, outcome),
{
}

/// A call goes from the start to resolving the name, from there to one exchange
/// with the admitted addresses, and from there to its end, or is refused on the
/// way.
pub proof fn a_call_goes_step_by_step(http: Http, token: &str, event: Event, step: Step)
    requires
        call_ensures(Http::step, (&http, token, event), step),
    ensures
        ({
            let offline = "the node is offline (ADR-0045) and the introspection endpoint '"@
                + http@.endpoint.host
                + "' is not loopback: configure the node online, or an endpoint on this host"@;
            let open = http@.online || http@.endpoint.loopback;
            match event {
                Event::Begun => if open {
                    step is Resolve
                } else {
                    step matches Step::Finished(outcome) && says(outcome, offline)
                },
                Event::Resolved(resolved) => if !open {
                    step matches Step::Finished(outcome) && says(outcome, offline)
                } else {
                    match resolved {
                        Err(failure) => step matches Step::Finished(outcome) && says(
                            outcome,
                            "the introspection endpoint "@ + failure@,
                        ),
                        Ok(all) => if admitted(http@.online, all@).len() == 0 {
                            step matches Step::Finished(outcome) && says(
                                outcome,
                                "the node is offline (ADR-0045) and '"@ + http@.endpoint.host
                                    + "' resolves to no loopback address"@,
                            )
                        } else {
                            step matches Step::Exchange { addresses, timeout, request }
                                && addresses@ == admitted(http@.online, all@) && timeout
                                == http@.timeout && asks_about(request, http@, token@)
                        },
                    }
                },
                Event::Answered(Ok(answer)) => step matches Step::Finished(outcome) && is_judged(
                    answer,
                    outcome,
                ),
                Event::Answered(Err(failure)) => step matches Step::Finished(outcome) && says(
                    outcome,
                    "the introspection endpoint "@ + http@.endpoint.authority
                        + " did not answer: "@ + failure@,
                ),
            }
        }),
{
    assert(step@ == http@.due(token@, event@));
    if let Event::Resolved(Ok(all)) = event {
        lemma_admitted(http@, all@);
        if let Step::Exchange { addresses, timeout, request } = step {
            lemma_posted(http@, token@, request);
        }
    }
}

/// What is shown is where the endpoint is, the client's id and whether the node
/// is online.
pub proof fn what_is_shown_is_what_is_configured(http: Http, shown: Shown)
    requires
        call_ensures(Http::shown, (&http,), shown),
    ensures
        shown.endpoint.host@ == http@.endpoint.host,
        shown.endpoint.authority@ == http@.endpoint.authority,
        shown.endpoint.path@ == http@.endpoint.path,
        shown.endpoint.loopback == http@.endpoint.loopback,
        match shown.client {
            Some(id) => http@.client matches Some((configured, _)) && id@ == configured,
            None => http@.client is None,
        },
        shown.online == http@.online,
{
    assert(shown@ == http@.visible());
    assert(shown@.endpoint == shown.endpoint@);
}

} // verus!
