//! An introspection response (RFC 7662, section 2.2): the members of it that
//! are held to account.
use crate::json::{json_of, json_read, member, parse, Json};
use crate::text::same_text;
use serde_json::Value;
use vstd::prelude::*;

verus! {

/// Whom a token is for.
#[derive(Debug)]
pub enum Audience {
    /// A text names one audience.
    One(String),
    /// An array names one with each of its elements that is a text.
    Many(Vec<Option<String>>),
    /// There is no `aud`, or it is neither.
    Unstated,
}

/// What an [`Audience`] says.
pub enum AudienceSaid {
    One(Seq<char>),
    Many(Seq<Option<Seq<char>>>),
    Unstated,
}

/// The text of an optional one.
pub open spec fn text_of(text: Option<String>) -> Option<Seq<char>> {
    match text {
        Some(text) => Some(text@),
        None => None,
    }
}

impl View for Audience {
    type V = AudienceSaid;

    open spec fn view(&self) -> AudienceSaid {
        match self {
            Audience::One(one) => AudienceSaid::One(one@),
            Audience::Many(many) => AudienceSaid::Many(
                many@.map_values(|one: Option<String>| text_of(one)),
            ),
            Audience::Unstated => AudienceSaid::Unstated,
        }
    }
}

/// What an `aud` says.
pub open spec fn audience_said(aud: Option<Json>) -> AudienceSaid {
    match aud {
        Some(Json::Text(one)) => AudienceSaid::One(one),
        Some(Json::Array(many)) => AudienceSaid::Many(many.map_values(|one: Json| one.text())),
        _ => AudienceSaid::Unstated,
    }
}

/// When something is, in seconds since the Unix epoch.
#[derive(Debug, Clone, Copy, PartialEq, Eq, Structural)]
pub enum Stamp {
    /// Nothing says when.
    Absent,
    /// At this time.
    At(i64),
    /// At this time, which may be past what an `i64` holds.
    Late(u64),
    /// Something is there to say when, and it is no integer that can be read.
    Unreadable,
}

/// What a [`Stamp`] says.
pub enum Moment {
    Absent,
    At(int),
    Unreadable,
}

impl View for Stamp {
    type V = Moment;

    open spec fn view(&self) -> Moment {
        match self {
            Stamp::Absent => Moment::Absent,
            Stamp::At(seconds) => Moment::At(*seconds as int),
            Stamp::Late(seconds) => Moment::At(*seconds as int),
            Stamp::Unreadable => Moment::Unreadable,
        }
    }
}

impl Stamp {
    /// The time, where there is one.
    pub fn time(self) -> (time: Option<i128>)
        ensures
            match time {
                Some(seconds) => self@ == Moment::At(seconds as int) && i64::MIN <= seconds
                    <= u64::MAX,
                None => !(self@ is At),
            },
    {
        match self {
            Stamp::At(seconds) => Some(seconds as i128),
            Stamp::Late(seconds) => Some(seconds as i128),
            _ => None,
        }
    }
}

/// What a member that must be an integer says when; `null` is as good as no
/// member.
pub open spec fn moment(member: Option<Json>) -> Moment {
    match member {
        Some(Json::Null) => Moment::Absent,
        Some(inner) => match inner.integer() {
            Some(seconds) => Moment::At(seconds),
            None => Moment::Unreadable,
        },
        None => Moment::Absent,
    }
}

/// The subject of a token.
#[derive(Debug)]
pub enum Subject {
    /// There is no `sub`, or it is `null`.
    Absent,
    /// A text names the subject.
    Named(String),
    /// There is a `sub`, and it is no text.
    Unreadable,
}

/// What a [`Subject`] says.
pub enum SubjectSaid {
    Absent,
    Named(Seq<char>),
    Unreadable,
}

impl View for Subject {
    type V = SubjectSaid;

    open spec fn view(&self) -> SubjectSaid {
        match self {
            Subject::Absent => SubjectSaid::Absent,
            Subject::Named(name) => SubjectSaid::Named(name@),
            Subject::Unreadable => SubjectSaid::Unreadable,
        }
    }
}

/// What a `sub` says; `null` is as good as none.
pub open spec fn subject_said(sub: Option<Json>) -> SubjectSaid {
    match sub {
        Some(Json::Null) => SubjectSaid::Absent,
        Some(inner) => match inner.text() {
            Some(name) => SubjectSaid::Named(name),
            None => SubjectSaid::Unreadable,
        },
        None => SubjectSaid::Absent,
    }
}

/// An introspection response.
#[derive(Debug)]
pub struct Answer {
    pub active: Option<bool>,
    pub exp: Stamp,
    pub nbf: Stamp,
    pub iss: Option<String>,
    pub aud: Audience,
    pub scope: Option<String>,
    pub sub: Subject,
    pub client_id: Option<String>,
}

/// What an [`Answer`] says.
pub struct Said {
    pub active: Option<bool>,
    pub exp: Moment,
    pub nbf: Moment,
    pub iss: Option<Seq<char>>,
    pub aud: AudienceSaid,
    pub scope: Option<Seq<char>>,
    pub sub: SubjectSaid,
    pub client_id: Option<Seq<char>>,
}

impl View for Answer {
    type V = Said;

    open spec fn view(&self) -> Said {
        Said {
            active: self.active,
            exp: self.exp@,
            nbf: self.nbf@,
            iss: text_of(self.iss),
            aud: self.aud@,
            scope: text_of(self.scope),
            sub: self.sub@,
            client_id: text_of(self.client_id),
        }
    }
}

/// The text under a name.
pub open spec fn text_under(json: Json, name: Seq<char>) -> Option<Seq<char>> {
    match json.member(name) {
        Some(inner) => inner.text(),
        None => None,
    }
}

/// The boolean under a name.
pub open spec fn boolean_under(json: Json, name: Seq<char>) -> Option<bool> {
    match json.member(name) {
        Some(inner) => inner.boolean(),
        None => None,
    }
}

/// What a JSON document says as an introspection response. A member that is
/// `null` is as good as none. An `exp`, `nbf` or `sub` that is anything else
/// than the response has it be is told from none; any other member of another
/// type is as good as none.
pub open spec fn said(json: Json) -> Said {
    Said {
        active: boolean_under(json, "active"@),
        exp: moment(json.member("exp"@)),
        nbf: moment(json.member("nbf"@)),
        iss: text_under(json, "iss"@),
        aud: audience_said(json.member("aud"@)),
        scope: text_under(json, "scope"@),
        sub: subject_said(json.member("sub"@)),
        client_id: text_under(json, "client_id"@),
    }
}

fn text_at(value: &Value, name: &str) -> (text: Option<String>)
    ensures
        text_of(text) == text_under(json_of(*value), name@),
{
    match member(value, name) {
        Some(inner) => match inner.as_str() {
            Some(text) => Some(text.to_owned()),
            None => None,
        },
        None => None,
    }
}

fn stamp_at(value: &Value, name: &str) -> (stamp: Stamp)
    ensures
        stamp@ == moment(json_of(*value).member(name@)),
{
    match member(value, name) {
        Some(inner) => if inner.is_null() {
            Stamp::Absent
        } else {
            match inner.as_i64() {
                Some(seconds) => Stamp::At(seconds),
                None => match inner.as_u64() {
                    Some(seconds) => Stamp::Late(seconds),
                    None => Stamp::Unreadable,
                },
            }
        },
        None => Stamp::Absent,
    }
}

fn subject_at(value: &Value, name: &str) -> (subject: Subject)
    ensures
        subject@ == subject_said(json_of(*value).member(name@)),
{
    match member(value, name) {
        Some(inner) => if inner.is_null() {
            Subject::Absent
        } else {
            match inner.as_str() {
                Some(text) => Subject::Named(text.to_owned()),
                None => Subject::Unreadable,
            }
        },
        None => Subject::Absent,
    }
}

fn boolean_at(value: &Value, name: &str) -> (boolean: Option<bool>)
    ensures
        boolean == boolean_under(json_of(*value), name@),
{
    match member(value, name) {
        Some(inner) => inner.as_bool(),
        None => None,
    }
}

fn audience_of(value: &Value) -> (audience: Audience)
    ensures
        audience@ == audience_said(Some(json_of(*value))),
{
    if let Some(one) = value.as_str() {
        return Audience::One(one.to_owned());
    }
    match value.as_array() {
        Some(elements) => {
            let mut many: Vec<Option<String>> = Vec::new();
            let mut i: usize = 0;
            while i < elements.len()
                invariant
                    i <= elements.len(),
                    many.len() == i,
                    forall|j: int|
                        0 <= j < i ==> text_of(#[trigger] many@[j]) == json_of(elements@[j]).text(),
                decreases elements.len() - i,
            {
                let one = match elements[i].as_str() {
                    Some(text) => Some(text.to_owned()),
                    None => None,
                };
                many.push(one);
                i = i + 1;
            }
            assert(many@.map_values(|one: Option<String>| text_of(one)) =~= elements@.map_values(
                |element: Value| json_of(element),
            ).map_values(|one: Json| one.text()));
            Audience::Many(many)
        },
        None => Audience::Unstated,
    }
}

fn answer_of(value: &Value) -> (answer: Answer)
    ensures
        answer@ == said(json_of(*value)),
{
    Answer {
        active: boolean_at(value, "active"),
        exp: stamp_at(value, "exp"),
        nbf: stamp_at(value, "nbf"),
        iss: text_at(value, "iss"),
        aud: match member(value, "aud") {
            Some(aud) => audience_of(aud),
            None => Audience::Unstated,
        },
        scope: text_at(value, "scope"),
        sub: subject_at(value, "sub"),
        client_id: text_at(value, "client_id"),
    }
}

impl Answer {
    /// Reads an introspection response out of the JSON text that it came as,
    /// or says why the text is not JSON.
    pub fn read(body: &str) -> (read: Result<Self, String>)
        ensures
            match json_read(body@) {
                Ok(json) => read matches Ok(answer) && answer@ == said(json),
                Err(failure) => read matches Err(text) && text@ == failure,
            },
    {
        match parse(body) {
            Ok(value) => Ok(answer_of(&value)),
            Err(failure) => Err(failure),
        }
    }
}

/// Whether what an `aud` says names `audience`.
pub open spec fn named(aud: AudienceSaid, audience: Seq<char>) -> bool {
    match aud {
        AudienceSaid::One(one) => one == audience,
        AudienceSaid::Many(many) => many.contains(Some(audience)),
        AudienceSaid::Unstated => false,
    }
}

/// Whether an `aud`, a string or an array of them, names `audience`.
pub fn names(aud: &Audience, audience: &str) -> (yes: bool)
    ensures
        yes == named(aud@, audience@),
{
    match aud {
        Audience::One(one) => same_text(one.as_str(), audience),
        Audience::Many(many) => {
            let ghost said = many@.map_values(|one: Option<String>| text_of(one));
            let mut i: usize = 0;
            while i < many.len()
                invariant
                    i <= many.len(),
                    said == many@.map_values(|one: Option<String>| text_of(one)),
                    aud@ == AudienceSaid::Many(said),
                    forall|j: int| 0 <= j < i ==> #[trigger] said[j] != Some(audience@),
                decreases many.len() - i,
            {
                if let Some(one) = &many[i] {
                    if same_text(one.as_str(), audience) {
                        assert(said[i as int] == Some(audience@));
                        return true;
                    }
                }
                i = i + 1;
            }
            false
        },
        Audience::Unstated => false,
    }
}

} // verus!
