//! A claim as it was presented, and what can come of it: it is verified, or
//! it is refused with a reason.
use crate::text::same_text;
use vstd::prelude::*;

verus! {

/// Why a claim was refused.
#[derive(Debug)]
pub struct AuthenticateError {
    pub message: String,
}

impl AuthenticateError {
    /// A refusal with this reason.
    pub fn new(message: String) -> (error: Self)
        ensures
            error.message == message,
    {
        AuthenticateError { message }
    }
}

/// What a claim that was not refused is.
#[derive(Debug, Clone, Copy, PartialEq, Eq, Structural)]
pub enum Verified {
    /// The claim was proven.
    Proven,
}

/// An outcome, its text for the text of it and its refusal for the reason.
pub open spec fn told(outcome: Result<String, AuthenticateError>) -> Result<Seq<char>, Seq<char>> {
    match outcome {
        Ok(text) => Ok(text@),
        Err(error) => Err(error.message@),
    }
}

/// An outcome, its refusal for the reason.
pub open spec fn ruled<T>(outcome: Result<T, AuthenticateError>) -> Result<T, Seq<char>> {
    match outcome {
        Ok(value) => Ok(value),
        Err(error) => Err(error.message@),
    }
}

/// The mechanism a claim is made by, known by its name.
#[derive(Debug)]
pub struct Mechanism {
    pub name: String,
}

impl View for Mechanism {
    type V = Seq<char>;

    open spec fn view(&self) -> Seq<char> {
        self.name@
    }
}

impl Mechanism {
    /// The mechanism of this name.
    pub fn named(name: &str) -> (mechanism: Self)
        ensures
            mechanism@ == name@,
    {
        Mechanism { name: name.to_owned() }
    }

    /// The mechanism's name.
    pub fn name(&self) -> (name: &str)
        ensures
            name@ == self@,
    {
        self.name.as_str()
    }
}

/// What a claim says: the mechanism, the claimed value, and the proofs that
/// ride along, each under its name.
pub struct Claim {
    pub mechanism: Seq<char>,
    pub value: Seq<char>,
    pub proofs: Map<Seq<char>, Seq<char>>,
}

/// A claim as it was presented.
#[derive(Debug)]
pub struct Presented {
    pub mechanism: Mechanism,
    pub value: String,
    /// Names and proofs; of two under one name the later one holds.
    pub proofs: Vec<(String, String)>,
}

/// The proofs of a list by their names, later ones over earlier ones.
pub open spec fn by_name(proofs: Seq<(String, String)>) -> Map<Seq<char>, Seq<char>>
    decreases proofs.len(),
{
    if proofs.len() == 0 {
        Map::empty()
    } else {
        by_name(proofs.drop_last()).insert(proofs.last().0@, proofs.last().1@)
    }
}

impl View for Presented {
    type V = Claim;

    open spec fn view(&self) -> Claim {
        Claim {
            mechanism: self.mechanism@,
            value: self.value@,
            proofs: by_name(self.proofs@),
        }
    }
}

impl Presented {
    /// A claim to be `value` by `mechanism`, with no proof yet.
    pub fn passed(mechanism: Mechanism, value: &str) -> (presented: Self)
        ensures
            presented@ == (Claim { mechanism: mechanism@, value: value@, proofs: Map::empty() }),
    {
        Presented { mechanism, value: value.to_owned(), proofs: Vec::new() }
    }

    /// The same claim with this proof under this name.
    pub fn with_proof(self, name: &str, given: &str) -> (presented: Self)
        ensures
            presented@ == (Claim { proofs: self@.proofs.insert(name@, given@), ..self@ }),
    {
        let mut proofs = self.proofs;
        let ghost before = proofs@;
        proofs.push((name.to_owned(), given.to_owned()));
        assert(proofs@.drop_last() =~= before);
        Presented { mechanism: self.mechanism, value: self.value, proofs }
    }

    /// The proof under this name, if there is one.
    pub fn proof_named(&self, name: &str) -> (found: Option<&str>)
        ensures
            match found {
                Some(given) => self@.proofs.dom().contains(name@) && self@.proofs[name@] == given@,
                None => !self@.proofs.dom().contains(name@),
            },
    {
        let mut i: usize = self.proofs.len();
        assert(self.proofs@.take(i as int) =~= self.proofs@);
        while i > 0
            invariant
                i <= self.proofs.len(),
                by_name(self.proofs@).dom().contains(name@) <==> by_name(
                    self.proofs@.take(i as int),
                ).dom().contains(name@),
                by_name(self.proofs@).dom().contains(name@) ==> by_name(self.proofs@)[name@]
                    == by_name(self.proofs@.take(i as int))[name@],
            decreases i,
        {
            i = i - 1;
            assert(self.proofs@.take(i + 1).drop_last() =~= self.proofs@.take(i as int));
            if same_text(self.proofs[i].0.as_str(), name) {
                return Some(self.proofs[i].1.as_str());
            }
        }
        None
    }
}

} // verus!
