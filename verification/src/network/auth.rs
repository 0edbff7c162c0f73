//! Authentication: identities, and the interface that establishes them.
//!
//! The network layer defines the identity interface, never a concrete
//! provider. [`TokenAuthenticator`] is a deterministic table of tokens for
//! tests and development.

use vstd::prelude::*;
use vstd::std_specs::cmp::PartialEqSpec;
use vstd::string::*;

use crate::base::text::{decimal, join, number};
use crate::network::error::{AuthError, AuthErrorView};

verus! {

/// A protocol-independent player or operator identity.
#[derive(Debug, Eq)]
pub struct Principal {
    id: u64,
    name: String,
}

/// The mathematical content of a [`Principal`].
pub struct PrincipalView {
    pub id: u64,
    pub name: Seq<char>,
}

impl View for Principal {
    type V = PrincipalView;

    closed spec fn view(&self) -> PrincipalView {
        PrincipalView { id: self.id, name: self.name@ }
    }
}

impl Principal {
    /// Creates a principal.
    pub fn new(id: u64, name: &str) -> (principal: Principal)
        ensures
            principal@ == (PrincipalView { id, name: name@ }),
    {
        Principal { id, name: name.to_owned() }
    }

    /// The stable numeric id, used as the authoritative command source.
    pub fn id(&self) -> (id: u64)
        ensures
            id == self@.id,
    {
        self.id
    }

    /// The display name.
    pub fn name(&self) -> (name: &str)
        ensures
            name@ == self@.name,
    {
        self.name.as_str()
    }

    /// The text shown to people: the name, then the id in brackets.
    pub fn to_text(&self) -> (text: String)
        ensures
            text@ == self@.name + " ("@ + decimal(self@.id as nat) + ")"@,
    {
        let mut text = join(self.name.as_str(), " (");
        let digits = number(self.id);
        text.append(digits.as_str());
        text.append(")");
        text
    }
}

/// Two principals are the same if both their ids and their names are.
impl PartialEq for Principal {
    fn eq(&self, other: &Self) -> (same: bool) {
        self.id == other.id && self.name == other.name
    }
}

impl vstd::std_specs::cmp::PartialEqSpecImpl for Principal {
    open spec fn obeys_eq_spec() -> bool {
        true
    }

    open spec fn eq_spec(&self, other: &Self) -> bool {
        self@ == other@
    }
}

/// Comparing two principals compares their ids and their names: they are the
/// same exactly if both are.
pub proof fn principals_are_told_by_id_and_name(a: Principal, b: Principal)
    ensures
        Principal::obeys_eq_spec(),
        a.eq_spec(&b) <==> a@.id == b@.id && a@.name == b@.name,
{
    assert(a@ == (PrincipalView { id: a@.id, name: a@.name }));
}

impl Clone for Principal {
    fn clone(&self) -> (copy: Self)
        ensures
            copy@ == self@,
    {
        Principal { id: self.id, name: self.name.clone() }
    }
}

/// The content of an authentication outcome.
pub open spec fn outcome_view(outcome: Result<Principal, AuthError>) -> Result<
    PrincipalView,
    AuthErrorView,
> {
    match outcome {
        Ok(principal) => Ok(principal@),
        Err(error) => Err(error@),
    }
}

/// The authentication interface. Implementations are stateless hooks; the
/// gateway owns the session lifecycle.
pub trait Authenticator {
    /// Maps opaque credentials to a [`Principal`], or fails.
    fn authenticate(&self, credentials: &str) -> Result<Principal, AuthError>;
}

/// A deterministic table from tokens to principals. Tokens are opaque, not
/// empty, and each maps to one principal.
pub struct TokenAuthenticator {
    tokens: Vec<(String, Principal)>,
}

/// The principal of a token in a table of tokens.
pub open spec fn token_lookup(
    table: Map<Seq<char>, PrincipalView>,
    token: Seq<char>,
) -> Result<PrincipalView, AuthErrorView> {
    if table.contains_key(token) {
        Ok(table[token])
    } else {
        Err(AuthErrorView::InvalidCredentials)
    }
}

impl View for TokenAuthenticator {
    type V = Map<Seq<char>, PrincipalView>;

    closed spec fn view(&self) -> Map<Seq<char>, PrincipalView> {
        token_table(self.tokens@)
    }
}

spec fn token_table(tokens: Seq<(String, Principal)>) -> Map<Seq<char>, PrincipalView>
    decreases tokens.len(),
{
    if tokens.len() == 0 {
        Map::empty()
    } else {
        token_table(tokens.drop_last()).insert(tokens.last().0@, tokens.last().1@)
    }
}

proof fn token_table_has(tokens: Seq<(String, Principal)>, token: Seq<char>)
    ensures
        token_table(tokens).contains_key(token) <==> exists|i: int|
            0 <= i < tokens.len() && (#[trigger] tokens[i]).0@ == token,
    decreases tokens.len(),
{
    if tokens.len() > 0 {
        let shorter = tokens.drop_last();
        token_table_has(shorter, token);
        if token_table(shorter).contains_key(token) {
            let i = choose|i: int| 0 <= i < shorter.len() && (#[trigger] shorter[i]).0@ == token;
            assert(tokens[i].0@ == token);
        }
        if exists|i: int| 0 <= i < tokens.len() && (#[trigger] tokens[i]).0@ == token {
            let i = choose|i: int| 0 <= i < tokens.len() && (#[trigger] tokens[i]).0@ == token;
            if i < shorter.len() {
                assert(shorter[i].0@ == token);
            }
        }
    }
}

proof fn token_table_at(tokens: Seq<(String, Principal)>, i: int)
    requires
        0 <= i < tokens.len(),
        forall|j: int| i < j < tokens.len() ==> (#[trigger] tokens[j]).0@ != tokens[i].0@,
    ensures
        token_table(tokens)[tokens[i].0@] == tokens[i].1@,
    decreases tokens.len(),
{
    if i < tokens.len() - 1 {
        let shorter = tokens.drop_last();
        assert forall|j: int| i < j < shorter.len() implies (#[trigger] shorter[j]).0@
            != shorter[i].0@ by {
            assert(shorter[j] == tokens[j]);
        }
        token_table_at(shorter, i);
    }
}

impl TokenAuthenticator {
    /// Creates an empty authenticator.
    pub fn new() -> (table: TokenAuthenticator)
        ensures
            table@ == Map::<Seq<char>, PrincipalView>::empty(),
    {
        TokenAuthenticator { tokens: Vec::new() }
    }

    fn place(&self, token: &str) -> (place: Option<usize>)
        ensures
            match place {
                Some(i) => i < self.tokens@.len() && self.tokens@[i as int].0@ == token@ && (
                forall|j: int| i < j < self.tokens@.len() ==> (#[trigger] self.tokens@[j]).0@
                    != token@),
                None => !self@.contains_key(token@),
            },
    {
        let key = token.to_owned();
        let mut i: usize = self.tokens.len();
        while i > 0
            invariant
                key@ == token@,
                i <= self.tokens@.len(),
                forall|j: int|
                    i <= j < self.tokens@.len() ==> (#[trigger] self.tokens@[j]).0@ != token@,
            decreases i,
        {
            i = i - 1;
            if self.tokens[i].0 == key {
                return Some(i);
            }
        }
        proof {
            token_table_has(self.tokens@, token@);
        }
        None
    }

    /// Maps `token` to `principal`. An empty token and a token that maps to
    /// a principal already are refused with [`AuthError::Internal`].
    pub fn add(&mut self, token: &str, principal: Principal) -> (outcome: Result<(), AuthError>)
        ensures
            match outcome {
                Ok(_) => token@.len() > 0 && !old(self)@.contains_key(token@) && final(self)@
                    == old(self)@.insert(token@, principal@),
                Err(e) => final(self)@ == old(self)@ && if token@.len() == 0 {
                    e@ == AuthErrorView::Internal("token must not be empty"@)
                } else {
                    old(self)@.contains_key(token@) && e@ == AuthErrorView::Internal(
                        "token already maps to a principal"@,
                    )
                },
            },
    {
        if token.is_empty() {
            return Err(AuthError::Internal("token must not be empty".to_owned()));
        }
        match self.place(token) {
            Some(i) => {
                proof {
                    assert(self.tokens@[i as int].0@ == token@);
                    token_table_has(self.tokens@, token@);
                }
                Err(AuthError::Internal("token already maps to a principal".to_owned()))
            },
            None => {
                let ghost before = self.tokens@;
                proof {
                    token_table_has(before, token@);
                }
                self.tokens.push((token.to_owned(), principal));
                assert(self.tokens@.drop_last() =~= before);
                Ok(())
            },
        }
    }
}

impl Default for TokenAuthenticator {
    fn default() -> (table: Self)
        ensures
            table@ == Map::<Seq<char>, PrincipalView>::empty(),
    {
        TokenAuthenticator::new()
    }
}

impl Authenticator for TokenAuthenticator {
    /// The principal the token maps to; any other token is refused with
    /// [`AuthError::InvalidCredentials`].
    fn authenticate(&self, credentials: &str) -> (outcome: Result<Principal, AuthError>)
        ensures
            outcome_view(outcome) == token_lookup(self@, credentials@),
    {
        match self.place(credentials) {
            Some(i) => {
                proof {
                    assert(self.tokens@[i as int].0@ == credentials@);
                    token_table_has(self.tokens@, credentials@);
                    token_table_at(self.tokens@, i as int);
                }
                Ok(self.tokens[i].1.clone())
            },
            None => Err(AuthError::InvalidCredentials),
        }
    }
}

/// A token stands for the principal it was mapped to, and for nobody else; one
/// that was never mapped is refused as invalid credentials.
pub proof fn tokens_stand_for_their_principal(
    table: Map<Seq<char>, PrincipalView>,
    token: Seq<char>,
    principal: PrincipalView,
    other: Seq<char>,
)
    ensures
        token_lookup(table.insert(token, principal), token) == Ok::<PrincipalView, AuthErrorView>(
            principal,
        ),
        other != token ==> token_lookup(table.insert(token, principal), other) == token_lookup(
            table,
            other,
        ),
        token_lookup(Map::empty(), token) == Err::<PrincipalView, AuthErrorView>(
            AuthErrorView::InvalidCredentials,
        ),
{
}

} // verus!
