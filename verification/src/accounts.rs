//! Users, sessions and aircraft records: the parts of account handling
//! that compute rather than store.
//!
//! Session tokens are stored only as a SHA-256 hash: the token is a
//! bearer credential, so a leaked dump of the session table must not be
//! usable. Lookup hashes the presented token and matches on that.
use crate::text::str_eq;
use vstd::prelude::*;
use vstd::string::*;

verus! {

/// A signed-in identity as stored: the provider that vouched for it, its
/// provider-local stable id, and the row id that owns the data.
#[derive(Debug, Clone, PartialEq)]
pub struct StoredUser {
    pub id: i64,
    pub provider: String,
    pub subject: String,
    pub display_name: String,
    pub email: Option<String>,
    pub avatar_url: Option<String>,
}

/// The phase of flight a performance table row belongs to.
#[derive(Debug, Clone, Copy, PartialEq, Eq, Structural)]
pub enum Phase {
    Climb,
    Cruise,
    Descent,
}

pub open spec fn phase_name(p: Phase) -> Seq<char> {
    match p {
        Phase::Climb => "climb"@,
        Phase::Cruise => "cruise"@,
        Phase::Descent => "descent"@,
    }
}

impl Phase {
    /// The phase's stored name.
    pub fn as_str(self) -> (r: &'static str)
        ensures
            r@ == phase_name(self),
    {
        match self {
            Phase::Climb => "climb",
            Phase::Cruise => "cruise",
            Phase::Descent => "descent",
        }
    }

    /// The phase a stored name names.
    pub fn parse(s: &str) -> (r: Option<Phase>)
        ensures
            r == parse_spec(s@),
    {
        if str_eq(s, "climb") {
            Some(Phase::Climb)
        } else if str_eq(s, "cruise") {
            Some(Phase::Cruise)
        } else if str_eq(s, "descent") {
            Some(Phase::Descent)
        } else {
            None
        }
    }
}

pub open spec fn parse_spec(s: Seq<char>) -> Option<Phase> {
    if s == "climb"@ {
        Some(Phase::Climb)
    } else if s == "cruise"@ {
        Some(Phase::Cruise)
    } else if s == "descent"@ {
        Some(Phase::Descent)
    } else {
        None
    }
}

/// Reading back a phase's stored name gives the phase.
pub proof fn lemma_phase_round_trip(p: Phase)
    ensures
        parse_spec(phase_name(p)) == Some(p),
{
    reveal_strlit("climb");
    reveal_strlit("cruise");
    reveal_strlit("descent");
    assert("climb"@.len() == 5 && "cruise"@.len() == 6 && "descent"@.len() == 7);
}

/// The SHA-256 digest of `bytes`.
pub uninterp spec fn sha256(bytes: Seq<u8>) -> Seq<u8>;

/// Trusted: `sha2::Sha256::digest` (RustCrypto), as bytes. Its result is
/// a function of the input alone, 32 bytes long (`Sha256`'s output size
/// is `U32`).
#[verifier::external_body]
fn sha256_digest(bytes: &[u8]) -> (r: Vec<u8>)
    ensures
        r@ == sha256(bytes@),
        r@.len() == 32,
{
    <sha2::Sha256 as sha2::Digest>::digest(bytes).to_vec()
}

/// SHA-256 of the bearer token's UTF-8 bytes: what the session table
/// stores in place of the token.
pub fn token_hash(token: &str) -> (r: Vec<u8>)
    ensures
        r@ == sha256(token.spec_bytes()),
        r@.len() == 32,
{
    sha256_digest(token.as_bytes())
}

} // verus!
