//! Verification of basic-auth credentials against one configured user and
//! password hash, with a single-slot cache of the verified password.
//!
//! Checking a password against a bcrypt hash is slow on purpose. After one
//! successful check the plaintext is kept, and later requests are compared
//! with it instead. A failed attempt changes nothing.

use vstd::prelude::*;
use vstd::string::StringExecFns;

use crate::text::str_eq;

verus! {

/// What bcrypt makes of a password and a hash: whether they match, or
/// `None` where the hash is malformed.
pub uninterp spec fn bcrypt_verdict(password: Seq<char>, hash: Seq<char>) -> Option<bool>;

/// `bcrypt::verify`: the outcome depends on the password and the hash alone;
/// any error is reported as `None`.
#[verifier::external_body]
fn bcrypt_verify(password: &str, hash: &str) -> (out: Option<bool>)
    ensures
        out == bcrypt_verdict(password@, hash@),
{
    bcrypt::verify(password, hash).ok()
}

/// The configured credentials and the cached password.
pub struct AuthInfo {
    /// The configured user name.
    pub user: String,
    /// The configured bcrypt hash of the password.
    pub hash: String,
    /// The password that was verified, once one was.
    pub cached_pass: Option<String>,
}

/// The mathematical value of an [`AuthInfo`].
pub ghost struct AuthView {
    pub user: Seq<char>,
    pub hash: Seq<char>,
    pub cached: Option<Seq<char>>,
}

impl View for AuthInfo {
    type V = AuthView;

    open spec fn view(&self) -> AuthView {
        AuthView {
            user: self.user@,
            hash: self.hash@,
            cached: match self.cached_pass {
                Some(p) => Some(p@),
                None => None,
            },
        }
    }
}

impl AuthView {
    /// Whether these credentials can only be judged by the hash: the user is
    /// the configured one and no password is cached.
    pub open spec fn needs_hash(self, user: Seq<char>) -> bool {
        user == self.user && self.cached is None
    }

    /// Whether the credentials are accepted, given what the hash check says
    /// of the password. A wrong user is never accepted; a cached password
    /// decides by equality; else the hash check decides.
    pub open spec fn accepts(self, user: Seq<char>, password: Seq<char>, verdict: Option<bool>)
        -> bool {
        user == self.user && match self.cached {
            Some(cached) => cached == password,
            None => verdict == Some(true),
        }
    }

    /// The state after the credentials were judged: the password is cached
    /// where the hash check has just accepted it, and nothing changes
    /// otherwise.
    pub open spec fn after(self, user: Seq<char>, password: Seq<char>, verdict: Option<bool>)
        -> AuthView {
        if self.needs_hash(user) && verdict == Some(true) {
            AuthView { user: self.user, hash: self.hash, cached: Some(password) }
        } else {
            self
        }
    }
}

/// Checks a password against a bcrypt hash: whether they match, or `None`
/// where the hash is malformed. This is the slow step, which needs no access
/// to the cached password.
pub fn hash_verdict(password: &str, hash: &str) -> (out: Option<bool>)
    ensures
        out == bcrypt_verdict(password@, hash@),
{
    bcrypt_verify(password, hash)
}

impl AuthInfo {
    /// The state for one configured user, with nothing cached.
    pub fn new(user: &str, hash: &str) -> (out: AuthInfo)
        ensures
            out@ == (AuthView { user: user@, hash: hash@, cached: None }),
    {
        AuthInfo { user: String::from_str(user), hash: String::from_str(hash), cached_pass: None }
    }

    /// Whether judging these credentials takes a hash check.
    pub fn needs_hash(&self, user: &str) -> (needed: bool)
        ensures
            needed == self@.needs_hash(user@),
    {
        str_eq(user, self.user.as_str()) && self.cached_pass.is_none()
    }

    /// Judges the credentials, given the outcome of the hash check of the
    /// password (which is looked at only where a hash check is needed), and
    /// caches the password where the check has just accepted it.
    pub fn settle(&mut self, user: &str, password: &str, verdict: Option<bool>) -> (ok: bool)
        ensures
            ok == old(self)@.accepts(user@, password@, verdict),
            final(self)@ == old(self)@.after(user@, password@, verdict),
    {
        if !str_eq(user, self.user.as_str()) {
            return false;
        }
        match &self.cached_pass {
            Some(cached) => str_eq(cached.as_str(), password),
            None => {
                match verdict {
                    Some(true) => {
                        self.cached_pass = Some(String::from_str(password));
                        true
                    },
                    _ => false,
                }
            },
        }
    }

    /// Verifies the credentials. The hash check is made only for the
    /// configured user and only while no password is cached.
    pub fn verify(&mut self, user: &str, password: &str) -> (ok: bool)
        ensures
            ok == old(self)@.accepts(
                user@,
                password@,
                bcrypt_verdict(password@, old(self)@.hash),
            ),
            final(self)@ == old(self)@.after(
                user@,
                password@,
                bcrypt_verdict(password@, old(self)@.hash),
            ),
    {
        let verdict = if self.needs_hash(user) {
            hash_verdict(password, self.hash.as_str())
        } else {
            None
        };
        self.settle(user, password, verdict)
    }
}

/// Decides whether a request with these basic-auth credentials goes on. A
/// request without a password is turned away like one with a wrong
/// password, and leaves the state as it was.
pub fn basic_auth(info: &mut AuthInfo, user: &str, password: Option<&str>) -> (ok: bool)
    ensures
        match password {
            Some(p) => {
                &&& ok == old(info)@.accepts(user@, p@, bcrypt_verdict(p@, old(info)@.hash))
                &&& final(info)@ == old(info)@.after(user@, p@, bcrypt_verdict(p@, old(info)@.hash))
            },
            None => !ok && final(info)@ == old(info)@,
        },
{
    match password {
        Some(p) => info.verify(user, p),
        None => false,
    }
}

/// Credentials for another user than the configured one are never accepted
/// and never change the state, whatever the password.
pub proof fn lemma_wrong_user_fails(
    s: AuthView,
    user: Seq<char>,
    password: Seq<char>,
    verdict: Option<bool>,
)
    requires
        user != s.user,
    ensures
        !s.accepts(user, password, verdict),
        s.after(user, password, verdict) == s,
{
}

/// Once a password is cached, no hash check is needed or looked at: the
/// credentials are accepted exactly when user and password are the
/// configured user and the cached password.
pub proof fn lemma_cached_decides(
    s: AuthView,
    user: Seq<char>,
    password: Seq<char>,
    verdict: Option<bool>,
)
    requires
        s.cached is Some,
    ensures
        !s.needs_hash(user),
        s.accepts(user, password, verdict) == (user == s.user && password == s.cached->Some_0),
        s.after(user, password, verdict) == s,
{
}

/// A failed attempt never changes the state, and the state changes only by
/// caching a password that has just been accepted.
pub proof fn lemma_failure_keeps_state(
    s: AuthView,
    user: Seq<char>,
    password: Seq<char>,
    verdict: Option<bool>,
)
    ensures
        !s.accepts(user, password, verdict) ==> s.after(user, password, verdict) == s,
        s.after(user, password, verdict) != s ==> s.accepts(user, password, verdict) && s.after(
            user,
            password,
            verdict,
        ).cached == Some(password),
        s.after(user, password, verdict).user == s.user,
        s.after(user, password, verdict).hash == s.hash,
{
}

/// After credentials were accepted, the same credentials are accepted again
/// without a hash check.
pub proof fn lemma_accepted_again(
    s: AuthView,
    user: Seq<char>,
    password: Seq<char>,
    verdict: Option<bool>,
    later: Option<bool>,
)
    requires
        s.accepts(user, password, verdict),
    ensures
        !s.after(user, password, verdict).needs_hash(user),
        s.after(user, password, verdict).accepts(user, password, later),
{
}

} // verus!
