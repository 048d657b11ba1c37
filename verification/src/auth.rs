//! The authentication service: password hashing and verification through
//! argon2, bearer-token issuance and verification through jsonwebtoken,
//! and an in-memory credential store keyed by username. The two outside
//! crates are reached only through the trusted wrappers here; everything
//! around them is verified.

use vstd::prelude::*;
use crate::strutil::{alist_get, alist_view, str_eq};

verus! {

/// Whether the password-hashing scheme accepts `password` against the
/// self-describing hash string `hash`. Names the combined result of
/// argon2's `PasswordHash::new` and `Argon2::verify_password`, which
/// depends on those two arguments alone.
pub uninterp spec fn verifies(password: Seq<char>, hash: Seq<char>) -> bool;

/// The claims a token string carries when its signature checks out under
/// `key`: the subject and the expiry timestamp, or `None` for a
/// malformed, unsigned or foreign token. Names the result of
/// jsonwebtoken's `decode` with signature-only validation, which depends
/// on those two arguments alone.
pub uninterp spec fn decoded_claims(key: Seq<u8>, token: Seq<char>) -> Option<(Seq<char>, u64)>;

/// The token string that signing `{sub, exp}` with `key` produces. Names
/// the result of jsonwebtoken's `encode` with the default HS256 header,
/// which is an HMAC over a fixed serialization and so depends on those
/// three arguments alone: issuance is deterministic.
pub uninterp spec fn token_of(key: Seq<u8>, sub: Seq<char>, exp: u64) -> Seq<char>;

/// The shape of a PHC hash string as argon2 emits it: it begins with
/// `$argon2`, naming the algorithm rather than carrying a plaintext.
pub open spec fn is_phc_string(s: Seq<char>) -> bool {
    s.len() >= 7 && s.subrange(0, 7) == "$argon2"@
}

/// Relies on argon2: `SaltString::generate` draws a fresh random salt,
/// and `Argon2::default().hash_password` emits a PHC hash string — it
/// begins `$argon2`, never the plaintext — that `verify_password`
/// accepts for the same password.
#[verifier::external_body]
pub fn hash_password(password: &str) -> (r: Option<String>)
    ensures
        r matches Some(h) ==> verifies(password@, h@) && is_phc_string(h@),
{
    let salt = argon2::password_hash::SaltString::generate(
        &mut argon2::password_hash::rand_core::OsRng,
    );
    match argon2::PasswordHasher::hash_password(
        &argon2::Argon2::default(),
        password.as_bytes(),
        &salt,
    ) {
        Ok(h) => Some(h.to_string()),
        Err(_) => None,
    }
}

/// Relies on argon2: `PasswordHash::new` parses the PHC hash string (a
/// malformed one never verifies), and `Argon2::default().verify_password`
/// recomputes the hash with the embedded salt and compares.
#[verifier::external_body]
pub fn verify_password(password: &str, hash: &str) -> (r: bool)
    ensures
        r == verifies(password@, hash@),
{
    match argon2::password_hash::PasswordHash::new(hash) {
        Ok(parsed) => argon2::PasswordVerifier::verify_password(
            &argon2::Argon2::default(),
            password.as_bytes(),
            &parsed,
        ).is_ok(),
        Err(_) => false,
    }
}

/// Relies on jsonwebtoken: `encode` with the default HS256 header signs
/// the `{sub, exp}` claims with `key` deterministically, and `decode`
/// under the same key gives those claims back. For HS256 with a byte
/// secret `encode` cannot fail: the algorithm families agree, the JSON
/// map serializes, and the HMAC is total.
#[verifier::external_body]
fn encode_claims(key: &[u8], sub: &str, exp: u64) -> (r: String)
    ensures
        r@ == token_of(key@, sub@, exp),
        decoded_claims(key@, r@) == Some((sub@, exp)),
{
    let mut claims = serde_json::Map::new();
    claims.insert("sub".to_string(), serde_json::Value::String(sub.to_string()));
    claims.insert("exp".to_string(), serde_json::Value::Number(serde_json::Number::from(exp)));
    jsonwebtoken::encode(
        &jsonwebtoken::Header::default(),
        &serde_json::Value::Object(claims),
        &jsonwebtoken::EncodingKey::from_secret(key),
    ).expect("HS256 with a byte secret cannot fail")
}

/// Relies on jsonwebtoken: `decode` with expiry checking turned off and
/// no required claims accepts exactly the HS256 tokens signed with `key`,
/// and hands their claims back; the expiry is checked by the verified
/// caller instead.
#[verifier::external_body]
fn decode_claims(key: &[u8], token: &str) -> (r: Option<(String, u64)>)
    ensures
        match r {
            Some(c) => decoded_claims(key@, token@) == Some((c.0@, c.1)),
            None => decoded_claims(key@, token@) is None,
        },
{
    let mut validation = jsonwebtoken::Validation::default();
    validation.validate_exp = false;
    validation.required_spec_claims = std::collections::HashSet::new();
    let data = jsonwebtoken::decode::<serde_json::Value>(
        token,
        &jsonwebtoken::DecodingKey::from_secret(key),
        &validation,
    ).ok()?;
    let sub = data.claims.get("sub")?.as_str()?.to_string();
    let exp = data.claims.get("exp")?.as_u64()?;
    Some((sub, exp))
}

/// Relies on jsonwebtoken::get_current_timestamp: seconds since the Unix
/// epoch, by the machine's clock.
#[verifier::external_body]
pub fn now_seconds() -> u64 {
    jsonwebtoken::get_current_timestamp()
}

/// How long an issued token stays valid, in seconds.
pub const TOKEN_TTL_SECONDS: u64 = 60;

/// Why an authentication step failed.
#[derive(Clone, Copy, PartialEq, Eq, Structural, Debug)]
pub enum AuthError {
    /// No credential record for the username.
    UserDoesNotExist,
    /// The credential exists but the password does not verify.
    InvalidPassword,
    /// The token is malformed, unsigned, or signed with another key.
    InvalidToken,
    /// The token's expiry is not after the present moment.
    ExpiredToken,
    /// Hashing failed.
    InternalError,
}

/// The decoded payload of an accepted bearer token.
#[derive(Debug)]
pub struct TokenClaims {
    pub subject: String,
    pub expiry: u64,
}

impl View for TokenClaims {
    type V = (Seq<char>, u64);

    open spec fn view(&self) -> (Seq<char>, u64) {
        (self.subject@, self.expiry)
    }
}

/// Issue a signed token for `subject` expiring at `now + ttl`. Issuance
/// is deterministic and, for this scheme, cannot fail.
pub fn issue_token(key: &[u8], subject: &str, now: u64, ttl: u64) -> (r: String)
    requires
        now + ttl <= u64::MAX,
    ensures
        r@ == token_of(key@, subject@, (now + ttl) as u64),
        decoded_claims(key@, r@) == Some((subject@, (now + ttl) as u64)),
{
    encode_claims(key, subject, now + ttl)
}

/// Verify a token against `key` at time `now`: the signature must check
/// out and the expiry must lie strictly after `now`.
pub fn verify_token(key: &[u8], token: &str, now: u64) -> (r: Result<TokenClaims, AuthError>)
    ensures
        match r {
            Ok(c) => decoded_claims(key@, token@) == Some(c@) && c.expiry > now,
            Err(e) => match decoded_claims(key@, token@) {
                None => e == AuthError::InvalidToken,
                Some(c) => c.1 <= now && e == AuthError::ExpiredToken,
            },
        },
{
    match decode_claims(key, token) {
        Some(c) => {
            if c.1 > now {
                Ok(TokenClaims { subject: c.0, expiry: c.1 })
            } else {
                Err(AuthError::ExpiredToken)
            }
        },
        None => Err(AuthError::InvalidToken),
    }
}

/// The in-memory credential store: username, hash pairs with unique
/// usernames. The kernel never stores a plaintext password.
pub struct CredentialStore {
    users: Vec<(String, String)>,
}

/// Unique usernames in a credential list.
pub open spec fn creds_wf(v: Seq<(String, String)>) -> bool {
    forall|i: int, j: int| 0 <= i < j < v.len() ==> (#[trigger] v[i]).0@ != (#[trigger] v[j]).0@
}

impl View for CredentialStore {
    type V = Seq<(Seq<char>, Seq<char>)>;

    closed spec fn view(&self) -> Seq<(Seq<char>, Seq<char>)> {
        alist_view(self.users@)
    }
}

proof fn lemma_alist_update(m: Seq<(String, String)>, i: int, v: Seq<char>, k: Seq<char>)
    requires
        creds_wf(m),
        0 <= i < m.len(),
    ensures
        forall|nv: (String, String)|
            (#[trigger] nv.0@) == m[i].0@ && nv.1@ == v ==> alist_get(
                alist_view(m.update(i, nv)),
                k,
            ) == if k == m[i].0@ {
                Some(v)
            } else {
                alist_get(alist_view(m), k)
            },
    decreases m.len(),
{
    assert forall|nv: (String, String)| (#[trigger] nv.0@) == m[i].0@ && nv.1@ == v implies
        alist_get(alist_view(m.update(i, nv)), k) == if k == m[i].0@ {
        Some(v)
    } else {
        alist_get(alist_view(m), k)
    } by {
        let m2 = m.update(i, nv);
        assert(alist_view(m2)[i] == (m[i].0@, v));
        if i == 0 {
            assert(alist_view(m2).drop_first() =~= alist_view(m).drop_first());
            assert(alist_view(m2)[0] == (m[i].0@, v));
        } else {
            assert(alist_view(m2)[0] == alist_view(m)[0]);
            assert(m[0].0@ != m[i].0@);
            assert(m.drop_first().update(i - 1, nv) =~= m2.drop_first());
            assert(creds_wf(m.drop_first())) by {
                assert forall|a: int, b: int|
                    0 <= a < b < m.drop_first().len() implies (#[trigger] m.drop_first()[a]).0@ != (
                #[trigger] m.drop_first()[b]).0@ by {
                    assert(m.drop_first()[a] == m[a + 1]);
                    assert(m.drop_first()[b] == m[b + 1]);
                }
            }
            lemma_alist_update(m.drop_first(), i - 1, v, k);
            assert(alist_view(m2).drop_first() =~= alist_view(m2.drop_first()));
            assert(alist_view(m).drop_first() =~= alist_view(m.drop_first()));
        }
    }
}

proof fn lemma_alist_append(m: Seq<(String, String)>, nv: (String, String), k: Seq<char>)
    requires
        alist_get(alist_view(m), nv.0@) is None,
    ensures
        alist_get(alist_view(m.push(nv)), k) == if k == nv.0@ {
            Some(nv.1@)
        } else {
            alist_get(alist_view(m), k)
        },
    decreases m.len(),
{
    let m2 = m.push(nv);
    if m.len() == 0 {
        assert(alist_view(m2)[0] == (nv.0@, nv.1@));
        assert(alist_view(m2).drop_first() =~= alist_view(m));
    } else {
        assert(alist_view(m2)[0] == alist_view(m)[0]);
        assert(alist_view(m).drop_first() =~= alist_view(m.drop_first()));
        assert(m.drop_first().push(nv) =~= m2.drop_first());
        assert(alist_view(m2).drop_first() =~= alist_view(m2.drop_first()));
        lemma_alist_append(m.drop_first(), nv, k);
    }
}

impl CredentialStore {
    /// An empty store.
    pub fn new() -> (r: CredentialStore)
        ensures
            r@ =~= Seq::<(Seq<char>, Seq<char>)>::empty(),
            r.wf(),
    {
        CredentialStore { users: Vec::new() }
    }

    /// The store's invariant: usernames are unique keys.
    pub closed spec fn wf(&self) -> bool {
        creds_wf(self.users@)
    }

    /// Spec-level lookup of the hash stored for a username.
    pub open spec fn spec_lookup(&self, username: Seq<char>) -> Option<Seq<char>> {
        alist_get(self@, username)
    }

    /// The hash stored for `username`, if any.
    pub fn lookup(&self, username: &str) -> (r: Option<String>)
        ensures
            match r {
                Some(h) => self.spec_lookup(username@) == Some(h@),
                None => self.spec_lookup(username@) is None,
            },
    {
        crate::strutil::alist_lookup(&self.users, username)
    }

    /// Store `hash` for `username`, overwriting an existing record: the
    /// policy on an already-taken username is to replace its credential.
    pub fn upsert(&mut self, username: &str, hash: String)
        requires
            old(self).wf(),
        ensures
            final(self).wf(),
            final(self).spec_lookup(username@) == Some(hash@),
            forall|k: Seq<char>|
                k != username@ ==> final(self).spec_lookup(k) == old(self).spec_lookup(k),
    {
        let n = self.users.len();
        let mut i: usize = 0;
        while i < n
            invariant
                n == self.users.len(),
                0 <= i <= n,
                self.users@ == old(self).users@,
                creds_wf(self.users@),
                forall|j: int| 0 <= j < i ==> (#[trigger] self.users@[j]).0@ != username@,
            decreases n - i,
        {
            if str_eq(self.users[i].0.as_str(), username) {
                let ghost oldusers = self.users@;
                let owned = self.users[i].0.clone();
                self.users.set(i, (owned, hash));
                proof {
                    assert(self.users@ =~= oldusers.update(
                        i as int,
                        (self.users@[i as int].0, self.users@[i as int].1),
                    ));
                    lemma_alist_update(
                        oldusers,
                        i as int,
                        self.users@[i as int].1@,
                        username@,
                    );
                    assert forall|k: Seq<char>| k != username@ implies alist_get(
                        alist_view(self.users@),
                        k,
                    ) == alist_get(alist_view(oldusers), k) by {
                        lemma_alist_update(
                            oldusers,
                            i as int,
                            self.users@[i as int].1@,
                            k,
                        );
                    }
                    assert forall|a: int, b: int|
                        0 <= a < b < self.users@.len() implies (#[trigger] self.users@[a]).0@ != (
                    #[trigger] self.users@[b]).0@ by {
                        assert(oldusers[a].0@ != oldusers[b].0@);
                    }
                }
                return ;
            }
            i = i + 1;
        }
        proof {
            lemma_alist_none_from_all(self.users@, username@);
        }
        let ghost oldusers = self.users@;
        let owned = username.to_owned();
        self.users.push((owned, hash));
        proof {
            let nv = self.users@[self.users@.len() - 1];
            assert(self.users@ =~= oldusers.push(nv));
            lemma_alist_append(oldusers, nv, username@);
            assert forall|k: Seq<char>| k != username@ implies alist_get(
                alist_view(self.users@),
                k,
            ) == alist_get(alist_view(oldusers), k) by {
                lemma_alist_append(oldusers, nv, k);
            }
            assert forall|a: int, b: int|
                0 <= a < b < self.users@.len() implies (#[trigger] self.users@[a]).0@ != (
            #[trigger] self.users@[b]).0@ by {
                if b < self.users@.len() - 1 {
                    assert(oldusers[a].0@ != oldusers[b].0@);
                } else {
                    assert(self.users@[b].0@ == username@);
                    assert(alist_get(alist_view(oldusers), oldusers[a].0@) is Some) by {
                        lemma_alist_some_from_at(oldusers, a);
                    }
                }
            }
        }
    }
}

proof fn lemma_alist_none_from_all(m: Seq<(String, String)>, k: Seq<char>)
    requires
        forall|j: int| 0 <= j < m.len() ==> (#[trigger] m[j]).0@ != k,
    ensures
        alist_get(alist_view(m), k) is None,
    decreases m.len(),
{
    if m.len() > 0 {
        assert(alist_view(m)[0] == (m[0].0@, m[0].1@));
        assert forall|j: int| 0 <= j < m.drop_first().len() implies (#[trigger] m.drop_first()[j]).0@
            != k by {
            assert(m.drop_first()[j] == m[j + 1]);
        }
        assert(alist_view(m).drop_first() =~= alist_view(m.drop_first()));
        lemma_alist_none_from_all(m.drop_first(), k);
    }
}

proof fn lemma_alist_some_from_at(m: Seq<(String, String)>, i: int)
    requires
        0 <= i < m.len(),
    ensures
        alist_get(alist_view(m), m[i].0@) is Some,
    decreases m.len(),
{
    if i > 0 && alist_view(m)[0].0 != m[i].0@ {
        assert(alist_view(m).drop_first() =~= alist_view(m.drop_first()));
        assert(m.drop_first()[i - 1] == m[i]);
        lemma_alist_some_from_at(m.drop_first(), i - 1);
    }
}

/// Create or replace the credential for `username`: the password is
/// hashed with a fresh salt and the hash persisted; the plaintext is not.
pub fn signup(store: &mut CredentialStore, username: &str, password: &str) -> (r: Result<
    (),
    AuthError,
>)
    requires
        old(store).wf(),
    ensures
        final(store).wf(),
        match r {
            Ok(_) => {
                &&& match final(store).spec_lookup(username@) {
                    Some(h) => verifies(password@, h) && is_phc_string(h),
                    None => false,
                }
                &&& forall|k: Seq<char>|
                    k != username@ ==> final(store).spec_lookup(k) == old(store).spec_lookup(k)
            },
            Err(e) => e == AuthError::InternalError && final(store)@ == old(store)@,
        },
{
    match hash_password(password) {
        Some(h) => {
            store.upsert(username, h);
            Ok(())
        },
        None => Err(AuthError::InternalError),
    }
}

/// Sign a user in: look the credential up, verify the password, and issue
/// a token for the subject expiring `ttl` seconds after `now`. With a
/// present, verifying credential, signing in succeeds.
pub fn signin(
    store: &CredentialStore,
    username: &str,
    password: &str,
    key: &[u8],
    now: u64,
    ttl: u64,
) -> (r: Result<String, AuthError>)
    requires
        now + ttl <= u64::MAX,
    ensures
        match store.spec_lookup(username@) {
            None => r == Err::<String, AuthError>(AuthError::UserDoesNotExist),
            Some(h) => {
                if verifies(password@, h) {
                    match r {
                        Ok(t) => t@ == token_of(key@, username@, (now + ttl) as u64)
                            && decoded_claims(key@, t@) == Some((username@, (now + ttl) as u64)),
                        Err(_) => false,
                    }
                } else {
                    r == Err::<String, AuthError>(AuthError::InvalidPassword)
                }
            },
        },
{
    match store.lookup(username) {
        None => Err(AuthError::UserDoesNotExist),
        Some(h) => {
            if verify_password(password, h.as_str()) {
                Ok(issue_token(key, username, now, ttl))
            } else {
                Err(AuthError::InvalidPassword)
            }
        },
    }
}

} // verus!
