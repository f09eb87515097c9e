//! Credentials for the blogging service, held in the platform keyring.
//! What the keyring answers depends on the machine, so nothing is
//! assumed about the stored values; the bookkeeping around the calls is
//! verified, and the masks shown to the user are exact.

use vstd::prelude::*;
use vstd::string::StringExecFns;
use crate::errors::NoetError;
use crate::text::{chars_of, string_of};

verus! {

#[verifier::external_type_specification]
#[verifier::external_body]
pub struct ExKeyringEntry(keyring::Entry);

/// Relies on keyring::Entry::new: opens the named entry of the platform
/// credential store; which entries exist depends on the machine.
#[verifier::external_body]
fn keyring_entry(service: &str, user: &str) -> (r: Result<keyring::Entry, String>) {
    match keyring::Entry::new(service, user) {
        Ok(e) => Ok(e),
        Err(e) => Err(format!("{e}")),
    }
}

/// Relies on keyring::Entry::set_password: stores the text under the
/// entry, or reports why the store refused.
#[verifier::external_body]
fn keyring_set_password(e: &keyring::Entry, password: &str) -> (r: Result<(), String>) {
    match e.set_password(password) {
        Ok(()) => Ok(()),
        Err(err) => Err(format!("{err}")),
    }
}

/// Relies on keyring::Entry::get_password: yields whatever text the
/// store holds under the entry, or reports why there is none.
#[verifier::external_body]
fn keyring_get_password(e: &keyring::Entry) -> (r: Result<String, String>) {
    match e.get_password() {
        Ok(p) => Ok(p),
        Err(err) => Err(format!("{err}")),
    }
}

/// Relies on keyring::Entry::delete_credential: removes the entry's
/// stored value, or reports why it could not.
#[verifier::external_body]
fn keyring_delete(e: &keyring::Entry) -> (r: Result<(), String>) {
    match e.delete_credential() {
        Ok(()) => Ok(()),
        Err(err) => Err(format!("{err}")),
    }
}

/// The session the user pasted in: the service's session cookie and an
/// optional CSRF token.
pub struct Credentials {
    pub session_cookie: String,
    pub csrf_token: Option<String>,
}

impl Credentials {
    /// Credentials holding exactly the given cookie and token.
    pub fn new(session_cookie: String, csrf_token: Option<String>) -> (r: Self)
        ensures
            r.session_cookie == session_cookie,
            r.csrf_token == csrf_token,
    {
        Credentials { session_cookie, csrf_token }
    }

    /// Stores the credentials in the system keyring: the cookie always,
    /// the token when there is one.  Every failure is a keyring
    /// failure.
    pub fn save(&self) -> (r: Result<(), NoetError>)
        ensures
            r matches Err(e) ==> e matches NoetError::KeyringError(_),
    {
        let cookie_entry = match keyring_entry("noet", "note_session_cookie") {
            Ok(e) => e,
            Err(m) => {
                return Err(NoetError::KeyringError(m));
            },
        };
        match keyring_set_password(&cookie_entry, self.session_cookie.as_str()) {
            Ok(()) => {},
            Err(m) => {
                return Err(NoetError::KeyringError(m));
            },
        }
        match &self.csrf_token {
            Option::Some(token) => {
                let csrf_entry = match keyring_entry("noet", "note_csrf_token") {
                    Ok(e) => e,
                    Err(m) => {
                        return Err(NoetError::KeyringError(m));
                    },
                };
                match keyring_set_password(&csrf_entry, token.as_str()) {
                    Ok(()) => Ok(()),
                    Err(m) => Err(NoetError::KeyringError(m)),
                }
            },
            Option::None => Ok(()),
        }
    }

    /// Loads the credentials from the system keyring.  A missing or
    /// unreadable cookie means the user never logged in; the token is
    /// optional and its absence is no failure.
    pub fn load() -> (r: Result<Credentials, NoetError>)
        ensures
            r matches Err(e) ==> (e matches NoetError::KeyringError(_) || e
                matches NoetError::AuthError(_)),
    {
        let cookie_entry = match keyring_entry("noet", "note_session_cookie") {
            Ok(e) => e,
            Err(m) => {
                return Err(NoetError::KeyringError(m));
            },
        };
        let session_cookie = match keyring_get_password(&cookie_entry) {
            Ok(p) => p,
            Err(m) => {
                let msg = String::from_str(
                    "Not authenticated. Please run 'noet auth login' first. Error: ",
                ).concat(m.as_str());
                return Err(NoetError::AuthError(msg));
            },
        };
        let csrf_token = match keyring_entry("noet", "note_csrf_token") {
            Ok(e) => match keyring_get_password(&e) {
                Ok(t) => Some(t),
                Err(_) => None,
            },
            Err(_) => None,
        };
        Ok(Credentials { session_cookie, csrf_token })
    }

    /// Whether a session cookie is stored at all.
    pub fn present() -> (r: bool) {
        match keyring_entry("noet", "note_session_cookie") {
            Ok(e) => keyring_get_password(&e).is_ok(),
            Err(_) => false,
        }
    }

    /// Removes the stored credentials: the cookie must go; a token that
    /// was never stored is no failure.
    pub fn delete() -> (r: Result<(), NoetError>)
        ensures
            r matches Err(e) ==> e matches NoetError::KeyringError(_),
    {
        let cookie_entry = match keyring_entry("noet", "note_session_cookie") {
            Ok(e) => e,
            Err(m) => {
                return Err(NoetError::KeyringError(m));
            },
        };
        match keyring_delete(&cookie_entry) {
            Ok(()) => {},
            Err(m) => {
                return Err(NoetError::KeyringError(m));
            },
        }
        match keyring_entry("noet", "note_csrf_token") {
            Ok(e) => {
                let _ = keyring_delete(&e);
            },
            Err(_) => {},
        }
        Ok(())
    }
}

/// How a session cookie is shown: ten characters from each end around
/// an ellipsis, or three stars when it is too short to mask.
pub open spec fn mask_cookie_spec(c: Seq<char>) -> Seq<char> {
    if c.len() > 20 {
        c.take(10) + seq!['.', '.', '.'] + c.skip(c.len() - 10)
    } else {
        seq!['*', '*', '*']
    }
}

/// Masks a session cookie for display, as `mask_cookie_spec` describes.
pub fn mask_cookie(cookie: &str) -> (r: String)
    ensures
        r@ == mask_cookie_spec(cookie@),
{
    let cs = chars_of(cookie);
    mask_chars(&cs, 20, 10)
}

/// How a CSRF token is shown: eight characters from each end around
/// an ellipsis, or three stars when it is too short to mask.
pub open spec fn mask_token_spec(c: Seq<char>) -> Seq<char> {
    if c.len() > 16 {
        c.take(8) + seq!['.', '.', '.'] + c.skip(c.len() - 8)
    } else {
        seq!['*', '*', '*']
    }
}

/// Masks a CSRF token for display, as `mask_token_spec` describes.
pub fn mask_token(token: &str) -> (r: String)
    ensures
        r@ == mask_token_spec(token@),
{
    let cs = chars_of(token);
    mask_chars(&cs, 16, 8)
}

/// The common masking: `keep` characters from each end around an
/// ellipsis when the text is longer than `min`, stars otherwise.
fn mask_chars(cs: &Vec<char>, min: usize, keep: usize) -> (r: String)
    requires
        keep * 2 <= min,
    ensures
        cs@.len() > min ==> r@ == cs@.take(keep as int) + seq!['.', '.', '.'] + cs@.skip(
            cs@.len() - keep,
        ),
        cs@.len() <= min ==> r@ == seq!['*', '*', '*'],
{
    let n = cs.len();
    if n > min {
        let mut out: Vec<char> = Vec::new();
        let mut k: usize = 0;
        #[verifier::loop_isolation(false)]
        while k < keep
            invariant
                k <= keep,
                keep < n == cs@.len(),
                out@ == cs@.take(k as int),
            decreases keep - k,
        {
            out.push(cs[k]);
            assert(out@ =~= cs@.take(k + 1));
            k += 1;
        }
        out.push('.');
        out.push('.');
        out.push('.');
        let ghost mid = out@;
        proof {
            assert(mid =~= cs@.take(keep as int) + seq!['.', '.', '.']);
        }
        let mut k2: usize = n - keep;
        #[verifier::loop_isolation(false)]
        while k2 < n
            invariant
                n - keep <= k2 <= n,
                n == cs@.len(),
                out@ == mid + cs@.subrange(n - keep, k2 as int),
            decreases n - k2,
        {
            out.push(cs[k2]);
            assert(out@ =~= mid + cs@.subrange(n - keep, k2 + 1));
            k2 += 1;
        }
        proof {
            assert(out@ =~= cs@.take(keep as int) + seq!['.', '.', '.'] + cs@.skip(
                cs@.len() - keep,
            ));
        }
        string_of(&out)
    } else {
        let mut out: Vec<char> = Vec::new();
        out.push('*');
        out.push('*');
        out.push('*');
        proof {
            assert(out@ =~= seq!['*', '*', '*']);
        }
        string_of(&out)
    }
}

} // verus!