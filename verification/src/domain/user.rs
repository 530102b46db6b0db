//! Signing in to AO3: which credentials the server signs in with, and the
//! form token it reads off the login page.

use vstd::prelude::*;

use crate::pattern::{self, regex_accepts, regex_captures_of};
use crate::text::{self, push_str};

verus! {

/// The message when the configuration lacks a username or a password.
pub open spec fn missing_credentials_message() -> Seq<char> {
    "Username or Password not provided in config file"@
}

/// The username and password to sign in with: both must be given.
pub fn get_credentials(username: Option<String>, password: Option<String>) -> (r: Result<(String, String), String>)
    ensures
        username is Some && password is Some ==> r == Ok::<(String, String), String>((username->0, password->0)),
        !(username is Some && password is Some) ==> (r matches Err(m) && m@ == missing_credentials_message()),
{
    match (username, password) {
        (Some(u), Some(p)) => Ok((u, p)),
        _ => Err(text::owned("Username or Password not provided in config file")),
    }
}

/// The message for a sign-in that failed with `error`.
pub fn user_error_message(error: &str) -> (m: String)
    ensures
        m@ == "User Error "@ + error@,
{
    let mut m = text::owned("User Error ");
    push_str(&mut m, error);
    m
}

/// Where the login form's token stands on the login page.
pub open spec fn token_pattern() -> Seq<char> {
    "(id=\"new_user\").+?(\"authenticity_token\").+?\"(?<token>.+?)\""@
}

/// The token group (group 3) of the token pattern's first match on `page`.
pub open spec fn login_token_of(page: Seq<char>) -> Option<Seq<char>> {
    if !regex_accepts(token_pattern()) {
        None
    } else {
        match regex_captures_of(token_pattern(), page) {
            Some(g) => if g.len() > 3 && g[3] is Some {
                g[3]
            } else {
                None
            },
            None => None,
        }
    }
}

/// The authenticity token of the login form on `page`.
pub fn login_token(page: &str) -> (r: Option<String>)
    ensures
        r matches Some(t) ==> login_token_of(page@) == Some(t@),
        r is None ==> login_token_of(page@) is None,
{
    match pattern::regex_captures("(id=\"new_user\").+?(\"authenticity_token\").+?\"(?<token>.+?)\"", page) {
        Ok(Some(g)) => {
            if g.len() > 3 {
                assert(pattern::groups_view(g@)[3] == pattern::opt_view(g@[3]));
                g[3].clone()
            } else {
                None
            }
        },
        _ => None,
    }
}

} // verus!
