//! Local-credential authentication flows: account creation under the
//! password-complexity rule, and login, which on success atomically
//! replaces the caller's live session token. A failed login never says
//! whether the username or the password was wrong.

use vstd::prelude::*;

use crate::token::{TokenStore, UserToken};
use crate::user::{contains_username, user_for, valid_password, User, UserStore};
use crate::crypto::password_hash_of;

verus! {

/// Credentials as the login route receives them.
#[derive(Debug)]
pub struct LoginPayload {
    pub username: String,
    pub password: String,
}

/// Credentials as the account-creation route receives them.
#[derive(Debug)]
pub struct CreateAccountPayload {
    pub username: String,
    pub password: String,
}

/// What a login attempt came to.
#[derive(Debug)]
pub enum LoginOutcome {
    /// Authenticated; carries the freshly issued bearer token, the only
    /// token now live for this identity.
    Success(String),
    /// Unknown username or wrong password — deliberately not told apart.
    InvalidCredentials,
    /// The credential matched but must be rotated before further use.
    PasswordChangeRequired,
}

/// What an account-creation attempt came to.
#[derive(Debug, PartialEq, Eq, Structural, Clone, Copy)]
pub enum CreateAccountOutcome {
    /// The username is taken.
    UsernameExists,
    /// The password fails the complexity rule.
    InvalidPassword,
    /// Created; carries the new account's id.
    Created(i32),
}

/// The credential check a login must pass: the username is known and
/// the password digests, under the account's salt, to the stored hash.
pub open spec fn credentials_match(users: Seq<User>, username: Seq<char>, password: Seq<char>) -> bool {
    &&& contains_username(users, username)
    &&& user_for(users, username).phash@ == password_hash_of(
        user_for(users, username).psalt@,
        password,
    )
}

/// Log in with a username and password. On success a fresh session
/// token is issued, atomically invalidating every earlier token for the
/// identity.
pub fn login(users: &UserStore, tokens: &mut TokenStore, payload: &LoginPayload) -> (r: LoginOutcome)
    requires
        users.wf(),
        old(tokens).wf(),
    ensures
        final(tokens).wf(),
        !credentials_match(users@, payload.username@, payload.password@) ==> r
            is InvalidCredentials && *final(tokens) == *old(tokens),
        (credentials_match(users@, payload.username@, payload.password@) && user_for(
            users@,
            payload.username@,
        ).must_change_password) ==> r is PasswordChangeRequired && *final(tokens) == *old(tokens),
        (credentials_match(users@, payload.username@, payload.password@) && !user_for(
            users@,
            payload.username@,
        ).must_change_password) ==> {
            let user = user_for(users@, payload.username@);
            &&& r is Success
            &&& r->Success_0@.len() == 88
            &&& final(tokens)@ == old(tokens)@.filter(|e: UserToken| e.user_id != user.id).push(
                UserToken { user_id: user.id, token: r->Success_0 },
            )
        },
{
    let user = match users.get_by_username_password(
        payload.username.as_str(),
        payload.password.as_str(),
    ) {
        Some(u) => u,
        None => {
            return LoginOutcome::InvalidCredentials;
        },
    };
    if user.must_change_password {
        return LoginOutcome::PasswordChangeRequired;
    }
    let token = tokens.issue(user.id);
    LoginOutcome::Success(token)
}

/// Create a local account: the username must be free and the password
/// must meet the complexity rule; the store then assigns the id.
pub fn create_account(users: &mut UserStore, payload: CreateAccountPayload) -> (r: CreateAccountOutcome)
    requires
        old(users).wf(),
        old(users).spec_next_id() < i32::MAX,
    ensures
        final(users).wf(),
        contains_username(old(users)@, payload.username@) ==> r
            == CreateAccountOutcome::UsernameExists && *final(users) == *old(users),
        (!contains_username(old(users)@, payload.username@) && !valid_password(payload.password@))
            ==> r == CreateAccountOutcome::InvalidPassword && *final(users) == *old(users),
        (!contains_username(old(users)@, payload.username@) && valid_password(payload.password@))
            ==> {
            let id = old(users).spec_next_id();
            let created = user_for(final(users)@, payload.username@);
            &&& r == CreateAccountOutcome::Created(id)
            &&& contains_username(final(users)@, payload.username@)
            &&& created.id == id
            &&& created.psalt@.len() == 64
            &&& created.phash@ == password_hash_of(created.psalt@, payload.password@)
            &&& !created.must_change_password
            &&& final(users)@.len() == old(users)@.len() + 1
        },
{
    if users.check_username_exists(payload.username.as_str()) {
        return CreateAccountOutcome::UsernameExists;
    }
    if !User::validate_password(payload.password.as_str()) {
        return CreateAccountOutcome::InvalidPassword;
    }
    let user = User::new_from_password(payload.username, payload.password, false);
    let id = users.insert_or_update(user);
    CreateAccountOutcome::Created(id)
}

} // verus!
