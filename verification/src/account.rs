//! Accounts: passwords are stored hashed with bcrypt, a login needs the right password and an account
//! that is not suspended, and a forgotten password is reset with a token that expires.
use vstd::prelude::*;
use vstd::string::StrSliceExecFns;

verus! {

/// An account as stored: its password is a bcrypt hash.
pub struct Account {
    pub id: i32,
    pub username: String,
    pub email: String,
    pub password: String,
    pub premium: bool,
    pub suspended: bool,
}

/// An account without its password.
pub struct FilteredAccount {
    pub id: i32,
    pub username: String,
    pub email: String,
    pub premium: bool,
    pub suspended: bool,
}

/// Whether `password` is the one that `hash`, a bcrypt hash, was made from.
pub uninterp spec fn password_matches(password: Seq<char>, hash: Seq<char>) -> bool;

/// `bcrypt::verify(password, hash)`: the password is hashed again with the cost and salt read from
/// `hash`, and the result compared with it; a malformed hash is an error, read here as a mismatch.
/// The result is named, not stated.
#[verifier::external_body]
fn bcrypt_verify(password: &str, hash: &str) -> (r: bool)
    ensures
        r == password_matches(password@, hash@),
{
    bcrypt::verify(password, hash).unwrap_or(false)
}

/// `bcrypt::hash(password, bcrypt::DEFAULT_COST)`: a bcrypt hash of the password (its first 72 bytes)
/// with a random salt, which `bcrypt::verify` accepts for that password. The function fails only
/// when the operating system gives no random bytes for the salt, and this wrapper panics then, as the
/// registration does. Which salt is drawn is not stated.
#[verifier::external_body]
pub(crate) fn bcrypt_hash(password: &str) -> (r: String)
    ensures
        password_matches(password@, r@),
{
    bcrypt::hash(password, bcrypt::DEFAULT_COST).expect("Failed to hash password")
}

/// The account stored for a new registration: its password hashed.
pub fn new_account(username: String, email: String, password: &str) -> (r: (String, String, String))
    ensures
        r.0@ == username@,
        r.1@ == email@,
        password_matches(password@, r.2@),
{
    (username, email, bcrypt_hash(password))
}

impl FilteredAccount {
    /// The account without its password.
    pub fn from_account(a: Account) -> (r: FilteredAccount)
        ensures
            r.id == a.id,
            r.username@ == a.username@,
            r.email@ == a.email@,
            r.premium == a.premium,
            r.suspended == a.suspended,
    {
        FilteredAccount { id: a.id, username: a.username, email: a.email, premium: a.premium, suspended: a.suspended }
    }
}

/// The account found by its username, when `password` is its password.
pub fn get_account_for_login(account: Option<Account>, password: &str) -> (r: Option<FilteredAccount>)
    ensures
        match account {
            None => r is None,
            Some(a) => if password_matches(password@, a.password@) {
                r matches Some(f) && f.id == a.id && f.username@ == a.username@ && f.email@ == a.email@
                    && f.premium == a.premium && f.suspended == a.suspended
            } else {
                r is None
            },
        },
{
    match account {
        None => None,
        Some(a) => {
            if bcrypt_verify(password, a.password.as_str()) {
                Some(FilteredAccount::from_account(a))
            } else {
                None
            }
        },
    }
}

/// Why a login is refused.
#[derive(Debug, PartialEq, Eq, Structural)]
pub enum LoginError {
    /// No account has that username and password.
    NotFound,
    /// The account is suspended.
    Suspended,
}

impl LoginError {
    /// The message sent back.
    pub fn message(&self) -> (r: String)
        ensures
            r@ == (match self {
                LoginError::NotFound => "Record not found"@,
                LoginError::Suspended => "The account is suspended."@,
            }),
    {
        match self {
            LoginError::NotFound => String::from_str("Record not found"),
            LoginError::Suspended => String::from_str("The account is suspended."),
        }
    }
}

/// A login with the account found for the username and password, if any: the id of the account
/// that logs in.
pub fn login(account: Option<FilteredAccount>) -> (r: Result<i32, LoginError>)
    ensures
        match account {
            None => r == Err::<i32, LoginError>(LoginError::NotFound),
            Some(a) => if a.suspended {
                r == Err::<i32, LoginError>(LoginError::Suspended)
            } else {
                r == Ok::<i32, LoginError>(a.id)
            },
        },
{
    match account {
        None => Err(LoginError::NotFound),
        Some(a) => if a.suspended {
            Err(LoginError::Suspended)
        } else {
            Ok(a.id)
        },
    }
}

/// How long a password reset token is valid: 30 minutes, in seconds.
pub const RESET_TOKEN_LIFETIME_SECS: i64 = 1800;

/// When a password reset token made at `now_secs` expires.
pub fn reset_token_expiry(now_secs: i64) -> (r: i64)
    requires
        now_secs + RESET_TOKEN_LIFETIME_SECS <= i64::MAX,
    ensures
        r == now_secs + RESET_TOKEN_LIFETIME_SECS,
{
    now_secs + RESET_TOKEN_LIFETIME_SECS
}

/// A password reset token: the account it resets, when it expires (in seconds), and whether it was
/// used.
pub struct PasswordResetToken {
    pub id: i32,
    pub account_id: i32,
    pub token: String,
    pub expires_at: i64,
    pub used: bool,
}

/// Why a password reset is refused.
#[derive(Debug)]
pub enum ResetPasswordError {
    TokenExpired,
    TokenUsed,
    NotFound,
    Database(String),
}

impl ResetPasswordError {
    /// The message that describes the error.
    pub fn message(&self) -> (r: String)
        ensures
            r@ == (match self {
                ResetPasswordError::TokenExpired => "Token expired"@,
                ResetPasswordError::TokenUsed => "Token already used"@,
                ResetPasswordError::NotFound => "Token not found"@,
                ResetPasswordError::Database(e) => "Database error: "@ + e@,
            }),
    {
        match self {
            ResetPasswordError::TokenExpired => String::from_str("Token expired"),
            ResetPasswordError::TokenUsed => String::from_str("Token already used"),
            ResetPasswordError::NotFound => String::from_str("Token not found"),
            ResetPasswordError::Database(e) => {
                String::from_str("Database error: ").concat(e.as_str())
            },
        }
    }
}

/// Whether the token found for a password reset, if any, may reset the password at `now_secs`: it
/// must exist, not have expired, and not have been used.
pub fn check_reset_token(token: Option<PasswordResetToken>, now_secs: i64) -> (r: Result<PasswordResetToken, ResetPasswordError>)
    ensures
        match token {
            None => r matches Err(ResetPasswordError::NotFound),
            Some(t) => if t.expires_at < now_secs {
                r matches Err(ResetPasswordError::TokenExpired)
            } else if t.used {
                r matches Err(ResetPasswordError::TokenUsed)
            } else {
                r matches Ok(u) && u == t
            },
        },
{
    match token {
        None => Err(ResetPasswordError::NotFound),
        Some(t) => {
            if t.expires_at < now_secs {
                Err(ResetPasswordError::TokenExpired)
            } else if t.used {
                Err(ResetPasswordError::TokenUsed)
            } else {
                Ok(t)
            }
        },
    }
}


/// Subject of the email that carries a password reset token.
pub fn password_reset_subject() -> (r: String)
    ensures
        r@ == "Password Reset Request"@,
{
    String::from_str("Password Reset Request")
}

/// Body of the email that carries a password reset token: a link to the website's reset page with
/// the token.
pub fn password_reset_body(website_url: &str, token: &str) -> (r: String)
    ensures
        r@ == "Hello,\n\nYou requested a password reset. Click the link below to reset your password:\n"@ + website_url@
            + "/reset-password?token="@ + token@
            + "\n\nIf you did not request this, please ignore this email.\n\nBest regards,\nRandomi GO Team"@,
{
    String::from_str("Hello,\n\nYou requested a password reset. Click the link below to reset your password:\n")
        .concat(website_url)
        .concat("/reset-password?token=")
        .concat(token)
        .concat("\n\nIf you did not request this, please ignore this email.\n\nBest regards,\nRandomi GO Team")
}


/// Why a registration is refused before any account is stored.
pub open spec fn registration_refused(username: Seq<char>, email: Seq<char>, password: Seq<char>) -> bool {
    username.len() == 0 || email.len() == 0 || password.len() == 0
}

/// Checks a registration: the username, email and password must not be empty.
pub fn check_new_account(username: &str, email: &str, password: &str) -> (r: Result<(), String>)
    ensures
        r is Err <==> registration_refused(username@, email@, password@),
        r matches Err(m) ==> m@ == "Username, email and password must not be empty"@,
{
    if username.unicode_len() == 0 || email.unicode_len() == 0 || password.unicode_len() == 0 {
        Err(String::from_str("Username, email and password must not be empty"))
    } else {
        Ok(())
    }
}

/// A new password reset token: a random (version 4) UUID in its hyphenated lowercase text form;
/// chance decides the random digits.
pub fn new_reset_token() -> (r: String)
    ensures
        crate::game_manager::is_uuid_v4_text(r@),
{
    crate::game_manager::new_room_id()
}


/// The password to store for an account: its bcrypt hash, which logs in with that password.
pub fn hash_password(password: &str) -> (r: String)
    ensures
        password_matches(password@, r@),
{
    bcrypt_hash(password)
}

} // verus!
