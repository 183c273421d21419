//! Authentication: the claims a session token carries, and which requests need a token and where
//! the token is read from. Signing and checking tokens, and reading requests, are left to the caller.
use vstd::prelude::*;
use vstd::string::StrSliceExecFns;

verus! {

/// Seconds a session token stays valid: one day.
pub const TOKEN_LIFETIME_SECS: i64 = 86400;

/// The character of decimal digit `d`.
pub open spec fn digit_char(d: int) -> char {
    (d + 48) as char
}

/// Decimal digits of `n`, without leading zeros.
pub open spec fn digits(n: nat) -> Seq<char>
    decreases n,
{
    if n < 10 {
        seq![digit_char(n as int)]
    } else {
        digits(n / 10).push(digit_char((n % 10) as int))
    }
}

/// `n` written in decimal, with a minus sign before a negative number.
pub open spec fn decimal(n: int) -> Seq<char> {
    if n < 0 {
        seq!['-'] + digits((-n) as nat)
    } else {
        digits(n as nat)
    }
}

/// The text of decimal digit `d`.
fn digit_str(d: u32) -> (r: &'static str)
    requires
        d < 10,
    ensures
        r@ == seq![digit_char(d as int)],
{
    proof {
        reveal_strlit("0");
        reveal_strlit("1");
        reveal_strlit("2");
        reveal_strlit("3");
        reveal_strlit("4");
        reveal_strlit("5");
        reveal_strlit("6");
        reveal_strlit("7");
        reveal_strlit("8");
        reveal_strlit("9");
    }
    match d {
        0 => "0",
        1 => "1",
        2 => "2",
        3 => "3",
        4 => "4",
        5 => "5",
        6 => "6",
        7 => "7",
        8 => "8",
        _ => "9",
    }
}

/// Appends the decimal digits of `n` to `s`.
fn push_digits(s: &mut String, n: u32)
    ensures
        final(s)@ == old(s)@ + digits(n as nat),
    decreases n,
{
    if n >= 10 {
        push_digits(s, n / 10);
    }
    s.append(digit_str(n % 10));
    proof {
        if n >= 10 {
            assert(digits(n as nat) == digits((n / 10) as nat).push(digit_char((n % 10) as int)));
        }
    }
}

/// The number in decimal, with a minus sign when it is negative and no leading zeros, as the
/// `Display` of the integer types writes it.
fn i32_to_string(n: i32) -> (r: String)
    ensures
        r@ == decimal(n as int),
{
    let mut s = String::new();
    proof {
        reveal_strlit("-");
    }
    if n < 0 {
        s.append("-");
        let m: u32 = (0i64 - (n as i64)) as u32;
        push_digits(&mut s, m);
    } else {
        push_digits(&mut s, n as u32);
    }
    s
}

/// What a session token says: its subject (the account id in decimal), its expiry time in seconds
/// since the Unix epoch, and the account id.
#[derive(Debug)]
pub struct Claims {
    pub sub: String,
    pub exp: usize,
    pub user_id: i32,
}

impl Claims {
    /// The claims of a token for account `user_id` made at `now_secs` (seconds since the Unix
    /// epoch): it expires a day later.
    pub fn new(user_id: i32, now_secs: i64) -> (r: Claims)
        requires
            now_secs + TOKEN_LIFETIME_SECS <= i64::MAX,
        ensures
            r.sub@ == decimal(user_id as int),
            r.exp == (now_secs + TOKEN_LIFETIME_SECS) as usize,
            r.user_id == user_id,
    {
        let exp = now_secs + TOKEN_LIFETIME_SECS;
        Claims { sub: i32_to_string(user_id), exp: exp as usize, user_id }
    }
}

/// The route guard: every request needs a valid token, but those of the public routes.
pub struct JwtMiddleware;

/// The route guard around the service `service`.
pub struct JwtMiddlewareService<S> {
    pub service: S,
}

/// `prefix` starts `s`.
pub open spec fn starts_with(s: Seq<char>, prefix: Seq<char>) -> bool {
    prefix.len() <= s.len() && s.subrange(0, prefix.len() as int) == prefix
}

/// The path is one of the public routes, which need no token: it starts with `/login` or
/// `/register`.
pub open spec fn is_public_route(path: Seq<char>) -> bool {
    starts_with(path, "/login"@) || starts_with(path, "/register"@)
}

/// What is left of `s` once every leading `Bearer ` is removed.
pub open spec fn strip_bearer(s: Seq<char>) -> Seq<char>
    decreases s.len(),
{
    if "Bearer "@.len() > 0 && starts_with(s, "Bearer "@) {
        strip_bearer(s.subrange("Bearer "@.len() as int, s.len() as int))
    } else {
        s
    }
}

/// `prefix` starts `s`, checked character by character.
fn has_prefix(s: &str, prefix: &str) -> (r: bool)
    ensures
        r == starts_with(s@, prefix@),
{
    let n = prefix.unicode_len();
    if n > s.unicode_len() {
        return false;
    }
    let mut i: usize = 0;
    while i < n
        invariant
            n == prefix@.len(),
            n <= s@.len(),
            i <= n,
            forall|k: int| 0 <= k < i ==> s@[k] == prefix@[k],
        decreases n - i,
    {
        if s.get_char(i) != prefix.get_char(i) {
            assert(s@.subrange(0, prefix@.len() as int)[i as int] != prefix@[i as int]);
            return false;
        }
        i = i + 1;
    }
    assert(s@.subrange(0, prefix@.len() as int) =~= prefix@);
    true
}

impl<S> JwtMiddlewareService<S> {
    /// The request for `path` needs no token: the path starts with `/login` or `/register`.
    pub fn is_ignored_route(path: &str) -> (r: bool)
        ensures
            r == is_public_route(path@),
    {
        has_prefix(path, "/login") || has_prefix(path, "/register")
    }

    /// The token of an `Authorization` header: its value once every leading `Bearer ` is removed.
    pub fn bearer_token(value: &str) -> (r: &str)
        ensures
            r@ == strip_bearer(value@),
    {
        let prefix = "Bearer ";
        proof {
            reveal_strlit("Bearer ");
        }
        let n = prefix.unicode_len();
        let mut rest = value;
        while has_prefix(rest, prefix)
            invariant
                prefix@ == "Bearer "@,
                n == prefix@.len(),
                n == 7,
                strip_bearer(rest@) == strip_bearer(value@),
            decreases rest@.len(),
        {
            let len = rest.unicode_len();
            rest = rest.substring_char(n, len);
        }
        rest
    }

    /// The token of a request: from its `Authorization` header when it has one (`None` when the
    /// header's value is not text), else from its `token` cookie, if any.
    pub fn request_token(header: Option<Option<&str>>, cookie: Option<&str>) -> (r: Option<String>)
        ensures
            match header {
                Some(Some(v)) => r matches Some(t) && t@ == strip_bearer(v@),
                Some(None) => r is None,
                None => match cookie {
                    Some(c) => r matches Some(t) && t@ == c@,
                    None => r is None,
                },
            },
    {
        match header {
            Some(Some(v)) => Some(Self::bearer_token(v).to_owned()),
            Some(None) => None,
            None => match cookie {
                Some(c) => Some(c.to_owned()),
                None => None,
            },
        }
    }
}

} // verus!
