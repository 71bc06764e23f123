//! Session cookie text.

use vstd::prelude::*;
use vstd::string::StringExecFns;

verus! {

/// Name of the session cookie.
pub const SESSION_ID: &'static str = "SESSION_ID";

/// Lifetime of a session cookie, in seconds.
pub const AUTH_COOKIE_MAX_AGE: u32 = 10800;

/// The cookie's SameSite attribute.
#[derive(Debug, Clone, Copy, PartialEq, Eq, Structural)]
pub enum SameSitePolicy {
    Unrestricted,
    Lax,
    Strict,
}

/// The attribute's text.
pub open spec fn policy_text(p: SameSitePolicy) -> Seq<char> {
    match p {
        SameSitePolicy::Unrestricted => "None"@,
        SameSitePolicy::Lax => "Lax"@,
        SameSitePolicy::Strict => "Strict"@,
    }
}

impl SameSitePolicy {
    pub fn to_string(&self) -> (r: String)
        ensures
            r@ == policy_text(*self),
    {
        match self {
            SameSitePolicy::Unrestricted => String::from_str("None"),
            SameSitePolicy::Lax => String::from_str("Lax"),
            SameSitePolicy::Strict => String::from_str("Strict"),
        }
    }
}

/// The decimal digit for `d < 10`.
pub open spec fn digit_char(d: nat) -> char {
    if d == 0 {
        '0'
    } else if d == 1 {
        '1'
    } else if d == 2 {
        '2'
    } else if d == 3 {
        '3'
    } else if d == 4 {
        '4'
    } else if d == 5 {
        '5'
    } else if d == 6 {
        '6'
    } else if d == 7 {
        '7'
    } else if d == 8 {
        '8'
    } else {
        '9'
    }
}

/// `n` in decimal, without leading zeros.
pub open spec fn decimal(n: nat) -> Seq<char>
    decreases n,
{
    if n < 10 {
        seq![digit_char(n)]
    } else {
        decimal(n / 10) + seq![digit_char(n % 10)]
    }
}

/// The text of a cookie header value.
pub open spec fn cookie_text(
    key: Seq<char>,
    value: Seq<char>,
    max_age: nat,
    path: Seq<char>,
    secure: bool,
    same_site: SameSitePolicy,
) -> Seq<char> {
    key + "="@ + value + ";Max-age="@ + decimal(max_age) + ";path="@ + path + ";SameSite="@
        + policy_text(same_site) + ";"@ + (if secure {
        "secure"@
    } else {
        ""@
    })
}

fn digit_str(d: u32) -> (r: &'static str)
    requires
        d < 10,
    ensures
        r@ == seq![digit_char(d as nat)],
{
    proof {
        reveal_strlit("0");
        reveal_strlit("1");
        reveal_strlit("2");
        reveal_strlit("3");
        reveal_strlit("4");
        reveal_strlit("5");
        reveal_strlit("6");
        reveal_strlit("7");
        reveal_strlit("8");
        reveal_strlit("9");
    }
    if d == 0 {
        "0"
    } else if d == 1 {
        "1"
    } else if d == 2 {
        "2"
    } else if d == 3 {
        "3"
    } else if d == 4 {
        "4"
    } else if d == 5 {
        "5"
    } else if d == 6 {
        "6"
    } else if d == 7 {
        "7"
    } else if d == 8 {
        "8"
    } else {
        "9"
    }
}

/// `n` in decimal.
fn decimal_string(n: u32) -> (r: String)
    ensures
        r@ == decimal(n as nat),
    decreases n,
{
    if n < 10 {
        String::from_str(digit_str(n))
    } else {
        let head = decimal_string(n / 10);
        head.concat(digit_str(n % 10))
    }
}

/// A cookie: `key=value;Max-age=..;path=..;SameSite=..;` then `secure`
/// when asked for.
pub fn gen_cookie(
    key: &str,
    value: &str,
    max_age: u32,
    path: &str,
    secure: bool,
    same_site: SameSitePolicy,
) -> (r: String)
    ensures
        r@ == cookie_text(key@, value@, max_age as nat, path@, secure, same_site),
{
    let s = String::from_str(key);
    let s = s.concat("=");
    let s = s.concat(value);
    let s = s.concat(";Max-age=");
    let age = decimal_string(max_age);
    let s = s.concat(age.as_str());
    let s = s.concat(";path=");
    let s = s.concat(path);
    let s = s.concat(";SameSite=");
    let policy = same_site.to_string();
    let s = s.concat(policy.as_str());
    let s = s.concat(";");
    let s = if secure {
        s.concat("secure")
    } else {
        s.concat("")
    };
    proof {
        assert(s@ =~= cookie_text(key@, value@, max_age as nat, path@, secure, same_site));
    }
    s
}

/// The session cookie: three hours, strict SameSite, for `path` or `/`.
pub fn gen_auth_cookie(sess_id: &str, secure: bool, path: Option<String>) -> (r: String)
    ensures
        r@ == cookie_text(
            SESSION_ID@,
            sess_id@,
            AUTH_COOKIE_MAX_AGE as nat,
            match path {
                Some(p) => p@,
                None => "/"@,
            },
            secure,
            SameSitePolicy::Strict,
        ),
{
    let path = match path {
        None => String::from_str("/"),
        Some(p) => p,
    };
    gen_cookie(SESSION_ID, sess_id, AUTH_COOKIE_MAX_AGE, path.as_str(), secure, SameSitePolicy::Strict)
}

} // verus!
