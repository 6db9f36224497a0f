use vstd::prelude::*;
use vstd::utf8::encode_utf8;
use crate::text::{
    has_prefix, str_eq, strip_prefix, trim_str, trimmed,
};

verus! {

/// Why an administrator's request was refused.
#[derive(Clone, Copy, Debug, PartialEq, Eq, Structural)]
pub enum AdminAuthError {
    /// No administrator token is set yet (the server is before its setup).
    NotConfigured,
    /// The request did not present the administrator token.
    Unauthorized,
}

/// The scheme word of an `Authorization` header that carries a token.
pub open spec fn bearer_prefix() -> Seq<char> {
    seq!['B', 'e', 'a', 'r', 'e', 'r', ' ']
}

/// The token that an `Authorization` header presents: what follows
/// `Bearer `, or nothing.
pub open spec fn presented_token(authorization: Option<Seq<char>>) -> Seq<char> {
    match authorization {
        Some(a) => if has_prefix(a, bearer_prefix()) {
            a.subrange(7, a.len() as int)
        } else {
            Seq::empty()
        },
        None => Seq::empty(),
    }
}

/// Checks an administrator's request against the `expected` token.
pub fn check_admin(expected: &str, authorization: Option<&str>) -> (r: Result<(), AdminAuthError>)
    ensures
        expected@.len() == 0 ==> r == Err::<(), AdminAuthError>(AdminAuthError::NotConfigured),
        expected@.len() > 0 ==> (r is Ok <==> presented_token(
            match authorization {
                Some(a) => Some(a@),
                None => None::<Seq<char>>,
            },
        ) == expected@),
        expected@.len() > 0 && r is Err ==> r == Err::<(), AdminAuthError>(
            AdminAuthError::Unauthorized,
        ),
{
    if expected.unicode_len() == 0 {
        return Err(AdminAuthError::NotConfigured);
    }
    let auth: &str = match authorization {
        Some(a) => a,
        None => "",
    };
    proof {
        reveal_strlit("Bearer ");
        reveal_strlit("");
        assert("Bearer "@ =~= bearer_prefix());
    }
    let token: &str = match strip_prefix(auth, "Bearer ") {
        Some(rest) => rest,
        None => "",
    };
    proof {
        if authorization is None {
            assert(!has_prefix(Seq::<char>::empty(), bearer_prefix()));
        }
    }
    if str_eq(token, expected) {
        Ok(())
    } else {
        Err(AdminAuthError::Unauthorized)
    }
}

/// Whether a token given to open the administrators' live channel is the
/// administrator token (never when none is set).
pub fn admin_channel_allowed(expected: &str, given: &str) -> (r: bool)
    ensures
        r == (expected@.len() > 0 && given@ == expected@),
{
    expected.unicode_len() > 0 && str_eq(given, expected)
}

/// What `str::len` reports for a string with these characters: the length of
/// its UTF-8 encoding.
pub open spec fn byte_len(s: Seq<char>) -> usize {
    encode_utf8(s).len() as usize
}

/// Why the first-run setup was refused.
#[derive(Clone, Copy, Debug, PartialEq, Eq, Structural)]
pub enum SetupError {
    /// An administrator token is already set.
    AlreadyDone,
    /// The administrator token, trimmed, is shorter than 8 bytes.
    TokenTooShort,
}

/// What a successful first-run setup stores.
#[derive(Clone, Debug)]
pub struct SetupPlan {
    pub admin_token: String,
    pub redis_url: String,
    /// Whether a Redis URL was given while the server runs on memory.
    pub restart_required: bool,
}

/// The first-run setup: allowed only while no administrator token is set
/// (`current_token` is empty); the new token, trimmed, must be at least 8
/// bytes long; the Redis URL is trimmed too, and a restart is needed when
/// one is given while the server runs on memory.
pub fn plan_setup(current_token: &str, admin_token: &str, redis_url: &str, on_memory: bool) -> (r:
    Result<SetupPlan, SetupError>)
    ensures
        current_token@.len() > 0 ==> r == Err::<SetupPlan, SetupError>(SetupError::AlreadyDone),
        current_token@.len() == 0 && byte_len(trimmed(admin_token@)) < 8 ==> r == Err::<
            SetupPlan,
            SetupError,
        >(SetupError::TokenTooShort),
        current_token@.len() == 0 && byte_len(trimmed(admin_token@)) >= 8 ==> (r matches Ok(
            p,
        ) && p.admin_token@ == trimmed(admin_token@) && p.redis_url@ == trimmed(redis_url@)
            && p.restart_required == (trimmed(redis_url@).len() > 0 && on_memory)),
{
    if current_token.unicode_len() > 0 {
        return Err(SetupError::AlreadyDone);
    }
    let token = trim_str(admin_token);
    if token.len() < 8 {
        return Err(SetupError::TokenTooShort);
    }
    let url = trim_str(redis_url);
    let restart_required = url.unicode_len() > 0 && on_memory;
    Ok(SetupPlan { admin_token: String::from_str(token), redis_url: String::from_str(url), restart_required })
}

/// The page size of an administrator's queue listing: 100 unless given, and
/// kept between 1 and 500.
pub fn page_limit(limit: Option<usize>) -> (r: usize)
    ensures
        r == (match limit {
            Some(l) => if l > 500 {
                500
            } else if l < 1 {
                1
            } else {
                l
            },
            None => 100,
        }),
{
    let l = match limit {
        Some(l) => l,
        None => 100,
    };
    let l = if l > 500 {
        500
    } else {
        l
    };
    if l < 1 {
        1
    } else {
        l
    }
}

} // verus!
