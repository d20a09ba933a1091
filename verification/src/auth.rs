//! Logging in: which stored passwords are bcrypt hashes, when a password
//! checks out against what is stored, and what a login answers. Passwords
//! still stored in plain text are replaced by a bcrypt hash when they are
//! used to log in.
use vstd::prelude::*;
use vstd::string::*;
use crate::text::text_eq;

verus! {

/// bcrypt's `BcryptError`, the error of its `hash` and `verify`; nothing
/// inside it is read here.
#[verifier::external_type_specification]
#[verifier::external_body]
pub struct ExBcryptError(bcrypt::BcryptError);

/// What bcrypt's `verify(password, hash)` answers: `Some(b)` for `Ok(b)` and
/// `None` for an error (a hash that bcrypt cannot read). It depends on the
/// two texts alone.
pub uninterp spec fn bcrypt_verify_outcome(password: Seq<char>, hash: Seq<char>) -> Option<bool>;

/// Whether `s` begins with `prefix`.
pub open spec fn starts_with(s: Seq<char>, prefix: Seq<char>) -> bool {
    prefix.len() <= s.len() && s.take(prefix.len() as int) == prefix
}

/// A hash that bcrypt's `hash` writes for `password` at its default cost
/// (12): sixty characters starting with `$2b$12$`, which `verify` accepts
/// for that password.
pub open spec fn fresh_hash_of(h: Seq<char>, password: Seq<char>) -> bool {
    &&& h.len() == 60
    &&& starts_with(h, "$2b$12$"@)
    &&& bcrypt_verify_outcome(password, h) == Some(true)
}

/// A stored password is taken for a bcrypt hash when it starts with `$2`.
pub open spec fn is_bcrypt_text(stored: Seq<char>) -> bool {
    starts_with(stored, "$2"@)
}

/// Whether `input` is the password that `stored` stands for: checked with
/// bcrypt when `stored` is a hash (an unreadable hash accepts nothing), else
/// compared as plain text.
pub open spec fn password_ok(input: Seq<char>, stored: Seq<char>) -> bool {
    if is_bcrypt_text(stored) {
        bcrypt_verify_outcome(input, stored) == Some(true)
    } else {
        input == stored
    }
}

/// Calls bcrypt's `verify(password, hash)` and keeps its answer, dropping
/// the error. The contract names the answer; bcrypt recomputes the hash with
/// the salt and cost read from `hash` and compares, so it depends on the two
/// texts alone.
#[verifier::external_body]
fn bcrypt_verify(password: &str, hash: &str) -> (r: Option<bool>)
    ensures
        r == bcrypt_verify_outcome(password@, hash@),
{
    bcrypt::verify(password, hash).ok()
}

/// Calls bcrypt's `hash(password, DEFAULT_COST)`. Its source writes
/// `$2b$`, the cost in two digits (12), `$`, 22 characters of salt and 31 of
/// hash, and `verify` recomputes that hash from the same salt and cost, so it
/// accepts the password. The salt is random, so which hash comes back is not
/// stated; an error comes only from the random source.
#[verifier::external_body]
pub(crate) fn bcrypt_hash_default(password: &str) -> (r: Result<String, bcrypt::BcryptError>)
    ensures
        r matches Ok(h) ==> fresh_hash_of(h@, password@),
{
    bcrypt::hash(password, bcrypt::DEFAULT_COST)
}

/// What a login answers about the user who logged in.
pub struct UserInfo {
    pub username: String,
    pub rol: Option<String>,
    pub id: i32,
}

/// A user as read from the store for a login.
pub struct DbUser {
    pub user_id: i32,
    pub username: String,
    pub password_hash: String,
    pub rol: Option<String>,
}

/// What a login attempt comes to. An accepted login whose password was
/// stored in plain text carries the bcrypt hash to store in its place.
pub enum LoginOutcome {
    Rejected,
    Accepted { user: UserInfo, new_hash: Option<String> },
}

pub open spec fn user_info_of(u: DbUser) -> UserInfo {
    UserInfo { username: u.username, rol: u.rol, id: u.user_id }
}

/// Whether a stored password is a bcrypt hash, that is, starts with `$2`.
pub fn is_bcrypt_hash(stored: &str) -> (b: bool)
    ensures
        b == is_bcrypt_text(stored@),
{
    proof {
        reveal_strlit("$2");
    }
    let n = stored.unicode_len();
    if n < 2 {
        return false;
    }
    let b = stored.get_char(0) == '$' && stored.get_char(1) == '2';
    proof {
        if b {
            assert(stored@.take(2) =~= "$2"@);
        } else {
            if stored@.take(2) == "$2"@ {
                assert(stored@[0] == stored@.take(2)[0]);
                assert(stored@[1] == stored@.take(2)[1]);
            }
        }
    }
    b
}

/// Whether `input` is the password that `stored` stands for.
pub fn password_matches(input: &str, stored: &str) -> (b: bool)
    ensures
        b == password_ok(input@, stored@),
{
    if is_bcrypt_hash(stored) {
        match bcrypt_verify(input, stored) {
            Some(ok) => ok,
            None => false,
        }
    } else {
        text_eq(input, stored)
    }
}

/// What a login decides before any new hash is made: rejected, or accepted
/// with whether the stored password is plain text that is to be replaced.
pub enum LoginDecision {
    Rejected,
    Accepted { user: UserInfo, rehash: bool },
}

/// The decision for a login with `input`, given the user read for the name
/// typed (`None` when there is no such user).
pub open spec fn login_decision(input: Seq<char>, db_user: Option<DbUser>) -> LoginDecision {
    match db_user {
        None => LoginDecision::Rejected,
        Some(u) => if password_ok(input, u.password_hash@) {
            LoginDecision::Accepted {
                user: user_info_of(u),
                rehash: !is_bcrypt_text(u.password_hash@),
            }
        } else {
            LoginDecision::Rejected
        },
    }
}

/// What a login comes to once the hash to store (if any was made) is known.
pub open spec fn login_result(decision: LoginDecision, new_hash: Option<String>) -> LoginOutcome {
    match decision {
        LoginDecision::Rejected => LoginOutcome::Rejected,
        LoginDecision::Accepted { user, rehash } => LoginOutcome::Accepted {
            user: user,
            new_hash: if rehash {
                new_hash
            } else {
                None
            },
        },
    }
}

/// The decision for a login attempt with `input_password`, given the user
/// read for the name that was typed.
pub fn decide_login(input_password: &str, db_user: Option<DbUser>) -> (d: LoginDecision)
    ensures
        d == login_decision(input_password@, db_user),
        db_user is None ==> d is Rejected,
        db_user matches Some(u) ==> (d is Accepted <==> password_ok(
            input_password@,
            u.password_hash@,
        )),
        db_user matches Some(u) ==> (password_ok(input_password@, u.password_hash@) ==> d == (
        LoginDecision::Accepted {
            user: UserInfo { username: u.username, rol: u.rol, id: u.user_id },
            rehash: !is_bcrypt_text(u.password_hash@),
        })),
{
    match db_user {
        None => LoginDecision::Rejected,
        Some(u) => {
            let hashed = is_bcrypt_hash(u.password_hash.as_str());
            if password_matches(input_password, u.password_hash.as_str()) {
                LoginDecision::Accepted {
                    user: UserInfo { username: u.username, rol: u.rol, id: u.user_id },
                    rehash: !hashed,
                }
            } else {
                LoginDecision::Rejected
            }
        },
    }
}

/// What a login comes to, given the decision and the hash made for a
/// password stored in plain text (`None` when none could be made).
pub fn finish_login(decision: LoginDecision, new_hash: Option<String>) -> (r: LoginOutcome)
    ensures
        r == login_result(decision, new_hash),
{
    match decision {
        LoginDecision::Rejected => LoginOutcome::Rejected,
        LoginDecision::Accepted { user, rehash } => LoginOutcome::Accepted {
            user,
            new_hash: if rehash {
                new_hash
            } else {
                None
            },
        },
    }
}

/// What a login attempt with `input_password` comes to, given the user read
/// for the name that was typed (`None` when there is no such user). When
/// the stored password was plain text, the password typed is hashed with
/// bcrypt to replace it; `new_hash` is `None` when bcrypt could not.
pub fn login_outcome(input_password: &str, db_user: Option<DbUser>) -> (r: LoginOutcome)
    ensures
        exists|new_hash: Option<String>|
            r == login_result(login_decision(input_password@, db_user), new_hash) && (
            new_hash matches Some(h) ==> fresh_hash_of(h@, input_password@)),
        db_user is None ==> r is Rejected,
        db_user matches Some(u) ==> (r is Accepted <==> password_ok(
            input_password@,
            u.password_hash@,
        )),
        db_user matches Some(u) ==> (password_ok(input_password@, u.password_hash@) ==> (
        r matches LoginOutcome::Accepted { user, new_hash } && user == (UserInfo {
            username: u.username,
            rol: u.rol,
            id: u.user_id,
        }) && (is_bcrypt_text(u.password_hash@) ==> new_hash is None) && (new_hash matches Some(
            h,
        ) ==> fresh_hash_of(h@, input_password@)))),
{
    let decision = decide_login(input_password, db_user);
    let new_hash = match &decision {
        LoginDecision::Accepted { rehash: true, .. } => match bcrypt_hash_default(input_password) {
            Ok(h) => Some(h),
            Err(_) => None,
        },
        _ => None,
    };
    finish_login(decision, new_hash)
}

/// A password stored in plain text that a login replaced by a fresh bcrypt
/// hash still logs in: with the new hash stored, a login with the same
/// password is accepted, for the same user, and the hash is not replaced
/// again.
pub proof fn lemma_rehashed_password_still_logs_in(password: Seq<char>, u: DbUser, h: String)
    requires
        fresh_hash_of(h@, password),
    ensures
        login_decision(password, Some(DbUser { password_hash: h, ..u })) == (LoginDecision::Accepted {
            user: user_info_of(u),
            rehash: false,
        }),
{
    reveal_strlit("$2b$12$");
    reveal_strlit("$2");
    assert(h@.take(2) =~= h@.take(7).take(2));
    assert("$2b$12$"@.take(2) =~= "$2"@);
    assert(is_bcrypt_text(h@));
}

/// An accepted login answers the stored user's own name, role and id,
/// whether the stored password is a bcrypt hash or plain text; the hash made
/// for a password stored in plain text goes with it, and a stored hash is
/// kept.
pub proof fn lemma_accepted_login_answers_stored_user(
    input: Seq<char>,
    u: DbUser,
    new_hash: Option<String>,
)
    requires
        password_ok(input, u.password_hash@),
    ensures
        login_result(login_decision(input, Some(u)), new_hash) == (LoginOutcome::Accepted {
            user: UserInfo { username: u.username, rol: u.rol, id: u.user_id },
            new_hash: if is_bcrypt_text(u.password_hash@) {
                None
            } else {
                new_hash
            },
        }),
{
}

/// A login whose password does not check out against what is stored is
/// rejected, whatever hash was made.
pub proof fn lemma_wrong_password_is_rejected(input: Seq<char>, u: DbUser, new_hash: Option<String>)
    requires
        !password_ok(input, u.password_hash@),
    ensures
        login_result(login_decision(input, Some(u)), new_hash) == LoginOutcome::Rejected,
{
}

/// A password stored in plain text checks out against exactly itself.
pub proof fn lemma_plain_text_compares_exactly(input: Seq<char>, stored: Seq<char>)
    requires
        !is_bcrypt_text(stored),
    ensures
        password_ok(input, stored) <==> input == stored,
{
}

} // verus!
