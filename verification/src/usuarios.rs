//! Passwords of users that are created or edited: they are stored as
//! bcrypt hashes, and an edit with a blank password keeps the old one.
use vstd::prelude::*;
use crate::auth::{bcrypt_hash_default, fresh_hash_of};
use crate::text::{is_blank, is_blank_text};

verus! {

/// The hash to store for a new user's password. An error carries bcrypt's
/// message.
pub fn hash_new_password(plain: &str) -> (r: Result<String, String>)
    ensures
        r matches Ok(h) ==> fresh_hash_of(h@, plain@),
{
    match bcrypt_hash_default(plain) {
        Ok(h) => Ok(h),
        Err(e) => Err(e.to_string()),
    }
}

/// The password change that an edit of a user asks for: none when the
/// password typed is blank, else the hash of the password as typed
/// (untrimmed). An error carries bcrypt's message.
pub fn password_change(plain: &str) -> (r: Result<Option<String>, String>)
    ensures
        is_blank_text(plain@) ==> r == Ok::<Option<String>, String>(None),
        !is_blank_text(plain@) ==> (r matches Ok(change) ==> change matches Some(h) && fresh_hash_of(
            h@,
            plain@,
        )),
{
    if is_blank(plain) {
        Ok(None)
    } else {
        match hash_new_password(plain) {
            Ok(h) => Ok(Some(h)),
            Err(e) => Err(e),
        }
    }
}

} // verus!
