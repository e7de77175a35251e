//! The credential records that the user endpoints hand to the store:
//! passwords enter them only as bcrypt hashes.
use vstd::prelude::*;
use crate::bodies::{UserCreateBody, UserUpdateBody};
use crate::claims::{UserData, UserView};
use crate::password::{bcrypt_verifies, hash_password, verify_password};
use crate::session::AuthError;

verus! {

/// A new credential record for `body`, its password hashed, created at
/// `now`; the store assigns its id.
pub fn new_credential(body: &UserCreateBody, now: i64) -> (r: Result<UserData, AuthError>)
    ensures
        match r {
            Ok(u) => u@ == (UserView {
                id: 0,
                username: body.username@,
                password: u@.password,
                full_name: body.full_name@,
                address: body.address@,
                phone_number: body.phone_number@,
                role: body.role@,
                photo: body.photo@,
                created_at: now as int,
                updated_at: now as int,
            }) && bcrypt_verifies(body.password@, u@.password),
            Err(e) => e == AuthError::StoreFailure,
        },
{
    match hash_password(body.password.as_str()) {
        Some(h) => Ok(
            UserData {
                id: 0,
                username: body.username.clone(),
                password: h,
                full_name: body.full_name.clone(),
                address: body.address.clone(),
                phone_number: body.phone_number.clone(),
                role: body.role.clone(),
                photo: body.photo.clone(),
                created_at: now,
                updated_at: now,
            },
        ),
        None => Err(AuthError::StoreFailure),
    }
}

/// The new value of an optional field.
pub open spec fn updated(old: Seq<char>, new: Option<String>) -> Seq<char> {
    match new {
        Some(v) => v@,
        None => old,
    }
}

fn take_or_keep(old: &String, new: &Option<String>) -> (r: String)
    ensures
        r@ == updated(old@, *new),
{
    match new {
        Some(v) => v.clone(),
        None => old.clone(),
    }
}

/// `record` changed as `body` asks at instant `now`. A password that
/// differs from the stored one is hashed anew; one that matches keeps the
/// stored hash.
pub fn update_credential(record: &UserData, body: &UserUpdateBody, now: i64) -> (r: Result<
    UserData,
    AuthError,
>)
    ensures
        match r {
            Ok(n) => {
                &&& n@ == (UserView {
                    id: record.id as int,
                    username: updated(record.username@, body.username),
                    password: n@.password,
                    full_name: updated(record.full_name@, body.full_name),
                    address: updated(record.address@, body.address),
                    phone_number: updated(record.phone_number@, body.phone_number),
                    role: updated(record.role@, body.role),
                    photo: updated(record.photo@, body.photo),
                    created_at: record.created_at as int,
                    updated_at: now as int,
                })
                &&& match body.password {
                    None => n@.password == record.password@,
                    Some(p) => if bcrypt_verifies(p@, record.password@) {
                        n@.password == record.password@
                    } else {
                        bcrypt_verifies(p@, n@.password)
                    },
                }
            },
            Err(e) => e == AuthError::StoreFailure && (body.password matches Some(p)
                && !bcrypt_verifies(p@, record.password@)),
        },
{
    let password = match &body.password {
        None => record.password.clone(),
        Some(p) => if verify_password(p.as_str(), record.password.as_str()) {
            record.password.clone()
        } else {
            match hash_password(p.as_str()) {
                Some(h) => h,
                None => return Err(AuthError::StoreFailure),
            }
        },
    };
    Ok(
        UserData {
            id: record.id,
            username: take_or_keep(&record.username, &body.username),
            password,
            full_name: take_or_keep(&record.full_name, &body.full_name),
            address: take_or_keep(&record.address, &body.address),
            phone_number: take_or_keep(&record.phone_number, &body.phone_number),
            role: take_or_keep(&record.role, &body.role),
            photo: take_or_keep(&record.photo, &body.photo),
            created_at: record.created_at,
            updated_at: now,
        },
    )
}

} // verus!
