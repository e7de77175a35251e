//! Request bodies of the authentication and user endpoints.
use vstd::prelude::*;

verus! {

/// Credentials offered at login.
pub struct LoginBody {
    pub username: String,
    pub password: String,
}

/// A request to replace the password of user `id`.
pub struct ChangePasswordBody {
    pub id: i32,
    pub old_password: String,
    pub new_password: String,
}

/// A new user, with the password in plain text.
pub struct UserCreateBody {
    pub username: String,
    pub password: String,
    pub full_name: String,
    pub address: String,
    pub phone_number: String,
    pub role: String,
    pub photo: String,
}

/// Changes to a user; an absent field keeps its value.
pub struct UserUpdateBody {
    pub username: Option<String>,
    pub password: Option<String>,
    pub full_name: Option<String>,
    pub address: Option<String>,
    pub phone_number: Option<String>,
    pub role: Option<String>,
    pub photo: Option<String>,
}

} // verus!
