use vstd::prelude::*;

verus! {

/// The profile snapshot of a credential record as it travels inside a
/// session token. Timestamps are seconds since the Unix epoch.
#[derive(Clone)]
pub struct UserData {
    pub id: i32,
    pub username: String,
    pub password: String,
    pub full_name: String,
    pub address: String,
    pub phone_number: String,
    pub role: String,
    pub photo: String,
    pub created_at: i64,
    pub updated_at: i64,
}

/// Mathematical model of [`UserData`].
pub ghost struct UserView {
    pub id: int,
    pub username: Seq<char>,
    pub password: Seq<char>,
    pub full_name: Seq<char>,
    pub address: Seq<char>,
    pub phone_number: Seq<char>,
    pub role: Seq<char>,
    pub photo: Seq<char>,
    pub created_at: int,
    pub updated_at: int,
}

impl View for UserData {
    type V = UserView;

    open spec fn view(&self) -> UserView {
        UserView {
            id: self.id as int,
            username: self.username@,
            password: self.password@,
            full_name: self.full_name@,
            address: self.address@,
            phone_number: self.phone_number@,
            role: self.role@,
            photo: self.photo@,
            created_at: self.created_at as int,
            updated_at: self.updated_at as int,
        }
    }
}

/// Session claims: a scrubbed profile snapshot and the absolute expiry
/// instant in epoch seconds.
#[derive(Clone)]
pub struct JwtClaims {
    pub user_data: UserData,
    pub exp: usize,
}

/// Mathematical model of [`JwtClaims`].
pub ghost struct ClaimsView {
    pub user_data: UserView,
    pub exp: nat,
}

impl View for JwtClaims {
    type V = ClaimsView;

    open spec fn view(&self) -> ClaimsView {
        ClaimsView { user_data: self.user_data@, exp: self.exp as nat }
    }
}

/// The same profile with the password hash replaced by the empty string.
pub open spec fn scrubbed(u: UserView) -> UserView {
    UserView { password: Seq::empty(), ..u }
}

/// Two profiles agree on every field but the password hash.
pub open spec fn same_profile(a: UserView, b: UserView) -> bool {
    scrubbed(a) == scrubbed(b)
}

fn clone_string(s: &String) -> (r: String)
    ensures
        r@ == s@,
{
    s.clone()
}

impl UserData {
    /// A copy of the profile.
    pub fn clone_data(&self) -> (r: UserData)
        ensures
            r@ == self@,
    {
        UserData {
            id: self.id,
            username: clone_string(&self.username),
            password: clone_string(&self.password),
            full_name: clone_string(&self.full_name),
            address: clone_string(&self.address),
            phone_number: clone_string(&self.phone_number),
            role: clone_string(&self.role),
            photo: clone_string(&self.photo),
            created_at: self.created_at,
            updated_at: self.updated_at,
        }
    }

    /// A copy of the profile with the password hash removed, fit to be
    /// shown to a client or embedded in a token.
    pub fn scrub(&self) -> (r: UserData)
        ensures
            r@ == scrubbed(self@),
    {
        UserData {
            id: self.id,
            username: clone_string(&self.username),
            password: String::new(),
            full_name: clone_string(&self.full_name),
            address: clone_string(&self.address),
            phone_number: clone_string(&self.phone_number),
            role: clone_string(&self.role),
            photo: clone_string(&self.photo),
            created_at: self.created_at,
            updated_at: self.updated_at,
        }
    }
}

} // verus!
