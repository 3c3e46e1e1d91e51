// Request and response bodies of the user account interface.
use vstd::prelude::*;

verus! {

/// What a user may do.
#[derive(Clone, Copy, Debug, PartialEq, Eq, Structural)]
pub enum Role {
    Administrator,
    Coordinator,
    Typist,
}

/// A username and password offered at login.
#[derive(Clone, Debug)]
pub struct Credentials {
    pub username: String,
    pub password: String,
}

/// The user a session belongs to, as shown after login.
#[derive(Clone, Debug)]
pub struct LoginResponse {
    pub user_id: u32,
    pub fullname: Option<String>,
    pub username: String,
    pub role: Role,
    pub needs_password_change: bool,
}

/// A user's own change of password and, optionally, full name.
#[derive(Clone, Debug)]
pub struct AccountUpdateRequest {
    pub username: String,
    pub password: String,
    pub fullname: Option<String>,
}

/// A new user, created by an administrator with a temporary password.
#[derive(Clone, Debug)]
pub struct CreateUserRequest {
    pub username: String,
    pub fullname: Option<String>,
    pub temp_password: String,
    pub role: Role,
}

/// Changes an administrator makes to an existing user.
#[derive(Clone, Debug)]
pub struct UpdateUserRequest {
    pub fullname: Option<String>,
    pub temp_password: Option<String>,
}

} // verus!
