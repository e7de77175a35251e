//! Authentication and session authorization: credential checks at login,
//! signed stateless session tokens, request-time token validation and the
//! password change flow.

pub mod claims;
pub mod text;
pub mod json;
pub mod token;
pub mod password;
pub mod bodies;
pub mod session;
pub mod users;
pub mod pagination;
