//! What the commands of the program decide and say.

pub mod auth;
pub mod login;
pub mod upload;
