//! What is said to the server and what it answers.

pub mod models;
pub mod user;
