//! Chunked, resumable uploads to a Cloudreve server: the rules by which a file
//! is cut into chunks, encrypted, handed to workers, retried and reported, and
//! the requests that go to the server on the way.

pub mod api;
pub mod commands;
pub mod config;
pub mod profiles;
pub mod text;
pub mod uploader;
