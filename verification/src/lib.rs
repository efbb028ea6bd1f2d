//! Planning of type-safe HTTP clients from endpoint definitions, and the
//! verified helpers that such clients call.
//!
//! `parse` reads a client definition from the macro's input tokens. `expanders`
//! checks the definition and plans the generated items: the names of the error
//! enum, the trait and the methods, each method's parameters, return type and
//! retry count, and the constructor's auth parameters.
//! `client`, `auth` and `runtime` hold what a generated client calls at run time:
//! path filling with percent-encoding, the auth header, the status check and its
//! `Http` error, and the retry decisions with backoff.
pub mod auth;
pub mod client;
pub mod error;
pub mod expanders;
pub mod input;
pub mod parse;
pub mod runtime;
mod text;
