//! A small HTTP/1.1 message library: parses request text into a typed
//! request and serializes typed responses back into wire text.
pub mod errors;
pub mod text;
pub mod types;
pub mod request;
pub mod response;
