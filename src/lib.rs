//! A small static file server's core: choosing a listening port, reading the
//! target out of a request, resolving it under a root directory, and writing
//! the response bytes.
pub mod handler;
pub mod mime;
pub mod port;
pub mod request;
pub mod resolve;
pub mod response;
pub mod segments;
pub mod text;
