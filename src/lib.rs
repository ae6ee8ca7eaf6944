//! A client that forwards one command invocation to a remote executor:
//! it scans the arguments for local files, frames the request text, and
//! decodes the reply that the remote side sends back.
pub mod codec;
pub mod lines;
pub mod reply;
pub mod scan;
pub mod session;
pub mod text;
pub mod wire;
