//! A light on a GPIO output pin, switched over HTTP: the request parsing,
//! routing and response framing of the server, and the pseudo-file writes that
//! drive the pin, as pure functions with proved contracts. The caller owns the
//! socket and the file system.

pub mod gpio;
pub mod http;
pub mod light;
pub mod text;
