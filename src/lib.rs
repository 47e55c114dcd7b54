//! Construction and HTTP/1.1 wire serialization of server responses.

pub mod response;
