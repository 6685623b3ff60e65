//! A small TCP file server's protocol: a request names one file under the
//! served root; the reply is an eight-byte big-endian chunk count, the file in
//! chunks of at most 1024 bytes, then an empty write as end marker. Errors are
//! answered with a message and the end marker.

pub mod error;
pub mod request;
pub mod sender;
