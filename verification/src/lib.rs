//! Client-side core of the HTTP control API of a content-addressed storage
//! daemon: building transport-native requests, incrementally decoding
//! newline-delimited JSON response bodies, bridging chunked response bodies
//! into pull-based byte reads, and classifying server error payloads.

pub mod backend;
pub mod error;
pub mod read;
