//! Request resolution and response planning for a server that exposes one
//! directory tree over HTTP: path decoding and containment, content types,
//! error mapping, and the model of a directory listing page.

pub mod size;
pub mod resolve;
pub mod response;
pub mod listing;
