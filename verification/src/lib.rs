//! Verified core of a local-loopback asset server: it decides which files under
//! a served root directory may be read or written (lexical path containment),
//! enumerates a directory tree up to a hard cap, validates caption writes, and
//! counts tokens for caption strings.  All I/O stays outside this crate; the
//! functions here take plain values and return the decisions the I/O layer acts
//! on.

pub mod errors;
pub mod path_model;
pub mod path_guard;
pub mod path_laws;
pub mod serve;
pub mod captions;
pub mod root_state;
pub mod enumerate;
pub mod tokens;
