//! Authentication and session-identity library.
//!
//! The pieces: salted credential hashing (`hashing`), signed time-bounded
//! identity tokens (`token`), pluggable identity persistence over a signed
//! cookie or a shared session store (`identity`, `session`), fixed-window
//! request throttling (`ratelimit`), and the login flow that joins them
//! (`login`). `codec` holds the byte-level encodings everything above rests
//! on, `config` the startup configuration, and `errors` the failure
//! taxonomy.

pub mod codec;
pub mod config;
pub mod errors;
pub mod hashing;
pub mod i18n;
pub mod identity;
pub mod login;
pub mod ratelimit;
pub mod session;
pub mod token;
