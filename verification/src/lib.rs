//! A verified HTTP request dispatcher.
//!
//! The crate has two coupled pieces: a lexical path-cleaning algorithm
//! (`path::clean`) that normalizes URL paths the way a POSIX path is
//! normalized, and a routing decision engine (`router::Router`) that, given
//! a method and a path, chooses between direct dispatch, a redirect, an
//! automatic OPTIONS / 405 answer, and a not-found fallback.

pub mod matcher;
pub mod path;
pub mod response;
pub mod router;

pub use matcher::RegisterError;
pub use path::clean;
pub use response::SynthesizedResponse;
pub use response::synthesize;
pub use router::Method;
pub use router::Outcome;
pub use router::Params;
pub use router::Router;
