//! Canonical addressing for resources that may live in several backends:
//! the local filesystem, a synthetic search-results namespace, entries of
//! virtually opened archives, and files behind a named remote connection.
//!
//! A [`url::Url`] couples a hierarchical location with a [`scheme::Scheme`]
//! tag and an opaque fragment.  It parses from and serializes to a wire
//! form losslessly, supports per-scheme hierarchy navigation, and defines
//! the equality/hash semantics that let it serve as an identity key.

pub mod laws;
pub mod lookup;
pub mod loc;
pub mod pct;
pub mod scan;
pub mod scheme;
pub mod url;
