//! Genre taxonomy: normalisation of genre tags, classification of a tag
//! against a taxonomy of canonical genres and their aliases, the user's
//! additions to it, fuzzy suggestions, and the bookkeeping of a scan.

pub mod text;
pub mod taxonomy;
pub mod suggest;
pub mod builtin;
pub mod scan;
pub mod user;
pub mod prompt;
pub mod laws;
