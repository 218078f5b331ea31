//! Cleaning of a `PATH`-like list of directories: entries whose variables
//! cannot be expanded, that do not name an existing directory, or that name a
//! directory already listed are removed, and the rest keep their order and
//! their original text.
pub mod text;
pub mod normalize;
pub mod laws;
pub mod expand;
pub mod scope;
pub mod cleaning;
