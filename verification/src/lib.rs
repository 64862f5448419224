//! Verified core of an RE Engine save editor: format strings of field remaps,
//! lookups of remap data, editor path bookkeeping and command-line values.

pub mod assoc;
pub mod cli;
pub mod edit;
pub mod eval;
pub mod format_laws;
pub mod game_context;
pub mod number;
pub mod remap;
pub mod text;
