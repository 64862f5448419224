//! Where the data of a game comes from.

use vstd::prelude::*;

verus! {

/// The files that hold a game's type map, enumerations, remaps and asset bundle;
/// each one left out is replaced by an empty default.
#[derive(Debug, Clone)]
pub struct GamePaths {
    pub rsz: Option<String>,
    pub enums: Option<String>,
    pub remaps: Option<String>,
    pub bundle: Option<String>,
}

} // verus!
