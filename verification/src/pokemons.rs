//! The creature marker a rendered piece carries.

use vstd::prelude::*;

verus! {

/// Which creature a piece is: its species number and display name.
#[derive(Debug, Clone, PartialEq, Eq)]
pub struct Pokemon {
    pub id: u32,
    pub name: String,
}

} // verus!
