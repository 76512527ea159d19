//! Where the rows of a translation sheet come from.
use vstd::prelude::*;

verus! {

/// A source of sheet rows, the header first, as text cells.
pub trait EFile {
    fn rows(&mut self) -> Vec<Vec<String>>;
}

} // verus!
