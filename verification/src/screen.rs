//! The screens of the viewer.

use vstd::prelude::*;

verus! {

/// Which screen the viewer shows.
#[derive(Clone, Copy, PartialEq, Eq, Structural, Debug)]
pub enum View {
    Table,
    Detail,
}

} // verus!
