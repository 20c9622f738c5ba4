//! Verified core of a GUI component toolkit and its code editor: docking trees, rope
//! editing, syntax highlighting and syntax lines, calendar month grids, markdown structure,
//! menu stacks and animated route transitions.

mod text;

pub mod calendar;
pub mod docking;
pub mod editor;
pub mod editor_theme;
pub mod highlight;
pub mod languages;
pub mod markdown;
pub mod menu;
pub mod rope;
pub mod router;
pub mod syntax;

use vstd::prelude::*;

verus! {

/// Points to the interactive components demo; there is nothing for it to do.
pub fn gallery() {
}

} // verus!
