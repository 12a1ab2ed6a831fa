//! A differential oracle for a small-string type: it predicts which text
//! operations must fault, replays operations on a reference `String` and on the
//! subject side by side, and checks the representation invariants after each step.
use vstd::prelude::*;

pub mod bounds;
pub mod mode;
pub mod oracle;
pub mod smart;
pub mod text;

verus! {

} // verus!
