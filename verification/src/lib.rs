//! A source-to-source template expander over token trees.
//!
//! Given an invocation `name in start..end { body }`, the library produces
//! the concatenation of `end - start` copies of `body`, one per integer in
//! the half-open range, with every occurrence of the placeholder `name`
//! replaced by that integer's decimal literal. A fusion marker `~` placed
//! between a name and the placeholder splices the two into one composite
//! name per iteration (`item~name` becomes `item0`, `item1`, ...).

pub mod expand;
pub mod laws;
pub mod num;
pub mod parse;
pub mod transform;
pub mod tree;
