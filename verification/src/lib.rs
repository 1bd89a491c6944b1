//! Verified core of iced's accessibility support: the persistent widget
//! state tree, the construction of accessibility nodes by the built-in
//! widgets, and the text-offset arithmetic used by text inputs.
use vstd::prelude::*;

pub mod container;
pub mod content;
pub mod group;
pub mod node;
pub mod table;
pub mod text;
pub mod text_input;
pub mod tree;
pub mod user_interface;
pub mod widget;

verus! {
} // verus!
