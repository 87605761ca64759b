//! The stack of open elements of an HTML tree builder, and the attribute
//! helpers used by the procedural macros that accompany it.

pub mod attr;
pub mod laws;
pub mod node;
pub mod scope;
pub mod stack;

