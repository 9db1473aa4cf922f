//! Root-mean-square deviation between paired point sets, and the Kabsch
//! alignment that minimises it.
//!
//! The verified part of the library holds the decisions of that computation:
//! when two point matrices may be compared (`shape`), how the reflection
//! correction of the Kabsch rotation is chosen and why it yields a proper
//! rotation (`reflection`), and how the lines of a coordinate file are read
//! (`xyz`).
pub mod reflection;
pub mod shape;
pub mod xyz;
