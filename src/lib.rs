//! Tamper-evident markers for Python definitions.
//!
//! A definition (function, async function or class) is marked with a
//! decorator named `<base>_<digest>`, where the digest is taken over the
//! definition's canonical text: the definition with every marker decorator
//! left out. The syntax tree itself is parsed and printed by the host; this
//! crate holds the model of the walked tree and every decision made on it.

pub mod syntax;
pub mod marker;
pub mod digest;
pub mod discovery;
pub mod embed;
