//! Package-atom parsing and per-profile environment mapping sets.
//!
//! An *atom* is a textual package specifier of the form
//! `[<op>]category/package[-version]`, where the optional leading comparison
//! operator is one of `<`, `<=`, `=`, `>=`, `>` and the version suffix begins
//! with a digit.  An *environment mapping set* owns the atoms assigned to one
//! named profile, loaded from a line-oriented backing store, and answers
//! membership queries used to keep each atom in at most one profile.

pub mod atom;
pub mod envmap;

pub use atom::Atom;
pub use atom::AtomVersionConstraint;
pub use atom::AtomVersionOperator;
pub use atom::ParseError;
pub use envmap::AtomEnvironmentMap;
