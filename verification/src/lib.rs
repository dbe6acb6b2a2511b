//! Semantic analysis core of a VHDL front end.
//!
//! Given a syntax tree of concurrent and sequential statements and a scope of
//! previously analyzed declarations, the analysis resolves names to
//! declarations, checks expressions against expected types, resolves
//! overloaded subprogram calls and reports what it finds as an ordered list of
//! diagnostics.
//!
//! Declarations live in an arena and are named by their index. The syntax
//! tree is never modified: every name node owns a slot in a table of
//! references, and the analysis binds or clears slots. Identifiers are
//! interned symbols, and a diagnostic says what is wrong by a message with
//! the designators and declarations concerned.
//!
//! Every analysis has a mathematical description of what it comes to: the
//! check against the expected type, the diagnostics in order, and the
//! bindings of the name nodes. The description also says where a run is
//! given up and what it has produced until then. The executable functions
//! are proved to produce exactly that, whether they succeed or not, and the
//! laws of the analysis are proved of the descriptions:
//!
//! - `region`: a nested scope sees its ancestors, the nearest declaration
//!   wins, and nothing that is added to it reaches the scope around it;
//! - `resolution`: a rejected candidate leaves no trace, a resolution binds
//!   the call site to one declaration or to none, and an actual of unknown
//!   type never makes a call ambiguous but turns a match into `Unknown`;
//! - `labels`: a label is visible in the whole sequence of statements that
//!   its statement is written in, and not outside of the construct around it.
pub mod analyze;
pub mod ast;
pub mod concurrent;
pub mod data;
pub mod declarative;
pub mod expression;
pub mod formal_region;
pub mod labels;
pub mod named_entity;
pub mod names;
pub mod overloaded;
pub mod references;
pub mod region;
pub mod resolution;
pub mod search;
pub mod semantic;
pub mod sequential;
pub mod target;
