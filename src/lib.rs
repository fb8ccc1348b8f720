//! A self-modifying stack machine with the bookkeeping that guides its
//! program synthesis.
//!
//! - `number`: binary64 cells as bit patterns; decoding of opcodes with a
//!   tolerance, exact integer cells, ordering, address quantisation.
//! - `value`, `event`: the machine's values, events and error kinds.
//! - `op`: the primitive opcodes, their static stack effects, and the static
//!   check that a body must pass to become a skill.
//! - `memory`, `skills`: the address-keyed store and the skill library.
//! - `intuition`: context snapshots and the pattern gate for skills.
//! - `vm`: the machine itself, with skill frames and event emission; float
//!   arithmetic and the learned parts come from a `Host`.
//! - `logic`: type signatures, inferred for skill bodies.
//! - `stdp`: which edges of the learned transition graph an event changes.
//! - `evolution`, `hypothesis`: building, editing, registering and pruning
//!   candidate programs.
pub mod event;
pub mod evolution;
pub mod hypothesis;
pub mod intuition;
pub mod logic;
pub mod memory;
pub mod number;
pub mod op;
pub mod skills;
pub mod stdp;
pub mod value;
pub mod vm;
