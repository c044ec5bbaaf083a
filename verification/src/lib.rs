//! Baton's core as a verified library: the command system (actions, the
//! registry, conditions, keystrokes and the keymap), the input router, the
//! palette's ranking, and render-path instrumentation.
//!
//! Keys are physical positions, named by their W3C UI Events codes; a
//! binding's condition is a small predicate over a closed set of context
//! flags; the registry hands out stable indices; and a keystroke resolves
//! through the assembled keymap to an action or falls through to the
//! terminal. Every byte heading for a terminal passes through one routing
//! decision.

pub mod action;
pub mod catalog;
pub mod clause_proofs;
pub mod context;
pub mod keymap;
pub mod keystroke;
pub mod metrics;
pub mod predicate;
pub mod registry;
pub mod router;
pub mod search;
pub mod store;
pub mod text;

pub use action::{Action, ArgShape, Binding, Channels, reachable_from, union};
pub use catalog::{actions, built_in, default_keymap};
pub use context::{Flag, Flags, UnknownFlag, combine, holds};
pub use keymap::{
    BindingError, BindingProblem, Conflict, Keymap, assemble, try_assemble,
};
pub use keystroke::{Keystroke, KeystrokeError, keystroke_from_event};
pub use metrics::Metrics;
pub use predicate::{Predicate, PredicateError, evaluate, satisfiable_together};
pub use registry::{ActionId, MergeError, Registry, Source, merge, try_merge};
pub use router::{PaneId, TargetSet, dispatch, dispatch as route_input, recipients, write_reaches};
pub use search::{
    Availability, Hit, PaletteResult, PaletteRow, palette_results, palette_rows, rank, row_texts,
    rank as palette_rank_for_measure,
};
pub use store::{Store, shell_from_env};
