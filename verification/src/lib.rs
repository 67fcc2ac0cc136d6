//! Completion popup core: fuzzy matching of a typed query against candidate
//! labels, ranking of the surviving entries, the session state machine that
//! correlates requests with responses, and the scroll arithmetic that keeps
//! the selected row inside the viewport.

pub mod entry;
pub mod fuzzy;
pub mod rank;
pub mod scorer;
pub mod session;
pub mod state;
pub mod viewport;

pub use entry::{completion_svg, CompletionEntry, CompletionKind, ScoredCompletionItem};
pub use fuzzy::fuzzy_match;
pub use rank::rank;
pub use session::{CompletionData, CompletionStatus, Direction};
pub use state::{CompletionState, CompletionWidget};
pub use viewport::{scroll_to, visible_range, CompletionContainer, CompletionNew};
