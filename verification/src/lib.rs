//! Locates directories named `node_modules` in a file-system subtree and,
//! after interactive confirmation, deletes or lists them.
//!
//! The crate is organised around four components:
//! - [`tree`]: a pure model of a directory tree, on which the two traversal
//!   policies are specified and their properties proved;
//! - [`walk`]: resolves the starting directory and walks the real tree under
//!   one of the policies, with the filesystem probes behind trusted wrappers;
//! - [`confirm`]: the interactive confirmation state machine;
//! - [`dispatch`]: turns a confirmed action and the located paths into
//!   per-path outcomes.

mod confirm;
mod dispatch;
mod errors;
mod tree;
mod walk;

pub use confirm::ConfirmAction;
pub use confirm::PromptState;
pub use confirm::parse_confirm_action;
pub use confirm::prompt_step;
pub use confirm::resolve_confirmation;
pub use dispatch::Outcome;
pub use dispatch::apply;
pub use dispatch::lemma_outcome_counts;
pub use errors::Error;
pub use tree::DirTree;
pub use tree::child_path;
pub use tree::is_module_name;
pub use tree::lemma_exhaustive_reports_match;
pub use tree::lemma_matches_are_descendants;
pub use tree::lemma_no_module_no_matches;
pub use tree::lemma_pruned_matches_disjoint;
pub use tree::lemma_pruned_single_nested;
pub use tree::lemma_single_module_child;
pub use tree::locate_in_tree;
pub use tree::module_candidate;
pub use tree::tree_has_module_child;
pub use walk::check_candidate;
pub use walk::extract_directory;
pub use walk::get;
pub use walk::get_rec;
pub use walk::locate;
pub use walk::locate_walk;
pub use walk::successful_paths;
