//! A live, incrementally-updated syntax tree for a text document under
//! edits, and the changed syntax regions that drive editor highlighting.
//!
//! The grammar itself is an opaque external collaborator: the host runs it
//! and hands trees in as plain values. Everything around it is verified
//! here: the translation of text deltas into the parser's edit coordinates,
//! the reuse bookkeeping and changed-flag derivation of the incremental
//! parse engine, the restartable depth-first tree walker that enumerates
//! changed nodes, the language registry, and the per-document session state
//! machines with their manager.

mod edit;
mod engine;
mod manager;
mod registry;
mod session;
mod tree;
mod walker;

pub use edit::LineIndex;
pub use edit::Point;
pub use edit::TextDelta;
pub use edit::TreeEdit;
pub use edit::delta_ok;
pub use edit::edit_wf;
pub use edit::spec_point;
pub use edit::spec_translate;
pub use edit::translate_delta;
pub use engine::ByteRegion;
pub use engine::CoreError;
pub use engine::ParseEngine;
pub use engine::all_clear;
pub use engine::changed_monotone;
pub use engine::is_marked;
pub use engine::is_shifted;
pub use engine::lemma_changed_closed_under_ancestor;
pub use engine::lemma_incremental_equivalence;
pub use engine::lemma_marked_clear;
pub use engine::lemma_marked_monotone;
pub use engine::lemma_reparse_idempotent;
pub use engine::mark;
pub use engine::node_bounded;
pub use engine::same_shape;
pub use engine::shift_node;
pub use manager::DocumentId;
pub use manager::SessionManager;
pub use registry::LanguageHandle;
pub use registry::SUPPORTED_ABI;
pub use registry::resolve;
pub use registry::resolve_spec;
pub use session::DocumentSession;
pub use session::ParseAction;
pub use tree::NodeMeta;
pub use tree::SyntaxNode;
pub use tree::index_in_preorder;
pub use tree::lemma_index_distinct;
pub use tree::lemma_node_position;
pub use tree::lemma_parent_before_descendant;
pub use tree::node_at;
pub use tree::valid_path;
pub use walker::TreeIter;
pub use walker::changed_kinds;
pub use walker::changed_kinds_spec;
pub use walker::walk_preorder;
