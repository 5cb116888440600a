//! The core of a terminal explorer for a version-controlled working tree:
//! the status-annotated entry model, the flat expandable tree, the selection
//! and focus state machine, the diff report assembly and the commit dialog.

pub mod app;
pub mod commit;
pub mod debug;
pub mod diff;
pub mod entry;
pub mod error;
pub mod flat;
pub mod order;
pub mod path;
pub mod scan;
pub mod status;
pub mod text;
pub mod tree;
