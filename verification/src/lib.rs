//! Search and display of Nix function documentation: the document model,
//! ranking of documents against a fuzzy query, the markup rules by which a
//! document's text is split into sections and rendered as styled lines, and
//! the state machine behind the interactive browser.

pub mod model;
pub mod text;
pub mod sections;
pub mod details;
pub mod search;
pub mod tui;
