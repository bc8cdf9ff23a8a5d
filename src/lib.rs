//! Verified model of a browser page snapshot: an owned element tree, the
//! indexer that hands out numeric handles to interactive elements, the
//! snapshot renderer, and the tool layer built on top of them.

pub mod classify;
pub mod clickable;
pub mod dom;
pub mod error;
pub mod json;
pub mod scripts;
pub mod snapshot;
pub mod text;
pub mod tools;

pub use clickable::{clickable_listing, ClickableListing};
pub use dom::{BoundingBox, DomTree, ElementNode, SelectorMap};
pub use error::BrowserError;
pub use snapshot::generate_snapshot;
pub use tools::{ElementSelector, ToolContext, ToolKind, ToolRegistry, ToolResult};
