//! Property sheets and query predicates evaluated over syntax trees.
//!
//! The crate compiles two declarative descriptions into runtime evaluators:
//! a property sheet, which assigns property sets to the nodes of a tree while
//! a cursor walks it, and the predicates of a query, which filter the raw
//! matches of a structural pattern matcher by the text of their captures.

pub mod language;
pub mod property_cursor;
pub mod property_sheet;
pub mod query;
pub mod query_cursor;
pub mod text;
pub mod tree;

pub use language::{Language, Point, Range};
pub use property_cursor::TreePropertyCursor;
pub use property_sheet::{
    PropertySheet, PropertySheetError, PropertySheetJSON, PropertyState, PropertyStateJSON,
    PropertyTransition, PropertyTransitionJSON,
};
pub use query::{PredicateStepKind, Query, QueryError, QueryPredicateStep};
pub use query_cursor::{QueryCapture, QueryCursor, QueryMatch};
pub use tree::{Node, NodeData, Tree, TreeCursor};
