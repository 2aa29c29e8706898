//! A hierarchical, dynamically typed namespace of reference-counted nodes.
//!
//! Nodes are addressed by slash-separated paths whose segments are packed
//! into 64-bit codes, exchange values in a flat tagged layout, and are driven
//! through a single dispatch entry point keyed by an operation tag.

pub mod allocator;
pub mod context;
pub mod conv;
pub mod data;
pub mod dispatch;
pub mod error;
pub mod handle;
pub mod intern;
pub mod map;
pub mod node;
pub mod path;
pub mod resolve;
pub mod stack;
pub mod table;
pub mod util;

pub use context::Vnodes;
pub use conv::ValueConv;
pub use data::{Action, Flags, RawValue, RawValueInner, Value};
pub use error::{Error, Result};
pub use handle::{NodeHandle, NodeHandleRef};
pub use intern::{Ident, Interned};
pub use map::InternedMap;
pub use node::{FsNode, MapNode};
pub use path::InternedPathBuf;
