//! A pull parser for the binary FBX format.
//!
//! The parser walks the tree of node records and hands out a flat sequence of
//! events: the start and the end of the document, and the start and the end of
//! each node. The properties of a node come as an undecoded byte buffer that can
//! be decoded, lazily and as often as wanted, into typed values.
pub mod array;
pub mod error;
pub mod event;
pub mod le;
pub mod parser;
pub mod property;
pub mod reader;
pub mod text;
pub mod value;

pub use error::{Error, IoError, IoErrorKind, Result};
pub use event::{FbxEvent, FbxHeaderInfo};
pub use parser::{NodeRecordHeader, Parser};
pub use property::{DelayedProperties, Iter, PropertiesIter};
pub use reader::ParserConfig;
pub use value::{Property, PropertyValue};
