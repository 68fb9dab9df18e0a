//! Streaming import of vehicle-registry records.
//!
//! A record arrives as a flat stream of parse events. The [`builder`]
//! rebuilds its tree with a stack of open elements, classifying every
//! element by the [`schema`]; [`render`] turns a finished tree into one
//! generic [`value`]; [`table`] and [`json`] make the relational row and
//! the JSON text from it; [`dispatch`] says which sink gets what, and
//! where the file-based sink starts a new output unit. [`nesting`] holds
//! what is proved of the builder on well-nested input, and [`reader`]
//! reads records from an XML document in memory.

pub mod builder;
pub mod diagnostic;
pub mod dispatch;
pub mod json;
pub mod nesting;
pub mod reader;
pub mod record;
pub mod render;
pub mod schema;
pub mod table;
pub mod text;
pub mod value;
