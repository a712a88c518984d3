//! A parser for the line-oriented Wavefront OBJ geometry format, together
//! with a navigable, read-only view of the parsed model.
//!
//! The parser turns a sequence of text lines into an [`Obj`]: three attribute
//! buffers (positions, texture coordinates, normals), one flat vertex-record
//! table, and a map from object name to group name to polygon ranges. Every
//! index stored in a successfully parsed model is validated against the final
//! buffer sizes, so the view layer can resolve attributes without bounds
//! failures.
//!
//! Attribute values are kept as their numeric source tokens; interpreting
//! them as machine floating-point values is left to callers.
#![verifier::loop_isolation(false)]

pub mod dump;
pub mod error;
pub mod numbers;
pub mod parse;
pub mod text;
pub mod types;
pub mod util;
pub mod views;

pub use crate::error::Error;
pub use crate::types::Obj;
pub use crate::types::Triple;
pub use crate::types::VertexIndices;
pub use crate::types::VertexRange;
pub use crate::views::Group;
pub use crate::views::Object;
pub use crate::views::Polygon;
pub use crate::views::Vertex;
