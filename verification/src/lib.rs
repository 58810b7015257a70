//! Decoder for the GSHHG (Global Self-consistent Hierarchical
//! High-resolution Shorelines) binary polygon format.

pub mod collection;
pub mod encode;
pub mod polygon;
pub mod stream;

pub use collection::Gshhg;
pub use polygon::{Level, Point, Polygon, PolygonId, Source};
pub use stream::{ByteSource, DecodeError};
