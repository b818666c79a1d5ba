//! Loading of polygon meshes from the line-oriented OBJ text format.
//!
//! `Model::parse` reads vertex positions (`v`), normals (`vn`), texture
//! coordinates (`vt`) and faces (`f`) in one pass. Numeric components are
//! checked to be floating-point numbers (decimal, or `inf`, `infinity` or
//! `nan`) and kept as their tokens; face corners are resolved into zero-based
//! offsets and packed into one flat `u16` buffer of self-describing records,
//! which `ElementIter` decodes again one record at a time.
pub mod element;
pub mod error;
pub mod index;
pub mod laws;
pub mod mesh;
pub mod number;
pub mod syntax;
pub mod text;

pub use element::{ElementDataType, ElementIter};
pub use error::{ErrorKind, ObjLoadError, ObjParseError, Statement};
pub use index::resolve_index;
pub use mesh::{Mesh, Model, Warning};
