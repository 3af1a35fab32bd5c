//! A representation tree with a morphism resolution engine.
//!
//! A single logical value can be kept in many representations at once
//! (for example a natural number as a big-endian hex digit string, a
//! little-endian digit sequence, or a machine integer).  The library
//! stores those representations in a typed tree ([`repr::ReprTree`]),
//! registers typed conversion rules
//! ([`morphism::GenericReprTreeMorphism`]) and, on request, resolves a
//! conversion between two representation types and wires up the
//! projection it calls for.

pub mod context;
pub mod cursor;
pub mod index;
pub mod sum;
pub mod digit;
pub mod integer;
pub mod morphism;
pub mod repr;
pub mod subst;
pub mod term;
pub mod transform;
pub mod value;

pub use context::{Context, TypeDict};
pub use cursor::{ListCursorMode, TreeCursor};
pub use index::{IndexArea, IndexBuffer, IndexBufferView, Point2, PointRange};
pub use morphism::{GenericReprTreeMorphism, MorphismBase, MorphismType, SetupRule,
    TransformTemplate};
pub use repr::{Edge, ReprLeaf, ReprTree};
pub use subst::Substitution;
pub use sum::SumEditor;
pub use term::{TypeID, TypeTerm};
pub use transform::Transform;
pub use value::LeafValue;
