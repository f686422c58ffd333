//! Declaration files from type-definition records.
//!
//! Records arrive one per exported symbol. They are sorted into emission
//! order, grouped by namespace with the method blocks folded into their
//! classes, rendered from fixed templates and re-indented from brace
//! depth.

pub mod emit;
pub mod emit_laws;
pub mod indent;
pub mod lex;
pub mod loader;
pub mod merge;
pub mod merge_laws;
pub mod object;
pub mod policy;
pub mod record;
pub mod sort;
pub mod sort_laws;
pub mod sys;
pub mod text;

pub use emit::IntermidiateTypeDefFile;
pub use indent::correct_str_indent;
pub use merge::NamespaceGroup;
pub use object::{KeyCollectionMode, KeyConversion, KeyFilter};
pub use record::{TypeDefKind, TypeDefLine, TOP_LEVEL_NAMESPACE};
