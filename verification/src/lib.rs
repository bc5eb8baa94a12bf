//! Repair of debug-info metadata in an IR module, so that the module's type
//! descriptions fit a BTF-like schema.

pub mod cache;
pub mod di;
pub mod digits;
pub mod dwarf;
pub mod effects;
pub mod identity;
pub mod ir;
pub mod laws;
pub mod location;
pub mod origin;
pub mod pass;
pub mod progress;
pub mod reach;
pub mod replay;
pub mod rules;
pub mod sanitize;
pub mod text;

pub use crate::cache::Cache;
pub use crate::di::DIFix;
pub use crate::sanitize::sanitize_type_name;
