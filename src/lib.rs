//! Classification and signature rewriting of JNI bridge declarations, together
//! with the value codecs that the generated entry points rely on.

pub mod naming;
pub mod model;
pub mod diagnostics;
pub mod classify;
pub mod rewrite;
pub mod transform;
pub mod convert;
pub mod package;
