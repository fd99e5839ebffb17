//! The transformation passes that run over the object tree after
//! construction.

pub mod infer_aliases;
pub mod collect_globals;
pub mod resolve_exprs;
