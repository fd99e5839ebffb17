//! Intermediate representation of a declarative UI language: the typed
//! expression algebra with unit arithmetic, the element/component object
//! tree, the passes that resolve expressions and two-way-binding aliases
//! over it, and the license-header tooling the project's sources are kept
//! tidy with.

pub mod builder;
pub mod diagnostics;
pub mod expression;
pub mod langtype;
pub mod license;
pub mod namedreference;
pub mod object_tree;
pub mod passes;
pub mod syntax;
pub mod typeregister;
pub mod units;
