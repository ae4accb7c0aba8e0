//! Compile-time dependency-injection graph resolver.
//!
//! Given per-module declarations (providers, capability implementations and
//! entry points), the library resolves every entry point's dependency tree
//! into an ordered construction plan: one construction statement per distinct
//! provider path, arguments in declared member order, capability requests
//! bound to the first-discovered implementer, manual requests routed to an
//! externally supplied input value, and configuration-sourced providers read
//! from a configuration field path instead of being constructed.

pub mod account;
pub mod ast;
pub mod builder;
pub mod decl;
pub mod errors;
pub mod module;
pub mod resolve;
pub mod table;
pub mod text;

pub use module::is_absolute_path;
pub use module::ModuleContext;
pub use decl::Provider;
