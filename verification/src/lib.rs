//! Verified core of clippy's lintcheck tool, of its compiler wrapper, of its
//! toolchain installer, and of a few clippy lints.
//!
//! The lints are stated over small models of the syntax trees that the
//! compiler hands them; the tools are stated over the plain values (argument
//! lists, names, versions, bytes) that their I/O reads and writes.
pub mod borrowed_param;
pub mod casts;
pub mod closure_call;
pub mod driver;
pub mod input;
pub mod install;
pub mod lintcheck;
pub mod recursive;
pub mod rust_version;
pub mod rustc_wrapper;
pub mod text;
pub mod unnecessary_join;

pub use closure_call::ReturnVisitor;
pub use input::RecursiveOptions;
pub use lintcheck::ok_or_not_found;
