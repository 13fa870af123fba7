//! Analysis core of a shader reverse-engineering toolchain.
//!
//! The crate decodes the GSFX shader container, accumulates the scalar
//! dependencies of a decoded shader program, renders them as a report, and
//! prepares the records of the shader corpus store.

pub mod batch;
pub mod compile;
pub mod db;
pub mod dependency;
pub mod disasm;
pub mod files;
pub mod order;
pub mod report;
pub mod scalar;
pub mod text;
pub mod yk;
pub mod yk_laws;
