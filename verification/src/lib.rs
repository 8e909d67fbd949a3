//! A Puppetfile library: parses the manifest text that pins puppet modules to
//! a forge and to version constraints, renders it back in canonical form, and
//! checks pinned constraints against versions reported by the forge.
pub mod chars;
pub mod scan;
pub mod strlit;
pub mod versions;
pub mod ast;
pub mod grammar;
pub mod render;
pub mod registry;
pub mod roundtrip;

pub use ast::{Puppetfile, Module, ModuleInfo, ErrorKind, PuppetfileError};
pub use versions::{Constraint, PackageVersion};
pub use registry::{RegistryLookupResult, Mismatch, successful_lookups, release_version_from_json};
