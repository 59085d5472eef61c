//! Procedure naming, call-target resolution, module aggregation and the binary
//! encoding of invocation targets and exports for a stack-machine assembler.
//!
//! - Names and paths: [`ProcedureName`], [`Ident`], [`LibraryPath`], and
//!   [`ProcedureId`], the digest of a fully qualified name used as an index key.
//! - Call sites: [`InvocationTarget`] and [`Invoke`], parsed from text by
//!   [`parse_target`], written and read back byte for byte.
//! - Exports: [`Export`], a [`Procedure`] or a [`ProcedureAlias`].
//! - Aggregation: [`ModuleProvider`] indexes the modules of each [`Library`].
//!
//! Choices the provider makes where more than one would do:
//! - a library is checked against its namespace before any of its modules is
//!   added, so a module outside the namespace leaves the provider unchanged;
//! - a duplicate module path stops a library part way, and the modules added
//!   before it stay;
//! - the index resolves re-exports one hop at a time, and
//!   [`ModuleProvider::definition_of`] walks a chain within a hop budget, so a
//!   cycle of aliases ends in "not found".

pub mod bytes;
pub mod span;
pub mod names;
pub mod paths;
pub mod digest;
pub mod procedure_id;
pub mod invocation_target;
pub mod procedure;
pub mod export;
pub mod module;
pub mod module_provider;
pub mod resolver;
pub mod render;

pub use bytes::{AstSerdeOptions, ByteReader, DeserializationError};
pub use span::{SourceSpan, Span};
pub use names::{Ident, ProcedureName};
pub use paths::LibraryPath;
pub use digest::RpoDigest;
pub use procedure_id::{ProcedureId, QualifiedProcedureName};
pub use invocation_target::{InvocationTarget, Invoke, InvokeKind};
pub use procedure::{Procedure, Visibility};
pub use export::{Export, ProcedureAlias};
pub use module::{Import, Library, LibraryError, Module};
pub use module_provider::ModuleProvider;
pub use resolver::{ResolvedProcedure, parse_target};
