use vstd::prelude::*;
use crate::export::{Export, ExportView, export_name, valid_export};
use crate::names::Ident;
use crate::paths::{LibraryPath, valid_path};
use crate::procedure_id::{id_key, procedure_id_of};

verus! {

/// The key that an export of the module at `path` is indexed under.
pub open spec fn export_key(path: Seq<Seq<char>>, e: ExportView) -> (u64, u64, u32) {
    id_key(procedure_id_of(path, export_name(e).text))
}

// IMPORTS
// ================================================================================================

/// What an import stands for: the local alias, and the module path it binds.
pub struct ImportView {
    pub alias: Seq<char>,
    pub path: Seq<Seq<char>>,
}

/// `use.path->alias`: makes the module at `path` callable as `alias::name`.
#[derive(Debug, Clone, PartialEq, Eq)]
pub struct Import {
    alias: Ident,
    path: LibraryPath,
}

impl View for Import {
    type V = ImportView;

    closed spec fn view(&self) -> ImportView {
        ImportView { alias: self.alias@, path: self.path@ }
    }
}

impl Import {
    pub fn new(alias: Ident, path: LibraryPath) -> (r: Import)
        ensures
            r@ == (ImportView { alias: alias@, path: path@ }),
    {
        Import { alias, path }
    }

    pub fn alias(&self) -> (r: &Ident)
        ensures
            r@ == self@.alias,
    {
        &self.alias
    }

    pub fn path(&self) -> (r: &LibraryPath)
        ensures
            r@ == self@.path,
    {
        &self.path
    }
}

// MODULES
// ================================================================================================

/// What a module stands for: its path, its exports in order, and its imports.
pub struct ModuleView {
    pub path: Seq<Seq<char>>,
    pub exports: Seq<ExportView>,
    pub imports: Seq<ImportView>,
}

pub open spec fn valid_module(m: ModuleView) -> bool {
    &&& valid_path(m.path)
    &&& forall|i: int| 0 <= i < m.exports.len() ==> valid_export(#[trigger] m.exports[i])
    &&& forall|i: int| 0 <= i < m.imports.len() ==> valid_path(#[trigger] m.imports[i].path)
}

/// Whether one of the module's exports is indexed under `k`.
pub open spec fn module_has_key(m: ModuleView, k: (u64, u64, u32)) -> bool {
    exists|e: int| 0 <= e < m.exports.len() && #[trigger] export_key(m.path, m.exports[e]) == k
}

/// Whether the module's path lies under namespace `ns`.
pub open spec fn in_namespace(ns: Seq<char>, m: ModuleView) -> bool {
    m.path.len() > 0 && m.path[0] == ns
}

pub open spec fn exports_view(s: Seq<Export>) -> Seq<ExportView> {
    s.map_values(|e: Export| e@)
}

pub open spec fn imports_view(s: Seq<Import>) -> Seq<ImportView> {
    s.map_values(|i: Import| i@)
}

/// A compilation unit: a path, the procedures and re-exports it makes visible,
/// and the modules it imports.
#[derive(Debug, Clone, PartialEq, Eq)]
pub struct Module {
    path: LibraryPath,
    exports: Vec<Export>,
    imports: Vec<Import>,
}

impl View for Module {
    type V = ModuleView;

    closed spec fn view(&self) -> ModuleView {
        ModuleView {
            path: self.path@,
            exports: exports_view(self.exports@),
            imports: imports_view(self.imports@),
        }
    }
}

impl Module {
    pub open spec fn wf(&self) -> bool {
        valid_module(self@)
    }

    pub fn new(path: LibraryPath, exports: Vec<Export>, imports: Vec<Import>) -> (r: Module)
        ensures
            r@ == (ModuleView {
                path: path@,
                exports: exports_view(exports@),
                imports: imports_view(imports@),
            }),
    {
        Module { path, exports, imports }
    }

    pub fn path(&self) -> (r: &LibraryPath)
        ensures
            r@ == self@.path,
    {
        &self.path
    }

    pub fn exports(&self) -> (r: &[Export])
        ensures
            exports_view(r@) == self@.exports,
    {
        self.exports.as_slice()
    }

    pub fn imports(&self) -> (r: &[Import])
        ensures
            imports_view(r@) == self@.imports,
    {
        self.imports.as_slice()
    }

    /// Whether the module lies in namespace `ns`, the first segment of its path.
    pub fn in_namespace(&self, ns: &Ident) -> (r: bool)
        ensures
            r == in_namespace(ns@, self@),
    {
        self.path.len() > 0 && self.path.segment(0).same(ns)
    }

    /// Checks that the module lies in namespace `ns`.
    pub fn check_namespace(&self, ns: &Ident) -> (r: Result<(), LibraryError>)
        ensures
            r is Ok <==> in_namespace(ns@, self@),
            r matches Err(e) ==> e matches LibraryError::NamespaceMismatch(p) && p@ == self@.path,
    {
        if self.in_namespace(ns) {
            Ok(())
        } else {
            Err(LibraryError::NamespaceMismatch(self.path.clone_path()))
        }
    }

    /// Takes the path out of the module.
    pub fn into_path(self) -> (r: LibraryPath)
        ensures
            r@ == self@.path,
    {
        self.path
    }
}

// LIBRARIES
// ================================================================================================

/// Why a library or module could not be added.
#[derive(Debug, Clone, PartialEq, Eq)]
pub enum LibraryError {
    /// A module with this path is already present.
    DuplicateModulePath(LibraryPath),
    /// A library contributed a module at this path, outside its namespace.
    NamespaceMismatch(LibraryPath),
}

/// A bundle of modules contributed as a unit, all under one root namespace.
pub trait Library {
    /// The namespace every module of the library lies in.
    fn root_ns(&self) -> &Ident;

    /// The library's modules, in order.
    fn modules(&self) -> Vec<Module>;
}

} // verus!
