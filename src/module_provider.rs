use vstd::prelude::*;
use std::collections::BTreeMap;
use crate::module::{
    Library, LibraryError, Module, ModuleView, export_key, in_namespace,
    module_has_key,
};
use crate::names::Ident;
use crate::procedure_id::{ProcedureId, id_key};

verus! {

broadcast use {vstd::laws_cmp::group_laws_cmp, vstd::std_specs::btree::group_btree_axioms};

/// What a provider stands for: its modules in the order they were added, and
/// the index from procedure key to module position.
pub struct ProviderView {
    pub modules: Seq<ModuleView>,
    pub index: Map<(u64, u64, u32), usize>,
}

/// The provider's invariant: module paths are distinct, every indexed key
/// points at a module that exports a procedure under it, and every export of
/// every module is indexed.
pub open spec fn provider_wf(p: ProviderView) -> bool {
    &&& forall|i: int, j: int|
        0 <= i < p.modules.len() && 0 <= j < p.modules.len() && i != j ==> #[trigger] p.modules[i].path
            != #[trigger] p.modules[j].path
    &&& forall|k: (u64, u64, u32)| #[trigger]
        p.index.contains_key(k) ==> p.index[k] < p.modules.len() && module_has_key(
            p.modules[p.index[k] as int],
            k,
        )
    &&& forall|i: int, e: int|
        0 <= i < p.modules.len() && 0 <= e < p.modules[i].exports.len() ==> p.index.contains_key(
            #[trigger] export_key(p.modules[i].path, p.modules[i].exports[e]),
        )
}

/// Whether a module at `path` is present.
pub open spec fn path_taken(p: ProviderView, path: Seq<Seq<char>>) -> bool {
    exists|i: int| 0 <= i < p.modules.len() && #[trigger] p.modules[i].path == path
}

/// `index` with every export of `m` pointed at position `idx`.
pub open spec fn index_with(index: Map<(u64, u64, u32), usize>, m: ModuleView, idx: usize) -> Map<
    (u64, u64, u32),
    usize,
> {
    Map::new(
        |k: (u64, u64, u32)| index.contains_key(k) || module_has_key(m, k),
        |k: (u64, u64, u32)|
            if module_has_key(m, k) {
                idx
            } else {
                index[k]
            },
    )
}

/// Adding module `m`: refused when its path is taken; otherwise it goes last
/// and its exports are indexed at its position. The flag tells which.
pub open spec fn add_module_spec(p: ProviderView, m: ModuleView) -> (ProviderView, bool) {
    if path_taken(p, m.path) {
        (p, false)
    } else {
        (
            ProviderView {
                modules: p.modules.push(m),
                index: index_with(p.index, m, p.modules.len() as usize),
            },
            true,
        )
    }
}

/// Adding the modules `ms` in order, stopping at the first whose path is
/// taken; that path is returned with the provider as it then stands.
pub open spec fn add_all(p: ProviderView, ms: Seq<ModuleView>) -> (ProviderView, Option<
    Seq<Seq<char>>,
>)
    decreases ms.len(),
{
    if ms.len() == 0 {
        (p, None)
    } else {
        let (q, ok) = add_module_spec(p, ms[0]);
        if !ok {
            (q, Some(ms[0].path))
        } else {
            add_all(q, ms.drop_first())
        }
    }
}

/// The position of the first module of `ms` outside namespace `ns`.
pub open spec fn first_outside(ns: Seq<char>, ms: Seq<ModuleView>) -> Option<int>
    decreases ms.len(),
{
    if ms.len() == 0 {
        None
    } else if !in_namespace(ns, ms[0]) {
        Some(0)
    } else {
        match first_outside(ns, ms.drop_first()) {
            Some(i) => Some(i + 1),
            None => None,
        }
    }
}

/// The error a library addition ends with: whether it is a namespace
/// mismatch, and the path it names.
pub open spec fn error_view(e: LibraryError) -> (bool, Seq<Seq<char>>) {
    match e {
        LibraryError::DuplicateModulePath(p) => (false, p@),
        LibraryError::NamespaceMismatch(p) => (true, p@),
    }
}

/// Adding the modules `ms` of a library with namespace `ns`: when one lies
/// outside `ns` nothing is added and the first such is named; otherwise they
/// are added in order as `add_all` says.
pub open spec fn add_library_spec(p: ProviderView, ns: Seq<char>, ms: Seq<ModuleView>) -> (
    ProviderView,
    Option<(bool, Seq<Seq<char>>)>,
) {
    match first_outside(ns, ms) {
        Some(i) => (p, Some((true, ms[i].path))),
        None => {
            let (q, dup) = add_all(p, ms);
            match dup {
                Some(path) => (q, Some((false, path))),
                None => (q, None),
            }
        },
    }
}

pub open spec fn outcome_view(r: Result<(), LibraryError>) -> Option<(bool, Seq<Seq<char>>)> {
    match r {
        Ok(()) => None,
        Err(e) => Some(error_view(e)),
    }
}

pub open spec fn modules_view(s: Seq<Module>) -> Seq<ModuleView> {
    s.map_values(|m: Module| m@)
}

// LEMMAS
// ================================================================================================

proof fn lemma_add_module_wf(p: ProviderView, m: ModuleView)
    requires
        provider_wf(p),
        p.modules.len() <= usize::MAX,
        !path_taken(p, m.path),
    ensures
        provider_wf(add_module_spec(p, m).0),
{
    let q = add_module_spec(p, m).0;
    let n = p.modules.len();
    assert forall|i: int, j: int|
        0 <= i < q.modules.len() && 0 <= j < q.modules.len() && i != j implies #[trigger] q.modules[i].path
        != #[trigger] q.modules[j].path by {
        if i == n {
            assert(p.modules[j].path == q.modules[j].path);
        } else if j == n {
            assert(p.modules[i].path == q.modules[i].path);
        } else {
            assert(p.modules[i] == q.modules[i]);
            assert(p.modules[j] == q.modules[j]);
        }
    }
    assert forall|k: (u64, u64, u32)| #[trigger]
        q.index.contains_key(k) implies q.index[k] < q.modules.len() && module_has_key(
        q.modules[q.index[k] as int],
        k,
    ) by {
        if module_has_key(m, k) {
            assert(q.index[k] == n as usize);
            assert(q.modules[n as int] == m);
        } else {
            assert(p.index.contains_key(k));
            assert(q.index[k] == p.index[k]);
            assert(q.modules[p.index[k] as int] == p.modules[p.index[k] as int]);
        }
    }
    assert forall|i: int, e: int|
        0 <= i < q.modules.len() && 0 <= e < q.modules[i].exports.len() implies q.index.contains_key(
        #[trigger] export_key(q.modules[i].path, q.modules[i].exports[e]),
    ) by {
        if i == n {
            assert(q.modules[i] == m);
            assert(module_has_key(m, export_key(m.path, m.exports[e])));
        } else {
            assert(q.modules[i] == p.modules[i]);
            assert(p.index.contains_key(export_key(p.modules[i].path, p.modules[i].exports[e])));
        }
    }
}

proof fn lemma_first_outside_at(ns: Seq<char>, ms: Seq<ModuleView>, j: int)
    requires
        0 <= j < ms.len(),
        !in_namespace(ns, ms[j]),
        forall|t: int| 0 <= t < j ==> in_namespace(ns, #[trigger] ms[t]),
    ensures
        first_outside(ns, ms) == Some(j),
    decreases j,
{
    if j > 0 {
        let tail = ms.drop_first();
        assert(in_namespace(ns, ms[0]));
        assert forall|t: int| 0 <= t < j - 1 implies in_namespace(ns, #[trigger] tail[t]) by {
            assert(tail[t] == ms[t + 1]);
        }
        lemma_first_outside_at(ns, tail, j - 1);
    }
}

proof fn lemma_first_outside_none(ns: Seq<char>, ms: Seq<ModuleView>)
    requires
        forall|t: int| 0 <= t < ms.len() ==> in_namespace(ns, #[trigger] ms[t]),
    ensures
        first_outside(ns, ms) is None,
    decreases ms.len(),
{
    if ms.len() > 0 {
        let tail = ms.drop_first();
        assert(in_namespace(ns, ms[0]));
        assert forall|t: int| 0 <= t < tail.len() implies in_namespace(ns, #[trigger] tail[t]) by {
            assert(tail[t] == ms[t + 1]);
        }
        lemma_first_outside_none(ns, tail);
    }
}

/// `m` with only its first `e` exports.
pub open spec fn with_exports_prefix(m: ModuleView, e: int) -> ModuleView {
    ModuleView { exports: m.exports.take(e), ..m }
}

proof fn lemma_index_with_step(
    index: Map<(u64, u64, u32), usize>,
    m: ModuleView,
    idx: usize,
    e: int,
)
    requires
        0 <= e < m.exports.len(),
    ensures
        index_with(index, with_exports_prefix(m, e + 1), idx) =~= index_with(
            index,
            with_exports_prefix(m, e),
            idx,
        ).insert(export_key(m.path, m.exports[e]), idx),
{
    let a = with_exports_prefix(m, e);
    let b = with_exports_prefix(m, e + 1);
    let key = export_key(m.path, m.exports[e]);
    assert(b.exports[e] == m.exports[e]);
    assert(export_key(b.path, b.exports[e]) == key);
    assert(module_has_key(b, key));
    assert forall|k: (u64, u64, u32)| module_has_key(b, k) <==> module_has_key(a, k) || k == key by {
        if k == key {
            assert(export_key(b.path, b.exports[e]) == k);
        }
        if module_has_key(b, k) {
            let x = choose|x: int| 0 <= x < b.exports.len() && #[trigger] export_key(
                b.path,
                b.exports[x],
            ) == k;
            if x < e {
                assert(a.exports[x] == b.exports[x]);
                assert(export_key(a.path, a.exports[x]) == k);
            }
        }
        if module_has_key(a, k) {
            let x = choose|x: int| 0 <= x < a.exports.len() && #[trigger] export_key(
                a.path,
                a.exports[x],
            ) == k;
            assert(a.exports[x] == b.exports[x]);
            assert(export_key(b.path, b.exports[x]) == k);
        }
    }
}

// THE PROVIDER
// ================================================================================================

/// All modules available to an assembler, with an index from procedure id to
/// the module that exports the procedure.
#[derive(Debug, Clone, PartialEq, Eq)]
pub struct ModuleProvider {
    modules: Vec<Module>,
    /// From the key of a procedure id to the position of a module that exports it.
    procedures: BTreeMap<(u64, u64, u32), usize>,
}

impl View for ModuleProvider {
    type V = ProviderView;

    closed spec fn view(&self) -> ProviderView {
        ProviderView { modules: modules_view(self.modules@), index: self.procedures@ }
    }
}

impl ModuleProvider {
    pub open spec fn wf(&self) -> bool {
        provider_wf(self@)
    }

    /// A provider with no modules.
    pub fn new() -> (r: ModuleProvider)
        ensures
            r.wf(),
            r@.modules.len() == 0,
            r@.index.is_empty(),
    {
        let r = ModuleProvider { modules: Vec::new(), procedures: BTreeMap::new() };
        assert(r@.modules =~= Seq::<ModuleView>::empty());
        r
    }

    /// The number of modules.
    pub fn num_modules(&self) -> (r: usize)
        ensures
            r == self@.modules.len(),
    {
        self.modules.len()
    }

    /// The module that exports the procedure with id `id`, if any.
    pub fn get_module(&self, id: &ProcedureId) -> (r: Option<&Module>)
        requires
            self.wf(),
        ensures
            match r {
                Some(m) => self@.index.contains_key(id_key(id@)) && m@ == self@.modules[self@.index[id_key(
                    id@,
                )] as int],
                None => !self@.index.contains_key(id_key(id@)),
            },
    {
        let key = id.key();
        match self.procedures.get(&key) {
            Some(i) => {
                assert(self@.index.contains_key(key));
                assert(self.modules@.len() == self@.modules.len());
                assert(self@.modules[*i as int] == self.modules@[*i as int]@);
                Some(&self.modules[*i])
            },
            None => None,
        }
    }

    /// The position of the module that exports the procedure with id `id`.
    pub fn lookup(&self, id: &ProcedureId) -> (r: Option<usize>)
        requires
            self.wf(),
        ensures
            match r {
                Some(i) => self@.index.contains_key(id_key(id@)) && i == self@.index[id_key(id@)]
                    && i < self@.modules.len(),
                None => !self@.index.contains_key(id_key(id@)),
            },
    {
        let key = id.key();
        match self.procedures.get(&key) {
            Some(i) => Some(*i),
            None => None,
        }
    }

    /// The module at position `i`.
    pub fn module_at(&self, i: usize) -> (r: &Module)
        requires
            i < self@.modules.len(),
        ensures
            r@ == self@.modules[i as int],
    {
        assert(self@.modules[i as int] == self.modules@[i as int]@);
        &self.modules[i]
    }

    /// Adds `module` last, indexing each of its exports, procedures and
    /// re-exports alike, under the id of its own name in this module.
    ///
    /// Fails, changing nothing, when a module with the same path is present.
    pub fn add_module(&mut self, module: Module) -> (r: Result<(), LibraryError>)
        requires
            old(self).wf(),
        ensures
            final(self).wf(),
            add_module_spec(old(self)@, module@) == (final(self)@, r is Ok),
            r matches Err(e) ==> e matches LibraryError::DuplicateModulePath(q) && q@
                == module@.path,
    {
        let ghost m = module@;
        let mut i: usize = 0;
        while i < self.modules.len()
            invariant
                i <= self@.modules.len(),
                self@ == old(self)@,
                provider_wf(self@),
                m == module@,
                forall|j: int| 0 <= j < i ==> self@.modules[j].path != m.path,
            decreases self@.modules.len() - i,
        {
            assert(self@.modules[i as int] == self.modules@[i as int]@);
            if self.modules[i].path().same(module.path()) {
                assert(provider_wf(self@));
                assert(path_taken(self@, m.path));
                return Err(LibraryError::DuplicateModulePath(module.into_path()));
            }
            i = i + 1;
        }
        assert(!path_taken(self@, m.path));
        let idx = self.modules.len();
        let mut e: usize = 0;
        assert(index_with(old(self)@.index, with_exports_prefix(m, 0), idx) =~= old(self)@.index);
        while e < module.exports().len()
            invariant
                self.modules@ == old(self).modules@,
                m == module@,
                idx == old(self)@.modules.len(),
                e <= m.exports.len(),
                self.procedures@ == index_with(old(self)@.index, with_exports_prefix(m, e as int), idx),
            decreases m.exports.len() - e,
        {
            let exports = module.exports();
            let id = ProcedureId::from_parts(module.path(), exports[e].name());
            proof {
                assert(m.exports[e as int] == exports@[e as int]@);
                lemma_index_with_step(old(self)@.index, m, idx, e as int);
            }
            self.procedures.insert(id.key(), idx);
            e = e + 1;
        }
        assert(m.exports.take(e as int) =~= m.exports);
        assert(with_exports_prefix(m, e as int) == m);
        self.modules.push(module);
        proof {
            assert(modules_view(self.modules@) =~= old(self)@.modules.push(m));
            lemma_add_module_wf(old(self)@, m);
        }
        Ok(())
    }

    /// Adds the modules of a library whose root namespace is `namespace`.
    ///
    /// When a module lies outside `namespace`, nothing is added and the first
    /// such module is named. Otherwise the modules are added in order; the
    /// first whose path is already present stops the addition, and the modules
    /// added before it stay.
    pub fn add_modules(&mut self, namespace: &Ident, modules: Vec<Module>) -> (r: Result<
        (),
        LibraryError,
    >)
        requires
            old(self).wf(),
        ensures
            final(self).wf(),
            add_library_spec(old(self)@, namespace@, modules_view(modules@)) == (
                final(self)@,
                outcome_view(r),
            ),
    {
        let ghost ns = namespace@;
        let ghost ms = modules_view(modules@);
        let mut j: usize = 0;
        while j < modules.len()
            invariant
                self.wf(),
                self@ == old(self)@,
                j <= modules@.len(),
                ms == modules_view(modules@),
                ns == namespace@,
                forall|t: int| 0 <= t < j ==> in_namespace(ns, #[trigger] ms[t]),
            decreases modules@.len() - j,
        {
            assert(ms[j as int] == modules@[j as int]@);
            if let Err(e) = modules[j].check_namespace(namespace) {
                proof {
                    lemma_first_outside_at(ns, ms, j as int);
                }
                return Err(e);
            }
            j = j + 1;
        }
        proof {
            lemma_first_outside_none(ns, ms);
        }
        let mut rest = modules;
        assert(modules_view(rest@) == ms);
        while rest.len() > 0
            invariant
                self.wf(),
                ms == modules_view(modules@),
                ns == namespace@,
                add_all(old(self)@, ms) == add_all(self@, modules_view(rest@)),
                add_library_spec(old(self)@, ns, ms) == (match add_all(old(self)@, ms) {
                    (q, Some(path)) => (q, Some((false, path))),
                    (q, None) => (q, None::<(bool, Seq<Seq<char>>)>),
                }),
            decreases rest@.len(),
        {
            let ghost before = modules_view(rest@);
            let ghost s0 = self@;
            let m = rest.remove(0);
            let ghost mv = m@;
            assert(before[0] == mv);
            assert(modules_view(rest@) =~= before.drop_first());
            match self.add_module(m) {
                Ok(()) => {
                    assert(add_all(s0, before) == add_all(self@, before.drop_first()));
                },
                Err(e) => {
                    assert(add_all(s0, before) == (self@, Some(mv.path)));
                    assert(outcome_view(Err::<(), LibraryError>(e)) == Some((false, mv.path)));
                    return Err(e);
                },
            }
        }
        assert(modules_view(rest@) =~= Seq::<ModuleView>::empty());
        Ok(())
    }

    /// Adds every module of `library`, as `add_modules` does with the
    /// library's namespace and modules.
    pub fn add_library<L: Library>(&mut self, library: &L) -> (r: Result<(), LibraryError>)
        requires
            old(self).wf(),
        ensures
            final(self).wf(),
            exists|ns: Seq<char>, ms: Seq<ModuleView>|
                #[trigger] add_library_spec(old(self)@, ns, ms) == (final(self)@, outcome_view(r)),
    {
        let namespace = library.root_ns();
        let modules = library.modules();
        self.add_modules(namespace, modules)
    }
}

impl Default for ModuleProvider {
    fn default() -> (r: ModuleProvider)
        ensures
            r.wf(),
            r@.modules.len() == 0,
            r@.index.is_empty(),
    {
        ModuleProvider::new()
    }
}

// LAWS
// ================================================================================================

/// Adding two modules with the same path: the second addition is refused and
/// leaves the modules and the index as the first addition left them.
pub proof fn lemma_duplicate_path_rejected(p: ProviderView, a: ModuleView, b: ModuleView)
    requires
        a.path == b.path,
    ensures
        add_module_spec(add_module_spec(p, a).0, b) == (add_module_spec(p, a).0, false),
{
    let q = add_module_spec(p, a).0;
    if !path_taken(p, a.path) {
        assert(q.modules[p.modules.len() as int] == a);
        assert(path_taken(q, b.path));
    }
}

proof fn lemma_add_all_ok(p: ProviderView, ms: Seq<ModuleView>)
    requires
        provider_wf(p),
        p.modules.len() + ms.len() <= usize::MAX,
        forall|j: int| 0 <= j < ms.len() ==> !path_taken(p, #[trigger] ms[j].path),
        forall|i: int, j: int|
            0 <= i < ms.len() && 0 <= j < ms.len() && i != j ==> #[trigger] ms[i].path
                != #[trigger] ms[j].path,
    ensures
        add_all(p, ms).1 is None,
        add_all(p, ms).0.modules == p.modules + ms,
        provider_wf(add_all(p, ms).0),
    decreases ms.len(),
{
    if ms.len() == 0 {
        assert(p.modules + ms =~= p.modules);
    } else {
        let m = ms[0];
        let q = add_module_spec(p, m).0;
        lemma_add_module_wf(p, m);
        let tail = ms.drop_first();
        assert forall|j: int| 0 <= j < tail.len() implies !path_taken(q, #[trigger] tail[j].path) by {
            assert(tail[j] == ms[j + 1]);
            assert(!path_taken(p, ms[j + 1].path));
            assert(ms[0].path != ms[j + 1].path);
            if path_taken(q, tail[j].path) {
                let i = choose|i: int| 0 <= i < q.modules.len() && #[trigger] q.modules[i].path
                    == tail[j].path;
                if i < p.modules.len() {
                    assert(q.modules[i] == p.modules[i]);
                }
            }
        }
        assert forall|i: int, j: int|
            0 <= i < tail.len() && 0 <= j < tail.len() && i != j implies #[trigger] tail[i].path
            != #[trigger] tail[j].path by {
            assert(tail[i] == ms[i + 1]);
            assert(tail[j] == ms[j + 1]);
        }
        lemma_add_all_ok(q, tail);
        assert(q.modules + tail =~= p.modules + ms);
    }
}

/// A library whose modules all lie in its namespace, with paths that are new
/// and distinct, is added whole: the modules follow the old ones in order, and
/// every export of every one of them, re-exports included, is indexed. A
/// library with a module outside its namespace changes nothing.
pub proof fn lemma_library_indexed(p: ProviderView, ns: Seq<char>, ms: Seq<ModuleView>)
    requires
        provider_wf(p),
        p.modules.len() + ms.len() <= usize::MAX,
    ensures
        (forall|j: int| 0 <= j < ms.len() ==> in_namespace(ns, #[trigger] ms[j]))
            && (forall|j: int| 0 <= j < ms.len() ==> !path_taken(p, #[trigger] ms[j].path))
            && (forall|i: int, j: int|
            0 <= i < ms.len() && 0 <= j < ms.len() && i != j ==> #[trigger] ms[i].path
                != #[trigger] ms[j].path) ==> {
            let (q, outcome) = add_library_spec(p, ns, ms);
            &&& outcome is None
            &&& q.modules == p.modules + ms
            &&& forall|j: int, e: int|
                0 <= j < ms.len() && 0 <= e < ms[j].exports.len() ==> q.index.contains_key(
                    #[trigger] export_key(ms[j].path, ms[j].exports[e]),
                )
        },
        (exists|j: int| 0 <= j < ms.len() && !in_namespace(ns, #[trigger] ms[j])) ==> {
            let (q, outcome) = add_library_spec(p, ns, ms);
            &&& q == p
            &&& outcome matches Some((true, _))
        },
{
    if forall|j: int| 0 <= j < ms.len() ==> in_namespace(ns, #[trigger] ms[j]) {
        lemma_first_outside_none(ns, ms);
        if (forall|j: int| 0 <= j < ms.len() ==> !path_taken(p, #[trigger] ms[j].path)) && (
        forall|i: int, j: int|
            0 <= i < ms.len() && 0 <= j < ms.len() && i != j ==> #[trigger] ms[i].path
                != #[trigger] ms[j].path) {
            lemma_add_all_ok(p, ms);
            let q = add_all(p, ms).0;
            assert forall|j: int, e: int|
                0 <= j < ms.len() && 0 <= e < ms[j].exports.len() implies q.index.contains_key(
                #[trigger] export_key(ms[j].path, ms[j].exports[e]),
            ) by {
                let i = p.modules.len() + j;
                assert(q.modules[i] == ms[j]);
                assert(q.index.contains_key(export_key(q.modules[i].path, q.modules[i].exports[e])));
            }
        }
    } else {
        let j = choose|j: int| 0 <= j < ms.len() && !in_namespace(ns, #[trigger] ms[j]);
        lemma_first_outside_some(ns, ms, j);
    }
}

proof fn lemma_first_outside_some(ns: Seq<char>, ms: Seq<ModuleView>, j: int)
    requires
        0 <= j < ms.len(),
        !in_namespace(ns, ms[j]),
    ensures
        first_outside(ns, ms) is Some,
    decreases ms.len(),
{
    if in_namespace(ns, ms[0]) {
        assert(j > 0);
        let tail = ms.drop_first();
        assert(tail[j - 1] == ms[j]);
        lemma_first_outside_some(ns, tail, j - 1);
    }
}

/// A key that no export of any module is indexed under is not in the index, so
/// `get_module` finds nothing for it.
pub proof fn lemma_unknown_key_absent(p: ProviderView, k: (u64, u64, u32))
    requires
        provider_wf(p),
        forall|i: int| 0 <= i < p.modules.len() ==> !module_has_key(#[trigger] p.modules[i], k),
    ensures
        !p.index.contains_key(k),
{
    if p.index.contains_key(k) {
        assert(module_has_key(p.modules[p.index[k] as int], k));
    }
}

} // verus!
