use vstd::prelude::*;
use vstd::utf8::decode_utf8;
use crate::bytes::ByteReader;
use crate::digest::{RpoDigest, dec_digest};
use crate::invocation_target::{InvocationTarget, TargetView};
use crate::export::{ExportView, export_name};
use crate::module::{Import, ImportView, Module, ModuleView, exports_view, imports_view};
use crate::module_provider::{ModuleProvider, ProviderView};
use crate::procedure_id::{ProcedureId, id_key, procedure_id_of};
use crate::names::{Ident, ProcedureName, SpannedText, utf8, valid_name_bytes};
use crate::paths::{LibraryPath, byte_views, decode_segments, split_on_separator, split_path, valid_segment_bytes};
use crate::span::{SourceSpan, Span};

verus! {

// CALL TARGET TEXT
// ================================================================================================

pub open spec fn is_hex_digit(c: u8) -> bool {
    (0x30 <= c <= 0x39) || (0x61 <= c <= 0x66) || (0x41 <= c <= 0x46)
}

pub open spec fn hex_value(c: u8) -> int {
    if c <= 0x39 {
        c - 0x30
    } else if c >= 0x61 {
        c - 0x61 + 10
    } else {
        c - 0x41 + 10
    }
}

/// The bytes that pairs of hex digits stand for, high digit first.
pub open spec fn hex_bytes(h: Seq<u8>) -> Seq<u8> {
    Seq::new(h.len() / 2, |i: int| (16 * hex_value(h[2 * i]) + hex_value(h[2 * i + 1])) as u8)
}

/// `0x` and the 64 hex digits of a digest's 32 bytes.
pub open spec fn is_root_literal(b: Seq<u8>) -> bool {
    &&& b.len() == 66
    &&& b[0] == 0x30
    &&& b[1] == 0x78
    &&& forall|i: int| 2 <= i < 66 ==> #[trigger] is_hex_digit(b[i])
}

/// Whether one of the imports binds `alias`.
pub open spec fn has_alias(imports: Seq<ImportView>, alias: Seq<char>) -> bool {
    exists|i: int| 0 <= i < imports.len() && #[trigger] imports[i].alias == alias
}

/// The target that call-site text `b` names in a module with `imports`: a MAST
/// root literal; else a bare name; else `alias::name` for an imported alias;
/// else a fully qualified `path::name`. Nothing for any other text.
pub open spec fn parse_target_spec(b: Seq<u8>, span: SourceSpan, imports: Seq<ImportView>) -> Option<
    TargetView,
> {
    if is_root_literal(b) {
        match dec_digest(hex_bytes(b.skip(2))) {
            Some((digest, _)) => Some(TargetView::MastRoot { span, digest }),
            None => None,
        }
    } else {
        let parts = split_path(b);
        let last = parts.last();
        let name = SpannedText { span, text: decode_utf8(last) };
        if !valid_name_bytes(last, true) {
            None
        } else if parts.len() == 1 {
            Some(TargetView::ProcedureName { name })
        } else {
            let prefix = parts.drop_last();
            if prefix.len() == 1 && valid_name_bytes(prefix[0], false) && has_alias(
                imports,
                decode_utf8(prefix[0]),
            ) {
                Some(TargetView::ProcedurePath { name, module: decode_utf8(prefix[0]) })
            } else if valid_segment_bytes(prefix) {
                Some(TargetView::AbsoluteProcedurePath { name, path: decode_segments(prefix) })
            } else {
                None
            }
        }
    }
}

fn hex_digit_value(c: u8) -> (r: Option<u8>)
    ensures
        r is Some <==> is_hex_digit(c),
        r matches Some(v) ==> v == hex_value(c) && v < 16,
{
    if 0x30 <= c && c <= 0x39 {
        Some(c - 0x30)
    } else if 0x61 <= c && c <= 0x66 {
        Some(c - 0x61 + 10)
    } else if 0x41 <= c && c <= 0x46 {
        Some(c - 0x41 + 10)
    } else {
        None
    }
}

/// Decodes a MAST root literal into the digest's bytes.
fn root_literal_bytes(b: &[u8]) -> (r: Option<Vec<u8>>)
    ensures
        r is Some <==> is_root_literal(b@),
        r matches Some(v) ==> v@ == hex_bytes(b@.skip(2)),
{
    if b.len() != 66 || b[0] != 0x30 || b[1] != 0x78 {
        return None;
    }
    let ghost h = b@.skip(2);
    let mut out: Vec<u8> = Vec::new();
    let mut i: usize = 0;
    while i < 32
        invariant
            b@.len() == 66,
            h == b@.skip(2),
            i <= 32,
            out@ == hex_bytes(h).take(i as int),
            forall|j: int| 2 <= j < 2 + 2 * i ==> #[trigger] is_hex_digit(b@[j]),
        decreases 32 - i,
    {
        let hi = hex_digit_value(b[2 + 2 * i]);
        let lo = hex_digit_value(b[3 + 2 * i]);
        match (hi, lo) {
            (Some(hi), Some(lo)) => {
                out.push(hi * 16 + lo);
                assert(h[2 * i as int] == b@[2 + 2 * i as int]);
                assert(h[2 * i as int + 1] == b@[3 + 2 * i as int]);
                i = i + 1;
                assert(out@ =~= hex_bytes(h).take(i as int));
            },
            _ => {
                assert(!is_hex_digit(b@[2 + 2 * i as int]) || !is_hex_digit(b@[3 + 2 * i as int]));
                return None;
            },
        }
    }
    assert(hex_bytes(h).take(32) =~= hex_bytes(h));
    Some(out)
}

/// Whether one of `imports` binds `alias`.
pub fn find_alias(imports: &[Import], alias: &Ident) -> (r: bool)
    ensures
        r == has_alias(imports_view(imports@), alias@),
{
    let ghost iv = imports_view(imports@);
    let mut i: usize = 0;
    while i < imports.len()
        invariant
            i <= imports@.len(),
            iv == imports_view(imports@),
            forall|j: int| 0 <= j < i ==> iv[j].alias != alias@,
        decreases imports@.len() - i,
    {
        assert(iv[i as int] == imports@[i as int]@);
        if imports[i].alias().same(alias) {
            return true;
        }
        i = i + 1;
    }
    false
}

/// Turns the text of a call site into the target it names, as
/// `parse_target_spec` says. A MAST root literal is accepted without a lookup.
pub fn parse_target(text: &str, span: SourceSpan, imports: &[Import]) -> (r: Option<
    InvocationTarget,
>)
    ensures
        r is Some <==> parse_target_spec(utf8(text@), span, imports_view(imports@)) is Some,
        r matches Some(t) ==> t@ == parse_target_spec(utf8(text@), span, imports_view(imports@)).unwrap()
            && t.wf(),
{
    let b = text.as_bytes();
    if let Some(raw) = root_literal_bytes(b) {
        let mut reader = ByteReader::new(raw);
        return match RpoDigest::read_from(&mut reader) {
            Ok(digest) => Some(InvocationTarget::MastRoot(Span { span, inner: digest })),
            Err(_) => None,
        };
    }
    let mut parts = split_on_separator(b);
    let ghost pv = split_path(b@);
    proof {
        assert(pv.len() > 0) by {
            lemma_split_nonempty(b@, Seq::empty(), Seq::empty());
        }
    }
    let last = parts.pop().unwrap();
    assert(last@ == pv.last());
    assert(byte_views(parts@) =~= pv.drop_last());
    let name = match ProcedureName::from_bytes(span, last) {
        Some(name) => name,
        None => {
            return None;
        },
    };
    if parts.len() == 0 {
        return Some(InvocationTarget::ProcedureName(name));
    }
    if parts.len() == 1 {
        let first = parts.pop().unwrap();
        assert(first@ == pv.drop_last()[0]);
        return match Ident::from_bytes(first) {
            Some(alias) => {
                if find_alias(imports, &alias) {
                    Some(InvocationTarget::ProcedurePath { name, module: alias })
                } else {
                    let path = LibraryPath::from_ident(alias);
                    assert(path@ =~= decode_segments(pv.drop_last()));
                    Some(InvocationTarget::AbsoluteProcedurePath { name, path })
                }
            },
            None => None,
        };
    }
    match LibraryPath::from_parts(parts) {
        Some(path) => Some(InvocationTarget::AbsoluteProcedurePath { name, path }),
        None => None,
    }
}

proof fn lemma_split_nonempty(b: Seq<u8>, cur: Seq<u8>, acc: Seq<Seq<u8>>)
    ensures
        crate::paths::split_from(b, cur, acc).len() > acc.len(),
    decreases b.len(),
{
    if b.len() == 0 {
    } else if b.len() >= 2 && b[0] == 0x3a && b[1] == 0x3a {
        lemma_split_nonempty(b.skip(2), Seq::empty(), acc.push(cur));
    } else {
        lemma_split_nonempty(b.drop_first(), cur.push(b[0]), acc);
    }
}

// LINK-TIME RESOLUTION
// ================================================================================================

/// Where a call site's callee was found.
#[derive(Debug, Clone, Copy, PartialEq, Eq)]
pub enum ResolvedProcedure {
    /// A MAST root, taken on trust without a lookup.
    Root(RpoDigest),
    /// An export of the calling module itself, at this position.
    Local(usize),
    /// An export of the provider's module at this position.
    External(usize),
}

/// What a resolution stands for.
pub enum ResolvedView {
    Root(Seq<u64>),
    Local(int),
    External(int),
}

impl View for ResolvedProcedure {
    type V = ResolvedView;

    open spec fn view(&self) -> ResolvedView {
        match self {
            ResolvedProcedure::Root(d) => ResolvedView::Root(d@),
            ResolvedProcedure::Local(i) => ResolvedView::Local(*i as int),
            ResolvedProcedure::External(i) => ResolvedView::External(*i as int),
        }
    }
}

/// The position of the first export named `text`.
pub open spec fn first_export_named(exports: Seq<ExportView>, text: Seq<char>) -> Option<int>
    decreases exports.len(),
{
    if exports.len() == 0 {
        None
    } else if export_name(exports[0]).text == text {
        Some(0)
    } else {
        match first_export_named(exports.drop_first(), text) {
            Some(i) => Some(i + 1),
            None => None,
        }
    }
}

/// The path that the first import binding `alias` names.
pub open spec fn import_path(imports: Seq<ImportView>, alias: Seq<char>) -> Option<Seq<Seq<char>>>
    decreases imports.len(),
{
    if imports.len() == 0 {
        None
    } else if imports[0].alias == alias {
        Some(imports[0].path)
    } else {
        import_path(imports.drop_first(), alias)
    }
}

/// The module position the index gives for procedure `name` at `path`.
pub open spec fn indexed_at(p: ProviderView, path: Seq<Seq<char>>, name: Seq<char>) -> Option<int> {
    let k = id_key(procedure_id_of(path, name));
    if p.index.contains_key(k) {
        Some(p.index[k] as int)
    } else {
        None
    }
}

/// Where the callee of `t`, called from module `caller`, is found: a root is
/// taken as it is; a bare name among the caller's own exports; `alias::name`
/// in the module that the caller's import of `alias` names; a qualified name
/// at its path.
pub open spec fn resolve_spec(p: ProviderView, caller: ModuleView, t: TargetView) -> Option<
    ResolvedView,
> {
    match t {
        TargetView::MastRoot { digest, .. } => Some(ResolvedView::Root(digest)),
        TargetView::ProcedureName { name } => match first_export_named(caller.exports, name.text) {
            Some(i) => Some(ResolvedView::Local(i)),
            None => None,
        },
        TargetView::ProcedurePath { name, module } => match import_path(caller.imports, module) {
            Some(path) => match indexed_at(p, path, name.text) {
                Some(i) => Some(ResolvedView::External(i)),
                None => None,
            },
            None => None,
        },
        TargetView::AbsoluteProcedurePath { name, path } => match indexed_at(p, path, name.text) {
            Some(i) => Some(ResolvedView::External(i)),
            None => None,
        },
    }
}

proof fn lemma_first_export_named(exports: Seq<ExportView>, text: Seq<char>, i: int)
    requires
        0 <= i <= exports.len(),
        forall|j: int| 0 <= j < i ==> export_name(#[trigger] exports[j]).text != text,
    ensures
        first_export_named(exports, text) == match first_export_named(exports.skip(i), text) {
            Some(x) => Some(x + i),
            None => None::<int>,
        },
    decreases i,
{
    if i > 0 {
        assert(exports.skip(1) =~= exports.drop_first());
        let tail = exports.drop_first();
        assert forall|j: int| 0 <= j < i - 1 implies export_name(#[trigger] tail[j]).text != text by {
            assert(tail[j] == exports[j + 1]);
        }
        lemma_first_export_named(tail, text, i - 1);
        assert(tail.skip(i - 1) =~= exports.skip(i));
    } else {
        assert(exports.skip(0) =~= exports);
    }
}

proof fn lemma_import_path(imports: Seq<ImportView>, alias: Seq<char>, i: int)
    requires
        0 <= i <= imports.len(),
        forall|j: int| 0 <= j < i ==> (#[trigger] imports[j]).alias != alias,
    ensures
        import_path(imports, alias) == import_path(imports.skip(i), alias),
    decreases i,
{
    if i > 0 {
        let tail = imports.drop_first();
        assert forall|j: int| 0 <= j < i - 1 implies (#[trigger] tail[j]).alias != alias by {
            assert(tail[j] == imports[j + 1]);
        }
        lemma_import_path(tail, alias, i - 1);
        assert(tail.skip(i - 1) =~= imports.skip(i));
    } else {
        assert(imports.skip(0) =~= imports);
    }
}

/// The position of the first export of `exports` named `name`.
fn find_export(exports: &[crate::export::Export], name: &ProcedureName) -> (r: Option<usize>)
    ensures
        match r {
            Some(i) => first_export_named(exports_view(exports@), name@.text) == Some(i as int),
            None => first_export_named(exports_view(exports@), name@.text) is None,
        },
{
    let ghost ev = exports_view(exports@);
    let mut i: usize = 0;
    while i < exports.len()
        invariant
            i <= exports@.len(),
            ev == exports_view(exports@),
            forall|j: int| 0 <= j < i ==> export_name(#[trigger] ev[j]).text != name@.text,
        decreases exports@.len() - i,
    {
        assert(ev[i as int] == exports@[i as int]@);
        if exports[i].name().as_str().as_bytes().len() == name.as_str().as_bytes().len()
            && same_text(exports[i].name().as_str(), name.as_str()) {
            proof {
                lemma_first_export_named(ev, name@.text, i as int);
                assert(ev.skip(i as int)[0] == ev[i as int]);
            }
            return Some(i);
        }
        i = i + 1;
    }
    proof {
        lemma_first_export_named(ev, name@.text, i as int);
        assert(ev.skip(i as int).len() == 0);
    }
    None
}

/// Whether two texts are equal.
fn same_text(a: &str, b: &str) -> (r: bool)
    ensures
        r == (a@ == b@),
{
    let x = a.as_bytes();
    let y = b.as_bytes();
    proof {
        vstd::utf8::encode_utf8_decode_utf8(a@);
        vstd::utf8::encode_utf8_decode_utf8(b@);
    }
    if x.len() != y.len() {
        return false;
    }
    let mut i: usize = 0;
    while i < x.len()
        invariant
            i <= x@.len(),
            x@.len() == y@.len(),
            x@ == utf8(a@),
            y@ == utf8(b@),
            forall|j: int| 0 <= j < i ==> x@[j] == y@[j],
        decreases x@.len() - i,
    {
        if x[i] != y[i] {
            assert(x@[i as int] != y@[i as int]);
            return false;
        }
        i = i + 1;
    }
    assert(x@ =~= y@);
    true
}

/// The position of the first import of `imports` binding `alias`.
fn find_import(imports: &[Import], alias: &Ident) -> (r: Option<usize>)
    ensures
        match r {
            Some(i) => i < imports@.len() && import_path(imports_view(imports@), alias@) == Some(
                imports@[i as int]@.path,
            ),
            None => import_path(imports_view(imports@), alias@) is None,
        },
{
    let ghost iv = imports_view(imports@);
    let mut i: usize = 0;
    while i < imports.len()
        invariant
            i <= imports@.len(),
            iv == imports_view(imports@),
            forall|j: int| 0 <= j < i ==> (#[trigger] iv[j]).alias != alias@,
        decreases imports@.len() - i,
    {
        assert(iv[i as int] == imports@[i as int]@);
        if imports[i].alias().same(alias) {
            proof {
                lemma_import_path(iv, alias@, i as int);
                assert(iv.skip(i as int)[0] == iv[i as int]);
            }
            return Some(i);
        }
        i = i + 1;
    }
    proof {
        lemma_import_path(iv, alias@, i as int);
        assert(iv.skip(i as int).len() == 0);
    }
    None
}

impl ModuleProvider {
    /// Finds the callee of `target`, called from module `caller`, as
    /// `resolve_spec` says; nothing when it cannot be resolved.
    pub fn resolve(&self, caller: &Module, target: &InvocationTarget) -> (r: Option<
        ResolvedProcedure,
    >)
        requires
            self.wf(),
        ensures
            match r {
                Some(x) => resolve_spec(self@, caller@, target@) == Some(x@),
                None => resolve_spec(self@, caller@, target@) is None,
            },
    {
        match target {
            InvocationTarget::MastRoot(root) => {
                let found = ResolvedProcedure::Root(root.inner);
                assert(found@ == ResolvedView::Root(root.inner@));
                Some(found)
            },
            InvocationTarget::ProcedureName(name) => match find_export(caller.exports(), name) {
                Some(i) => Some(ResolvedProcedure::Local(i)),
                None => None,
            },
            InvocationTarget::ProcedurePath { name, module } => {
                let imports = caller.imports();
                match find_import(imports, module) {
                    Some(i) => {
                        let path = imports[i].path();
                        let id = ProcedureId::from_parts(path, name);
                        assert(import_path(caller@.imports, module@) == Some(path@));
                        match self.lookup(&id) {
                            Some(m) => Some(ResolvedProcedure::External(m)),
                            None => None,
                        }
                    },
                    None => None,
                }
            },
            InvocationTarget::AbsoluteProcedurePath { name, path } => {
                let id = ProcedureId::from_parts(path, name);
                assert(id_key(id@) == id_key(procedure_id_of(path@, name@.text)));
                match self.lookup(&id) {
                    Some(m) => Some(ResolvedProcedure::External(m)),
                    None => None,
                }
            },
        }
    }
}

// UNRESOLVED CALL SITES
// ================================================================================================

/// The call sites of an export: a procedure's, or none for an alias.
pub open spec fn export_calls(e: ExportView) -> Seq<crate::invocation_target::InvokeView> {
    match e {
        ExportView::Procedure(p) => p.invoked,
        ExportView::Alias(_) => Seq::empty(),
    }
}

/// Whether call site `c` of export `e` of `caller` exists and cannot be resolved.
pub open spec fn unresolved_at(p: ProviderView, caller: ModuleView, e: int, c: int) -> bool {
    &&& 0 <= e < caller.exports.len()
    &&& 0 <= c < export_calls(caller.exports[e]).len()
    &&& resolve_spec(p, caller, export_calls(caller.exports[e])[c].target) is None
}

/// Whether call site `a` comes before call site `b`.
pub open spec fn site_before(a: (usize, usize), b: (usize, usize)) -> bool {
    a.0 < b.0 || (a.0 == b.0 && a.1 < b.1)
}

impl ModuleProvider {
    /// Every call site of `caller` that cannot be resolved, as (export position,
    /// call position) pairs in order, so that all of them can be reported at once.
    pub fn unresolved_calls(&self, caller: &Module) -> (r: Vec<(usize, usize)>)
        requires
            self.wf(),
        ensures
            forall|i: int|
                0 <= i < r@.len() ==> unresolved_at(
                    self@,
                    caller@,
                    (#[trigger] r@[i]).0 as int,
                    r@[i].1 as int,
                ),
            forall|e: int, c: int|
                #[trigger] unresolved_at(self@, caller@, e, c) ==> exists|i: int|
                    0 <= i < r@.len() && #[trigger] r@[i] == (e as usize, c as usize),
            forall|i: int, j: int| 0 <= i < j < r@.len() ==> site_before(r@[i], r@[j]),
    {
        let exports = caller.exports();
        let ghost ev = caller@.exports;
        let mut out: Vec<(usize, usize)> = Vec::new();
        let mut e: usize = 0;
        while e < exports.len()
            invariant
                self.wf(),
                exports_view(exports@) == ev,
                ev == caller@.exports,
                e <= exports@.len(),
                forall|i: int|
                    0 <= i < out@.len() ==> unresolved_at(
                        self@,
                        caller@,
                        (#[trigger] out@[i]).0 as int,
                        out@[i].1 as int,
                    ) && out@[i].0 < e,
                forall|x: int, c: int|
                    x < e && #[trigger] unresolved_at(self@, caller@, x, c) ==> exists|i: int|
                        0 <= i < out@.len() && #[trigger] out@[i] == (x as usize, c as usize),
                forall|i: int, j: int| 0 <= i < j < out@.len() ==> site_before(out@[i], out@[j]),
            decreases exports@.len() - e,
        {
            let calls = exports[e].invoked();
            assert(ev[e as int] == exports@[e as int]@);
            let ghost cv = export_calls(ev[e as int]);
            assert(crate::procedure::invokes_view(calls@) == cv);
            let mut c: usize = 0;
            while c < calls.len()
                invariant
                    self.wf(),
                    ev == caller@.exports,
                    e < ev.len(),
                    cv == export_calls(ev[e as int]),
                    crate::procedure::invokes_view(calls@) == cv,
                    c <= calls@.len(),
                    forall|i: int|
                        0 <= i < out@.len() ==> unresolved_at(
                            self@,
                            caller@,
                            (#[trigger] out@[i]).0 as int,
                            out@[i].1 as int,
                        ) && (out@[i].0 < e || (out@[i].0 == e && out@[i].1 < c)),
                    forall|x: int, y: int|
                        (x < e || (x == e && y < c)) && #[trigger] unresolved_at(
                            self@,
                            caller@,
                            x,
                            y,
                        ) ==> exists|i: int|
                            0 <= i < out@.len() && #[trigger] out@[i] == (x as usize, y as usize),
                    forall|i: int, j: int|
                        0 <= i < j < out@.len() ==> site_before(out@[i], out@[j]),
                decreases calls@.len() - c,
            {
                assert(cv[c as int] == calls@[c as int]@);
                let found = self.resolve(caller, &calls[c].target);
                if found.is_none() {
                    let ghost before = out@;
                    out.push((e, c));
                    assert forall|x: int, y: int|
                        (x < e || (x == e && y < c + 1)) && #[trigger] unresolved_at(
                            self@,
                            caller@,
                            x,
                            y,
                        ) implies exists|i: int|
                        0 <= i < out@.len() && #[trigger] out@[i] == (x as usize, y as usize) by {
                        if x == e && y == c {
                            assert(out@[before.len() as int] == (x as usize, y as usize));
                        } else {
                            let i = choose|i: int|
                                0 <= i < before.len() && #[trigger] before[i] == (
                                    x as usize,
                                    y as usize,
                                );
                            assert(out@[i] == before[i]);
                        }
                    }
                } else {
                    assert(!unresolved_at(self@, caller@, e as int, c as int));
                }
                c = c + 1;
            }
            e = e + 1;
        }
        out
    }
}

// RE-EXPORT CHAINS
// ================================================================================================

/// One hop from export `e` of module `m`: when it is an alias, the first export
/// named like its target in the module the index gives for the target.
pub open spec fn alias_hop(p: ProviderView, m: int, e: int) -> Option<(int, int)> {
    match p.modules[m].exports[e] {
        ExportView::Procedure(_) => None,
        ExportView::Alias(a) => match indexed_at(p, a.target.module, a.target.name.text) {
            Some(m2) => match first_export_named(p.modules[m2].exports, a.target.name.text) {
                Some(e2) => Some((m2, e2)),
                None => None,
            },
            None => None,
        },
    }
}

/// The procedure that export `e` of module `m` comes down to, following at most
/// `hops` re-exports.
pub open spec fn definition_spec(p: ProviderView, m: int, e: int, hops: nat) -> Option<(int, int)>
    decreases hops,
{
    if !(0 <= m < p.modules.len() && 0 <= e < p.modules[m].exports.len()) {
        None
    } else {
        match p.modules[m].exports[e] {
            ExportView::Procedure(_) => Some((m, e)),
            ExportView::Alias(_) => if hops == 0 {
                None
            } else {
                match alias_hop(p, m, e) {
                    Some((m2, e2)) => definition_spec(p, m2, e2, (hops - 1) as nat),
                    None => None,
                }
            },
        }
    }
}

impl ModuleProvider {
    /// Follows re-exports from export `e` of module `m` to the procedure that
    /// defines it, as `definition_spec` says.
    ///
    /// Indexing resolves one hop at a time; this walks the hops. A chain longer
    /// than `max_hops`, and so any cycle of aliases, ends in `None`.
    pub fn definition_of(&self, m: usize, e: usize, max_hops: usize) -> (r: Option<(usize, usize)>)
        requires
            self.wf(),
        ensures
            match r {
                Some((m2, e2)) => definition_spec(self@, m as int, e as int, max_hops as nat) == Some(
                    (m2 as int, e2 as int),
                ),
                None => definition_spec(self@, m as int, e as int, max_hops as nat) is None,
            },
    {
        let mut cur_m = m;
        let mut cur_e = e;
        let mut hops = max_hops;
        loop
            invariant
                self.wf(),
                definition_spec(self@, m as int, e as int, max_hops as nat) == definition_spec(
                    self@,
                    cur_m as int,
                    cur_e as int,
                    hops as nat,
                ),
            decreases hops,
        {
            if cur_m >= self.num_modules() {
                return None;
            }
            let module = self.module_at(cur_m);
            let exports = module.exports();
            if cur_e >= exports.len() {
                return None;
            }
            assert(self@.modules[cur_m as int].exports[cur_e as int] == exports@[cur_e as int]@);
            match &exports[cur_e] {
                crate::export::Export::Procedure(_) => {
                    return Some((cur_m, cur_e));
                },
                crate::export::Export::Alias(a) => {
                    if hops == 0 {
                        return None;
                    }
                    let target = a.target();
                    let id = ProcedureId::from_parts(&target.module, &target.name);
                    let next_m = match self.lookup(&id) {
                        Some(i) => i,
                        None => {
                            return None;
                        },
                    };
                    let next_exports = self.module_at(next_m).exports();
                    let next_e = match find_export(next_exports, &target.name) {
                        Some(j) => j,
                        None => {
                            return None;
                        },
                    };
                    assert(alias_hop(self@, cur_m as int, cur_e as int) == Some(
                        (next_m as int, next_e as int),
                    ));
                    cur_m = next_m;
                    cur_e = next_e;
                    hops = hops - 1;
                },
            }
        }
    }
}

} // verus!
