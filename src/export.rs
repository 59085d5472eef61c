use vstd::prelude::*;
use crate::bytes::{AstSerdeOptions, ByteReader, DeserializationError};
use crate::invocation_target::{Invoke, InvokeView};
use crate::names::{
    ProcedureName, SpannedText, dec_name, enc_name, lemma_dec_name_valid, lemma_name_round_trip,
    main_bytes, strip_name, utf8, valid_proc_name,
};
use crate::paths::{LibraryPath, dec_path, enc_path, lemma_dec_path_len, lemma_dec_path_valid, lemma_path_round_trip, valid_path};
use crate::procedure::{
    Procedure, ProcedureView, Visibility, dec_docs, dec_procedure, docs_view, enc_docs,
    enc_procedure, invokes_view, lemma_docs_round_trip, lemma_procedure_round_trip, read_docs,
    strip_docs, strip_procedure, valid_docs, valid_procedure, write_docs,
};
use crate::procedure_id::{QualifiedProcedureName, QualifiedView};
use crate::span::{SourceSpan, Span};

verus! {

// ALIASES
// ================================================================================================

/// What a re-export stands for: its docs, the name it is exported under, and the
/// qualified name of the procedure it forwards to.
pub struct AliasView {
    pub docs: Option<SpannedText>,
    pub name: SpannedText,
    pub target: QualifiedView,
}

pub open spec fn valid_alias(v: AliasView) -> bool {
    &&& valid_docs(v.docs)
    &&& valid_proc_name(v.name)
    &&& valid_path(v.target.module)
    &&& valid_proc_name(v.target.name)
}

pub open spec fn strip_alias(v: AliasView, debug: bool) -> AliasView {
    AliasView {
        docs: strip_docs(v.docs, debug),
        name: strip_name(v.name, debug),
        target: QualifiedView { module: v.target.module, name: strip_name(v.target.name, debug) },
    }
}

/// The docs, the name, the target's module path, and the target's name.
pub open spec fn enc_alias(v: AliasView, debug: bool) -> Seq<u8> {
    enc_docs(v.docs, debug) + enc_name(v.name, debug) + enc_path(v.target.module) + enc_name(
        v.target.name,
        debug,
    )
}

#[verifier::opaque]
pub open spec fn dec_alias(b: Seq<u8>, debug: bool) -> Option<(AliasView, nat)> {
    match dec_docs(b, debug) {
        Some((docs, n1)) => {
            let b2 = b.skip(n1 as int);
            match dec_name(b2, debug) {
                Some((name, n2)) => {
                    let b3 = b2.skip(n2 as int);
                    match dec_path(b3) {
                        Some((module, n3)) => match dec_name(b3.skip(n3 as int), debug) {
                            Some((target, n4)) => Some(
                                (
                                    AliasView {
                                        docs,
                                        name,
                                        target: QualifiedView { module, name: target },
                                    },
                                    n1 + n2 + n3 + n4,
                                ),
                            ),
                            None => None,
                        },
                        None => None,
                    }
                },
                None => None,
            }
        },
        None => None,
    }
}

#[verifier::rlimit(40)]
pub proof fn lemma_alias_round_trip(v: AliasView, debug: bool, rest: Seq<u8>)
    requires
        valid_alias(v),
    ensures
        dec_alias(enc_alias(v, debug) + rest, debug) == Some(
            (strip_alias(v, debug), enc_alias(v, debug).len()),
        ),
{
    reveal(dec_alias);
    let e1 = enc_docs(v.docs, debug);
    let e2 = enc_name(v.name, debug);
    let e3 = enc_path(v.target.module);
    let e4 = enc_name(v.target.name, debug);
    let b = enc_alias(v, debug) + rest;
    let r4 = e4 + rest;
    let r3 = e3 + r4;
    let r2 = e2 + r3;
    assert(b =~= e1 + r2);
    lemma_docs_round_trip(v.docs, debug, r2);
    assert(b.skip(e1.len() as int) =~= r2);
    lemma_name_round_trip(v.name, debug, r3);
    assert(r2.skip(e2.len() as int) =~= r3);
    lemma_path_round_trip(v.target.module, r4);
    assert(r3.skip(e3.len() as int) =~= r4);
    lemma_name_round_trip(v.target.name, debug, rest);
}

/// A re-export: a name in this module for a procedure defined elsewhere.
#[derive(Debug, Clone, PartialEq, Eq)]
pub struct ProcedureAlias {
    docs: Option<Span<String>>,
    name: ProcedureName,
    target: QualifiedProcedureName,
}

impl View for ProcedureAlias {
    type V = AliasView;

    closed spec fn view(&self) -> AliasView {
        AliasView { docs: docs_view(&self.docs), name: self.name@, target: self.target@ }
    }
}

impl ProcedureAlias {
    pub open spec fn wf(&self) -> bool {
        valid_alias(self@)
    }

    /// Exports the procedure `target` under `name`, without docs.
    pub fn new(name: ProcedureName, target: QualifiedProcedureName) -> (r: ProcedureAlias)
        ensures
            r@ == (AliasView { docs: None, name: name@, target: target@ }),
    {
        ProcedureAlias { docs: None, name, target }
    }

    pub fn with_docs(self, docs: Option<Span<String>>) -> (r: ProcedureAlias)
        ensures
            r@ == (AliasView { docs: docs_view(&docs), ..self@ }),
    {
        ProcedureAlias { docs, ..self }
    }

    pub fn name(&self) -> (r: &ProcedureName)
        ensures
            r@ == self@.name,
    {
        &self.name
    }

    pub fn docs(&self) -> (r: Option<&str>)
        ensures
            r matches Some(d) ==> self@.docs matches Some(t) && d@ == t.text,
            r is None ==> self@.docs is None,
    {
        match &self.docs {
            Some(d) => Some(d.inner.as_str()),
            None => None,
        }
    }

    /// The procedure this alias forwards to.
    pub fn target(&self) -> (r: &QualifiedProcedureName)
        ensures
            r@ == self@.target,
    {
        &self.target
    }

    pub fn write_into_with_options(&self, target: &mut Vec<u8>, options: AstSerdeOptions)
        requires
            self.wf(),
        ensures
            final(target)@ == old(target)@ + enc_alias(self@, options.debug_info),
    {
        let debug = options.debug_info;
        write_docs(target, &self.docs, debug);
        self.name.write_into_with_options(target, debug);
        self.target.module.write_into(target);
        self.target.name.write_into_with_options(target, debug);
        assert(final(target)@ =~= old(target)@ + enc_alias(self@, debug));
    }

    #[verifier::rlimit(80)]
    pub fn read_from_with_options(source: &mut ByteReader, options: AstSerdeOptions) -> (r: Result<
        ProcedureAlias,
        DeserializationError,
    >)
        requires
            old(source).wf(),
        ensures
            final(source).wf(),
            match dec_alias(old(source).remaining(), options.debug_info) {
                Some((v, n)) => r matches Ok(a) && a@ == v && a.wf() && n <= old(source).remaining().len() && final(source).remaining()
                    == old(source).remaining().skip(n as int),
                None => r is Err,
            },
    {
        let ghost b = source.remaining();
        let debug = options.debug_info;
        proof {
            reveal(dec_alias);
        }
        let docs = read_docs(source, debug)?;
        let ghost b2 = source.remaining();
        let name = ProcedureName::read_from_with_options(source, debug)?;
        let ghost b3 = source.remaining();
        let module = LibraryPath::read_from(source)?;
        let ghost b4 = source.remaining();
        let target_name = ProcedureName::read_from_with_options(source, debug)?;
        proof {
            crate::procedure::lemma_dec_docs_props(b, debug);
            lemma_dec_name_valid(b2, debug);
            lemma_dec_path_len(b3);
            lemma_dec_path_valid(b3);
            lemma_dec_name_valid(b4, debug);
            let n1 = dec_docs(b, debug).unwrap().1;
            let n2 = dec_name(b2, debug).unwrap().1;
            let n3 = dec_path(b3).unwrap().1;
            let n4 = dec_name(b4, debug).unwrap().1;
            assert(b4.skip(n4 as int) =~= b.skip((n1 + n2 + n3 + n4) as int));
        }
        Ok(
            ProcedureAlias {
                docs,
                name,
                target: QualifiedProcedureName { module, name: target_name },
            },
        )
    }
}

// EXPORTS
// ================================================================================================

/// What an export stands for.
pub enum ExportView {
    Procedure(ProcedureView),
    Alias(AliasView),
}

pub open spec fn valid_export(v: ExportView) -> bool {
    match v {
        ExportView::Procedure(p) => valid_procedure(p),
        ExportView::Alias(a) => valid_alias(a),
    }
}

pub open spec fn strip_export(v: ExportView, debug: bool) -> ExportView {
    match v {
        ExportView::Procedure(p) => ExportView::Procedure(strip_procedure(p, debug)),
        ExportView::Alias(a) => ExportView::Alias(strip_alias(a, debug)),
    }
}

/// The name an export is visible under.
pub open spec fn export_name(v: ExportView) -> SpannedText {
    match v {
        ExportView::Procedure(p) => p.name,
        ExportView::Alias(a) => a.name,
    }
}

/// A tag byte (`0` for a procedure, `1` for an alias), then the variant.
pub open spec fn enc_export(v: ExportView, debug: bool) -> Seq<u8> {
    match v {
        ExportView::Procedure(p) => seq![0u8] + enc_procedure(p, debug),
        ExportView::Alias(a) => seq![1u8] + enc_alias(a, debug),
    }
}

#[verifier::opaque]
pub open spec fn dec_export(b: Seq<u8>, debug: bool) -> Option<(ExportView, nat)> {
    if b.len() >= 1 && b[0] == 0 {
        match dec_procedure(b.drop_first(), debug) {
            Some((p, n)) => Some((ExportView::Procedure(p), 1 + n)),
            None => None,
        }
    } else if b.len() >= 1 && b[0] == 1 {
        match dec_alias(b.drop_first(), debug) {
            Some((a, n)) => Some((ExportView::Alias(a), 1 + n)),
            None => None,
        }
    } else {
        None
    }
}

/// Writing an export and reading it back, with the same options, gives the
/// export again, without its spans when debug information is left out.
pub proof fn lemma_export_round_trip(v: ExportView, debug: bool, rest: Seq<u8>)
    requires
        valid_export(v),
    ensures
        dec_export(enc_export(v, debug) + rest, debug) == Some(
            (strip_export(v, debug), enc_export(v, debug).len()),
        ),
{
    reveal(dec_export);
    let b = enc_export(v, debug) + rest;
    match v {
        ExportView::Procedure(p) => {
            lemma_procedure_round_trip(p, debug, rest);
            assert(b.drop_first() =~= enc_procedure(p, debug) + rest);
        },
        ExportView::Alias(a) => {
            lemma_alias_round_trip(a, debug, rest);
            assert(b.drop_first() =~= enc_alias(a, debug) + rest);
        },
    }
}

/// What a module makes visible: a procedure it defines, or a re-export.
#[derive(Debug, Clone, PartialEq, Eq)]
pub enum Export {
    /// A procedure defined in this module.
    Procedure(Procedure),
    /// A re-export of a procedure defined elsewhere.
    Alias(ProcedureAlias),
}

impl View for Export {
    type V = ExportView;

    open spec fn view(&self) -> ExportView {
        match self {
            Export::Procedure(p) => ExportView::Procedure(p@),
            Export::Alias(a) => ExportView::Alias(a@),
        }
    }
}

impl Export {
    pub open spec fn wf(&self) -> bool {
        valid_export(self@)
    }

    /// The same export with `docs` in place of its documentation.
    pub fn with_docs(self, docs: Option<Span<String>>) -> (r: Export)
        ensures
            r@ == match self@ {
                ExportView::Procedure(p) => ExportView::Procedure(
                    ProcedureView { docs: docs_view(&docs), ..p },
                ),
                ExportView::Alias(a) => ExportView::Alias(AliasView { docs: docs_view(&docs), ..a }),
            },
    {
        match self {
            Export::Procedure(p) => Export::Procedure(p.with_docs(docs)),
            Export::Alias(a) => Export::Alias(a.with_docs(docs)),
        }
    }

    /// The name the export is visible under.
    pub fn name(&self) -> (r: &ProcedureName)
        ensures
            r@ == export_name(self@),
    {
        match self {
            Export::Procedure(p) => p.name(),
            Export::Alias(a) => a.name(),
        }
    }

    /// The documentation, if any.
    pub fn docs(&self) -> (r: Option<&str>)
        ensures
            ({
                let d = match self@ {
                    ExportView::Procedure(p) => p.docs,
                    ExportView::Alias(a) => a.docs,
                };
                &&& r matches Some(s) ==> d matches Some(t) && s@ == t.text
                &&& r is None ==> d is None
            }),
    {
        match self {
            Export::Procedure(p) => p.docs(),
            Export::Alias(a) => a.docs(),
        }
    }

    /// A procedure's own visibility; an alias is always public.
    pub fn visibility(&self) -> (r: Visibility)
        ensures
            r == match self@ {
                ExportView::Procedure(p) => p.visibility,
                ExportView::Alias(_) => Visibility::Public,
            },
    {
        match self {
            Export::Procedure(p) => p.visibility(),
            Export::Alias(_) => Visibility::Public,
        }
    }

    /// The words of memory a procedure keeps for its locals; none for an alias.
    pub fn num_locals(&self) -> (r: usize)
        ensures
            r == match self@ {
                ExportView::Procedure(p) => p.num_locals as usize,
                ExportView::Alias(_) => 0,
            },
    {
        match self {
            Export::Procedure(p) => p.num_locals() as usize,
            Export::Alias(_) => 0,
        }
    }

    /// Whether this is the program's entrypoint.
    pub fn is_main(&self) -> (r: bool)
        ensures
            r == (utf8(export_name(self@).text) == main_bytes()),
    {
        self.name().is_main()
    }

    /// The procedure this export defines; only for one that is not an alias.
    pub fn unwrap_procedure(&self) -> (r: &Procedure)
        requires
            self is Procedure,
        ensures
            self@ == ExportView::Procedure(r@),
    {
        match self {
            Export::Procedure(p) => p,
            Export::Alias(_) => {
                assert(false);
                unreached()
            },
        }
    }

    /// The call sites of a procedure's body; none for an alias, whose body
    /// lives in the module it forwards to.
    pub fn invoked(&self) -> (r: &[Invoke])
        ensures
            invokes_view(r@) == match self@ {
                ExportView::Procedure(p) => p.invoked,
                ExportView::Alias(_) => Seq::<InvokeView>::empty(),
            },
    {
        match self {
            Export::Procedure(p) => p.invoked(),
            Export::Alias(_) => {
                let none: &[Invoke] = &[];
                assert(invokes_view(none@) =~= Seq::<InvokeView>::empty());
                none
            },
        }
    }

    /// The discriminant of the variant.
    pub fn tag(&self) -> (r: u8)
        ensures
            r == match self@ {
                ExportView::Procedure(_) => 0u8,
                ExportView::Alias(_) => 1u8,
            },
    {
        match self {
            Export::Procedure(_) => 0,
            Export::Alias(_) => 1,
        }
    }

    /// Where the export was written: a procedure's span, or an alias's name.
    pub fn span(&self) -> (r: SourceSpan)
        ensures
            r == match self@ {
                ExportView::Procedure(p) => p.span,
                ExportView::Alias(a) => a.name.span,
            },
    {
        match self {
            Export::Procedure(p) => p.span(),
            Export::Alias(a) => a.name().span(),
        }
    }

    pub fn write_into_with_options(&self, target: &mut Vec<u8>, options: AstSerdeOptions)
        requires
            self.wf(),
        ensures
            final(target)@ == old(target)@ + enc_export(self@, options.debug_info),
    {
        target.push(self.tag());
        match self {
            Export::Procedure(p) => p.write_into_with_options(target, options),
            Export::Alias(a) => a.write_into_with_options(target, options),
        }
        assert(final(target)@ =~= old(target)@ + enc_export(self@, options.debug_info));
    }

    pub fn read_from_with_options(source: &mut ByteReader, options: AstSerdeOptions) -> (r: Result<
        Export,
        DeserializationError,
    >)
        requires
            old(source).wf(),
        ensures
            final(source).wf(),
            match dec_export(old(source).remaining(), options.debug_info) {
                Some((v, n)) => r matches Ok(e) && e@ == v && e.wf() && final(source).remaining()
                    == old(source).remaining().skip(n as int),
                None => r is Err,
            },
            old(source).remaining().len() >= 1 && old(source).remaining()[0] > 1 ==> r
                == Err::<Export, DeserializationError>(
                DeserializationError::InvalidTag(old(source).remaining()[0]),
            ),
    {
        let ghost b = source.remaining();
        proof {
            reveal(dec_export);
        }
        let tag = source.read_u8()?;
        if tag == 0 {
            let p = Procedure::read_from_with_options(source, options)?;
            proof {
                let n = dec_procedure(b.drop_first(), options.debug_info).unwrap().1;
                assert(b.drop_first().skip(n as int) =~= b.skip(1 + n as int));
            }
            Ok(Export::Procedure(p))
        } else if tag == 1 {
            let a = ProcedureAlias::read_from_with_options(source, options)?;
            proof {
                let n = dec_alias(b.drop_first(), options.debug_info).unwrap().1;
                assert(b.drop_first().skip(n as int) =~= b.skip(1 + n as int));
            }
            Ok(Export::Alias(a))
        } else {
            Err(DeserializationError::InvalidTag(tag))
        }
    }
}

} // verus!
