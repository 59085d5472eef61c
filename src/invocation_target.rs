use vstd::prelude::*;
use crate::bytes::{AstSerdeOptions, ByteReader, DeserializationError};
use crate::digest::{RpoDigest, dec_digest, enc_digest, lemma_digest_round_trip, valid_digest};
use crate::names::{
    Ident, SpannedText, ProcedureName, dec_name, dec_text, enc_name, enc_text, lemma_dec_name_valid,
    lemma_name_round_trip, lemma_text_round_trip, strip_name, valid_proc_name, valid_text,
};
use crate::paths::{LibraryPath, dec_path, enc_path, lemma_dec_path_valid, lemma_path_round_trip, valid_path};
use crate::span::{SourceSpan, Span, dec_span, enc_span, lemma_span_round_trip, no_span};

verus! {

// CALLING CONVENTIONS
// ================================================================================================

/// The calling convention of a call site.
#[derive(Debug, Clone, Copy, PartialEq, Eq, Structural, PartialOrd, Ord, Hash)]
pub enum InvokeKind {
    /// The callee's body runs inline in the caller's context.
    Exec,
    /// The callee runs in a fresh, isolated context.
    Call,
    /// A privileged entry into the kernel.
    SysCall,
    /// The callee's root is taken as a value.
    ProcRef,
}

pub open spec fn kind_tag(k: InvokeKind) -> u8 {
    match k {
        InvokeKind::Exec => 0,
        InvokeKind::Call => 1,
        InvokeKind::SysCall => 2,
        InvokeKind::ProcRef => 3,
    }
}

pub open spec fn kind_of_tag(t: u8) -> InvokeKind {
    if t == 0 {
        InvokeKind::Exec
    } else if t == 1 {
        InvokeKind::Call
    } else if t == 2 {
        InvokeKind::SysCall
    } else {
        InvokeKind::ProcRef
    }
}

// INVOCATION TARGET
// ================================================================================================

/// What an invocation target stands for.
pub enum TargetView {
    MastRoot { span: SourceSpan, digest: Seq<u64> },
    ProcedureName { name: SpannedText },
    ProcedurePath { name: SpannedText, module: Seq<char> },
    AbsoluteProcedurePath { name: SpannedText, path: Seq<Seq<char>> },
}

pub open spec fn valid_target(v: TargetView) -> bool {
    match v {
        TargetView::MastRoot { digest, .. } => valid_digest(digest),
        TargetView::ProcedureName { name } => valid_proc_name(name),
        TargetView::ProcedurePath { name, module } => valid_proc_name(name) && valid_text(
            module,
            false,
        ),
        TargetView::AbsoluteProcedurePath { name, path } => valid_proc_name(name) && valid_path(
            path,
        ),
    }
}

/// The discriminant written before the payload.
pub open spec fn target_tag(v: TargetView) -> u8 {
    match v {
        TargetView::MastRoot { .. } => 0,
        TargetView::ProcedureName { .. } => 1,
        TargetView::ProcedurePath { .. } => 2,
        TargetView::AbsoluteProcedurePath { .. } => 3,
    }
}

/// The target as it reads back: without debug information its spans are gone.
pub open spec fn strip_target(v: TargetView, debug: bool) -> TargetView {
    match v {
        TargetView::MastRoot { span, digest } => TargetView::MastRoot {
            span: if debug {
                span
            } else {
                no_span()
            },
            digest,
        },
        TargetView::ProcedureName { name } => TargetView::ProcedureName {
            name: strip_name(name, debug),
        },
        TargetView::ProcedurePath { name, module } => TargetView::ProcedurePath {
            name: strip_name(name, debug),
            module,
        },
        TargetView::AbsoluteProcedurePath { name, path } => TargetView::AbsoluteProcedurePath {
            name: strip_name(name, debug),
            path,
        },
    }
}

pub open spec fn dec_root(b: Seq<u8>, debug: bool) -> Option<(TargetView, nat)> {
    if debug {
        match dec_span(b) {
            Some((span, n)) => match dec_digest(b.skip(n as int)) {
                Some((digest, m)) => Some((TargetView::MastRoot { span, digest }, n + m)),
                None => None,
            },
            None => None,
        }
    } else {
        match dec_digest(b) {
            Some((digest, m)) => Some((TargetView::MastRoot { span: no_span(), digest }, m)),
            None => None,
        }
    }
}

/// The payload that follows tag `t`.
pub open spec fn dec_payload(t: u8, p: Seq<u8>, debug: bool) -> Option<(TargetView, nat)> {
    if t == 0 {
        dec_root(p, debug)
    } else if 1 <= t <= 3 {
        match dec_name(p, debug) {
            Some((name, n)) => if t == 1 {
                Some((TargetView::ProcedureName { name }, n))
            } else if t == 2 {
                match dec_text(p.skip(n as int), false) {
                    Some((module, m)) => Some((TargetView::ProcedurePath { name, module }, n + m)),
                    None => None,
                }
            } else {
                match dec_path(p.skip(n as int)) {
                    Some((path, m)) => Some(
                        (TargetView::AbsoluteProcedurePath { name, path }, n + m),
                    ),
                    None => None,
                }
            },
            None => None,
        }
    } else {
        None
    }
}

pub open spec fn enc_payload(v: TargetView, debug: bool) -> Seq<u8> {
    match v {
        TargetView::MastRoot { span, digest } => if debug {
            enc_span(span) + enc_digest(digest)
        } else {
            enc_digest(digest)
        },
        TargetView::ProcedureName { name } => enc_name(name, debug),
        TargetView::ProcedurePath { name, module } => enc_name(name, debug) + enc_text(module),
        TargetView::AbsoluteProcedurePath { name, path } => enc_name(name, debug) + enc_path(path),
    }
}

/// One tag byte, then the variant's payload.
pub open spec fn enc_target(v: TargetView, debug: bool) -> Seq<u8> {
    seq![target_tag(v)] + enc_payload(v, debug)
}

#[verifier::opaque]
pub open spec fn dec_target(b: Seq<u8>, debug: bool) -> Option<(TargetView, nat)> {
    if b.len() == 0 {
        None
    } else {
        match dec_payload(b[0], b.drop_first(), debug) {
            Some((v, n)) => Some((v, 1 + n)),
            None => None,
        }
    }
}

/// A decoded target is valid and spans no more than the input.
pub proof fn lemma_dec_target_valid(b: Seq<u8>, debug: bool)
    requires
        dec_target(b, debug) is Some,
    ensures
        valid_target(dec_target(b, debug).unwrap().0),
        dec_target(b, debug).unwrap().1 <= b.len(),
{
    reveal(dec_target);
    let p = b.drop_first();
    if b[0] == 0 {
    } else {
        lemma_dec_name_valid(p, debug);
        let n = dec_name(p, debug).unwrap().1;
        if b[0] == 2 {
            crate::names::lemma_dec_text_valid(p.skip(n as int), false);
        } else if b[0] == 3 {
            crate::paths::lemma_dec_path_len(p.skip(n as int));
            lemma_dec_path_valid(p.skip(n as int));
        }
    }
}

proof fn lemma_root_round_trip(span: SourceSpan, digest: Seq<u64>, debug: bool, rest: Seq<u8>)
    requires
        valid_digest(digest),
    ensures
        ({
            let v = TargetView::MastRoot { span, digest };
            dec_payload(0, enc_payload(v, debug) + rest, debug) == Some(
                (strip_target(v, debug), enc_payload(v, debug).len()),
            )
        }),
{
    let v = TargetView::MastRoot { span, digest };
    let p = enc_payload(v, debug) + rest;
    lemma_digest_round_trip(digest, rest);
    if debug {
        lemma_span_round_trip(span, enc_digest(digest) + rest);
        assert(p =~= enc_span(span) + (enc_digest(digest) + rest));
        assert(p.skip(8) =~= enc_digest(digest) + rest);
    }
}

proof fn lemma_local_round_trip(name: SpannedText, debug: bool, rest: Seq<u8>)
    requires
        valid_proc_name(name),
    ensures
        ({
            let v = TargetView::ProcedureName { name };
            dec_payload(1, enc_payload(v, debug) + rest, debug) == Some(
                (strip_target(v, debug), enc_payload(v, debug).len()),
            )
        }),
{
    lemma_name_round_trip(name, debug, rest);
}

proof fn lemma_imported_round_trip(name: SpannedText, module: Seq<char>, debug: bool, rest: Seq<u8>)
    requires
        valid_proc_name(name),
        valid_text(module, false),
    ensures
        ({
            let v = TargetView::ProcedurePath { name, module };
            dec_payload(2, enc_payload(v, debug) + rest, debug) == Some(
                (strip_target(v, debug), enc_payload(v, debug).len()),
            )
        }),
{
    let v = TargetView::ProcedurePath { name, module };
    let p = enc_payload(v, debug) + rest;
    lemma_text_round_trip(module, false, rest);
    lemma_name_round_trip(name, debug, enc_text(module) + rest);
    assert(p =~= enc_name(name, debug) + (enc_text(module) + rest));
    assert(p.skip(enc_name(name, debug).len() as int) =~= enc_text(module) + rest);
}

proof fn lemma_absolute_round_trip(
    name: SpannedText,
    path: Seq<Seq<char>>,
    debug: bool,
    rest: Seq<u8>,
)
    requires
        valid_proc_name(name),
        valid_path(path),
    ensures
        ({
            let v = TargetView::AbsoluteProcedurePath { name, path };
            dec_payload(3, enc_payload(v, debug) + rest, debug) == Some(
                (strip_target(v, debug), enc_payload(v, debug).len()),
            )
        }),
{
    let v = TargetView::AbsoluteProcedurePath { name, path };
    let p = enc_payload(v, debug) + rest;
    let q = enc_path(path) + rest;
    let n = enc_name(name, debug).len();
    lemma_path_round_trip(path, rest);
    lemma_name_round_trip(name, debug, q);
    assert(p =~= enc_name(name, debug) + q);
    assert(p.skip(n as int) =~= q);
    assert(dec_name(p, debug) == Some((strip_name(name, debug), n)));
    assert(dec_path(q) == Some((path, enc_path(path).len())));
}

proof fn lemma_payload_round_trip(v: TargetView, debug: bool, rest: Seq<u8>)
    requires
        valid_target(v),
    ensures
        dec_payload(target_tag(v), enc_payload(v, debug) + rest, debug) == Some(
            (strip_target(v, debug), enc_payload(v, debug).len()),
        ),
{
    match v {
        TargetView::MastRoot { span, digest } => lemma_root_round_trip(span, digest, debug, rest),
        TargetView::ProcedureName { name } => lemma_local_round_trip(name, debug, rest),
        TargetView::ProcedurePath { name, module } => lemma_imported_round_trip(
            name,
            module,
            debug,
            rest,
        ),
        TargetView::AbsoluteProcedurePath { name, path } => lemma_absolute_round_trip(
            name,
            path,
            debug,
            rest,
        ),
    }
}

/// Writing a target and reading it back, with the same options, gives the
/// target again, without its spans when debug information is left out.
pub proof fn lemma_target_round_trip(v: TargetView, debug: bool, rest: Seq<u8>)
    requires
        valid_target(v),
    ensures
        dec_target(enc_target(v, debug) + rest, debug) == Some(
            (strip_target(v, debug), enc_target(v, debug).len()),
        ),
{
    reveal(dec_target);
    lemma_payload_round_trip(v, debug, rest);
    let b = enc_target(v, debug) + rest;
    assert(b.drop_first() =~= enc_payload(v, debug) + rest);
}

/// Describes the callee of `exec`, `call`, `syscall` and `procref` instructions.
#[derive(Debug, Clone, PartialEq, Eq, PartialOrd, Ord, Hash)]
pub enum InvocationTarget {
    /// An absolute reference by MAST root, trusted without a lookup.
    MastRoot(Span<RpoDigest>),
    /// A procedure defined in the same module.
    ProcedureName(ProcedureName),
    /// A procedure of the module that the import `module` names in the calling module.
    ProcedurePath { name: ProcedureName, module: Ident },
    /// A procedure of the module at a fully qualified path.
    AbsoluteProcedurePath { name: ProcedureName, path: LibraryPath },
}

impl View for InvocationTarget {
    type V = TargetView;

    open spec fn view(&self) -> TargetView {
        match self {
            InvocationTarget::MastRoot(root) => TargetView::MastRoot {
                span: root.span,
                digest: root.inner@,
            },
            InvocationTarget::ProcedureName(name) => TargetView::ProcedureName { name: name@ },
            InvocationTarget::ProcedurePath { name, module } => TargetView::ProcedurePath {
                name: name@,
                module: module@,
            },
            InvocationTarget::AbsoluteProcedurePath { name, path } => {
                TargetView::AbsoluteProcedurePath { name: name@, path: path@ }
            },
        }
    }
}

impl InvocationTarget {
    pub open spec fn wf(&self) -> bool {
        valid_target(self@)
    }

    /// The span of source the target was written at.
    pub fn span(&self) -> (r: SourceSpan)
        ensures
            r == match self@ {
                TargetView::MastRoot { span, .. } => span,
                TargetView::ProcedureName { name } => name.span,
                TargetView::ProcedurePath { name, .. } => name.span,
                TargetView::AbsoluteProcedurePath { name, .. } => name.span,
            },
    {
        match self {
            InvocationTarget::MastRoot(root) => root.span,
            InvocationTarget::ProcedureName(name) => name.span(),
            InvocationTarget::ProcedurePath { name, .. } => name.span(),
            InvocationTarget::AbsoluteProcedurePath { name, .. } => name.span(),
        }
    }

    /// The discriminant of the variant.
    pub fn tag(&self) -> (r: u8)
        ensures
            r == target_tag(self@),
    {
        match self {
            InvocationTarget::MastRoot(_) => 0,
            InvocationTarget::ProcedureName(_) => 1,
            InvocationTarget::ProcedurePath { .. } => 2,
            InvocationTarget::AbsoluteProcedurePath { .. } => 3,
        }
    }

    /// Writes the tag byte and the payload; spans only when `options` keep debug information.
    pub fn write_into_with_options(&self, target: &mut Vec<u8>, options: AstSerdeOptions)
        requires
            self.wf(),
        ensures
            final(target)@ == old(target)@ + enc_target(self@, options.debug_info),
    {
        target.push(self.tag());
        match self {
            InvocationTarget::MastRoot(root) => {
                if options.debug_info {
                    root.span.write_into(target);
                }
                root.inner.write_into(target);
            },
            InvocationTarget::ProcedureName(name) => {
                name.write_into_with_options(target, options.debug_info);
            },
            InvocationTarget::ProcedurePath { name, module } => {
                name.write_into_with_options(target, options.debug_info);
                module.write_into(target);
            },
            InvocationTarget::AbsoluteProcedurePath { name, path } => {
                name.write_into_with_options(target, options.debug_info);
                path.write_into(target);
            },
        }
        assert(final(target)@ =~= old(target)@ + enc_target(self@, options.debug_info));
    }

    /// Writes the target with the default options, which leave debug information out.
    pub fn write_into(&self, target: &mut Vec<u8>)
        requires
            self.wf(),
        ensures
            final(target)@ == old(target)@ + enc_target(self@, false),
    {
        self.write_into_with_options(target, AstSerdeOptions::new(false, false));
    }

    /// Reads a target written with the default options.
    pub fn read_from(source: &mut ByteReader) -> (r: Result<InvocationTarget, DeserializationError>)
        requires
            old(source).wf(),
        ensures
            final(source).wf(),
            match dec_target(old(source).remaining(), false) {
                Some((v, n)) => r matches Ok(t) && t@ == v && t.wf() && final(source).remaining()
                    == old(source).remaining().skip(n as int),
                None => r is Err,
            },
    {
        InvocationTarget::read_from_with_options(source, AstSerdeOptions::new(false, false))
    }

    /// Reads a target written with the same options.
    pub fn read_from_with_options(source: &mut ByteReader, options: AstSerdeOptions) -> (r: Result<
        InvocationTarget,
        DeserializationError,
    >)
        requires
            old(source).wf(),
        ensures
            final(source).wf(),
            match dec_target(old(source).remaining(), options.debug_info) {
                Some((v, n)) => r matches Ok(t) && t@ == v && t.wf() && final(source).remaining()
                    == old(source).remaining().skip(n as int),
                None => r is Err,
            },
            old(source).remaining().len() >= 1 && old(source).remaining()[0] > 3 ==> r
                == Err::<InvocationTarget, DeserializationError>(
                DeserializationError::InvalidTag(old(source).remaining()[0]),
            ),
    {
        let ghost b = source.remaining();
        proof {
            reveal(dec_target);
        }
        let debug = options.debug_info;
        let tag = source.read_u8()?;
        let ghost p = source.remaining();
        assert(p == b.drop_first());
        proof {
            if dec_target(b, debug) is Some {
                lemma_dec_target_valid(b, debug);
            }
        }
        if tag == 0 {
            let span = if debug {
                SourceSpan::read_from(source)?
            } else {
                SourceSpan::unknown()
            };
            let ghost q = source.remaining();
            let ghost n: int = if debug { 8 } else { 0 };
            assert(q == p.skip(n)) by {
                if !debug {
                    assert(p.skip(0) =~= p);
                }
            }
            let digest = RpoDigest::read_from(source)?;
            proof {
                let m = dec_digest(q).unwrap().1;
                assert(q.skip(m as int) =~= b.skip((1 + n + m) as int));
            }
            return Ok(InvocationTarget::MastRoot(Span { span, inner: digest }));
        }
        if tag > 3 {
            return Err(DeserializationError::InvalidTag(tag));
        }
        let name = ProcedureName::read_from_with_options(source, debug)?;
        let ghost n = dec_name(p, debug).unwrap().1;
        let ghost q = source.remaining();
        assert(q == p.skip(n as int));
        proof {
            lemma_dec_name_valid(p, debug);
        }
        if tag == 1 {
            assert(q =~= b.skip(1 + n as int));
            return Ok(InvocationTarget::ProcedureName(name));
        }
        if tag == 2 {
            let module = Ident::read_from(source)?;
            proof {
                let m = dec_text(q, false).unwrap().1;
                assert(q.skip(m as int) =~= b.skip((1 + n + m) as int));
            }
            return Ok(InvocationTarget::ProcedurePath { name, module });
        }
        let path = LibraryPath::read_from(source)?;
        proof {
            let m = dec_path(q).unwrap().1;
            assert(q.skip(m as int) =~= b.skip((1 + n + m) as int));
        }
        Ok(InvocationTarget::AbsoluteProcedurePath { name, path })
    }
}


// INVOKE
// ================================================================================================

/// What a call site stands for: how it calls, and what.
pub struct InvokeView {
    pub kind: InvokeKind,
    pub target: TargetView,
}

pub open spec fn strip_invoke(v: InvokeView, debug: bool) -> InvokeView {
    InvokeView { kind: v.kind, target: strip_target(v.target, debug) }
}

/// The kind's byte, then the target.
pub open spec fn enc_invoke(v: InvokeView, debug: bool) -> Seq<u8> {
    seq![kind_tag(v.kind)] + enc_target(v.target, debug)
}

#[verifier::opaque]
pub open spec fn dec_invoke(b: Seq<u8>, debug: bool) -> Option<(InvokeView, nat)> {
    if b.len() >= 1 && b[0] <= 3 {
        match dec_target(b.drop_first(), debug) {
            Some((target, n)) => Some((InvokeView { kind: kind_of_tag(b[0]), target }, 1 + n)),
            None => None,
        }
    } else {
        None
    }
}

pub proof fn lemma_invoke_round_trip(v: InvokeView, debug: bool, rest: Seq<u8>)
    requires
        valid_target(v.target),
    ensures
        dec_invoke(enc_invoke(v, debug) + rest, debug) == Some(
            (strip_invoke(v, debug), enc_invoke(v, debug).len()),
        ),
{
    reveal(dec_invoke);
    lemma_target_round_trip(v.target, debug, rest);
    let b = enc_invoke(v, debug) + rest;
    assert(b.drop_first() =~= enc_target(v.target, debug) + rest);
}

/// A decoded call site is valid and spans no more than the input.
pub proof fn lemma_dec_invoke_props(b: Seq<u8>, debug: bool)
    requires
        dec_invoke(b, debug) is Some,
    ensures
        valid_target(dec_invoke(b, debug).unwrap().0.target),
        dec_invoke(b, debug).unwrap().1 <= b.len(),
{
    reveal(dec_invoke);
    lemma_dec_target_valid(b.drop_first(), debug);
}

/// One call site: its calling convention and its callee.
#[derive(Debug, Clone, PartialEq, Eq, PartialOrd, Ord, Hash)]
pub struct Invoke {
    pub kind: InvokeKind,
    pub target: InvocationTarget,
}

impl View for Invoke {
    type V = InvokeView;

    open spec fn view(&self) -> InvokeView {
        InvokeView { kind: self.kind, target: self.target@ }
    }
}

impl Invoke {
    pub open spec fn wf(&self) -> bool {
        self.target.wf()
    }

    pub fn new(kind: InvokeKind, target: InvocationTarget) -> (r: Invoke)
        ensures
            r.kind == kind,
            r.target == target,
    {
        Invoke { kind, target }
    }

    /// The span of the callee's text.
    pub fn span(&self) -> (r: SourceSpan)
        ensures
            r == match self@.target {
                TargetView::MastRoot { span, .. } => span,
                TargetView::ProcedureName { name } => name.span,
                TargetView::ProcedurePath { name, .. } => name.span,
                TargetView::AbsoluteProcedurePath { name, .. } => name.span,
            },
    {
        self.target.span()
    }

    pub fn write_into_with_options(&self, target: &mut Vec<u8>, options: AstSerdeOptions)
        requires
            self.wf(),
        ensures
            final(target)@ == old(target)@ + enc_invoke(self@, options.debug_info),
    {
        let k: u8 = match self.kind {
            InvokeKind::Exec => 0,
            InvokeKind::Call => 1,
            InvokeKind::SysCall => 2,
            InvokeKind::ProcRef => 3,
        };
        target.push(k);
        self.target.write_into_with_options(target, options);
        assert(final(target)@ =~= old(target)@ + enc_invoke(self@, options.debug_info));
    }

    pub fn read_from_with_options(source: &mut ByteReader, options: AstSerdeOptions) -> (r: Result<
        Invoke,
        DeserializationError,
    >)
        requires
            old(source).wf(),
        ensures
            final(source).wf(),
            match dec_invoke(old(source).remaining(), options.debug_info) {
                Some((v, n)) => r matches Ok(i) && i@ == v && i.wf() && final(source).remaining()
                    == old(source).remaining().skip(n as int),
                None => r is Err,
            },
    {
        let ghost b = source.remaining();
        proof {
            reveal(dec_invoke);
        }
        let k = source.read_u8()?;
        let kind = if k == 0 {
            InvokeKind::Exec
        } else if k == 1 {
            InvokeKind::Call
        } else if k == 2 {
            InvokeKind::SysCall
        } else if k == 3 {
            InvokeKind::ProcRef
        } else {
            return Err(DeserializationError::InvalidTag(k));
        };
        let target = InvocationTarget::read_from_with_options(source, options)?;
        proof {
            lemma_dec_target_valid(b.drop_first(), options.debug_info);
            let n = dec_target(b.drop_first(), options.debug_info).unwrap().1;
            assert(b.drop_first().skip(n as int) =~= b.skip(1 + n as int));
        }
        Ok(Invoke { kind, target })
    }
}

} // verus!
