use vstd::prelude::*;
use vstd::utf8::{decode_utf8, encode_utf8_decode_utf8, encode_utf8_valid_utf8, valid_utf8};
use crate::bytes::{
    AstSerdeOptions, ByteReader, DeserializationError, le_bytes, le_value, lemma_le_round_trip,
    lemma_le_value_bound, pow256, write_bytes, write_uint,
};
use crate::invocation_target::{
    Invoke, InvokeView, dec_invoke, enc_invoke, lemma_invoke_round_trip, strip_invoke,
    valid_target,
};
use crate::names::{
    ProcedureName, SpannedText, dec_name, enc_name, lemma_dec_name_valid, lemma_name_round_trip,
    strip_name, utf8, valid_proc_name,
};
use crate::span::{SourceSpan, Span, dec_span, enc_span, lemma_span_round_trip, no_span};

verus! {

proof fn lemma_pow_small()
    ensures
        pow256(2) == 0x1_0000,
        pow256(4) == 0x1_0000_0000,
{
    reveal_with_fuel(pow256, 5);
}

// OPTIONAL SPANS
// ================================================================================================

/// A span, read only when debug information is kept.
pub open spec fn enc_opt_span(s: SourceSpan, debug: bool) -> Seq<u8> {
    if debug {
        enc_span(s)
    } else {
        Seq::empty()
    }
}

pub open spec fn dec_opt_span(b: Seq<u8>, debug: bool) -> Option<(SourceSpan, nat)> {
    if debug {
        dec_span(b)
    } else {
        Some((no_span(), 0))
    }
}

pub open spec fn strip_span(s: SourceSpan, debug: bool) -> SourceSpan {
    if debug {
        s
    } else {
        no_span()
    }
}

proof fn lemma_opt_span_round_trip(s: SourceSpan, debug: bool, rest: Seq<u8>)
    ensures
        dec_opt_span(enc_opt_span(s, debug) + rest, debug) == Some(
            (strip_span(s, debug), enc_opt_span(s, debug).len()),
        ),
{
    if debug {
        lemma_span_round_trip(s, rest);
    } else {
        assert(enc_opt_span(s, debug) + rest =~= rest);
    }
}

fn write_opt_span(out: &mut Vec<u8>, s: SourceSpan, debug: bool)
    ensures
        final(out)@ == old(out)@ + enc_opt_span(s, debug),
{
    if debug {
        s.write_into(out);
    } else {
        assert(old(out)@ + enc_opt_span(s, debug) =~= old(out)@);
    }
}

fn read_opt_span(source: &mut ByteReader, debug: bool) -> (r: Result<SourceSpan, DeserializationError>)
    requires
        old(source).wf(),
    ensures
        final(source).wf(),
        match dec_opt_span(old(source).remaining(), debug) {
            Some((s, n)) => r == Ok::<SourceSpan, DeserializationError>(s) && n <= old(
                source,
            ).remaining().len() && final(source).remaining() == old(source).remaining().skip(
                n as int,
            ),
            None => r is Err,
        },
{
    if debug {
        SourceSpan::read_from(source)
    } else {
        assert(source.remaining().skip(0) =~= source.remaining());
        Ok(SourceSpan::unknown())
    }
}

// DOCUMENTATION
// ================================================================================================

pub open spec fn valid_docs(d: Option<SpannedText>) -> bool {
    d matches Some(t) ==> utf8(t.text).len() <= u32::MAX
}

pub open spec fn strip_docs(d: Option<SpannedText>, debug: bool) -> Option<SpannedText> {
    match d {
        Some(t) => Some(SpannedText { span: strip_span(t.span, debug), text: t.text }),
        None => None,
    }
}

/// A presence byte, then the span (with debug information), the length in four
/// bytes, and the UTF-8 text.
pub open spec fn enc_docs(d: Option<SpannedText>, debug: bool) -> Seq<u8> {
    match d {
        None => seq![0u8],
        Some(t) => seq![1u8] + enc_opt_span(t.span, debug) + le_bytes(utf8(t.text).len(), 4) + utf8(
            t.text,
        ),
    }
}

pub open spec fn dec_docs(b: Seq<u8>, debug: bool) -> Option<(Option<SpannedText>, nat)> {
    if b.len() >= 1 && b[0] == 0 {
        Some((None, 1))
    } else if b.len() >= 1 && b[0] == 1 {
        match dec_opt_span(b.drop_first(), debug) {
            Some((span, n)) => {
                let c = b.skip(1 + n as int);
                if c.len() >= 4 && c.len() >= 4 + le_value(c.take(4)) {
                    let body = c.subrange(4, 4 + le_value(c.take(4)) as int);
                    if valid_utf8(body) {
                        Some(
                            (
                                Some(SpannedText { span, text: decode_utf8(body) }),
                                1 + n + 4 + le_value(c.take(4)),
                            ),
                        )
                    } else {
                        None
                    }
                } else {
                    None
                }
            },
            None => None,
        }
    } else {
        None
    }
}

pub(crate) proof fn lemma_docs_round_trip(d: Option<SpannedText>, debug: bool, rest: Seq<u8>)
    requires
        valid_docs(d),
    ensures
        dec_docs(enc_docs(d, debug) + rest, debug) == Some(
            (strip_docs(d, debug), enc_docs(d, debug).len()),
        ),
{
    if let Some(t) = d {
        let e = enc_docs(d, debug);
        let b = e + rest;
        let body = utf8(t.text);
        let c0 = le_bytes(body.len(), 4) + body + rest;
        lemma_pow_small();
        lemma_le_round_trip(body.len(), 4);
        lemma_opt_span_round_trip(t.span, debug, c0);
        assert(b.drop_first() =~= enc_opt_span(t.span, debug) + c0);
        let n = enc_opt_span(t.span, debug).len();
        assert(b.skip(1 + n as int) =~= c0);
        assert(c0.take(4) =~= le_bytes(body.len(), 4));
        assert(c0.subrange(4, 4 + body.len() as int) =~= body);
        encode_utf8_valid_utf8(t.text);
        encode_utf8_decode_utf8(t.text);
    } else {
        assert((enc_docs(d, debug) + rest)[0] == 0);
    }
}

pub(crate) proof fn lemma_dec_docs_props(b: Seq<u8>, debug: bool)
    requires
        dec_docs(b, debug) is Some,
    ensures
        valid_docs(dec_docs(b, debug).unwrap().0),
        dec_docs(b, debug).unwrap().1 <= b.len(),
{
    if b[0] == 1 {
        let n = dec_opt_span(b.drop_first(), debug).unwrap().1;
        let c = b.skip(1 + n as int);
        let body = c.subrange(4, 4 + le_value(c.take(4)) as int);
        vstd::utf8::decode_utf8_encode_utf8(body);
        lemma_le_value_bound(c.take(4));
        lemma_pow_small();
    }
}

pub(crate) fn write_docs(out: &mut Vec<u8>, docs: &Option<Span<String>>, debug: bool)
    requires
        valid_docs(docs_view(docs)),
    ensures
        final(out)@ == old(out)@ + enc_docs(docs_view(docs), debug),
{
    match docs {
        None => {
            out.push(0);
            assert(final(out)@ =~= old(out)@ + enc_docs(docs_view(docs), debug));
        },
        Some(d) => {
            out.push(1);
            write_opt_span(out, d.span, debug);
            let b = d.inner.as_str().as_bytes();
            write_uint(out, b.len() as u64, 4);
            write_bytes(out, b);
            assert(final(out)@ =~= old(out)@ + enc_docs(docs_view(docs), debug));
        },
    }
}

pub(crate) fn read_docs(source: &mut ByteReader, debug: bool) -> (r: Result<Option<Span<String>>, DeserializationError>)
    requires
        old(source).wf(),
    ensures
        final(source).wf(),
        match dec_docs(old(source).remaining(), debug) {
            Some((d, n)) => r matches Ok(docs) && docs_view(&docs) == d && valid_docs(d)
                && final(source).remaining() == old(source).remaining().skip(n as int),
            None => r is Err,
        },
{
    let ghost b = source.remaining();
    proof {
        if dec_docs(b, debug) is Some {
            lemma_dec_docs_props(b, debug);
        }
    }
    let present = source.read_u8()?;
    if present == 0 {
        return Ok(None);
    }
    if present != 1 {
        return Err(DeserializationError::InvalidTag(present));
    }
    let span = read_opt_span(source, debug)?;
    let ghost n = dec_opt_span(b.drop_first(), debug).unwrap().1;
    let ghost c = source.remaining();
    assert(c =~= b.skip(1 + n as int));
    let len = source.read_uint(4)?;
    proof {
        lemma_le_value_bound(c.take(4));
        lemma_pow_small();
    }
    let body = source.read_bytes(len as usize)?;
    proof {
        assert(c.skip(4).take(len as int) =~= c.subrange(4, 4 + len as int));
        assert(c.skip(4).skip(len as int) =~= b.skip(1 + n as int + 4 + len as int));
    }
    match crate::names::string_from_utf8(body) {
        Some(text) => Ok(Some(Span { span, inner: text })),
        None => Err(DeserializationError::InvalidValue),
    }
}

/// What documentation stands for.
pub open spec fn docs_view(d: &Option<Span<String>>) -> Option<SpannedText> {
    match d {
        Some(s) => Some(SpannedText { span: s.span, text: s.inner@ }),
        None => None,
    }
}

// INVOKED PROCEDURES
// ================================================================================================

pub open spec fn valid_invokes(s: Seq<InvokeView>) -> bool {
    &&& s.len() <= u32::MAX
    &&& forall|i: int| 0 <= i < s.len() ==> valid_target(#[trigger] s[i].target)
}

pub open spec fn strip_invokes(s: Seq<InvokeView>, debug: bool) -> Seq<InvokeView> {
    s.map_values(|v: InvokeView| strip_invoke(v, debug))
}

/// The call sites, one after another.
pub open spec fn enc_invokes(s: Seq<InvokeView>, debug: bool) -> Seq<u8>
    decreases s.len(),
{
    if s.len() == 0 {
        Seq::empty()
    } else {
        enc_invoke(s[0], debug) + enc_invokes(s.drop_first(), debug)
    }
}

pub open spec fn dec_invokes(b: Seq<u8>, k: nat, debug: bool) -> Option<(Seq<InvokeView>, nat)>
    decreases k,
{
    if k == 0 {
        Some((Seq::empty(), 0))
    } else {
        match dec_invoke(b, debug) {
            Some((v, n)) => match dec_invokes(b.skip(n as int), (k - 1) as nat, debug) {
                Some((vs, m)) => Some((seq![v] + vs, n + m)),
                None => None,
            },
            None => None,
        }
    }
}

proof fn lemma_enc_invokes_snoc(s: Seq<InvokeView>, debug: bool)
    requires
        s.len() > 0,
    ensures
        enc_invokes(s, debug) == enc_invokes(s.drop_last(), debug) + enc_invoke(s.last(), debug),
    decreases s.len(),
{
    if s.len() == 1 {
        assert(s.drop_last() =~= Seq::<InvokeView>::empty());
        assert(s.drop_first() =~= Seq::<InvokeView>::empty());
        assert(enc_invokes(s.drop_first(), debug) == Seq::<u8>::empty());
        assert(enc_invokes(s.drop_last(), debug) == Seq::<u8>::empty());
        assert(enc_invokes(s, debug) =~= enc_invoke(s[0], debug));
    } else {
        lemma_enc_invokes_snoc(s.drop_first(), debug);
        assert(s.drop_first().drop_last() =~= s.drop_last().drop_first());
        assert(s.drop_first().last() == s.last());
        assert(enc_invokes(s, debug) =~= enc_invokes(s.drop_last(), debug) + enc_invoke(
            s.last(),
            debug,
        ));
    }
}

proof fn lemma_invokes_round_trip(s: Seq<InvokeView>, debug: bool, rest: Seq<u8>)
    requires
        forall|i: int| 0 <= i < s.len() ==> valid_target(#[trigger] s[i].target),
    ensures
        dec_invokes(enc_invokes(s, debug) + rest, s.len(), debug) == Some(
            (strip_invokes(s, debug), enc_invokes(s, debug).len()),
        ),
    decreases s.len(),
{
    if s.len() == 0 {
        assert(strip_invokes(s, debug) =~= Seq::<InvokeView>::empty());
    } else {
        let tail = s.drop_first();
        assert forall|i: int| 0 <= i < tail.len() implies valid_target(#[trigger] tail[i].target) by {
            assert(tail[i] == s[i + 1]);
        }
        lemma_invokes_round_trip(tail, debug, rest);
        assert(valid_target(s[0].target));
        lemma_invoke_round_trip(s[0], debug, enc_invokes(tail, debug) + rest);
        let b = enc_invokes(s, debug) + rest;
        assert(b =~= enc_invoke(s[0], debug) + (enc_invokes(tail, debug) + rest));
        assert(b.skip(enc_invoke(s[0], debug).len() as int) =~= enc_invokes(tail, debug) + rest);
        assert(seq![strip_invoke(s[0], debug)] + strip_invokes(tail, debug) =~= strip_invokes(
            s,
            debug,
        ));
    }
}

proof fn lemma_dec_invokes_props(b: Seq<u8>, k: nat, debug: bool)
    requires
        dec_invokes(b, k, debug) is Some,
    ensures
        dec_invokes(b, k, debug).unwrap().0.len() == k,
        dec_invokes(b, k, debug).unwrap().1 <= b.len(),
        forall|i: int|
            0 <= i < k ==> valid_target(#[trigger] dec_invokes(b, k, debug).unwrap().0[i].target),
    decreases k,
{
    if k > 0 {
        let (v, n) = dec_invoke(b, debug).unwrap();
        crate::invocation_target::lemma_dec_invoke_props(b, debug);
        lemma_dec_invokes_props(b.skip(n as int), (k - 1) as nat, debug);
        let vs = dec_invokes(b.skip(n as int), (k - 1) as nat, debug).unwrap().0;
        let all = dec_invokes(b, k, debug).unwrap().0;
        assert(all == seq![v] + vs);
        assert forall|i: int| 0 <= i < k implies valid_target(#[trigger] all[i].target) by {
            if i > 0 {
                assert(all[i] == vs[i - 1]);
            }
        }
    }
}

pub open spec fn invokes_view(v: Seq<Invoke>) -> Seq<InvokeView> {
    v.map_values(|i: Invoke| i@)
}

fn write_invokes(out: &mut Vec<u8>, invoked: &Vec<Invoke>, options: AstSerdeOptions)
    requires
        valid_invokes(invokes_view(invoked@)),
    ensures
        final(out)@ == old(out)@ + le_bytes(invoked@.len() as nat, 4) + enc_invokes(
            invokes_view(invoked@),
            options.debug_info,
        ),
{
    let ghost s = invokes_view(invoked@);
    let ghost debug = options.debug_info;
    write_uint(out, invoked.len() as u64, 4);
    let ghost start = out@;
    let mut i: usize = 0;
    assert(s.take(0) =~= Seq::<InvokeView>::empty());
    while i < invoked.len()
        invariant
            i <= invoked@.len(),
            s == invokes_view(invoked@),
            valid_invokes(s),
            debug == options.debug_info,
            out@ == start + enc_invokes(s.take(i as int), debug),
        decreases invoked@.len() - i,
    {
        assert(s[i as int] == invoked@[i as int]@);
        assert(valid_target(s[i as int].target));
        invoked[i].write_into_with_options(out, options);
        proof {
            let t = s.take(i + 1);
            lemma_enc_invokes_snoc(t, debug);
            assert(t.drop_last() =~= s.take(i as int));
        }
        i = i + 1;
    }
    assert(s.take(i as int) =~= s);
}

fn read_invokes(source: &mut ByteReader, options: AstSerdeOptions) -> (r: Result<Vec<Invoke>, DeserializationError>)
    requires
        old(source).wf(),
    ensures
        final(source).wf(),
        ({
            let b = old(source).remaining();
            let k = le_value(b.take(4));
            if b.len() >= 4 {
                match dec_invokes(b.skip(4), k, options.debug_info) {
                    Some((vs, m)) => r matches Ok(v) && invokes_view(v@) == vs && valid_invokes(vs)
                        && final(source).remaining() == b.skip(4 + m as int),
                    None => r is Err,
                }
            } else {
                r is Err
            }
        }),
{
    let ghost b = source.remaining();
    let ghost debug = options.debug_info;
    let k = source.read_uint(4)?;
    proof {
        lemma_le_value_bound(b.take(4));
        lemma_pow_small();
    }
    let ghost b1 = source.remaining();
    let ghost mut c: nat = 0;
    let mut items: Vec<Invoke> = Vec::new();
    let mut i: u64 = 0;
    assert(b1.skip(0) =~= b1);
    while i < k
        invariant
            source.wf(),
            i <= k,
            k < 0x1_0000_0000,
            debug == options.debug_info,
            b1 == b.skip(4),
            b == old(source).remaining(),
            b.len() >= 4,
            k as nat == le_value(b.take(4)),
            source.remaining() == b1.skip(c as int),
            c <= b1.len(),
            items@.len() == i,
            forall|j: int| 0 <= j < i ==> valid_target(#[trigger] items@[j]@.target),
            dec_invokes(b1, k as nat, debug) == match dec_invokes(
                b1.skip(c as int),
                (k - i) as nat,
                debug,
            ) {
                Some((ts, m)) => Some((invokes_view(items@) + ts, c + m)),
                None => None,
            },
        decreases k - i,
    {
        let ghost before = source.remaining();
        let ghost done = invokes_view(items@);
        let item = match Invoke::read_from_with_options(source, options) {
            Ok(item) => item,
            Err(e) => {
                assert(dec_invoke(before, debug) is None);
                assert(dec_invokes(b1.skip(c as int), (k - i) as nat, debug) is None);
                return Err(e);
            },
        };
        proof {
            let (t, n) = dec_invoke(before, debug).unwrap();
            crate::invocation_target::lemma_dec_invoke_props(before, debug);
            assert(before.skip(n as int) =~= b1.skip(c + n as int));
            c = c + n;
            assert(invokes_view(items@.push(item)) =~= done.push(t));
            match dec_invokes(b1.skip(c as int), (k - i - 1) as nat, debug) {
                Some((ts, m)) => {
                    assert(done.push(t) + ts =~= done + (seq![t] + ts));
                },
                None => {},
            }
        }
        items.push(item);
        i = i + 1;
    }
    proof {
        assert(invokes_view(items@) + Seq::<InvokeView>::empty() =~= invokes_view(items@));
        assert(b.skip(4 + c as int) =~= b1.skip(c as int));
        assert forall|j: int| 0 <= j < invokes_view(items@).len() implies valid_target(
            #[trigger] invokes_view(items@)[j].target,
        ) by {
            assert(invokes_view(items@)[j] == items@[j]@);
        }
    }
    Ok(items)
}

// PROCEDURES
// ================================================================================================

/// Whether a procedure can be called from other modules.
#[derive(Debug, Clone, Copy, PartialEq, Eq, Structural, Hash)]
pub enum Visibility {
    Public,
    Private,
}

pub open spec fn vis_tag(v: Visibility) -> u8 {
    match v {
        Visibility::Public => 0,
        Visibility::Private => 1,
    }
}

/// What a procedure definition stands for.
pub struct ProcedureView {
    pub span: SourceSpan,
    pub docs: Option<SpannedText>,
    pub name: SpannedText,
    pub visibility: Visibility,
    pub num_locals: u16,
    pub invoked: Seq<InvokeView>,
}

pub open spec fn valid_procedure(v: ProcedureView) -> bool {
    valid_docs(v.docs) && valid_proc_name(v.name) && valid_invokes(v.invoked)
}

pub open spec fn strip_procedure(v: ProcedureView, debug: bool) -> ProcedureView {
    ProcedureView {
        span: strip_span(v.span, debug),
        docs: strip_docs(v.docs, debug),
        name: strip_name(v.name, debug),
        visibility: v.visibility,
        num_locals: v.num_locals,
        invoked: strip_invokes(v.invoked, debug),
    }
}

/// Visibility, locals and call sites: one byte, two bytes, a four-byte count
/// and the call sites.
pub open spec fn enc_proc_tail(v: ProcedureView, debug: bool) -> Seq<u8> {
    seq![vis_tag(v.visibility)] + le_bytes(v.num_locals as nat, 2) + le_bytes(v.invoked.len(), 4)
        + enc_invokes(v.invoked, debug)
}

/// The span (with debug information), the docs, the name, then the tail.
pub open spec fn enc_procedure(v: ProcedureView, debug: bool) -> Seq<u8> {
    enc_opt_span(v.span, debug) + enc_docs(v.docs, debug) + enc_name(v.name, debug) + enc_proc_tail(
        v,
        debug,
    )
}

#[verifier::opaque]
pub open spec fn dec_proc_tail(b: Seq<u8>, debug: bool) -> Option<
    ((Visibility, u16, Seq<InvokeView>), nat),
> {
    if b.len() >= 7 && b[0] <= 1 {
        let vis = if b[0] == 0 {
            Visibility::Public
        } else {
            Visibility::Private
        };
        let locals = le_value(b.subrange(1, 3)) as u16;
        match dec_invokes(b.skip(7), le_value(b.subrange(3, 7)), debug) {
            Some((inv, m)) => Some(((vis, locals, inv), 7 + m)),
            None => None,
        }
    } else {
        None
    }
}

#[verifier::opaque]
pub open spec fn dec_procedure(b: Seq<u8>, debug: bool) -> Option<(ProcedureView, nat)> {
    match dec_opt_span(b, debug) {
        Some((span, n1)) => {
            let b2 = b.skip(n1 as int);
            match dec_docs(b2, debug) {
                Some((docs, n2)) => {
                    let b3 = b2.skip(n2 as int);
                    match dec_name(b3, debug) {
                        Some((name, n3)) => match dec_proc_tail(b3.skip(n3 as int), debug) {
                            Some(((visibility, num_locals, invoked), n4)) => Some(
                                (
                                    ProcedureView {
                                        span,
                                        docs,
                                        name,
                                        visibility,
                                        num_locals,
                                        invoked,
                                    },
                                    n1 + n2 + n3 + n4,
                                ),
                            ),
                            None => None,
                        },
                        None => None,
                    }
                },
                None => None,
            }
        },
        None => None,
    }
}

proof fn lemma_proc_tail_round_trip(v: ProcedureView, debug: bool, rest: Seq<u8>)
    requires
        valid_procedure(v),
    ensures
        dec_proc_tail(enc_proc_tail(v, debug) + rest, debug) == Some(
            (
                (v.visibility, v.num_locals, strip_invokes(v.invoked, debug)),
                enc_proc_tail(v, debug).len(),
            ),
        ),
{
    reveal(dec_proc_tail);
    lemma_pow_small();
    lemma_le_round_trip(v.num_locals as nat, 2);
    lemma_le_round_trip(v.invoked.len(), 4);
    lemma_invokes_round_trip(v.invoked, debug, rest);
    let b = enc_proc_tail(v, debug) + rest;
    assert(b.subrange(1, 3) =~= le_bytes(v.num_locals as nat, 2));
    assert(b.subrange(3, 7) =~= le_bytes(v.invoked.len(), 4));
    assert(b.skip(7) =~= enc_invokes(v.invoked, debug) + rest);
}

/// Writing a procedure and reading it back, with the same options, gives the
/// procedure again, without its spans when debug information is left out.
#[verifier::rlimit(40)]
pub proof fn lemma_procedure_round_trip(v: ProcedureView, debug: bool, rest: Seq<u8>)
    requires
        valid_procedure(v),
    ensures
        dec_procedure(enc_procedure(v, debug) + rest, debug) == Some(
            (strip_procedure(v, debug), enc_procedure(v, debug).len()),
        ),
{
    reveal(dec_procedure);
    let e1 = enc_opt_span(v.span, debug);
    let e2 = enc_docs(v.docs, debug);
    let e3 = enc_name(v.name, debug);
    let e4 = enc_proc_tail(v, debug);
    let b = enc_procedure(v, debug) + rest;
    let r4 = e4 + rest;
    let r3 = e3 + r4;
    let r2 = e2 + r3;
    assert(b =~= e1 + r2);
    lemma_opt_span_round_trip(v.span, debug, r2);
    assert(b.skip(e1.len() as int) =~= r2);
    lemma_docs_round_trip(v.docs, debug, r3);
    assert(r2.skip(e2.len() as int) =~= r3);
    lemma_name_round_trip(v.name, debug, r4);
    assert(r3.skip(e3.len() as int) =~= r4);
    lemma_proc_tail_round_trip(v, debug, rest);
}

/// A procedure defined in a module.
#[derive(Debug, Clone, PartialEq, Eq)]
pub struct Procedure {
    span: SourceSpan,
    docs: Option<Span<String>>,
    name: ProcedureName,
    visibility: Visibility,
    num_locals: u16,
    invoked: Vec<Invoke>,
}

impl View for Procedure {
    type V = ProcedureView;

    closed spec fn view(&self) -> ProcedureView {
        ProcedureView {
            span: self.span,
            docs: docs_view(&self.docs),
            name: self.name@,
            visibility: self.visibility,
            num_locals: self.num_locals,
            invoked: invokes_view(self.invoked@),
        }
    }
}

impl Procedure {
    pub open spec fn wf(&self) -> bool {
        valid_procedure(self@)
    }

    /// A procedure without docs; `invoked` lists its call sites.
    pub fn new(
        span: SourceSpan,
        visibility: Visibility,
        name: ProcedureName,
        num_locals: u16,
        invoked: Vec<Invoke>,
    ) -> (r: Procedure)
        ensures
            r@ == (ProcedureView {
                span,
                docs: None,
                name: name@,
                visibility,
                num_locals,
                invoked: invokes_view(invoked@),
            }),
    {
        Procedure { span, docs: None, name, visibility, num_locals, invoked }
    }

    /// The same procedure with `docs` in place of its documentation.
    pub fn with_docs(self, docs: Option<Span<String>>) -> (r: Procedure)
        ensures
            r@ == (ProcedureView { docs: docs_view(&docs), ..self@ }),
    {
        Procedure { docs, ..self }
    }

    pub fn name(&self) -> (r: &ProcedureName)
        ensures
            r@ == self@.name,
    {
        &self.name
    }

    pub fn docs(&self) -> (r: Option<&str>)
        ensures
            r matches Some(d) ==> self@.docs matches Some(t) && d@ == t.text,
            r is None ==> self@.docs is None,
    {
        match &self.docs {
            Some(d) => Some(d.inner.as_str()),
            None => None,
        }
    }

    pub fn visibility(&self) -> (r: Visibility)
        ensures
            r == self@.visibility,
    {
        self.visibility
    }

    pub fn num_locals(&self) -> (r: u16)
        ensures
            r == self@.num_locals,
    {
        self.num_locals
    }

    pub fn span(&self) -> (r: SourceSpan)
        ensures
            r == self@.span,
    {
        self.span
    }

    /// The call sites of the body.
    pub fn invoked(&self) -> (r: &[Invoke])
        ensures
            invokes_view(r@) == self@.invoked,
    {
        self.invoked.as_slice()
    }

    #[verifier::rlimit(80)]
    pub fn write_into_with_options(&self, target: &mut Vec<u8>, options: AstSerdeOptions)
        requires
            self.wf(),
        ensures
            final(target)@ == old(target)@ + enc_procedure(self@, options.debug_info),
    {
        let debug = options.debug_info;
        let ghost v = self@;
        let ghost o = target@;
        write_opt_span(target, self.span, debug);
        write_docs(target, &self.docs, debug);
        self.name.write_into_with_options(target, debug);
        let ghost o3 = target@;
        let vis: u8 = match self.visibility {
            Visibility::Public => 0,
            Visibility::Private => 1,
        };
        target.push(vis);
        write_uint(target, self.num_locals as u64, 2);
        write_invokes(target, &self.invoked, options);
        proof {
            let e1 = enc_opt_span(v.span, debug);
            let e2 = enc_docs(v.docs, debug);
            let e3 = enc_name(v.name, debug);
            let e4 = enc_proc_tail(v, debug);
            assert(o3 == o + e1 + e2 + e3);
            assert(target@ =~= o3 + e4);
            assert(enc_procedure(v, debug) == e1 + e2 + e3 + e4);
            assert(target@ =~= o + enc_procedure(v, debug));
        }
    }

    #[verifier::rlimit(80)]
    pub fn read_from_with_options(source: &mut ByteReader, options: AstSerdeOptions) -> (r: Result<
        Procedure,
        DeserializationError,
    >)
        requires
            old(source).wf(),
        ensures
            final(source).wf(),
            match dec_procedure(old(source).remaining(), options.debug_info) {
                Some((v, n)) => r matches Ok(p) && p@ == v && p.wf() && n <= old(source).remaining().len() && final(source).remaining()
                    == old(source).remaining().skip(n as int),
                None => r is Err,
            },
    {
        let ghost b = source.remaining();
        let debug = options.debug_info;
        proof {
            reveal(dec_procedure);
            reveal(dec_proc_tail);
        }
        let span = read_opt_span(source, debug)?;
        let ghost b2 = source.remaining();
        let docs = read_docs(source, debug)?;
        let ghost b3 = source.remaining();
        let name = ProcedureName::read_from_with_options(source, debug)?;
        let ghost b4 = source.remaining();
        proof {
            lemma_dec_name_valid(b3, debug);
        }
        let vis = source.read_u8()?;
        let visibility = if vis == 0 {
            Visibility::Public
        } else if vis == 1 {
            Visibility::Private
        } else {
            return Err(DeserializationError::InvalidTag(vis));
        };
        let ghost b5 = source.remaining();
        let num_locals = source.read_uint(2)?;
        proof {
            lemma_pow_small();
            lemma_le_value_bound(b5.take(2));
            assert(b5.take(2) =~= b4.subrange(1, 3));
            if b5.len() >= 6 {
                assert(b5.skip(2).take(4) =~= b4.subrange(3, 7));
                assert(b5.skip(2).skip(4) =~= b4.skip(7));
            }
        }
        let invoked = read_invokes(source, options)?;
        let p = Procedure {
            span,
            docs,
            name,
            visibility,
            num_locals: num_locals as u16,
            invoked,
        };
        proof {
            let n1 = dec_opt_span(b, debug).unwrap().1;
            let n2 = dec_docs(b2, debug).unwrap().1;
            let n3 = dec_name(b3, debug).unwrap().1;
            let n4 = dec_proc_tail(b4, debug).unwrap().1;
            lemma_dec_docs_props(b2, debug);
            lemma_dec_invokes_props(b4.skip(7), le_value(b4.subrange(3, 7)), debug);
            assert(b.skip(n1 as int) == b2);
            assert(b2.skip(n2 as int) == b3);
            assert(b3.skip(n3 as int) == b4);
            assert(b4.skip(n4 as int) =~= b.skip((n1 + n2 + n3 + n4) as int));
        }
        Ok(p)
    }
}

} // verus!
