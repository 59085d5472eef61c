use vstd::prelude::*;
use crate::bytes::{ByteReader, DeserializationError, le_bytes, le_value, lemma_le_round_trip, lemma_le_value_bound, pow256, write_uint};

verus! {

/// A range of byte offsets into source text, kept for diagnostics only.
#[derive(Debug, Clone, Copy, PartialEq, Eq, Structural, Default, PartialOrd, Ord, Hash)]
pub struct SourceSpan {
    pub start: u32,
    pub end: u32,
}

/// The span that values carry once debug information has been dropped.
pub open spec fn no_span() -> SourceSpan {
    SourceSpan { start: 0, end: 0 }
}

/// A value together with the span of source it came from.
#[derive(Debug, Clone, PartialEq, Eq, PartialOrd, Ord, Hash)]
pub struct Span<T> {
    pub span: SourceSpan,
    pub inner: T,
}

/// Start, then end, four little-endian bytes each.
pub open spec fn enc_span(s: SourceSpan) -> Seq<u8> {
    le_bytes(s.start as nat, 4) + le_bytes(s.end as nat, 4)
}

pub open spec fn dec_span(b: Seq<u8>) -> Option<(SourceSpan, nat)> {
    if b.len() >= 8 {
        Some(
            (
                SourceSpan {
                    start: le_value(b.take(4)) as u32,
                    end: le_value(b.subrange(4, 8)) as u32,
                },
                8,
            ),
        )
    } else {
        None
    }
}

/// The span written, with anything after it, reads back whole.
pub proof fn lemma_span_round_trip(s: SourceSpan, rest: Seq<u8>)
    ensures
        enc_span(s).len() == 8,
        dec_span(enc_span(s) + rest) == Some((s, 8nat)),
{
    lemma_pow_4();
    lemma_le_round_trip(s.start as nat, 4);
    lemma_le_round_trip(s.end as nat, 4);
    let b = enc_span(s) + rest;
    assert(b.take(4) =~= le_bytes(s.start as nat, 4));
    assert(b.subrange(4, 8) =~= le_bytes(s.end as nat, 4));
}

proof fn lemma_pow_4()
    ensures
        pow256(4) == 0x1_0000_0000,
{
    reveal_with_fuel(pow256, 5);
}

impl SourceSpan {
    pub fn new(start: u32, end: u32) -> (r: Self)
        ensures
            r.start == start,
            r.end == end,
    {
        SourceSpan { start, end }
    }

    /// The span of no source.
    pub fn unknown() -> (r: Self)
        ensures
            r == no_span(),
    {
        SourceSpan { start: 0, end: 0 }
    }

    pub fn write_into(&self, out: &mut Vec<u8>)
        ensures
            final(out)@ == old(out)@ + enc_span(*self),
    {
        write_uint(out, self.start as u64, 4);
        write_uint(out, self.end as u64, 4);
        assert(final(out)@ =~= old(out)@ + enc_span(*self));
    }

    pub fn read_from(source: &mut ByteReader) -> (r: Result<Self, DeserializationError>)
        requires
            old(source).wf(),
        ensures
            final(source).wf(),
            match dec_span(old(source).remaining()) {
                Some((v, n)) => r == Ok::<SourceSpan, DeserializationError>(v)
                    && final(source).remaining() == old(source).remaining().skip(n as int),
                None => r is Err,
            },
    {
        let ghost b = source.remaining();
        let start = source.read_uint(4)?;
        let end = source.read_uint(4)?;
        proof {
            lemma_pow_4();
            lemma_le_value_bound(b.take(4));
            lemma_le_value_bound(b.skip(4).take(4));
            assert(b.skip(4).take(4) =~= b.subrange(4, 8));
            assert(b.skip(4).skip(4) =~= b.skip(8));
        }
        Ok(SourceSpan { start: start as u32, end: end as u32 })
    }
}

} // verus!
