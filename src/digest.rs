use vstd::prelude::*;
use crate::bytes::{ByteReader, DeserializationError, le_bytes, le_value, lemma_le_round_trip, pow256, write_uint};

verus! {

/// The order of the field the digest's elements live in: `2^64 - 2^32 + 1`.
pub const MODULUS: u64 = 0xFFFF_FFFF_0000_0001;

/// A MAST root: the digest of a procedure's compiled body, four field elements.
#[derive(Debug, Clone, Copy, PartialEq, Eq, PartialOrd, Ord, Hash)]
pub struct RpoDigest {
    elements: [u64; 4],
}

pub open spec fn valid_digest(v: Seq<u64>) -> bool {
    &&& v.len() == 4
    &&& forall|i: int| 0 <= i < 4 ==> #[trigger] v[i] < MODULUS
}

/// Each element as eight little-endian bytes.
pub open spec fn enc_digest(v: Seq<u64>) -> Seq<u8> {
    le_bytes(v[0] as nat, 8) + le_bytes(v[1] as nat, 8) + le_bytes(v[2] as nat, 8) + le_bytes(
        v[3] as nat,
        8,
    )
}

pub open spec fn element_at(b: Seq<u8>, i: int) -> nat {
    le_value(b.subrange(8 * i, 8 * i + 8))
}

pub open spec fn dec_digest(b: Seq<u8>) -> Option<(Seq<u64>, nat)> {
    if b.len() >= 32 && element_at(b, 0) < MODULUS && element_at(b, 1) < MODULUS && element_at(b, 2)
        < MODULUS && element_at(b, 3) < MODULUS {
        Some(
            (
                seq![
                    element_at(b, 0) as u64,
                    element_at(b, 1) as u64,
                    element_at(b, 2) as u64,
                    element_at(b, 3) as u64,
                ],
                32,
            ),
        )
    } else {
        None
    }
}

proof fn lemma_pow_8()
    ensures
        pow256(8) == 0x1_0000_0000_0000_0000,
{
    reveal_with_fuel(pow256, 9);
}

pub proof fn lemma_digest_round_trip(v: Seq<u64>, rest: Seq<u8>)
    requires
        valid_digest(v),
    ensures
        enc_digest(v).len() == 32,
        dec_digest(enc_digest(v) + rest) == Some((v, 32nat)),
{
    lemma_pow_8();
    lemma_le_round_trip(v[0] as nat, 8);
    lemma_le_round_trip(v[1] as nat, 8);
    lemma_le_round_trip(v[2] as nat, 8);
    lemma_le_round_trip(v[3] as nat, 8);
    let b = enc_digest(v) + rest;
    assert(b.subrange(0, 8) =~= le_bytes(v[0] as nat, 8));
    assert(b.subrange(8, 16) =~= le_bytes(v[1] as nat, 8));
    assert(b.subrange(16, 24) =~= le_bytes(v[2] as nat, 8));
    assert(b.subrange(24, 32) =~= le_bytes(v[3] as nat, 8));
    assert(seq![v[0], v[1], v[2], v[3]] =~= v);
}

impl View for RpoDigest {
    type V = Seq<u64>;

    closed spec fn view(&self) -> Seq<u64> {
        self.elements@
    }
}

impl RpoDigest {
    pub open spec fn wf(&self) -> bool {
        valid_digest(self@)
    }

    /// Accepts four elements when each is below the field's order.
    pub fn new(elements: [u64; 4]) -> (r: Option<RpoDigest>)
        ensures
            r is Some <==> valid_digest(elements@),
            r matches Some(d) ==> d@ == elements@ && d.wf(),
    {
        if elements[0] < MODULUS && elements[1] < MODULUS && elements[2] < MODULUS && elements[3]
            < MODULUS {
            Some(RpoDigest { elements })
        } else {
            None
        }
    }

    pub fn elements(&self) -> (r: [u64; 4])
        ensures
            r@ == self@,
    {
        self.elements
    }

    pub fn write_into(&self, out: &mut Vec<u8>)
        requires
            self.wf(),
        ensures
            final(out)@ == old(out)@ + enc_digest(self@),
    {
        write_uint(out, self.elements[0], 8);
        write_uint(out, self.elements[1], 8);
        write_uint(out, self.elements[2], 8);
        write_uint(out, self.elements[3], 8);
        assert(final(out)@ =~= old(out)@ + enc_digest(self@));
    }

    /// Writes the elements' bytes, whatever their values.
    pub(crate) fn write_into_unchecked(&self, out: &mut Vec<u8>)
        ensures
            final(out)@ == old(out)@ + enc_digest(self@),
    {
        write_uint(out, self.elements[0], 8);
        write_uint(out, self.elements[1], 8);
        write_uint(out, self.elements[2], 8);
        write_uint(out, self.elements[3], 8);
        assert(final(out)@ =~= old(out)@ + enc_digest(self@));
    }

    fn read_element(source: &mut ByteReader) -> (r: Result<u64, DeserializationError>)
        requires
            old(source).wf(),
        ensures
            final(source).wf(),
            old(source).remaining().len() >= 8 ==> {
                let e = le_value(old(source).remaining().take(8));
                &&& final(source).remaining() == old(source).remaining().skip(8)
                &&& e < MODULUS ==> r == Ok::<u64, DeserializationError>(e as u64)
                &&& e >= MODULUS ==> r is Err
            },
            old(source).remaining().len() < 8 ==> r is Err,
    {
        let e = source.read_uint(8)?;
        if e >= MODULUS {
            return Err(DeserializationError::InvalidValue);
        }
        Ok(e)
    }

    pub fn read_from(source: &mut ByteReader) -> (r: Result<RpoDigest, DeserializationError>)
        requires
            old(source).wf(),
        ensures
            final(source).wf(),
            match dec_digest(old(source).remaining()) {
                Some((v, n)) => r matches Ok(d) && d@ == v && d.wf() && final(source).remaining()
                    == old(source).remaining().skip(n as int),
                None => r is Err,
            },
    {
        let ghost b = source.remaining();
        proof {
            if b.len() >= 32 {
                assert(b.skip(8).take(8) =~= b.subrange(8, 16));
                assert(b.skip(8).skip(8).take(8) =~= b.subrange(16, 24));
                assert(b.skip(8).skip(8).skip(8).take(8) =~= b.subrange(24, 32));
                assert(b.take(8) =~= b.subrange(0, 8));
                assert(b.skip(8).skip(8).skip(8).skip(8) =~= b.skip(32));
            }
        }
        let e0 = RpoDigest::read_element(source)?;
        let e1 = RpoDigest::read_element(source)?;
        let e2 = RpoDigest::read_element(source)?;
        let e3 = RpoDigest::read_element(source)?;
        let d = RpoDigest { elements: [e0, e1, e2, e3] };
        assert(d@ =~= seq![e0, e1, e2, e3]);
        Ok(d)
    }
}

} // verus!
