use vstd::prelude::*;

verus! {

/// `256^n`: the number of values that `n` little-endian bytes can hold.
pub open spec fn pow256(n: nat) -> nat
    decreases n,
{
    if n == 0 {
        1
    } else {
        256 * pow256((n - 1) as nat)
    }
}

/// The `n` little-endian bytes of `v` (the high part of `v` is dropped).
pub open spec fn le_bytes(v: nat, n: nat) -> Seq<u8>
    decreases n,
{
    if n == 0 {
        Seq::empty()
    } else {
        seq![(v % 256) as u8] + le_bytes(v / 256, (n - 1) as nat)
    }
}

/// The number that the little-endian bytes `s` stand for.
pub open spec fn le_value(s: Seq<u8>) -> nat
    decreases s.len(),
{
    if s.len() == 0 {
        0
    } else {
        s[0] as nat + 256 * le_value(s.drop_first())
    }
}

/// Reading `n` bytes back gives the value written, when it fits in them.
pub proof fn lemma_le_round_trip(v: nat, n: nat)
    requires
        v < pow256(n),
    ensures
        le_bytes(v, n).len() == n,
        le_value(le_bytes(v, n)) == v,
    decreases n,
{
    if n > 0 {
        let m = (n - 1) as nat;
        assert(v / 256 < pow256(m)) by (nonlinear_arith)
            requires
                v < 256 * pow256(m),
        ;
        lemma_le_round_trip(v / 256, m);
        let s = le_bytes(v, n);
        assert(s.drop_first() =~= le_bytes(v / 256, m));
        assert(v == v % 256 + 256 * (v / 256)) by (nonlinear_arith);
    }
}

/// A value read from `s` fits in `s.len()` bytes.
pub proof fn lemma_le_value_bound(s: Seq<u8>)
    ensures
        le_value(s) < pow256(s.len()),
    decreases s.len(),
{
    if s.len() > 0 {
        lemma_le_value_bound(s.drop_first());
        let r = le_value(s.drop_first());
        let p = pow256((s.len() - 1) as nat);
        assert(s[0] as nat + 256 * r < 256 * p) by (nonlinear_arith)
            requires
                r < p,
                (s[0] as nat) < 256,
        ;
    }
}

proof fn lemma_pow256_small()
    ensures
        pow256(1) == 0x100,
        pow256(2) == 0x1_0000,
        pow256(4) == 0x1_0000_0000,
        pow256(8) == 0x1_0000_0000_0000_0000,
{
    reveal_with_fuel(pow256, 9);
}

proof fn lemma_pow256_mono(a: nat, b: nat)
    requires
        a <= b,
    ensures
        pow256(a) <= pow256(b),
    decreases b,
{
    if a < b {
        lemma_pow256_mono(a, (b - 1) as nat);
    }
}

/// Appends the `n` little-endian bytes of `v`.
pub fn write_uint(out: &mut Vec<u8>, v: u64, n: usize)
    requires
        n <= 8,
    ensures
        final(out)@ == old(out)@ + le_bytes(v as nat, n as nat),
    decreases n,
{
    if n > 0 {
        out.push((v % 256) as u8);
        write_uint(out, v / 256, n - 1);
        assert(old(out)@ + le_bytes(v as nat, n as nat) =~= old(out)@.push((v % 256) as u8)
            + le_bytes((v / 256) as nat, (n - 1) as nat));
    }
}

/// Appends `b` itself.
pub fn write_bytes(out: &mut Vec<u8>, b: &[u8])
    ensures
        final(out)@ == old(out)@ + b@,
{
    let mut i: usize = 0;
    while i < b.len()
        invariant
            i <= b@.len(),
            out@ == old(out)@ + b@.subrange(0, i as int),
        decreases b@.len() - i,
    {
        out.push(b[i]);
        i = i + 1;
        assert(out@ =~= old(out)@ + b@.subrange(0, i as int));
    }
    assert(b@.subrange(0, b@.len() as int) =~= b@);
}

/// What an encoding keeps besides the semantic payload.
#[derive(Debug, Clone, Copy, PartialEq, Eq, Structural)]
pub struct AstSerdeOptions {
    /// Whether a module's imports are written.
    pub serialize_imports: bool,
    /// Whether source spans are written.
    pub debug_info: bool,
}

impl AstSerdeOptions {
    pub fn new(serialize_imports: bool, debug_info: bool) -> (r: Self)
        ensures
            r.serialize_imports == serialize_imports,
            r.debug_info == debug_info,
    {
        AstSerdeOptions { serialize_imports, debug_info }
    }
}

/// Why bytes could not be decoded.
#[derive(Debug, Clone, PartialEq, Eq)]
pub enum DeserializationError {
    /// The input ended before the value did.
    UnexpectedEof,
    /// A tag byte that no variant has; it carries the byte.
    InvalidTag(u8),
    /// A well-framed value that breaks the rules of its type (an identifier
    /// outside the grammar, text that is not UTF-8, a field element too large).
    InvalidValue,
}

/// Reads values from a byte buffer, front to back.
pub struct ByteReader {
    bytes: Vec<u8>,
    pos: usize,
}

impl ByteReader {
    /// The bytes not read yet.
    pub closed spec fn remaining(&self) -> Seq<u8> {
        self.bytes@.subrange(self.pos as int, self.bytes@.len() as int)
    }

    pub closed spec fn wf(&self) -> bool {
        self.pos <= self.bytes@.len()
    }

    /// A reader at the start of `bytes`.
    pub fn new(bytes: Vec<u8>) -> (r: Self)
        ensures
            r.wf(),
            r.remaining() == bytes@,
    {
        let r = ByteReader { bytes, pos: 0 };
        assert(r.remaining() =~= r.bytes@);
        r
    }

    /// The number of bytes not read yet.
    pub fn remaining_len(&self) -> (r: usize)
        requires
            self.wf(),
        ensures
            r == self.remaining().len(),
    {
        self.bytes.len() - self.pos
    }

    /// Reads one byte.
    pub fn read_u8(&mut self) -> (r: Result<u8, DeserializationError>)
        requires
            old(self).wf(),
        ensures
            final(self).wf(),
            match r {
                Ok(b) => old(self).remaining().len() >= 1 && b == old(self).remaining()[0]
                    && final(self).remaining() == old(self).remaining().drop_first(),
                Err(e) => old(self).remaining().len() == 0 && e == DeserializationError::UnexpectedEof,
            },
    {
        if self.pos < self.bytes.len() {
            let b = self.bytes[self.pos];
            self.pos = self.pos + 1;
            assert(self.remaining() =~= old(self).remaining().drop_first());
            Ok(b)
        } else {
            Err(DeserializationError::UnexpectedEof)
        }
    }

    /// Reads `n` bytes as a little-endian number.
    pub fn read_uint(&mut self, n: usize) -> (r: Result<u64, DeserializationError>)
        requires
            old(self).wf(),
            n <= 8,
        ensures
            final(self).wf(),
            match r {
                Ok(v) => old(self).remaining().len() >= n
                    && v as nat == le_value(old(self).remaining().take(n as int))
                    && final(self).remaining() == old(self).remaining().skip(n as int),
                Err(e) => old(self).remaining().len() < n && e == DeserializationError::UnexpectedEof,
            },
        decreases n,
    {
        if n == 0 {
            assert(old(self).remaining().take(0) =~= Seq::<u8>::empty());
            assert(self.remaining().skip(0) =~= self.remaining());
            return Ok(0);
        }
        if self.bytes.len() - self.pos < n {
            return Err(DeserializationError::UnexpectedEof);
        }
        let ghost s = self.remaining();
        let b = self.bytes[self.pos];
        self.pos = self.pos + 1;
        assert(self.remaining() =~= s.drop_first());
        let rest = self.read_uint(n - 1);
        let rest = match rest {
            Ok(v) => v,
            Err(e) => {
                return Err(e);
            },
        };
        proof {
            let t = s.take(n as int);
            assert(t.drop_first() =~= s.drop_first().take(n - 1));
            assert(t[0] == b);
            lemma_le_value_bound(s.drop_first().take(n - 1));
            lemma_pow256_mono((n - 1) as nat, 7);
            lemma_pow256_small();
            assert(self.remaining() =~= s.skip(n as int));
            assert((b as nat) + 256 * (rest as nat) < 0x1_0000_0000_0000_0000) by (nonlinear_arith)
                requires
                    (rest as nat) < 0x100_0000_0000_0000,
                    (b as nat) < 256,
            ;
        }
        Ok(b as u64 + 256 * rest)
    }

    /// Reads `n` bytes as they are.
    pub fn read_bytes(&mut self, n: usize) -> (r: Result<Vec<u8>, DeserializationError>)
        requires
            old(self).wf(),
        ensures
            final(self).wf(),
            match r {
                Ok(v) => old(self).remaining().len() >= n
                    && v@ == old(self).remaining().take(n as int)
                    && final(self).remaining() == old(self).remaining().skip(n as int),
                Err(e) => old(self).remaining().len() < n && e == DeserializationError::UnexpectedEof,
            },
    {
        if self.bytes.len() - self.pos < n {
            return Err(DeserializationError::UnexpectedEof);
        }
        let ghost s = self.remaining();
        let mut v: Vec<u8> = Vec::new();
        let mut i: usize = 0;
        while i < n
            invariant
                self.wf(),
                s == old(self).remaining(),
                s.len() >= n,
                old(self).pos + n <= old(self).bytes@.len(),
                self.bytes@.len() <= usize::MAX,
                self.pos == old(self).pos + i,
                self.bytes@ == old(self).bytes@,
                i <= n,
                v@ == s.take(i as int),
            decreases n - i,
        {
            v.push(self.bytes[self.pos]);
            self.pos = self.pos + 1;
            i = i + 1;
            assert(v@ =~= s.take(i as int));
        }
        assert(self.remaining() =~= s.skip(n as int));
        Ok(v)
    }
}

} // verus!
