use vstd::prelude::*;
use crate::bytes::{ByteReader, le_value, lemma_le_value_bound, pow256};
use crate::names::{SpannedText, ProcedureName, utf8, valid_proc_name};
use crate::paths::{LibraryPath, joined, qualified_bytes, valid_path};

verus! {

// QUALIFIED NAMES
// ================================================================================================

/// What a qualified name stands for: a module path and a procedure name in it.
pub struct QualifiedView {
    pub module: Seq<Seq<char>>,
    pub name: SpannedText,
}

/// A procedure name together with the path of the module that defines it.
#[derive(Debug, Clone, PartialEq, Eq)]
pub struct QualifiedProcedureName {
    pub module: LibraryPath,
    pub name: ProcedureName,
}

impl View for QualifiedProcedureName {
    type V = QualifiedView;

    open spec fn view(&self) -> QualifiedView {
        QualifiedView { module: self.module@, name: self.name@ }
    }
}

/// Appends the text of `s` as bytes.
fn push_text(out: &mut Vec<u8>, s: &str)
    ensures
        final(out)@ == old(out)@ + utf8(s@),
{
    crate::bytes::write_bytes(out, s.as_bytes());
}

impl QualifiedProcedureName {
    pub open spec fn wf(&self) -> bool {
        valid_path(self.module@) && valid_proc_name(self.name@)
    }

    pub fn new(module: LibraryPath, name: ProcedureName) -> (r: QualifiedProcedureName)
        ensures
            r.module == module,
            r.name == name,
    {
        QualifiedProcedureName { module, name }
    }

    /// The text `path::name`, as bytes.
    pub fn to_bytes(&self) -> (r: Vec<u8>)
        ensures
            r@ == qualified_bytes(self.module@, self.name@.text),
    {
        qualified_name_bytes(&self.module, &self.name)
    }
}

/// The text `path::name`, as bytes.
pub(crate) fn qualified_name_bytes(path: &LibraryPath, name: &ProcedureName) -> (r: Vec<u8>)
    ensures
        r@ == qualified_bytes(path@, name@.text),
{
    let ghost all = path@.push(name@.text);
    let n = path.len();
    let mut out: Vec<u8> = Vec::new();
    let mut i: usize = 0;
    assert(all.take(0) =~= Seq::<Seq<char>>::empty());
    while i < n
        invariant
            n == path@.len(),
            all == path@.push(name@.text),
            i <= n,
            out@ == joined(all.take(i as int)),
        decreases n - i,
    {
        if i > 0 {
            out.push(0x3a);
            out.push(0x3a);
        }
        push_text(&mut out, path.segment(i).as_str());
        proof {
            let t = all.take(i + 1);
            assert(t.last() == all[i as int]);
            if i > 0 {
                assert(t.drop_last() =~= all.take(i as int));
            } else {
                assert(t.len() == 1);
            }
        }
        i = i + 1;
    }
    if n > 0 {
        out.push(0x3a);
        out.push(0x3a);
    }
    push_text(&mut out, name.as_str());
    proof {
        let t = all.take(n + 1);
        assert(t.last() == all[n as int]);
        if n > 0 {
            assert(t.drop_last() =~= all.take(n as int));
        } else {
            assert(t.len() == 1);
        }
    }
    assert(all.take(n + 1) =~= all);
    out
}

// PROCEDURE IDS
// ================================================================================================

/// The BLAKE3 digest of `bytes`, cut to its first 20 bytes.
pub uninterp spec fn blake3_160_of(bytes: Seq<u8>) -> Seq<u8>;

/// Relies on miden-core's `Blake3_160::hash`: BLAKE3 of the bytes, cut to 20 bytes, a
/// function of the bytes alone.
#[verifier::external_body]
fn blake3_160(bytes: &[u8]) -> (r: [u8; 20])
    ensures
        r@ == blake3_160_of(bytes@),
{
    miden_core::crypto::hash::Blake3_160::hash(bytes).into()
}

/// The id of procedure `name` in the module at `path`.
pub open spec fn procedure_id_of(path: Seq<Seq<char>>, name: Seq<char>) -> Seq<u8> {
    blake3_160_of(qualified_bytes(path, name))
}

/// The key an id is indexed under: its 20 bytes read as three little-endian numbers.
pub open spec fn id_key(b: Seq<u8>) -> (u64, u64, u32) {
    (
        le_value(b.subrange(0, 8)) as u64,
        le_value(b.subrange(8, 16)) as u64,
        le_value(b.subrange(16, 20)) as u32,
    )
}

/// A 20-byte id derived from a procedure's fully qualified name; an index key only.
#[derive(Debug, Clone, Copy, PartialEq, Eq, PartialOrd, Ord, Hash)]
pub struct ProcedureId {
    bytes: [u8; 20],
}

impl View for ProcedureId {
    type V = Seq<u8>;

    closed spec fn view(&self) -> Seq<u8> {
        self.bytes@
    }
}

proof fn lemma_pow_small()
    ensures
        pow256(4) == 0x1_0000_0000,
        pow256(8) == 0x1_0000_0000_0000_0000,
{
    reveal_with_fuel(pow256, 9);
}

impl ProcedureId {
    /// The id of a qualified procedure name: its digest and nothing else.
    pub fn new(name: &QualifiedProcedureName) -> (r: ProcedureId)
        ensures
            r@ == procedure_id_of(name.module@, name.name@.text),
    {
        let text = name.to_bytes();
        ProcedureId { bytes: blake3_160(text.as_slice()) }
    }

    /// The id of procedure `name` in the module at `path`.
    pub fn from_parts(path: &LibraryPath, name: &ProcedureName) -> (r: ProcedureId)
        ensures
            r@ == procedure_id_of(path@, name@.text),
    {
        let text = qualified_name_bytes(path, name);
        ProcedureId { bytes: blake3_160(text.as_slice()) }
    }

    pub fn from_bytes(bytes: [u8; 20]) -> (r: ProcedureId)
        ensures
            r@ == bytes@,
    {
        ProcedureId { bytes }
    }

    pub fn as_bytes(&self) -> (r: [u8; 20])
        ensures
            r@ == self@,
    {
        self.bytes
    }

    /// The key this id is indexed under.
    pub fn key(&self) -> (r: (u64, u64, u32))
        ensures
            r == id_key(self@),
    {
        let mut v: Vec<u8> = Vec::new();
        let mut i: usize = 0;
        while i < 20
            invariant
                i <= 20,
                self@.len() == 20,
                v@ == self@.take(i as int),
            decreases 20 - i,
        {
            v.push(self.bytes[i]);
            i = i + 1;
            assert(v@ =~= self@.take(i as int));
        }
        let ghost b = self@;
        assert(v@ =~= b);
        let mut reader = ByteReader::new(v);
        proof {
            lemma_pow_small();
            lemma_le_value_bound(b.subrange(0, 8));
            lemma_le_value_bound(b.subrange(8, 16));
            lemma_le_value_bound(b.subrange(16, 20));
            assert(b.take(8) =~= b.subrange(0, 8));
            assert(b.skip(8).take(8) =~= b.subrange(8, 16));
            assert(b.skip(8).skip(8).take(4) =~= b.subrange(16, 20));
        }
        let a = reader.read_uint(8);
        let c = reader.read_uint(8);
        let d = reader.read_uint(4);
        match (a, c, d) {
            (Ok(a), Ok(c), Ok(d)) => (a, c, d as u32),
            _ => {
                assert(false);
                (0, 0, 0)
            },
        }
    }
}

/// Equal qualified names give equal ids: an id depends on the module path and
/// the name's text alone, so deriving it twice gives the same id, wherever the
/// name was written.
pub proof fn lemma_procedure_id_deterministic(a: QualifiedView, b: QualifiedView)
    requires
        a.module == b.module,
        a.name.text == b.name.text,
    ensures
        procedure_id_of(a.module, a.name.text) == procedure_id_of(b.module, b.name.text),
        id_key(procedure_id_of(a.module, a.name.text)) == id_key(
            procedure_id_of(b.module, b.name.text),
        ),
{
}

} // verus!
