use vstd::prelude::*;
use vstd::utf8::decode_utf8;
use crate::bytes::{ByteReader, DeserializationError};
use crate::names::{
    Ident, dec_text, enc_text, lemma_text_round_trip, utf8, valid_name_bytes, valid_text,
};

verus! {

// SPLITTING ON `::`
// ================================================================================================

/// The pieces of `b` between `::` separators, scanning from the left with the
/// piece `cur` begun and the pieces `acc` done.
pub open spec fn split_from(b: Seq<u8>, cur: Seq<u8>, acc: Seq<Seq<u8>>) -> Seq<Seq<u8>>
    decreases b.len(),
{
    if b.len() == 0 {
        acc.push(cur)
    } else if b.len() >= 2 && b[0] == 0x3a && b[1] == 0x3a {
        split_from(b.skip(2), Seq::empty(), acc.push(cur))
    } else {
        split_from(b.drop_first(), cur.push(b[0]), acc)
    }
}

/// The pieces of `b` between `::` separators (one piece when there is none).
pub open spec fn split_path(b: Seq<u8>) -> Seq<Seq<u8>> {
    split_from(b, Seq::empty(), Seq::empty())
}

pub open spec fn byte_views(v: Seq<Vec<u8>>) -> Seq<Seq<u8>> {
    v.map_values(|x: Vec<u8>| x@)
}

/// Splits `b` on `::`.
pub fn split_on_separator(b: &[u8]) -> (r: Vec<Vec<u8>>)
    ensures
        byte_views(r@) == split_path(b@),
{
    let mut acc: Vec<Vec<u8>> = Vec::new();
    let mut cur: Vec<u8> = Vec::new();
    let mut i: usize = 0;
    assert(b@.skip(0) =~= b@);
    assert(byte_views(acc@) =~= Seq::<Seq<u8>>::empty());
    while i < b.len()
        invariant
            i <= b@.len(),
            split_path(b@) == split_from(b@.skip(i as int), cur@, byte_views(acc@)),
        decreases b@.len() - i,
    {
        let ghost rest = b@.skip(i as int);
        let ghost old_acc = byte_views(acc@);
        let ghost old_cur = cur@;
        if i + 1 < b.len() && b[i] == 0x3a && b[i + 1] == 0x3a {
            acc.push(cur);
            cur = Vec::new();
            i = i + 2;
            assert(rest.skip(2) =~= b@.skip(i as int));
            assert(byte_views(acc@) =~= old_acc.push(old_cur));
            assert(cur@ =~= Seq::<u8>::empty());
        } else {
            cur.push(b[i]);
            i = i + 1;
            assert(rest.drop_first() =~= b@.skip(i as int));
        }
    }
    assert(b@.skip(i as int) =~= Seq::<u8>::empty());
    let ghost old_acc = byte_views(acc@);
    let ghost old_cur = cur@;
    acc.push(cur);
    assert(byte_views(acc@) =~= old_acc.push(old_cur));
    acc
}


// LIBRARY PATHS
// ================================================================================================

/// A path names one to 255 segments, each an identifier.
pub open spec fn valid_path(v: Seq<Seq<char>>) -> bool {
    &&& 1 <= v.len() <= 255
    &&& forall|i: int| 0 <= i < v.len() ==> valid_text(#[trigger] v[i], false)
}

pub open spec fn valid_segment_bytes(p: Seq<Seq<u8>>) -> bool {
    &&& 1 <= p.len() <= 255
    &&& forall|i: int| 0 <= i < p.len() ==> valid_name_bytes(#[trigger] p[i], false)
}

pub open spec fn decode_segments(p: Seq<Seq<u8>>) -> Seq<Seq<char>> {
    p.map_values(|s: Seq<u8>| decode_utf8(s))
}

/// The segments, each as its text.
pub open spec fn enc_segments(v: Seq<Seq<char>>) -> Seq<u8>
    decreases v.len(),
{
    if v.len() == 0 {
        Seq::empty()
    } else {
        enc_text(v[0]) + enc_segments(v.drop_first())
    }
}

/// The number of segments in one byte, then the segments.
pub open spec fn enc_path(v: Seq<Seq<char>>) -> Seq<u8> {
    seq![v.len() as u8] + enc_segments(v)
}

pub open spec fn dec_segments(b: Seq<u8>, k: nat) -> Option<(Seq<Seq<char>>, nat)>
    decreases k,
{
    if k == 0 {
        Some((Seq::empty(), 0))
    } else {
        match dec_text(b, false) {
            Some((t, n)) => match dec_segments(b.skip(n as int), (k - 1) as nat) {
                Some((ts, m)) => Some((seq![t] + ts, n + m)),
                None => None,
            },
            None => None,
        }
    }
}

pub open spec fn dec_path(b: Seq<u8>) -> Option<(Seq<Seq<char>>, nat)> {
    if b.len() >= 1 && b[0] >= 1 {
        match dec_segments(b.skip(1), b[0] as nat) {
            Some((ts, m)) => Some((ts, 1 + m)),
            None => None,
        }
    } else {
        None
    }
}

proof fn lemma_segments_round_trip(v: Seq<Seq<char>>, rest: Seq<u8>)
    requires
        forall|i: int| 0 <= i < v.len() ==> valid_text(#[trigger] v[i], false),
    ensures
        dec_segments(enc_segments(v) + rest, v.len()) == Some((v, enc_segments(v).len())),
    decreases v.len(),
{
    if v.len() > 0 {
        let tail = v.drop_first();
        assert forall|i: int| 0 <= i < tail.len() implies valid_text(#[trigger] tail[i], false) by {
            assert(tail[i] == v[i + 1]);
        }
        lemma_segments_round_trip(tail, rest);
        assert(valid_text(v[0], false));
        lemma_text_round_trip(v[0], false, enc_segments(tail) + rest);
        let b = enc_segments(v) + rest;
        assert(b =~= enc_text(v[0]) + (enc_segments(tail) + rest));
        assert(b.skip(enc_text(v[0]).len() as int) =~= enc_segments(tail) + rest);
        assert(seq![v[0]] + tail =~= v);
    }
}

proof fn lemma_dec_segments_len(b: Seq<u8>, k: nat)
    requires
        dec_segments(b, k) is Some,
    ensures
        dec_segments(b, k).unwrap().1 <= b.len(),
    decreases k,
{
    if k > 0 {
        let n = dec_text(b, false).unwrap().1;
        lemma_dec_segments_len(b.skip(n as int), (k - 1) as nat);
    }
}

proof fn lemma_dec_segments_valid(b: Seq<u8>, k: nat)
    requires
        dec_segments(b, k) is Some,
    ensures
        dec_segments(b, k).unwrap().0.len() == k,
        forall|i: int|
            0 <= i < k ==> valid_text(#[trigger] dec_segments(b, k).unwrap().0[i], false),
    decreases k,
{
    if k > 0 {
        let (t, n) = dec_text(b, false).unwrap();
        crate::names::lemma_dec_text_valid(b, false);
        lemma_dec_segments_valid(b.skip(n as int), (k - 1) as nat);
        let ts = dec_segments(b.skip(n as int), (k - 1) as nat).unwrap().0;
        let all = dec_segments(b, k).unwrap().0;
        assert(all == seq![t] + ts);
        assert forall|i: int| 0 <= i < k implies valid_text(#[trigger] all[i], false) by {
            if i > 0 {
                assert(all[i] == ts[i - 1]);
            }
        }
    }
}

/// A decoded path is valid.
pub proof fn lemma_dec_path_valid(b: Seq<u8>)
    requires
        dec_path(b) is Some,
    ensures
        valid_path(dec_path(b).unwrap().0),
{
    lemma_dec_segments_valid(b.skip(1), b[0] as nat);
}

/// A decoded path spans no more than the input.
pub proof fn lemma_dec_path_len(b: Seq<u8>)
    requires
        dec_path(b) is Some,
    ensures
        dec_path(b).unwrap().1 <= b.len(),
{
    lemma_dec_segments_len(b.skip(1), b[0] as nat);
}

pub proof fn lemma_path_round_trip(v: Seq<Seq<char>>, rest: Seq<u8>)
    requires
        valid_path(v),
    ensures
        dec_path(enc_path(v) + rest) == Some((v, enc_path(v).len())),
{
    lemma_segments_round_trip(v, rest);
    let b = enc_path(v) + rest;
    assert(b.skip(1) =~= enc_segments(v) + rest);
}

/// The UTF-8 of the segments joined by `::`.
pub open spec fn joined(v: Seq<Seq<char>>) -> Seq<u8>
    decreases v.len(),
{
    if v.len() == 0 {
        Seq::empty()
    } else if v.len() == 1 {
        utf8(v[0])
    } else {
        joined(v.drop_last()) + seq![0x3au8, 0x3a] + utf8(v.last())
    }
}

/// The text of a procedure's fully qualified name, `path::name`.
pub open spec fn qualified_bytes(path: Seq<Seq<char>>, name: Seq<char>) -> Seq<u8> {
    joined(path.push(name))
}

/// A namespace path that identifies a module, such as `std::math::u64`.
#[derive(Debug, Clone, PartialEq, Eq, PartialOrd, Ord, Hash)]
pub struct LibraryPath {
    segments: Vec<Ident>,
}

impl View for LibraryPath {
    type V = Seq<Seq<char>>;

    closed spec fn view(&self) -> Seq<Seq<char>> {
        self.segments@.map_values(|i: Ident| i@)
    }
}

impl LibraryPath {
    pub open spec fn wf(&self) -> bool {
        valid_path(self@)
    }

    /// Accepts `path` when its pieces between `::` are one to 255 identifiers.
    pub fn new(path: &str) -> (r: Option<LibraryPath>)
        ensures
            r is Some <==> valid_segment_bytes(split_path(utf8(path@))),
            r matches Some(p) ==> p@ == decode_segments(split_path(utf8(path@))) && p.wf(),
    {
        let parts = split_on_separator(path.as_bytes());
        LibraryPath::from_parts(parts)
    }

    /// Accepts byte segments when they are one to 255 identifiers.
    pub fn from_parts(parts: Vec<Vec<u8>>) -> (r: Option<LibraryPath>)
        ensures
            r is Some <==> valid_segment_bytes(byte_views(parts@)),
            r matches Some(p) ==> p@ == decode_segments(byte_views(parts@))
                && p.wf(),
    {
        let ghost pv = byte_views(parts@);
        if parts.len() == 0 || parts.len() > 255 {
            return None;
        }
        let mut segments: Vec<Ident> = Vec::new();
        let n = parts.len();
        let mut work = parts;
        let mut i: usize = 0;
        // take the parts from the back, then put the identifiers in order
        while work.len() > 0
            invariant
                work@.len() + i == n,
                n == pv.len(),
                pv == byte_views(parts@),
                forall|j: int| 0 <= j < work@.len() ==> #[trigger] work@[j]@ == pv[j],
                segments@.len() == i,
                forall|j: int|
                    0 <= j < i ==> #[trigger] segments@[j]@ == decode_utf8(pv[n - 1 - j])
                        && segments@[j].wf() && utf8(segments@[j]@) == pv[n - 1 - j],
                forall|j: int| n - i <= j < n ==> valid_name_bytes(#[trigger] pv[j], false),
            decreases work@.len(),
        {
            let ghost idx = n - 1 - i;
            let part = work.pop().unwrap();
            assert(part@ == pv[idx]);
            match Ident::from_bytes(part) {
                Some(id) => {
                    segments.push(id);
                    i = i + 1;
                },
                None => {
                    assert(!valid_name_bytes(pv[idx], false));
                    assert(0 <= idx < pv.len());
                    assert(!valid_segment_bytes(pv));
                    return None;
                },
            }
        }
        let mut ordered: Vec<Ident> = Vec::new();
        let mut k: usize = 0;
        while segments.len() > 0
            invariant
                segments@.len() + k == n,
                n == pv.len(),
                forall|j: int|
                    0 <= j < segments@.len() ==> #[trigger] segments@[j]@ == decode_utf8(
                        pv[n - 1 - j],
                    ) && segments@[j].wf(),
                ordered@.len() == k,
                forall|j: int|
                    0 <= j < k ==> #[trigger] ordered@[j]@ == decode_utf8(pv[j])
                        && ordered@[j].wf(),
            decreases segments@.len(),
        {
            let id = segments.pop().unwrap();
            ordered.push(id);
            k = k + 1;
        }
        let p = LibraryPath { segments: ordered };
        assert(p@ =~= decode_segments(pv));
        assert forall|j: int| 0 <= j < p@.len() implies valid_text(#[trigger] p@[j], false) by {
            assert(ordered@[j].wf());
        }
        Some(p)
    }

    /// The segment at `i`.
    pub fn segment(&self, i: usize) -> (r: &Ident)
        requires
            i < self@.len(),
        ensures
            r@ == self@[i as int],
    {
        &self.segments[i]
    }

    /// The path of the one segment `id`.
    pub fn from_ident(id: Ident) -> (r: LibraryPath)
        ensures
            r@ == seq![id@],
    {
        let mut segments: Vec<Ident> = Vec::new();
        segments.push(id);
        let r = LibraryPath { segments };
        assert(r@ =~= seq![r.segments@[0]@]);
        r
    }

    /// A copy of the path.
    pub fn clone_path(&self) -> (r: LibraryPath)
        ensures
            r@ == self@,
    {
        let mut segments: Vec<Ident> = Vec::new();
        let mut i: usize = 0;
        while i < self.segments.len()
            invariant
                i <= self.segments@.len(),
                segments@.len() == i,
                forall|j: int| 0 <= j < i ==> #[trigger] segments@[j]@ == self.segments@[j]@,
            decreases self.segments@.len() - i,
        {
            segments.push(self.segments[i].clone_ident());
            i = i + 1;
        }
        let r = LibraryPath { segments };
        assert(r@ =~= self@);
        r
    }

    /// The number of segments.
    pub fn len(&self) -> (r: usize)
        ensures
            r == self@.len(),
    {
        self.segments.len()
    }

    /// The first segment: the namespace of the library the module belongs to.
    pub fn namespace(&self) -> (r: &Ident)
        requires
            self.wf(),
        ensures
            r@ == self@[0],
    {
        &self.segments[0]
    }

    /// Whether both name the same module.
    pub fn same(&self, other: &LibraryPath) -> (r: bool)
        ensures
            r == (self@ == other@),
    {
        if self.segments.len() != other.segments.len() {
            assert(self@.len() != other@.len());
            return false;
        }
        let mut i: usize = 0;
        while i < self.segments.len()
            invariant
                i <= self@.len(),
                self@.len() == other@.len(),
                forall|j: int| 0 <= j < i ==> self@[j] == other@[j],
            decreases self@.len() - i,
        {
            if !self.segments[i].same(&other.segments[i]) {
                assert(self@[i as int] != other@[i as int]);
                return false;
            }
            i = i + 1;
        }
        assert(self@ =~= other@);
        true
    }

    fn write_segments(&self, out: &mut Vec<u8>, i: usize)
        requires
            self.wf(),
            i <= self@.len(),
        ensures
            final(out)@ == old(out)@ + enc_segments(self@.skip(i as int)),
        decreases self@.len() - i,
    {
        if i < self.segments.len() {
            assert(self@[i as int] == self.segments@[i as int]@);
            self.segments[i].write_into(out);
            self.write_segments(out, i + 1);
            assert(self@.skip(i as int).drop_first() =~= self@.skip(i + 1));
            assert(final(out)@ =~= old(out)@ + enc_segments(self@.skip(i as int)));
        } else {
            assert(self@.skip(i as int) =~= Seq::<Seq<char>>::empty());
            assert(final(out)@ =~= old(out)@);
        }
    }

    pub fn write_into(&self, out: &mut Vec<u8>)
        requires
            self.wf(),
        ensures
            final(out)@ == old(out)@ + enc_path(self@),
    {
        out.push(self.segments.len() as u8);
        self.write_segments(out, 0);
        assert(self@.skip(0) =~= self@);
        assert(final(out)@ =~= old(out)@ + enc_path(self@));
    }

    pub fn read_from(source: &mut ByteReader) -> (r: Result<LibraryPath, DeserializationError>)
        requires
            old(source).wf(),
        ensures
            final(source).wf(),
            match dec_path(old(source).remaining()) {
                Some((v, n)) => r matches Ok(p) && p@ == v && p.wf() && final(source).remaining()
                    == old(source).remaining().skip(n as int),
                None => r is Err,
            },
    {
        let ghost b = source.remaining();
        let k = source.read_u8()?;
        if k == 0 {
            return Err(DeserializationError::InvalidValue);
        }
        assert(b.drop_first() =~= b.skip(1));
        let ghost b1 = source.remaining();
        let ghost mut c: nat = 0;
        let mut segments: Vec<Ident> = Vec::new();
        let mut i: u8 = 0;
        assert(b1.skip(0) =~= b1);
        while i < k
            invariant
                source.wf(),
                i <= k,
                b1 == b.drop_first(),
                b == old(source).remaining(),
                b.len() >= 1,
                k == b[0],
                source.remaining() == b1.skip(c as int),
                c <= b1.len(),
                segments@.len() == i,
                forall|j: int| 0 <= j < i ==> (#[trigger] segments@[j]).wf(),
                dec_segments(b1, k as nat) == match dec_segments(b1.skip(c as int), (k - i) as nat) {
                    Some((ts, m)) => Some((segments@.map_values(|s: Ident| s@) + ts, c + m)),
                    None => None,
                },
            decreases k - i,
        {
            let ghost before = source.remaining();
            let ghost done = segments@.map_values(|s: Ident| s@);
            let id = match Ident::read_from(source) {
                Ok(id) => id,
                Err(e) => {
                    assert(b1 =~= b.skip(1));
                    assert(before == b1.skip(c as int));
                    assert(dec_text(before, false) is None);
                    assert(dec_segments(b1.skip(c as int), (k - i) as nat) is None);
                    assert(dec_segments(b1, k as nat) is None);
                    assert(dec_path(b) is None);
                    return Err(e);
                },
            };
            proof {
                let (t, n) = dec_text(before, false).unwrap();
                assert(before.skip(n as int) =~= b1.skip(c + n as int));
                c = c + n;
                assert(segments@.push(id).map_values(|s: Ident| s@) =~= done.push(t));
                match dec_segments(b1.skip(c as int), (k - i - 1) as nat) {
                    Some((ts, m)) => {
                        assert(done.push(t) + ts =~= done + (seq![t] + ts));
                    },
                    None => {},
                }
            }
            segments.push(id);
            i = i + 1;
        }
        let p = LibraryPath { segments };
        proof {
            assert(b1.skip(c as int).take(0) =~= Seq::<u8>::empty());
            assert(segments@.map_values(|s: Ident| s@) + Seq::<Seq<char>>::empty() =~= p@);
            assert(b.skip(1 + c as int) =~= b1.skip(c as int));
            assert forall|j: int| 0 <= j < p@.len() implies valid_text(#[trigger] p@[j], false) by {
                assert(p.segments@[j].wf());
            }
        }
        Ok(p)
    }
}

} // verus!
