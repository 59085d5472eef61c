use vstd::prelude::*;
use vstd::utf8::{decode_utf8, encode_utf8, encode_utf8_decode_utf8, encode_utf8_valid_utf8, valid_utf8};
use crate::bytes::{ByteReader, DeserializationError, write_bytes};
use crate::span::{SourceSpan, dec_span, enc_span, lemma_span_round_trip, no_span};

verus! {

/// The UTF-8 bytes of a text.
pub open spec fn utf8(t: Seq<char>) -> Seq<u8> {
    encode_utf8(t)
}

pub open spec fn is_ident_start(b: u8) -> bool {
    (0x61 <= b <= 0x7a) || (0x41 <= b <= 0x5a) || b == 0x5f
}

pub open spec fn is_ident_byte(b: u8) -> bool {
    is_ident_start(b) || (0x30 <= b <= 0x39)
}

/// The identifier grammar: one to 255 ASCII bytes, a letter or `_` first, then
/// letters, digits and `_`.
pub open spec fn valid_ident_bytes(b: Seq<u8>) -> bool {
    &&& 1 <= b.len() <= 255
    &&& is_ident_start(b[0])
    &&& forall|i: int| 1 <= i < b.len() ==> #[trigger] is_ident_byte(b[i])
}

/// `#main`, the name of a program's entrypoint.
pub open spec fn main_bytes() -> Seq<u8> {
    seq![0x23u8, 0x6d, 0x61, 0x69, 0x6e]
}

/// A procedure name is an identifier or, where `main_ok`, the entrypoint's name.
pub open spec fn valid_name_bytes(b: Seq<u8>, main_ok: bool) -> bool {
    valid_ident_bytes(b) || (main_ok && b == main_bytes())
}

pub open spec fn valid_text(t: Seq<char>, main_ok: bool) -> bool {
    valid_name_bytes(utf8(t), main_ok)
}

/// A length byte, then the UTF-8 bytes.
pub open spec fn enc_text(t: Seq<char>) -> Seq<u8> {
    seq![utf8(t).len() as u8] + utf8(t)
}

pub open spec fn dec_text(b: Seq<u8>, main_ok: bool) -> Option<(Seq<char>, nat)> {
    if b.len() >= 1 && b.len() >= 1 + b[0] as int {
        let body = b.subrange(1, 1 + b[0] as int);
        if valid_name_bytes(body, main_ok) && valid_utf8(body) {
            Some((decode_utf8(body), 1 + b[0] as nat))
        } else {
            None
        }
    } else {
        None
    }
}

pub proof fn lemma_text_round_trip(t: Seq<char>, main_ok: bool, rest: Seq<u8>)
    requires
        valid_text(t, main_ok),
    ensures
        enc_text(t).len() == 1 + utf8(t).len(),
        dec_text(enc_text(t) + rest, main_ok) == Some((t, enc_text(t).len())),
{
    let b = enc_text(t) + rest;
    assert(b.subrange(1, 1 + b[0] as int) =~= utf8(t));
    encode_utf8_valid_utf8(t);
    encode_utf8_decode_utf8(t);
}

pub open spec fn all_ascii(b: Seq<u8>) -> bool {
    forall|i: int| 0 <= i < b.len() ==> #[trigger] b[i] < 0x80
}

/// ASCII bytes are valid UTF-8.
pub proof fn lemma_ascii_valid_utf8(b: Seq<u8>)
    requires
        all_ascii(b),
    ensures
        valid_utf8(b),
    decreases b.len(),
{
    if b.len() > 0 {
        let rest = b.subrange(1, b.len() as int);
        assert(all_ascii(rest));
        lemma_ascii_valid_utf8(rest);
        assert(vstd::utf8::pop_first_scalar(b) =~= rest);
    }
}

/// Names are ASCII.
pub proof fn lemma_name_ascii(b: Seq<u8>, main_ok: bool)
    requires
        valid_name_bytes(b, main_ok),
    ensures
        all_ascii(b),
        valid_utf8(b),
{
    if valid_ident_bytes(b) {
        assert forall|i: int| 0 <= i < b.len() implies #[trigger] b[i] < 0x80 by {
            if i > 0 {
                assert(is_ident_byte(b[i]));
            }
        }
    } else {
        assert(all_ascii(b));
    }
    lemma_ascii_valid_utf8(b);
}

/// Decoded text follows the grammar.
pub proof fn lemma_dec_text_valid(b: Seq<u8>, main_ok: bool)
    requires
        dec_text(b, main_ok) is Some,
    ensures
        valid_text(dec_text(b, main_ok).unwrap().0, main_ok),
{
    let body = b.subrange(1, 1 + b[0] as int);
    vstd::utf8::decode_utf8_encode_utf8(body);
}

/// Relies on `String::from_utf8`: it succeeds exactly on valid UTF-8 and then
/// holds the decoded characters.
#[verifier::external_body]
pub(crate) fn string_from_utf8(b: Vec<u8>) -> (r: Option<String>)
    ensures
        r is Some <==> valid_utf8(b@),
        r matches Some(s) ==> s@ == decode_utf8(b@),
{
    String::from_utf8(b).ok()
}

/// Whether `b` is a procedure name (or, with `main_ok` false, an identifier).
pub fn is_valid_name(b: &[u8], main_ok: bool) -> (r: bool)
    ensures
        r == valid_name_bytes(b@, main_ok),
{
    if main_ok && b.len() == 5 && b[0] == 0x23 && b[1] == 0x6d && b[2] == 0x61 && b[3] == 0x69
        && b[4] == 0x6e {
        assert(b@ =~= main_bytes());
        return true;
    }
    assert(!(main_ok && b@ == main_bytes()));
    if b.len() == 0 || b.len() > 255 {
        return false;
    }
    let c = b[0];
    if !((0x61 <= c && c <= 0x7a) || (0x41 <= c && c <= 0x5a) || c == 0x5f) {
        return false;
    }
    let mut i: usize = 1;
    while i < b.len()
        invariant
            1 <= i <= b@.len(),
            forall|j: int| 1 <= j < i ==> #[trigger] is_ident_byte(b@[j]),
        decreases b@.len() - i,
    {
        let c = b[i];
        if !((0x61 <= c && c <= 0x7a) || (0x41 <= c && c <= 0x5a) || c == 0x5f || (0x30 <= c
            && c <= 0x39)) {
            assert(!is_ident_byte(b@[i as int]));
            return false;
        }
        i = i + 1;
    }
    true
}

/// Writes a length byte and the text's bytes.
fn write_text(out: &mut Vec<u8>, s: &String)
    requires
        utf8(s@).len() <= 255,
    ensures
        final(out)@ == old(out)@ + enc_text(s@),
{
    let b = s.as_str().as_bytes();
    out.push(b.len() as u8);
    write_bytes(out, b);
    assert(final(out)@ =~= old(out)@ + enc_text(s@));
}

fn read_text(source: &mut ByteReader, main_ok: bool) -> (r: Result<String, DeserializationError>)
    requires
        old(source).wf(),
    ensures
        final(source).wf(),
        match dec_text(old(source).remaining(), main_ok) {
            Some((t, n)) => r matches Ok(s) && s@ == t && valid_text(t, main_ok) && final(source).remaining()
                == old(source).remaining().skip(n as int),
            None => r is Err,
        },
{
    let ghost b = source.remaining();
    proof {
        if dec_text(b, main_ok) is Some {
            lemma_dec_text_valid(b, main_ok);
        }
    }
    let n = source.read_u8()?;
    let body = source.read_bytes(n as usize)?;
    proof {
        assert(b.drop_first().take(n as int) =~= b.subrange(1, 1 + n as int));
        assert(b.drop_first().skip(n as int) =~= b.skip(1 + n as int));
    }
    if !is_valid_name(body.as_slice(), main_ok) {
        return Err(DeserializationError::InvalidValue);
    }
    match string_from_utf8(body) {
        Some(s) => Ok(s),
        None => Err(DeserializationError::InvalidValue),
    }
}

// IDENTIFIERS
// ================================================================================================

/// A bare identifier, such as the local alias of an imported module.
#[derive(Debug, Clone, PartialEq, Eq, PartialOrd, Ord, Hash)]
pub struct Ident {
    name: String,
}

impl View for Ident {
    type V = Seq<char>;

    closed spec fn view(&self) -> Seq<char> {
        self.name@
    }
}

impl Ident {
    pub open spec fn wf(&self) -> bool {
        valid_text(self@, false)
    }

    /// Accepts the bytes of an identifier.
    pub fn from_bytes(b: Vec<u8>) -> (r: Option<Ident>)
        ensures
            r is Some <==> valid_name_bytes(b@, false),
            r matches Some(i) ==> i@ == decode_utf8(b@) && utf8(i@) == b@ && i.wf(),
    {
        if !is_valid_name(b.as_slice(), false) {
            return None;
        }
        proof {
            lemma_name_ascii(b@, false);
            vstd::utf8::decode_utf8_encode_utf8(b@);
        }
        match string_from_utf8(b) {
            Some(name) => Some(Ident { name }),
            None => None,
        }
    }

    /// Accepts `name` when it follows the identifier grammar.
    pub fn new(name: &str) -> (r: Option<Ident>)
        ensures
            r is Some <==> valid_text(name@, false),
            r matches Some(i) ==> i@ == name@ && i.wf(),
    {
        if is_valid_name(name.as_bytes(), false) {
            Some(Ident { name: name.to_owned() })
        } else {
            None
        }
    }

    /// A copy of the identifier.
    pub fn clone_ident(&self) -> (r: Ident)
        ensures
            r@ == self@,
    {
        Ident { name: self.name.clone() }
    }

    pub fn as_str(&self) -> (r: &str)
        ensures
            r@ == self@,
    {
        self.name.as_str()
    }

    /// Whether both name the same identifier.
    pub fn same(&self, other: &Ident) -> (r: bool)
        ensures
            r == (self@ == other@),
    {
        self.name == other.name
    }

    pub fn write_into(&self, out: &mut Vec<u8>)
        requires
            self.wf(),
        ensures
            final(out)@ == old(out)@ + enc_text(self@),
    {
        write_text(out, &self.name);
    }

    pub fn read_from(source: &mut ByteReader) -> (r: Result<Ident, DeserializationError>)
        requires
            old(source).wf(),
        ensures
            final(source).wf(),
            match dec_text(old(source).remaining(), false) {
                Some((t, n)) => r matches Ok(i) && i@ == t && i.wf() && final(source).remaining()
                    == old(source).remaining().skip(n as int),
                None => r is Err,
            },
    {
        let name = read_text(source, false)?;
        Ok(Ident { name })
    }
}

// PROCEDURE NAMES
// ================================================================================================

/// A text and the span of source it was written at.
pub struct SpannedText {
    pub span: SourceSpan,
    pub text: Seq<char>,
}

pub open spec fn valid_proc_name(v: SpannedText) -> bool {
    valid_text(v.text, true)
}

/// The name as it reads back: without debug information its span is gone.
pub open spec fn strip_name(v: SpannedText, debug: bool) -> SpannedText {
    if debug {
        v
    } else {
        SpannedText { span: no_span(), ..v }
    }
}

/// The span when debug information is kept, then the text.
pub open spec fn enc_name(v: SpannedText, debug: bool) -> Seq<u8> {
    if debug {
        enc_span(v.span) + enc_text(v.text)
    } else {
        enc_text(v.text)
    }
}

pub open spec fn dec_name(b: Seq<u8>, debug: bool) -> Option<(SpannedText, nat)> {
    if debug {
        match dec_span(b) {
            Some((span, n)) => match dec_text(b.skip(n as int), true) {
                Some((text, m)) => Some((SpannedText { span, text }, n + m)),
                None => None,
            },
            None => None,
        }
    } else {
        match dec_text(b, true) {
            Some((text, m)) => Some((SpannedText { span: no_span(), text }, m)),
            None => None,
        }
    }
}

pub proof fn lemma_dec_name_valid(b: Seq<u8>, debug: bool)
    requires
        dec_name(b, debug) is Some,
    ensures
        valid_proc_name(dec_name(b, debug).unwrap().0),
        dec_name(b, debug).unwrap().1 <= b.len(),
{
    if debug {
        lemma_dec_text_valid(b.skip(8), true);
    } else {
        lemma_dec_text_valid(b, true);
    }
}

pub proof fn lemma_name_round_trip(v: SpannedText, debug: bool, rest: Seq<u8>)
    requires
        valid_proc_name(v),
    ensures
        dec_name(enc_name(v, debug) + rest, debug) == Some(
            (strip_name(v, debug), enc_name(v, debug).len()),
        ),
{
    lemma_text_round_trip(v.text, true, rest);
    if debug {
        let b = enc_name(v, debug) + rest;
        lemma_span_round_trip(v.span, enc_text(v.text) + rest);
        assert(b =~= enc_span(v.span) + (enc_text(v.text) + rest));
        assert(b.skip(8) =~= enc_text(v.text) + rest);
    }
}

/// The name of a procedure: an identifier, or `#main` for a program's entrypoint.
#[derive(Debug, Clone, PartialEq, Eq, PartialOrd, Ord, Hash)]
pub struct ProcedureName {
    span: SourceSpan,
    name: String,
}

impl View for ProcedureName {
    type V = SpannedText;

    closed spec fn view(&self) -> SpannedText {
        SpannedText { span: self.span, text: self.name@ }
    }
}

impl ProcedureName {
    pub open spec fn wf(&self) -> bool {
        valid_proc_name(self@)
    }

    /// Accepts `name` when it is an identifier or `#main`.
    pub fn new(name: &str) -> (r: Option<ProcedureName>)
        ensures
            r is Some <==> valid_text(name@, true),
            r matches Some(p) ==> p@ == (SpannedText { span: no_span(), text: name@ }) && p.wf(),
    {
        ProcedureName::new_with_span(SourceSpan::unknown(), name)
    }

    pub fn new_with_span(span: SourceSpan, name: &str) -> (r: Option<ProcedureName>)
        ensures
            r is Some <==> valid_text(name@, true),
            r matches Some(p) ==> p@ == (SpannedText { span, text: name@ }) && p.wf(),
    {
        if is_valid_name(name.as_bytes(), true) {
            Some(ProcedureName { span, name: name.to_owned() })
        } else {
            None
        }
    }

    /// Accepts the bytes of a procedure name.
    pub fn from_bytes(span: SourceSpan, b: Vec<u8>) -> (r: Option<ProcedureName>)
        ensures
            r is Some <==> valid_name_bytes(b@, true),
            r matches Some(p) ==> p@ == (SpannedText { span, text: decode_utf8(b@) }) && utf8(
                p@.text,
            ) == b@ && p.wf(),
    {
        if !is_valid_name(b.as_slice(), true) {
            return None;
        }
        proof {
            lemma_name_ascii(b@, true);
            vstd::utf8::decode_utf8_encode_utf8(b@);
        }
        match string_from_utf8(b) {
            Some(name) => Some(ProcedureName { span, name }),
            None => None,
        }
    }

    pub fn as_str(&self) -> (r: &str)
        ensures
            r@ == self@.text,
    {
        self.name.as_str()
    }

    pub fn span(&self) -> (r: SourceSpan)
        ensures
            r == self@.span,
    {
        self.span
    }

    /// Whether this is the program entrypoint's name.
    pub fn is_main(&self) -> (r: bool)
        ensures
            r == (utf8(self@.text) == main_bytes()),
    {
        let b = self.name.as_str().as_bytes();
        let r = b.len() == 5 && b[0] == 0x23 && b[1] == 0x6d && b[2] == 0x61 && b[3] == 0x69
            && b[4] == 0x6e;
        assert(r ==> b@ =~= main_bytes());
        r
    }

    pub fn write_into_with_options(&self, out: &mut Vec<u8>, debug: bool)
        requires
            self.wf(),
        ensures
            final(out)@ == old(out)@ + enc_name(self@, debug),
    {
        if debug {
            self.span.write_into(out);
        }
        write_text(out, &self.name);
        assert(final(out)@ =~= old(out)@ + enc_name(self@, debug));
    }

    pub fn read_from_with_options(source: &mut ByteReader, debug: bool) -> (r: Result<
        ProcedureName,
        DeserializationError,
    >)
        requires
            old(source).wf(),
        ensures
            final(source).wf(),
            match dec_name(old(source).remaining(), debug) {
                Some((v, n)) => r matches Ok(p) && p@ == v && p.wf() && final(source).remaining()
                    == old(source).remaining().skip(n as int),
                None => r is Err,
            },
    {
        let ghost b = source.remaining();
        let span = if debug {
            SourceSpan::read_from(source)?
        } else {
            SourceSpan::unknown()
        };
        let name = read_text(source, true)?;
        proof {
            if debug {
                let m = dec_text(b.skip(8), true).unwrap().1;
                assert(b.skip(8).skip(m as int) =~= b.skip(8 + m as int));
            }
        }
        Ok(ProcedureName { span, name })
    }
}

} // verus!
