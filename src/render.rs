use vstd::prelude::*;
use vstd::utf8::{decode_utf8_encode_utf8, encode_utf8_valid_utf8, valid_utf8, valid_utf8_concat};
use crate::digest::enc_digest;
use crate::invocation_target::{InvocationTarget, TargetView};
use crate::names::{all_ascii, lemma_ascii_valid_utf8, string_from_utf8, utf8};
use crate::paths::{joined, qualified_bytes};
use crate::procedure_id::qualified_name_bytes;

verus! {

/// The lower-case hex digit of `v`, below 16.
pub open spec fn hex_char(v: int) -> u8 {
    if v < 10 {
        (0x30 + v) as u8
    } else {
        (0x61 + v - 10) as u8
    }
}

/// Two lower-case hex digits for each byte, high digit first.
pub open spec fn hex_text(b: Seq<u8>) -> Seq<u8>
    decreases b.len(),
{
    if b.len() == 0 {
        Seq::empty()
    } else {
        hex_text(b.drop_last()) + seq![hex_char(b.last() as int / 16), hex_char(b.last() as int % 16)]
    }
}

/// The text of a call target: `0x` and the root's bytes in hex; the name; `alias::name`;
/// or `::path::name`.
pub open spec fn render_spec(t: TargetView) -> Seq<u8> {
    match t {
        TargetView::MastRoot { digest, .. } => seq![0x30u8, 0x78] + hex_text(enc_digest(digest)),
        TargetView::ProcedureName { name } => utf8(name.text),
        TargetView::ProcedurePath { name, module } => utf8(module) + seq![0x3au8, 0x3a] + utf8(
            name.text,
        ),
        TargetView::AbsoluteProcedurePath { name, path } => seq![0x3au8, 0x3a] + qualified_bytes(
            path,
            name.text,
        ),
    }
}

proof fn lemma_hex_text_ascii(b: Seq<u8>)
    ensures
        all_ascii(hex_text(b)),
    decreases b.len(),
{
    if b.len() > 0 {
        lemma_hex_text_ascii(b.drop_last());
        let t = hex_text(b);
        assert forall|i: int| 0 <= i < t.len() implies #[trigger] t[i] < 0x80 by {
            if i < hex_text(b.drop_last()).len() {
                assert(t[i] == hex_text(b.drop_last())[i]);
            }
        }
    }
}

proof fn lemma_joined_valid(v: Seq<Seq<char>>)
    ensures
        valid_utf8(joined(v)),
    decreases v.len(),
{
    if v.len() == 1 {
        encode_utf8_valid_utf8(v[0]);
    } else if v.len() > 1 {
        lemma_joined_valid(v.drop_last());
        encode_utf8_valid_utf8(v.last());
        separator_valid();
        valid_utf8_concat(joined(v.drop_last()), seq![0x3au8, 0x3a]);
        valid_utf8_concat(joined(v.drop_last()) + seq![0x3au8, 0x3a], utf8(v.last()));
    } else {
        assert(joined(v) =~= Seq::<u8>::empty());
    }
}

proof fn separator_valid()
    ensures
        valid_utf8(seq![0x3au8, 0x3a]),
{
    lemma_ascii_valid_utf8(seq![0x3au8, 0x3a]);
}

proof fn lemma_render_valid(t: TargetView)
    ensures
        valid_utf8(render_spec(t)),
{
    separator_valid();
    match t {
        TargetView::MastRoot { digest, .. } => {
            let h = hex_text(enc_digest(digest));
            lemma_hex_text_ascii(enc_digest(digest));
            let s = seq![0x30u8, 0x78] + h;
            assert forall|i: int| 0 <= i < s.len() implies #[trigger] s[i] < 0x80 by {
                if i >= 2 {
                    assert(s[i] == h[i - 2]);
                }
            }
            lemma_ascii_valid_utf8(s);
        },
        TargetView::ProcedureName { name } => {
            encode_utf8_valid_utf8(name.text);
        },
        TargetView::ProcedurePath { name, module } => {
            encode_utf8_valid_utf8(name.text);
            encode_utf8_valid_utf8(module);
            valid_utf8_concat(utf8(module), seq![0x3au8, 0x3a]);
            valid_utf8_concat(utf8(module) + seq![0x3au8, 0x3a], utf8(name.text));
        },
        TargetView::AbsoluteProcedurePath { name, path } => {
            lemma_joined_valid(path.push(name.text));
            valid_utf8_concat(seq![0x3au8, 0x3a], qualified_bytes(path, name.text));
        },
    }
}

fn hex_digit_char(v: u8) -> (r: u8)
    requires
        v < 16,
    ensures
        r == hex_char(v as int),
{
    if v < 10 {
        0x30 + v
    } else {
        0x61 + v - 10
    }
}

fn push_hex(out: &mut Vec<u8>, b: &Vec<u8>)
    ensures
        final(out)@ == old(out)@ + hex_text(b@),
{
    let mut i: usize = 0;
    assert(b@.take(0) =~= Seq::<u8>::empty());
    assert(old(out)@ + hex_text(b@.take(0)) =~= old(out)@);
    while i < b.len()
        invariant
            i <= b@.len(),
            out@ == old(out)@ + hex_text(b@.take(i as int)),
        decreases b@.len() - i,
    {
        let x = b[i];
        out.push(hex_digit_char(x / 16));
        out.push(hex_digit_char(x % 16));
        proof {
            let t = b@.take(i + 1);
            assert(t.drop_last() =~= b@.take(i as int));
            assert(t.last() == x);
        }
        i = i + 1;
        assert(out@ =~= old(out)@ + hex_text(b@.take(i as int)));
    }
    assert(b@.take(i as int) =~= b@);
}

impl InvocationTarget {
    /// The target as text, in the form the assembly language writes it.
    pub fn render(&self) -> (r: String)
        ensures
            utf8(r@) == render_spec(self@),
    {
        let mut out: Vec<u8> = Vec::new();
        match self {
            InvocationTarget::MastRoot(root) => {
                out.push(0x30);
                out.push(0x78);
                let mut raw: Vec<u8> = Vec::new();
                root.inner.write_into_unchecked(&mut raw);
                push_hex(&mut out, &raw);
            },
            InvocationTarget::ProcedureName(name) => {
                crate::bytes::write_bytes(&mut out, name.as_str().as_bytes());
            },
            InvocationTarget::ProcedurePath { name, module } => {
                crate::bytes::write_bytes(&mut out, module.as_str().as_bytes());
                out.push(0x3a);
                out.push(0x3a);
                crate::bytes::write_bytes(&mut out, name.as_str().as_bytes());
            },
            InvocationTarget::AbsoluteProcedurePath { name, path } => {
                out.push(0x3a);
                out.push(0x3a);
                let q = qualified_name_bytes(path, name);
                crate::bytes::write_bytes(&mut out, q.as_slice());
            },
        }
        assert(out@ =~= render_spec(self@));
        proof {
            lemma_render_valid(self@);
            decode_utf8_encode_utf8(out@);
        }
        match string_from_utf8(out) {
            Some(s) => s,
            None => {
                assert(false);
                String::new()
            },
        }
    }
}

} // verus!
