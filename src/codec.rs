//! The byte layout of signed payloads and of stored anchors: fixed-width
//! little-endian integers, and byte strings prefixed with their length as
//! eight little-endian bytes.
use vstd::prelude::*;
use vstd::bytes::{
    lemma_auto_spec_u64_to_from_le_bytes, spec_u32_to_le_bytes, spec_u64_to_le_bytes,
    u32_to_le_bytes, u64_from_le_bytes, u64_to_le_bytes,
};
use vstd::utf8::{encode_utf8, encode_utf8_decode_utf8, encode_utf8_valid_utf8, valid_utf8};

verus! {

/// Eight little-endian bytes.
pub open spec fn enc_u64(n: u64) -> Seq<u8> {
    spec_u64_to_le_bytes(n)
}

/// A variant index: four little-endian bytes.
pub open spec fn enc_tag(t: u32) -> Seq<u8> {
    spec_u32_to_le_bytes(t)
}

/// One byte, 1 for true and 0 for false.
pub open spec fn enc_bool(b: bool) -> Seq<u8> {
    seq![if b { 1u8 } else { 0u8 }]
}

/// A byte string: its length, then its bytes.
pub open spec fn enc_bytes(b: Seq<u8>) -> Seq<u8> {
    enc_u64(b.len() as u64) + b
}

/// A text: its UTF-8 bytes as a byte string.
pub open spec fn enc_str(s: Seq<char>) -> Seq<u8> {
    enc_bytes(encode_utf8(s))
}

/// Appends `b` to `out`.
pub fn append(out: &mut Vec<u8>, b: &[u8])
    ensures
        final(out)@ == old(out)@ + b@,
{
    let ghost start = out@;
    let mut i: usize = 0;
    while i < b.len()
        invariant
            i <= b.len(),
            out@ == start + b@.subrange(0, i as int),
        decreases b.len() - i,
    {
        out.push(b[i]);
        i = i + 1;
        proof {
            assert(out@ =~= start + b@.subrange(0, i as int));
        }
    }
    proof {
        assert(b@.subrange(0, b@.len() as int) =~= b@);
    }
}

/// Whether two byte sequences are equal.
pub fn bytes_equal(a: &[u8], b: &[u8]) -> (r: bool)
    ensures
        r == (a@ == b@),
{
    if a.len() != b.len() {
        return false;
    }
    let mut i: usize = 0;
    while i < a.len()
        invariant
            i <= a.len(),
            a@.len() == b@.len(),
            forall|j: int| 0 <= j < i ==> a@[j] == b@[j],
        decreases a.len() - i,
    {
        if a[i] != b[i] {
            return false;
        }
        i = i + 1;
    }
    proof {
        assert(a@ =~= b@);
    }
    true
}

/// Whether two texts are equal.
pub fn str_equal(a: &str, b: &str) -> (r: bool)
    ensures
        r == (a@ == b@),
{
    let r = bytes_equal(a.as_bytes(), b.as_bytes());
    proof {
        vstd::utf8::encode_utf8_decode_utf8(a@);
        vstd::utf8::encode_utf8_decode_utf8(b@);
    }
    r
}

/// A vector holding a copy of `b`.
pub fn bytes_to_vec(b: &[u8]) -> (r: Vec<u8>)
    ensures
        r@ == b@,
{
    let mut r: Vec<u8> = Vec::new();
    append(&mut r, b);
    proof {
        assert(r@ =~= b@);
    }
    r
}

/// Appends eight little-endian bytes of `n`.
pub fn push_u64(out: &mut Vec<u8>, n: u64)
    ensures
        final(out)@ == old(out)@ + enc_u64(n),
{
    let b = u64_to_le_bytes(n);
    append(out, b.as_slice());
}

/// Appends a variant index.
pub fn push_tag(out: &mut Vec<u8>, t: u32)
    ensures
        final(out)@ == old(out)@ + enc_tag(t),
{
    let b = u32_to_le_bytes(t);
    append(out, b.as_slice());
}

/// Appends a flag.
pub fn push_bool(out: &mut Vec<u8>, b: bool)
    ensures
        final(out)@ == old(out)@ + enc_bool(b),
{
    if b {
        out.push(1u8);
    } else {
        out.push(0u8);
    }
    proof {
        assert(final(out)@ =~= old(out)@ + enc_bool(b));
    }
}

/// Appends a byte string with its length.
pub fn push_bytes(out: &mut Vec<u8>, b: &[u8])
    ensures
        final(out)@ == old(out)@ + enc_bytes(b@),
{
    push_u64(out, b.len() as u64);
    append(out, b);
    proof {
        assert(final(out)@ =~= old(out)@ + enc_bytes(b@));
    }
}

/// Appends a text as its UTF-8 bytes with their length.
pub fn push_str(out: &mut Vec<u8>, s: &str)
    ensures
        final(out)@ == old(out)@ + enc_str(s@),
{
    push_bytes(out, s.as_bytes());
}

/// `enc` stands in `b` from position `pos` on.
pub open spec fn encoded_at(b: Seq<u8>, pos: int, enc: Seq<u8>) -> bool {
    &&& 0 <= pos
    &&& pos + enc.len() <= b.len()
    &&& b.subrange(pos, pos + enc.len()) == enc
}

/// Where `a + c` stands at `pos`, `a` stands at `pos` and `c` right after it.
pub proof fn lemma_encoded_at_split(b: Seq<u8>, pos: int, a: Seq<u8>, c: Seq<u8>)
    requires
        encoded_at(b, pos, a + c),
    ensures
        encoded_at(b, pos, a),
        encoded_at(b, pos + a.len(), c),
{
    let w = b.subrange(pos, pos + (a + c).len());
    assert(b.subrange(pos, pos + a.len()) =~= w.subrange(0, a.len() as int));
    assert(w.subrange(0, a.len() as int) =~= a);
    assert(b.subrange(pos + a.len(), pos + a.len() + c.len()) =~= w.subrange(
        a.len() as int,
        w.len() as int,
    ));
    assert(w.subrange(a.len() as int, w.len() as int) =~= c);
}

/// A text encoded at `pos` in a sequence that a `u64` can count: its length
/// at `pos`, its UTF-8 bytes right after.
pub proof fn lemma_str_parts(b: Seq<u8>, pos: int, t: Seq<char>)
    requires
        encoded_at(b, pos, enc_str(t)),
        b.len() <= 0xffff_ffff_ffff_ffff,
    ensures
        encode_utf8(t).len() <= 0xffff_ffff_ffff_ffff,
        encoded_at(b, pos, enc_u64(encode_utf8(t).len() as u64)),
        encoded_at(b, pos + 8, encode_utf8(t)),
{
    lemma_auto_spec_u64_to_from_le_bytes();
    let et = encode_utf8(t);
    lemma_encoded_at_split(b, pos, enc_u64(et.len() as u64), et);
}

proof fn lemma_u64_unique(b: Seq<u8>, pos: int, n: u64, m: u64)
    requires
        encoded_at(b, pos, enc_u64(n)),
        encoded_at(b, pos, enc_u64(m)),
    ensures
        n == m,
{
    lemma_auto_spec_u64_to_from_le_bytes();
}

/// Two texts encoded at the same position are the same text.
pub proof fn lemma_str_unique(b: Seq<u8>, pos: int, s: Seq<char>, t: Seq<char>)
    requires
        encoded_at(b, pos, enc_str(s)),
        encoded_at(b, pos, enc_str(t)),
        b.len() <= 0xffff_ffff_ffff_ffff,
    ensures
        s == t,
{
    let es = encode_utf8(s);
    let et = encode_utf8(t);
    lemma_str_parts(b, pos, s);
    lemma_str_parts(b, pos, t);
    lemma_u64_unique(b, pos, es.len() as u64, et.len() as u64);
    assert(es.len() == et.len());
    assert(es =~= et);
    encode_utf8_decode_utf8(s);
    encode_utf8_decode_utf8(t);
}

/// Reads eight little-endian bytes at `pos`, if there are eight.
pub fn read_u64(b: &[u8], pos: usize) -> (r: Option<u64>)
    ensures
        r is Some <==> pos + 8 <= b@.len(),
        r matches Some(n) ==> encoded_at(b@, pos as int, enc_u64(n)),
{
    let blen = b.len();
    if pos > blen || blen - pos < 8 {
        return None;
    }
    let stop = pos + 8;
    let mut v: Vec<u8> = Vec::new();
    let mut i: usize = pos;
    while i < stop
        invariant
            pos <= i <= stop,
            stop == pos + 8,
            stop <= b@.len(),
            v@ == b@.subrange(pos as int, i as int),
        decreases stop - i,
    {
        v.push(b[i]);
        i = i + 1;
        proof {
            assert(v@ =~= b@.subrange(pos as int, i as int));
        }
    }
    let n = u64_from_le_bytes(v.as_slice());
    proof {
        lemma_auto_spec_u64_to_from_le_bytes();
    }
    Some(n)
}

/// Relies on std's `String::from_utf8`: the text whose UTF-8 encoding is `b`,
/// when `b` is valid UTF-8.
#[verifier::external_body]
fn text_from_utf8(b: Vec<u8>) -> (r: Option<String>)
    ensures
        r is Some <==> valid_utf8(b@),
        r matches Some(s) ==> encode_utf8(s@) == b@,
{
    String::from_utf8(b).ok()
}

/// Reads a text at `pos`, and the position right after it.
pub fn read_str(b: &[u8], pos: usize) -> (r: Option<(String, usize)>)
    ensures
        r matches Some((s, end)) ==> end == pos + enc_str(s@).len() && encoded_at(
            b@,
            pos as int,
            enc_str(s@),
        ),
        r is None ==> forall|t: Seq<char>| !encoded_at(b@, pos as int, #[trigger] enc_str(t)),
{
    let blen = b.len();
    let n = match read_u64(b, pos) {
        None => {
            proof {
                lemma_auto_spec_u64_to_from_le_bytes();
                assert forall|t: Seq<char>| !encoded_at(b@, pos as int, #[trigger] enc_str(t)) by {
                    if encoded_at(b@, pos as int, enc_str(t)) {
                        lemma_str_parts(b@, pos as int, t);
                    }
                }
            }
            return None;
        },
        Some(n) => n,
    };
    let start = pos + 8;
    if n > (blen - start) as u64 {
        proof {
            assert forall|t: Seq<char>| !encoded_at(b@, pos as int, #[trigger] enc_str(t)) by {
                if encoded_at(b@, pos as int, enc_str(t)) {
                    let et = encode_utf8(t);
                    lemma_str_parts(b@, pos as int, t);
                    lemma_u64_unique(b@, pos as int, n, et.len() as u64);
                }
            }
        }
        return None;
    }
    let end = start + n as usize;
    let mut v: Vec<u8> = Vec::new();
    let mut i: usize = start;
    while i < end
        invariant
            start <= i <= end,
            end <= b@.len(),
            v@ == b@.subrange(start as int, i as int),
        decreases end - i,
    {
        v.push(b[i]);
        i = i + 1;
        proof {
            assert(v@ =~= b@.subrange(start as int, i as int));
        }
    }
    let ghost bytes = v@;
    match text_from_utf8(v) {
        None => {
            proof {
                assert forall|t: Seq<char>| !encoded_at(b@, pos as int, #[trigger] enc_str(t)) by {
                    if encoded_at(b@, pos as int, enc_str(t)) {
                        let et = encode_utf8(t);
                        lemma_str_parts(b@, pos as int, t);
                        lemma_u64_unique(b@, pos as int, n, et.len() as u64);
                        assert(bytes =~= et);
                        encode_utf8_valid_utf8(t);
                    }
                }
            }
            None
        },
        Some(s) => {
            proof {
                lemma_auto_spec_u64_to_from_le_bytes();
                assert(b@.subrange(pos as int, end as int) =~= b@.subrange(pos as int, start as int)
                    + bytes);
            }
            Some((s, end))
        },
    }
}

} // verus!
