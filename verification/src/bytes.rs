//! Byte strings: the encoding of text literals, copies, comparisons and the
//! lossy decoding of arbitrary bytes into text.
use vstd::prelude::*;

verus! {

/// The UTF-8 encoding of a sequence of characters.
pub open spec fn utf8(s: Seq<char>) -> Seq<u8> {
    vstd::utf8::encode_utf8(s)
}

/// The bytes of a string slice.
pub fn str_bytes(s: &str) -> (r: Vec<u8>)
    ensures
        r@ == utf8(s@),
{
    vstd::slice::slice_to_vec(s.as_bytes())
}

/// The bytes held by an optional byte vector.
pub open spec fn opt_bytes(o: Option<Vec<u8>>) -> Option<Seq<u8>> {
    match o {
        Some(v) => Some(v@),
        None => None,
    }
}

/// The bytes held by each vector of a sequence.
pub open spec fn byte_views(v: Seq<Vec<u8>>) -> Seq<Seq<u8>> {
    Seq::new(v.len(), |i: int| v[i]@)
}

/// A fresh copy of a byte slice.
pub fn copy_bytes(b: &[u8]) -> (r: Vec<u8>)
    ensures
        r@ == b@,
{
    vstd::slice::slice_to_vec(b)
}

/// Appends the bytes of `s` to `out`.
pub fn append_bytes(out: &mut Vec<u8>, s: &[u8])
    ensures
        final(out)@ == old(out)@ + s@,
{
    let ghost start = out@;
    let mut i: usize = 0;
    while i < s.len()
        invariant
            0 <= i <= s@.len(),
            out@ == start + s@.subrange(0, i as int),
        decreases s@.len() - i,
    {
        out.push(s[i]);
        i += 1;
        assert(out@ =~= start + s@.subrange(0, i as int));
    }
    assert(s@.subrange(0, s@.len() as int) =~= s@);
}

/// Whether `b` begins with the bytes of `prefix`.
pub open spec fn has_prefix(b: Seq<u8>, prefix: Seq<u8>) -> bool {
    prefix.len() <= b.len() && b.subrange(0, prefix.len() as int) == prefix
}

/// Tests whether `b` begins with the bytes of `prefix`.
pub fn starts_with_bytes(b: &[u8], prefix: &[u8]) -> (r: bool)
    ensures
        r == has_prefix(b@, prefix@),
{
    if prefix.len() > b.len() {
        return false;
    }
    let mut i: usize = 0;
    while i < prefix.len()
        invariant
            prefix@.len() <= b@.len(),
            0 <= i <= prefix@.len(),
            forall|k: int| 0 <= k < i ==> b@[k] == prefix@[k],
        decreases prefix@.len() - i,
    {
        if b[i] != prefix[i] {
            assert(b@.subrange(0, prefix@.len() as int)[i as int] != prefix@[i as int]);
            return false;
        }
        i += 1;
    }
    assert(b@.subrange(0, prefix@.len() as int) =~= prefix@);
    true
}

/// Tests whether two byte slices hold the same bytes.
pub fn bytes_equal(a: &[u8], b: &[u8]) -> (r: bool)
    ensures
        r == (a@ == b@),
{
    if a.len() != b.len() {
        return false;
    }
    let mut i: usize = 0;
    while i < a.len()
        invariant
            a@.len() == b@.len(),
            0 <= i <= a@.len(),
            forall|k: int| 0 <= k < i ==> a@[k] == b@[k],
        decreases a@.len() - i,
    {
        if a[i] != b[i] {
            return false;
        }
        i += 1;
    }
    assert(a@ =~= b@);
    true
}

/// Tests whether the byte `x` occurs in `b`.
pub fn contains_byte(b: &[u8], x: u8) -> (r: bool)
    ensures
        r == b@.contains(x),
{
    let mut i: usize = 0;
    while i < b.len()
        invariant
            0 <= i <= b@.len(),
            forall|k: int| 0 <= k < i ==> b@[k] != x,
        decreases b@.len() - i,
    {
        if b[i] == x {
            assert(b@[i as int] == x);
            return true;
        }
        i += 1;
    }
    false
}

/// The characters that `String::from_utf8_lossy` makes of a byte sequence.
pub uninterp spec fn utf8_lossy(bytes: Seq<u8>) -> Seq<char>;

/// Calls `String::from_utf8_lossy`. Trusted: the result is the named
/// conversion of the bytes, and, as std documents, bytes that are valid UTF-8
/// come out as exactly the characters they encode. What replaces invalid
/// sequences is left to the name.
#[verifier::external_body]
pub(crate) fn lossy_string(bytes: &[u8]) -> (s: String)
    ensures
        s@ == utf8_lossy(bytes@),
        vstd::utf8::valid_utf8(bytes@) ==> s@ == vstd::utf8::decode_utf8(bytes@),
{
    String::from_utf8_lossy(bytes).into_owned()
}

/// The UTF-8 encoding of text begins with the byte `/` exactly where the text
/// begins with the character `/`: no other character's encoding starts with it.
pub proof fn lemma_utf8_starts_with_slash(s: Seq<char>)
    ensures
        (utf8(s).len() > 0 && utf8(s)[0] == 47u8) <==> (s.len() > 0 && s[0] == '/'),
{
    if s.len() > 0 {
        let u = s[0] as u32;
        vstd::utf8::char_is_scalar(s[0]);
        let first = vstd::utf8::encode_scalar(u);
        assert(utf8(s) == first + vstd::utf8::encode_utf8(s.drop_first()));
        assert(utf8(s)[0] == first[0]);
        if vstd::utf8::has_width_1_encoding(u) {
            assert(((u & 0x7F) as u8 == 47u8) <==> (u == 47u32)) by (bit_vector)
                requires
                    u <= 0x7F,
            ;
            if u == 47u32 {
                vstd::utf8::char_u32_cast(s[0], u);
                assert((47u32 as char) == '/');
            }
            if s[0] == '/' {
                assert(u == 47u32);
            }
        } else if vstd::utf8::has_width_2_encoding(u) {
            assert(0xC0u8 | ((u >> 6) & 0x1F) as u8 != 47u8) by (bit_vector);
            assert(s[0] != '/');
        } else if vstd::utf8::has_width_3_encoding(u) {
            assert(0xE0u8 | ((u >> 12) & 0x0F) as u8 != 47u8) by (bit_vector);
            assert(s[0] != '/');
        } else {
            assert(0xF0u8 | ((u >> 18) & 0x7) as u8 != 47u8) by (bit_vector);
            assert(s[0] != '/');
        }
    }
}

} // verus!
