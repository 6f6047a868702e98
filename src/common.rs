use vstd::prelude::*;
use vstd::string::StringSliceAdditionalSpecFns;
use vstd::utf8::{
    char_is_scalar, char_u32_cast, decode_utf8, encode_scalar, encode_utf8, encode_utf8_decode_utf8, encode_utf8_valid_utf8,
    has_width_1_encoding, is_scalar, valid_utf8,
};

verus! {

/// Width in bytes of the name field of a page.
pub const MIN_PAGE_NAME_SIZE: usize = 8;

/// Width in bytes of the name field of a directory.
pub const MIN_DIR_NAME_SIZE: usize = 8;

/// Width in bytes of the name field of a column.
pub const MIN_COL_NAME_SIZE: usize = 8;

/// The `n`-byte field that holds `b`: its first `n` bytes, then zeros.
pub open spec fn fixed_of(b: Seq<u8>, n: nat) -> Seq<u8> {
    Seq::new(n, |i: int| if i < b.len() { b[i] } else { 0u8 })
}

/// `b` without its trailing zero bytes.
pub open spec fn trim_zeros(b: Seq<u8>) -> Seq<u8>
    decreases b.len(),
{
    if b.len() > 0 && b.last() == 0 {
        trim_zeros(b.drop_last())
    } else {
        b
    }
}

/// What `String::from_utf8_lossy` makes of bytes that are not valid UTF-8.
pub uninterp spec fn utf8_lossy(b: Seq<u8>) -> Seq<char>;

/// Text read from bytes: the decoded characters when the bytes are valid UTF-8,
/// otherwise the lossy conversion with replacement characters.
pub open spec fn lossy_text(b: Seq<u8>) -> Seq<char> {
    if valid_utf8(b) {
        decode_utf8(b)
    } else {
        utf8_lossy(b)
    }
}

/// Text held in a fixed-width field: the field without its zero padding, read as text.
pub open spec fn fixed_text(b: Seq<u8>) -> Seq<char> {
    lossy_text(trim_zeros(b))
}

/// Relies on `String::from_utf8_lossy`: valid UTF-8 is decoded as it stands, and the
/// result depends on the bytes alone.
#[verifier::external_body]
fn decode_lossy(b: &[u8]) -> (r: String)
    ensures
        valid_utf8(b@) ==> r@ == decode_utf8(b@),
        !valid_utf8(b@) ==> r@ == utf8_lossy(b@),
{
    String::from_utf8_lossy(b).into_owned()
}

/// Copies the bytes of `s` into a zeroed field of `N` bytes; longer text is cut at `N` bytes.
pub fn string_to_fixed<const N: usize>(s: &str) -> (r: [u8; N])
    ensures
        r@ == fixed_of(s.spec_bytes(), N as nat),
{
    let mut array = [0u8; N];
    let bytes = s.as_bytes();
    let len: usize = if bytes.len() < N {
        bytes.len()
    } else {
        N
    };
    let mut i: usize = 0;
    while i < len
        invariant
            len <= N,
            len <= bytes@.len(),
            bytes@ == s.spec_bytes(),
            i <= len,
            array@.len() == N,
            forall|j: int| 0 <= j < i ==> array@[j] == bytes@[j],
            forall|j: int| i <= j < N ==> array@[j] == 0u8,
        decreases len - i,
    {
        array[i] = bytes[i];
        i = i + 1;
    }
    assert(array@ =~= fixed_of(s.spec_bytes(), N as nat));
    array
}

/// Reads a fixed-width field as text: trailing zero bytes are dropped, and what is left
/// is decoded, with replacement characters for invalid UTF-8.
pub fn fixed_to_string(bytes: &[u8]) -> (r: String)
    ensures
        r@ == fixed_text(bytes@),
{
    let mut end: usize = bytes.len();
    assert(bytes@.subrange(0, end as int) =~= bytes@);
    while end > 0 && bytes[end - 1] == 0
        invariant
            end <= bytes@.len(),
            trim_zeros(bytes@.subrange(0, end as int)) == trim_zeros(bytes@),
        decreases end,
    {
        assert(bytes@.subrange(0, end as int).drop_last() =~= bytes@.subrange(0, end - 1));
        end = end - 1;
    }
    let kept = vstd::slice::slice_subrange(bytes, 0, end);
    assert(kept@ == trim_zeros(bytes@)) by {
        assert(bytes@.subrange(0, end as int) == trim_zeros(bytes@.subrange(0, end as int)));
    }
    decode_lossy(kept)
}

/// Copies `N` bytes of `data` from `start` into an array.
pub(crate) fn read_array<const N: usize>(data: &[u8], start: usize) -> (r: [u8; N])
    requires
        start + N <= data@.len(),
    ensures
        r@ == data@.subrange(start as int, start + N),
{
    let mut out = [0u8; N];
    let total: usize = data.len();
    let mut i: usize = 0;
    while i < N
        invariant
            total == data@.len(),
            start + N <= data@.len(),
            i <= N,
            out@.len() == N,
            forall|j: int| 0 <= j < i ==> out@[j] == data@[start + j],
        decreases N - i,
    {
        out[i] = data[start + i];
        i = i + 1;
    }
    assert(out@ =~= data@.subrange(start as int, start + N));
    out
}

/// Appends the bytes of `a` to `out`.
pub(crate) fn push_all(out: &mut Vec<u8>, a: &[u8])
    ensures
        final(out)@ == old(out)@ + a@,
{
    let mut i: usize = 0;
    while i < a.len()
        invariant
            i <= a@.len(),
            out@ == old(out)@ + a@.take(i as int),
        decreases a@.len() - i,
    {
        out.push(a[i]);
        i = i + 1;
        assert(out@ =~= old(out)@ + a@.take(i as int));
    }
    assert(a@.take(a@.len() as int) =~= a@);
}

/// The last byte of a scalar's UTF-8 encoding is zero only for the scalar zero.
proof fn lemma_scalar_last_byte(c: u32)
    requires
        is_scalar(c),
        c != 0,
    ensures
        encode_scalar(c).len() > 0,
        encode_scalar(c).last() != 0,
{
    if has_width_1_encoding(c) {
        assert((c & 0x7F) as u8 != 0) by (bit_vector)
            requires
                1 <= c <= 0x7F,
        ;
    } else {
        assert(0x80 | (c & 0x3F) as u8 != 0) by (bit_vector);
    }
}

/// The UTF-8 encoding of text that does not end in NUL does not end in a zero byte.
proof fn lemma_encode_last_byte(chars: Seq<char>)
    requires
        chars.len() > 0,
        chars.last() != '\0',
    ensures
        encode_utf8(chars).len() > 0,
        encode_utf8(chars).last() != 0,
    decreases chars.len(),
{
    let rest = chars.drop_first();
    let head = encode_scalar(chars[0] as u32);
    assert(encode_utf8(chars) == head + encode_utf8(rest));
    if chars.len() == 1 {
        assert(encode_utf8(rest) =~= Seq::<u8>::empty());
        assert(encode_utf8(chars) =~= head);
        char_is_scalar(chars[0]);
        char_u32_cast(chars[0], chars[0] as u32);
        lemma_scalar_last_byte(chars[0] as u32);
    } else {
        assert(rest.last() == chars.last());
        lemma_encode_last_byte(rest);
    }
}

/// Zero bytes appended to bytes that do not end in zero are exactly what trimming drops.
proof fn lemma_trim_padding(b: Seq<u8>, k: nat)
    requires
        b.len() == 0 || b.last() != 0,
    ensures
        trim_zeros(b + Seq::new(k, |i: int| 0u8)) == b,
    decreases k,
{
    let padded = b + Seq::new(k, |i: int| 0u8);
    if k == 0 {
        assert(padded =~= b);
    } else {
        assert(padded.drop_last() =~= b + Seq::new((k - 1) as nat, |i: int| 0u8));
        lemma_trim_padding(b, (k - 1) as nat);
    }
}

/// Text of at most `n` bytes that does not end in NUL reads back unchanged from an
/// `n`-byte field.
pub proof fn lemma_fixed_text_round_trip(s: Seq<char>, n: nat)
    requires
        encode_utf8(s).len() <= n,
        s.len() == 0 || s.last() != '\0',
    ensures
        fixed_text(fixed_of(encode_utf8(s), n)) == s,
{
    let e = encode_utf8(s);
    if s.len() > 0 {
        lemma_encode_last_byte(s);
    } else {
        assert(e =~= Seq::<u8>::empty());
    }
    let pad = Seq::new((n - e.len()) as nat, |i: int| 0u8);
    assert(fixed_of(e, n) =~= e + pad);
    lemma_trim_padding(e, (n - e.len()) as nat);
    encode_utf8_valid_utf8(s);
    encode_utf8_decode_utf8(s);
}

} // verus!
