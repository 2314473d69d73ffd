use vstd::prelude::*;
use vstd::string::StringSliceAdditionalSpecFns;
use vstd::utf8::*;

verus! {

pub open spec fn is_unreserved(c: u8) -> bool {
    ||| (65u8 <= c && c <= 90u8)
    ||| (97u8 <= c && c <= 122u8)
    ||| (48u8 <= c && c <= 57u8)
    ||| c == 45u8
    ||| c == 95u8
    ||| c == 46u8
    ||| c == 126u8
}

/// Upper-case hexadecimal digit of a value below 16.
pub open spec fn hex_upper(d: u8) -> u8 {
    if d < 10 { (48u8 + d) as u8 } else { (65u8 + d - 10) as u8 }
}

/// Lower-case hexadecimal digit of a value below 16.
pub open spec fn hex_lower(d: u8) -> u8 {
    if d < 10 { (48u8 + d) as u8 } else { (97u8 + d - 10) as u8 }
}

/// One byte as RFC 3986 percent-encoding writes it: unreserved bytes stay,
/// `/` stays where it separates path segments, every other byte (`+` too)
/// becomes `%XX`.
pub open spec fn encode_byte(c: u8, keep_slash: bool) -> Seq<u8> {
    if is_unreserved(c) || (keep_slash && c == 47u8) {
        seq![c]
    } else {
        seq![37u8, hex_upper(c / 16), hex_upper(c % 16)]
    }
}

pub open spec fn uri_encode(s: Seq<u8>, keep_slash: bool) -> Seq<u8>
    decreases s.len(),
{
    if s.len() == 0 {
        seq![]
    } else {
        uri_encode(s.drop_last(), keep_slash) + encode_byte(s.last(), keep_slash)
    }
}

/// Two lower-case hexadecimal digits per byte.
pub open spec fn hex_encode(s: Seq<u8>) -> Seq<u8>
    decreases s.len(),
{
    if s.len() == 0 {
        seq![]
    } else {
        hex_encode(s.drop_last()) + seq![hex_lower(s.last() / 16), hex_lower(s.last() % 16)]
    }
}

pub open spec fn is_ascii_bytes(s: Seq<u8>) -> bool {
    forall|i: int| 0 <= i < s.len() ==> #[trigger] s[i] < 128
}

/// Encoding a concatenation is concatenating the encodings.
pub proof fn lemma_uri_encode_concat(a: Seq<u8>, b: Seq<u8>, keep_slash: bool)
    ensures
        uri_encode(a + b, keep_slash) == uri_encode(a, keep_slash) + uri_encode(b, keep_slash),
    decreases b.len(),
{
    if b.len() == 0 {
        assert(a + b == a);
        assert(uri_encode(b, keep_slash) == Seq::<u8>::empty());
        assert(uri_encode(a, keep_slash) + Seq::<u8>::empty() == uri_encode(a, keep_slash));
    } else {
        lemma_uri_encode_concat(a, b.drop_last(), keep_slash);
        assert((a + b).drop_last() == a + b.drop_last());
        assert((a + b).last() == b.last());
    }
}

/// Without a `/` in it, a segment encodes alike whether `/` is kept or not.
pub proof fn lemma_uri_encode_segment(s: Seq<u8>)
    requires
        forall|i: int| 0 <= i < s.len() ==> #[trigger] s[i] != 47u8,
    ensures
        uri_encode(s, true) == uri_encode(s, false),
    decreases s.len(),
{
    if s.len() > 0 {
        lemma_uri_encode_segment(s.drop_last());
    }
}

/// A path keeps its `/` separators, and each segment between them encodes as
/// it would on its own.
pub proof fn lemma_canonical_path_segments(a: Seq<u8>, b: Seq<u8>)
    requires
        forall|i: int| 0 <= i < a.len() ==> #[trigger] a[i] != 47u8,
        forall|i: int| 0 <= i < b.len() ==> #[trigger] b[i] != 47u8,
    ensures
        uri_encode(seq![47u8] + a + seq![47u8] + b, true) == seq![47u8] + uri_encode(a, false)
            + seq![47u8] + uri_encode(b, false),
{
    let sl = seq![47u8];
    lemma_uri_encode_concat(sl + a + sl, b, true);
    lemma_uri_encode_concat(sl + a, sl, true);
    lemma_uri_encode_concat(sl, a, true);
    lemma_uri_encode_segment(a);
    lemma_uri_encode_segment(b);
    assert(uri_encode(sl, true) == seq![47u8]) by {
        assert(sl.drop_last() == Seq::<u8>::empty());
        assert(sl.last() == 47u8);
        assert(uri_encode(sl.drop_last(), true) == Seq::<u8>::empty());
        assert(encode_byte(47u8, true) == seq![47u8]);
        assert(Seq::<u8>::empty() + seq![47u8] == seq![47u8]);
    }
}

proof fn lemma_hex_upper_ascii(d: u8)
    requires
        d < 16,
    ensures
        hex_upper(d) < 128,
{
}

pub proof fn lemma_uri_encode_ascii(s: Seq<u8>, keep_slash: bool)
    ensures
        is_ascii_bytes(uri_encode(s, keep_slash)),
    decreases s.len(),
{
    if s.len() > 0 {
        lemma_uri_encode_ascii(s.drop_last(), keep_slash);
        let c = s.last();
        lemma_hex_upper_ascii(c / 16);
        lemma_hex_upper_ascii(c % 16);
    }
}

pub proof fn lemma_hex_encode_len(s: Seq<u8>)
    ensures
        hex_encode(s).len() == 2 * s.len(),
        is_ascii_bytes(hex_encode(s)),
    decreases s.len(),
{
    if s.len() > 0 {
        lemma_hex_encode_len(s.drop_last());
    }
}

/// Bytes below 128 are valid UTF-8.
pub proof fn lemma_ascii_valid_utf8(s: Seq<u8>)
    requires
        is_ascii_bytes(s),
    ensures
        valid_utf8(s),
{
    assert(s.subrange(0, 0) == Seq::<u8>::empty());
    assert(valid_utf8(Seq::<u8>::empty()));
    assert forall|i: int| 0 <= 0 <= i < s.len() <= s.len() implies #[trigger] is_leading_byte_width_1(s[i]) by {
        assert(s[i] < 128);
    }
    partial_valid_utf8_extend_ascii_block(s, 0, s.len() as int);
    assert(s.subrange(0, s.len() as int) == s);
}

/// Appends `s` to `v`.
pub fn push_all(v: &mut Vec<u8>, s: &[u8])
    ensures
        final(v)@ == old(v)@ + s@,
{
    let mut i: usize = 0;
    while i < s.len()
        invariant
            0 <= i <= s@.len(),
            v@ == old(v)@ + s@.subrange(0, i as int),
        decreases s@.len() - i,
    {
        v.push(s[i]);
        i = i + 1;
        assert(s@.subrange(0, i as int) == s@.subrange(0, i - 1) + seq![s@[i - 1]]);
    }
    assert(s@.subrange(0, s@.len() as int) == s@);
}

fn hex_upper_exec(d: u8) -> (r: u8)
    requires
        d < 16,
    ensures
        r == hex_upper(d),
{
    if d < 10 { 48u8 + d } else { 65u8 + d - 10 }
}

fn hex_lower_exec(d: u8) -> (r: u8)
    requires
        d < 16,
    ensures
        r == hex_lower(d),
{
    if d < 10 { 48u8 + d } else { 97u8 + d - 10 }
}

/// Percent-encodes bytes; with `keep_slash`, `/` separates path segments and stays.
pub fn uri_encode_bytes(s: &[u8], keep_slash: bool) -> (r: Vec<u8>)
    ensures
        r@ == uri_encode(s@, keep_slash),
{
    let mut r: Vec<u8> = Vec::new();
    let mut i: usize = 0;
    while i < s.len()
        invariant
            0 <= i <= s@.len(),
            r@ == uri_encode(s@.subrange(0, i as int), keep_slash),
        decreases s@.len() - i,
    {
        let c = s[i];
        assert(s@.subrange(0, i + 1).drop_last() == s@.subrange(0, i as int));
        if is_unreserved_exec(c) || (keep_slash && c == 47u8) {
            r.push(c);
        } else {
            r.push(37u8);
            r.push(hex_upper_exec(c / 16));
            r.push(hex_upper_exec(c % 16));
        }
        i = i + 1;
    }
    assert(s@.subrange(0, s@.len() as int) == s@);
    r
}

fn is_unreserved_exec(c: u8) -> (r: bool)
    ensures
        r == is_unreserved(c),
{
    (65u8 <= c && c <= 90u8) || (97u8 <= c && c <= 122u8) || (48u8 <= c && c <= 57u8) || c == 45u8
        || c == 95u8 || c == 46u8 || c == 126u8
}

/// Lower-case hexadecimal text of bytes, two digits per byte.
pub fn hex_encode_bytes(s: &[u8]) -> (r: Vec<u8>)
    ensures
        r@ == hex_encode(s@),
{
    let mut r: Vec<u8> = Vec::new();
    let mut i: usize = 0;
    while i < s.len()
        invariant
            0 <= i <= s@.len(),
            r@ == hex_encode(s@.subrange(0, i as int)),
        decreases s@.len() - i,
    {
        let c = s[i];
        assert(s@.subrange(0, i + 1).drop_last() == s@.subrange(0, i as int));
        r.push(hex_lower_exec(c / 16));
        r.push(hex_lower_exec(c % 16));
        i = i + 1;
    }
    assert(s@.subrange(0, s@.len() as int) == s@);
    r
}

/// Relies on String::from_utf8: it succeeds exactly on valid UTF-8, and the
/// string then holds the characters that the bytes encode.
#[verifier::external_body]
pub(crate) fn string_from_utf8(v: Vec<u8>) -> (r: Option<String>)
    ensures
        r is Some <==> valid_utf8(v@),
        r matches Some(s) ==> s@ == decode_utf8(v@),
{
    String::from_utf8(v).ok()
}

/// Text of ASCII bytes.
pub fn ascii_to_string(v: Vec<u8>) -> (r: String)
    requires
        is_ascii_bytes(v@),
    ensures
        encode_utf8(r@) == v@,
{
    proof {
        lemma_ascii_valid_utf8(v@);
        decode_utf8_encode_utf8(v@);
    }
    let ghost bytes = v@;
    match string_from_utf8(v) {
        Some(s) => s,
        None => {
            assert(false);
            String::new()
        },
    }
}

/// Percent-encodes a name the way S3 expects in a canonical URI or query.
pub fn urlencode(s: &str, keep_slash: bool) -> (r: String)
    ensures
        encode_utf8(r@) == uri_encode(s.spec_bytes(), keep_slash),
{
    let v = uri_encode_bytes(s.as_bytes(), keep_slash);
    proof {
        lemma_uri_encode_ascii(s.spec_bytes(), keep_slash);
    }
    ascii_to_string(v)
}

} // verus!
