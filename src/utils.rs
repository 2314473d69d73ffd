use vstd::prelude::*;
use crate::error::ValueError;
use vstd::string::StringSliceAdditionalSpecFns;

verus! {

pub open spec fn is_lower_alnum(c: u8) -> bool {
    (97u8 <= c && c <= 122u8) || (48u8 <= c && c <= 57u8)
}

pub open spec fn is_digit(c: u8) -> bool {
    48u8 <= c && c <= 57u8
}

/// Lower-case letters, digits, hyphens and dots.
pub open spec fn is_bucket_char(c: u8) -> bool {
    is_lower_alnum(c) || c == 45u8 || c == 46u8
}

pub open spec fn count_byte(s: Seq<u8>, c: u8) -> nat
    decreases s.len(),
{
    if s.len() == 0 {
        0
    } else {
        count_byte(s.drop_last(), c) + if s.last() == c { 1nat } else { 0nat }
    }
}

pub open spec fn has_double_dot(s: Seq<u8>) -> bool {
    exists|i: int| 0 <= i && i + 1 < s.len() && s[i] == 46u8 && #[trigger] s[i + 1] == 46u8
}

/// Four non-empty groups of digits separated by dots, as in `192.168.0.1`.
pub open spec fn looks_like_ipv4(s: Seq<u8>) -> bool {
    &&& s.len() > 0
    &&& forall|i: int| 0 <= i < s.len() ==> is_digit(#[trigger] s[i]) || s[i] == 46u8
    &&& count_byte(s, 46u8) == 3
    &&& is_digit(s[0])
    &&& is_digit(s.last())
    &&& !has_double_dot(s)
}

/// What an acceptable bucket name is, over its UTF-8 bytes.
pub open spec fn valid_bucket_name(s: Seq<u8>) -> bool {
    &&& 3 <= s.len() <= 63
    &&& forall|i: int| 0 <= i < s.len() ==> is_bucket_char(#[trigger] s[i])
    &&& is_lower_alnum(s[0])
    &&& is_lower_alnum(s.last())
    &&& !has_double_dot(s)
    &&& !looks_like_ipv4(s)
}

/// Checks a bucket name: 3 to 63 characters of lower-case letters, digits,
/// hyphens and dots, starting and ending with a letter or digit, without two
/// dots in a row, and not shaped like an IPv4 address.
pub fn check_bucket_name(bucket_name: &str) -> (r: Result<(), ValueError>)
    ensures
        r is Ok <==> valid_bucket_name(bucket_name.spec_bytes()),
        r is Err ==> r == Err::<(), ValueError>(ValueError::InvalidBucketName),
{
    let b = bucket_name.as_bytes();
    let n = b.len();
    if n < 3 || n > 63 {
        return Err(ValueError::InvalidBucketName);
    }
    if !(is_lower_alnum_exec(b[0]) && is_lower_alnum_exec(b[n - 1])) {
        return Err(ValueError::InvalidBucketName);
    }
    let mut i: usize = 0;
    let mut dots: usize = 0;
    let mut digits_and_dots = true;
    while i < n
        invariant
            b@ == bucket_name.spec_bytes(),
            n == b@.len(),
            3 <= n <= 63,
            0 <= i <= n,
            dots as nat == count_byte(b@.subrange(0, i as int), 46u8),
            dots <= i,
            forall|j: int| 0 <= j < i ==> is_bucket_char(#[trigger] b@[j]),
            forall|j: int| 0 <= j < i && j + 1 < n ==> !(b@[j] == 46u8 && #[trigger] b@[j + 1] == 46u8),
            digits_and_dots <==> forall|j: int| 0 <= j < i ==> is_digit(#[trigger] b@[j]) || b@[j] == 46u8,
        decreases n - i,
    {
        let c = b[i];
        if !(is_lower_alnum_exec(c) || c == 45u8 || c == 46u8) {
            assert(!is_bucket_char(b@[i as int]));
            return Err(ValueError::InvalidBucketName);
        }
        if c == 46u8 && i + 1 < n && b[i + 1] == 46u8 {
            assert(b@[i as int] == 46u8 && b@[i + 1] == 46u8);
            assert(has_double_dot(b@));
            return Err(ValueError::InvalidBucketName);
        }
        assert(b@.subrange(0, i + 1).drop_last() == b@.subrange(0, i as int));
        if c == 46u8 {
            dots = dots + 1;
        }
        if !(is_digit_exec(c) || c == 46u8) {
            digits_and_dots = false;
        }
        i = i + 1;
    }
    assert(b@.subrange(0, n as int) == b@);
    if digits_and_dots && dots == 3 {
        return Err(ValueError::InvalidBucketName);
    }
    Ok(())
}

fn is_lower_alnum_exec(c: u8) -> (r: bool)
    ensures
        r == is_lower_alnum(c),
{
    (97u8 <= c && c <= 122u8) || (48u8 <= c && c <= 57u8)
}

fn is_digit_exec(c: u8) -> (r: bool)
    ensures
        r == is_digit(c),
{
    48u8 <= c && c <= 57u8
}

} // verus!
