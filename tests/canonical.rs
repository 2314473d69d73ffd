use minio_rsc::canonical::{
    canonical_query_bytes, canonical_request_bytes, query_string_bytes, split_query_bytes, trim_bytes,
};
use minio_rsc::sort::sort_pairs;

fn pair(k: &str, v: &str) -> (Vec<u8>, Vec<u8>) {
    (k.as_bytes().to_vec(), v.as_bytes().to_vec())
}

#[test]
fn query_is_encoded_then_sorted() {
    let q = query_string_bytes(&vec![pair("uploadId", "a b"), pair("partNumber", "1")]);
    assert_eq!(q, b"uploadId=a%20b&partNumber=1".to_vec());
    let parts = split_query_bytes(&q);
    assert_eq!(parts, vec![pair("uploadId", "a%20b"), pair("partNumber", "1")]);
    assert_eq!(canonical_query_bytes(&parts), b"partNumber=1&uploadId=a%20b".to_vec());
    let q = canonical_query_bytes(&vec![pair("k", "b"), pair("k", "a"), pair("a", "")]);
    assert_eq!(q, b"a=&k=a&k=b".to_vec());
    assert_eq!(canonical_query_bytes(&Vec::new()), Vec::<u8>::new());
}

#[test]
fn query_strings_split_without_decoding() {
    assert_eq!(split_query_bytes(b"uploads"), vec![pair("uploads", "")]);
    assert_eq!(split_query_bytes(b"a=1=2&b"), vec![pair("a", "1=2"), pair("b", "")]);
    assert_eq!(split_query_bytes(b"x=%2B"), vec![pair("x", "%2B")]);
}

#[test]
fn pairs_sort_by_name_then_value() {
    let v = sort_pairs(vec![pair("b", "1"), pair("a", "2"), pair("a", "1"), pair("ab", "0")]);
    assert_eq!(v, vec![pair("a", "1"), pair("a", "2"), pair("ab", "0"), pair("b", "1")]);
}

#[test]
fn values_are_trimmed() {
    assert_eq!(trim_bytes(b"  a b \t"), b"a b".to_vec());
    assert_eq!(trim_bytes(b"   "), Vec::<u8>::new());
}

#[test]
fn canonical_request_layout() {
    let (creq, signed) = canonical_request_bytes(
        b"GET",
        b"/b/k",
        &vec![pair("tagging", "")],
        &vec![pair("X-Amz-Date", " 20130524T000000Z "), pair("Host", "h")],
        b"hash",
    );
    assert_eq!(
        String::from_utf8(creq).unwrap(),
        "GET\n/b/k\ntagging=\nhost:h\nx-amz-date:20130524T000000Z\n\nhost;x-amz-date\nhash"
    );
    assert_eq!(signed, b"host;x-amz-date".to_vec());
}
