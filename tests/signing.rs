use minio_rsc::encoding::urlencode;
use minio_rsc::signer::{sha256_hash, sign_v4_authorization};
use minio_rsc::time::AmzDate;
use minio_rsc::utils::check_bucket_name;
use minio_rsc::ValueError;

fn pair(k: &str, v: &str) -> (Vec<u8>, Vec<u8>) {
    (k.as_bytes().to_vec(), v.as_bytes().to_vec())
}

fn example_date() -> AmzDate {
    AmzDate { year: 2013, month: 5, day: 24, hour: 0, minute: 0, second: 0 }
}

#[test]
fn bucket_names_follow_the_rules() {
    assert!(check_bucket_name("bucket-test1").is_ok());
    assert_eq!(check_bucket_name("Bucket-Test1"), Err(ValueError::InvalidBucketName));
    assert_eq!(check_bucket_name("ab"), Err(ValueError::InvalidBucketName));
    assert_eq!(check_bucket_name("192.168.0.1"), Err(ValueError::InvalidBucketName));
}

#[test]
fn bucket_name_edges() {
    assert!(check_bucket_name(&"a".repeat(63)).is_ok());
    assert!(check_bucket_name(&"a".repeat(64)).is_err());
    assert!(check_bucket_name("abc").is_ok());
    assert!(check_bucket_name("a..b").is_err());
    assert!(check_bucket_name("-abc").is_err());
    assert!(check_bucket_name("abc.").is_err());
    assert!(check_bucket_name("my.bucket.name").is_ok());
    assert!(check_bucket_name("1.2.3.4.5").is_ok());
    assert!(check_bucket_name("bucket_1").is_err());
}

#[test]
fn canonical_uri_keeps_separators() {
    let whole = urlencode("/test/test.txt", true);
    assert_eq!(whole, "/test/test.txt");
    let a = urlencode("test", false);
    let b = urlencode("test.txt", false);
    assert_eq!(whole, format!("/{}/{}", a, b));
}

#[test]
fn percent_encoding_escapes_plus_and_space() {
    assert_eq!(urlencode("a+b c", true), "a%2Bb%20c");
    assert_eq!(urlencode("a/b", false), "a%2Fb");
    assert_eq!(urlencode("~_-.", false), "~_-.");
    assert_eq!(urlencode("é", false), "%C3%A9");
}

#[test]
fn payload_hash_of_empty_and_text() {
    assert_eq!(
        sha256_hash(b""),
        "e3b0c44298fc1c149afbf4c8996fb92427ae41e4649b934ca495991b7852b855"
    );
    assert_eq!(
        sha256_hash(b"abc"),
        "ba7816bf8f01cfea414140de5dae2223b00361a396177a9cb410ff61f20015ad"
    );
}

#[test]
fn amz_date_format() {
    let d = AmzDate { year: 2024, month: 1, day: 9, hour: 7, minute: 5, second: 3 };
    assert_eq!(d.timestamp(), b"20240109T070503Z".to_vec());
    assert_eq!(d.date_stamp(), b"20240109".to_vec());
}

fn example_headers() -> Vec<(Vec<u8>, Vec<u8>)> {
    vec![
        pair("Host", "examplebucket.s3.amazonaws.com"),
        pair("Range", "bytes=0-9"),
        pair(
            "x-amz-content-sha256",
            "e3b0c44298fc1c149afbf4c8996fb92427ae41e4649b934ca495991b7852b855",
        ),
        pair("x-amz-date", "20130524T000000Z"),
    ]
}

#[test]
fn signature_of_the_published_get_object_example() {
    let auth = sign_v4_authorization(
        "GET",
        b"/test.txt",
        &Vec::new(),
        &example_headers(),
        "SECRET-REDACTED",
        "wJalrXUtnFEMI/K7MDENG/bPxRfiCYEXAMPLEKEY",
        "us-east-1",
        "s3",
        "e3b0c44298fc1c149afbf4c8996fb92427ae41e4649b934ca495991b7852b855",
        &example_date(),
    );
    assert_eq!(
        String::from_utf8(auth).unwrap(),
        "AWS4-HMAC-SHA256 Credential=SECRET-REDACTED/20130524/us-east-1/s3/aws4_request, \
         SignedHeaders=host;range;x-amz-content-sha256;x-amz-date, \
         Signature=f0e8bdb87c964420e857bd35b5d6ed310bd44f0170aba48dd91039c6036bdb41"
    );
}

#[test]
fn signing_is_deterministic() {
    let params = vec![pair("uploadId", "abc"), pair("partNumber", "2")];
    let sign = || {
        sign_v4_authorization(
            "PUT",
            b"/bucket/key",
            &params,
            &example_headers(),
            "ak",
            "sk",
            "us-east-1",
            "s3",
            "e3b0c44298fc1c149afbf4c8996fb92427ae41e4649b934ca495991b7852b855",
            &example_date(),
        )
    };
    assert_eq!(sign(), sign());
}

#[test]
fn signature_changes_with_the_secret() {
    let sign = |secret: &str| {
        sign_v4_authorization(
            "GET",
            b"/test.txt",
            &Vec::new(),
            &example_headers(),
            "ak",
            secret,
            "us-east-1",
            "s3",
            "e3b0c44298fc1c149afbf4c8996fb92427ae41e4649b934ca495991b7852b855",
            &example_date(),
        )
    };
    assert_ne!(sign("one"), sign("two"));
}
