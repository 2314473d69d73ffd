use minio_rsc::client::{build_path, check_target, decimal_bytes, is_valid_header_value};
use minio_rsc::time::AmzDate;
use minio_rsc::{Builder, Credentials, Region, StaticProvider, ValueError};

#[test]
fn region_keeps_its_name() {
    let r = Region::from("us-west-2");
    assert_eq!(r.as_str(), "us-west-2");
}

#[test]
fn builder_needs_host_and_keys() {
    assert_eq!(Builder::new().build().err(), Some(ValueError::MissingHost));
    assert_eq!(
        Builder::new().host("localhost:9000").build().err(),
        Some(ValueError::MissingAccessKey)
    );
    assert_eq!(
        Builder::new().host("localhost:9000").access_key("ak").build().err(),
        Some(ValueError::MissingSecretKey)
    );
    assert_eq!(
        Builder::new().host("bad host").access_key("ak").secret_key("sk").build().err(),
        Some(ValueError::InvalidHostname)
    );
    assert_eq!(
        Builder::new().host("localhost").access_key("ak").secret_key("sk").agent("a\nb").build().err(),
        Some(ValueError::InvalidAgent)
    );
}

#[test]
fn builder_reads_the_scheme() {
    let c = Builder::new()
        .host("http://localhost:9000")
        .access_key("ak")
        .secret_key("sk")
        .build()
        .unwrap();
    assert_eq!(c.host, "localhost:9000");
    assert!(!c.secure);
    assert_eq!(c.region(), "us-east-1");
    let c = Builder::new()
        .host("minio.local")
        .provider(StaticProvider::new("a".to_string(), "b".to_string(), None))
        .secure(false)
        .region("eu")
        .build()
        .unwrap();
    assert!(!c.secure);
    assert_eq!(c.region(), "eu");
    assert_eq!(c.provider.fetch().access_key(), "a");
}

#[test]
fn target_checks() {
    assert!(check_target(Some("bucket-test1"), Some("a.txt")).is_ok());
    assert!(check_target(None, None).is_ok());
    assert_eq!(check_target(Some("Bad"), Some("a")), Err(ValueError::InvalidBucketName));
    assert_eq!(check_target(Some("good-name"), Some("")), Err(ValueError::EmptyObjectName));
    assert_eq!(check_target(None, Some("a")), Err(ValueError::MissingBucketName));
}

#[test]
fn paths_and_numbers() {
    assert_eq!(build_path(Some("b"), Some("/test/a b.txt")), b"/b//test/a%20b.txt".to_vec());
    assert_eq!(build_path(Some("b"), None), b"/b/".to_vec());
    assert_eq!(build_path(None, None), b"/".to_vec());
    assert_eq!(decimal_bytes(0), b"0".to_vec());
    assert_eq!(decimal_bytes(6291456), b"6291456".to_vec());
    assert!(is_valid_header_value("MinIO (Linux; x86_64)"));
    assert!(!is_valid_header_value("a\u{7f}"));
}

#[test]
fn prepared_request_is_signed() {
    let c = Builder::new()
        .host("https://localhost:9000")
        .access_key("ak")
        .secret_key("sk")
        .build()
        .unwrap();
    let creds = Credentials::new("ak".to_string(), "sk".to_string(), Some("tok".to_string()));
    let date = AmzDate { year: 2024, month: 1, day: 1, hour: 0, minute: 0, second: 0 };
    let req = c
        .prepare_request("POST", Some("bucket-test1"), Some("a b"), Some("uploads"), Some(b"hi"), Vec::new(), &creds, &date)
        .unwrap();
    assert_eq!(
        String::from_utf8(req.url).unwrap(),
        "https://localhost:9000/bucket-test1/a%20b?uploads"
    );
    let names: Vec<String> = req.headers.iter().map(|h| String::from_utf8(h.0.clone()).unwrap()).collect();
    assert_eq!(
        names,
        vec![
            "content-length",
            "host",
            "user-agent",
            "x-amz-content-sha256",
            "x-amz-date",
            "x-amz-security-token",
            "authorization"
        ]
    );
    assert_eq!(req.headers[0].1, b"2".to_vec());
    assert_eq!(req.headers[4].1, b"20240101T000000Z".to_vec());
    let auth = String::from_utf8(req.headers[6].1.clone()).unwrap();
    assert!(auth.starts_with("AWS4-HMAC-SHA256 Credential=ak/20240101/us-east-1/s3/aws4_request, SignedHeaders=content-length;host;user-agent;x-amz-content-sha256;x-amz-date;x-amz-security-token, Signature="));
    let sig = auth.rsplit("Signature=").next().unwrap();
    assert_eq!(sig.len(), 64);
    assert_eq!(
        c.prepare_request("GET", Some("ab"), None, None, None, Vec::new(), &creds, &date).err(),
        Some(ValueError::InvalidBucketName)
    );
}

#[test]
fn caller_headers_are_sent_as_signed() {
    let c = Builder::new().host("localhost:9000").access_key("ak").secret_key("sk").build().unwrap();
    let creds = Credentials::new("ak".to_string(), "sk".to_string(), None);
    let date = AmzDate { year: 2024, month: 1, day: 1, hour: 0, minute: 0, second: 0 };
    let extra = vec![
        (b"Host".to_vec(), b"evil".to_vec()),
        (b"Content-Type".to_vec(), b"  text/plain ".to_vec()),
    ];
    let req = c.prepare_request("PUT", Some("bucket-test1"), Some("k"), Some("partNumber=1&uploadId=a%2Bb"), None, extra, &creds, &date).unwrap();
    let pairs: Vec<(String, String)> = req
        .headers
        .iter()
        .map(|h| (String::from_utf8(h.0.clone()).unwrap(), String::from_utf8(h.1.clone()).unwrap()))
        .collect();
    assert_eq!(pairs[0], ("content-type".to_string(), "text/plain".to_string()));
    assert_eq!(pairs[1], ("host".to_string(), "localhost:9000".to_string()));
    assert_eq!(pairs.iter().filter(|p| p.0 == "host").count(), 1);
    assert!(String::from_utf8(req.url).unwrap().ends_with("/bucket-test1/k?partNumber=1&uploadId=a%2Bb"));
    assert!(pairs[5].1.contains("SignedHeaders=content-type;host;user-agent;x-amz-content-sha256;x-amz-date,"));
}

#[test]
fn host_must_be_a_header_value_and_provider_suffices() {
    let c = Builder::new()
        .host("localhost:9000")
        .provider(StaticProvider::new("a".to_string(), "b".to_string(), None))
        .build();
    assert!(c.is_ok());
}
