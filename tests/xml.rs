use minio_rsc::codec::{FromXml, ToXml};
use minio_rsc::datatype::{
    Bucket, Buckets, CommonPrefix, CompleteMultipartUpload, CompleteMultipartUploadResult,
    CopyPartResult, InitiateMultipartUploadResult, LegalHold, LegalHoldStatus, ListAllMyBucketsResult,
    Owner, Part, Retention, RetentionMode,
};
use minio_rsc::xml::unescape_bytes;
use minio_rsc::{ErrorResponse, XmlError};

fn sample() -> ListAllMyBucketsResult {
    ListAllMyBucketsResult {
        buckets: Buckets {
            bucket: vec![Bucket {
                name: "bucket-test1".to_string(),
                creation_date: "2024-01-01T00:00:00Z".to_string(),
            }],
        },
        owner: Owner { id: "1".to_string(), display_name: "me".to_string() },
    }
}

#[test]
fn list_all_my_buckets_round_trip() {
    let v = sample();
    let text = v.to_xml();
    assert_eq!(
        String::from_utf8(text.clone()).unwrap(),
        "<ListAllMyBucketsResult><Owner><ID>1</ID><DisplayName>me</DisplayName></Owner>\
         <Buckets><Bucket><Name>bucket-test1</Name><CreationDate>2024-01-01T00:00:00Z</CreationDate>\
         </Bucket></Buckets></ListAllMyBucketsResult>"
    );
    let back = ListAllMyBucketsResult::from_xml(&text).unwrap();
    assert_eq!(back.buckets.bucket.len(), 1);
    assert_eq!(back.buckets.bucket[0].name, "bucket-test1");
    assert_eq!(back.buckets.bucket[0].creation_date, "2024-01-01T00:00:00Z");
    assert_eq!(back.owner.id, "1");
    assert_eq!(back.owner.display_name, "me");
}

#[test]
fn empty_bucket_list_and_escaped_text() {
    let v = ListAllMyBucketsResult {
        buckets: Buckets { bucket: vec![] },
        owner: Owner { id: "<&>".to_string(), display_name: "it's \"me\"".to_string() },
    };
    let text = v.to_xml();
    let s = String::from_utf8(text.clone()).unwrap();
    assert!(s.contains("<ID>&lt;&amp;&gt;</ID>"));
    assert!(s.contains("it&apos;s &quot;me&quot;"));
    let back = ListAllMyBucketsResult::from_xml(&text).unwrap();
    assert!(back.buckets.bucket.is_empty());
    assert_eq!(back.owner.id, "<&>");
    assert_eq!(back.owner.display_name, "it's \"me\"");
}

#[test]
fn malformed_documents_are_refused() {
    assert_eq!(
        ListAllMyBucketsResult::from_xml(b"<ListAllMyBucketsResult>").err(),
        Some(XmlError::Expected("Owner"))
    );
    let mut text = sample().to_xml();
    text.push(b' ');
    assert_eq!(ListAllMyBucketsResult::from_xml(&text).err(), Some(XmlError::TrailingData));
}

#[test]
fn unknown_entities_stay_as_written() {
    assert_eq!(unescape_bytes(b"a&b&lt;c&#1;"), b"a&b<c&#1;".to_vec());
}

#[test]
fn completion_manifest_body() {
    let body = CompleteMultipartUpload {
        parts: vec![
            Part { e_tag: "e1".to_string(), part_number: 1 },
            Part { e_tag: "e2".to_string(), part_number: 12 },
        ],
    };
    assert_eq!(
        String::from_utf8(body.to_xml()).unwrap(),
        "<CompleteMultipartUpload><Part><PartNumber>1</PartNumber><ETag>e1</ETag></Part>\
         <Part><PartNumber>12</PartNumber><ETag>e2</ETag></Part></CompleteMultipartUpload>"
    );
}

#[test]
fn initiate_result_reads_the_upload_id() {
    let text = b"<InitiateMultipartUploadResult><Bucket>b</Bucket><Key>k</Key>\
                 <UploadId>xyz</UploadId></InitiateMultipartUploadResult>";
    let r = InitiateMultipartUploadResult::from_xml(text).unwrap();
    assert_eq!(r.upload_id, "xyz");
    assert_eq!(r.to_xml(), text.to_vec());
}

#[test]
fn error_document_decodes() {
    let text = b"<Error><Code>NoSuchKey</Code><Message>gone</Message>\
                 <Resource>/b/k</Resource><RequestId>r1</RequestId></Error>";
    let e = ErrorResponse::from_xml(text).unwrap();
    assert_eq!(e.code, "NoSuchKey");
    assert_eq!(e.request_id, "r1");
    assert_eq!(e.to_xml(), text.to_vec());
}

#[test]
fn server_documents_with_declaration_and_namespace() {
    let text = b"<?xml version=\"1.0\" encoding=\"UTF-8\"?>\n\
<ListAllMyBucketsResult xmlns=\"http://s3.amazonaws.com/doc/2006-03-01/\"><Owner><ID>02d6</ID>\
<DisplayName>minio</DisplayName></Owner><Buckets><Bucket><Name>b1</Name>\
<CreationDate>2024-01-01T00:00:00.000Z</CreationDate></Bucket><Bucket><Name>b2</Name>\
<CreationDate>2024-02-01T00:00:00.000Z</CreationDate></Bucket></Buckets></ListAllMyBucketsResult>";
    let v = ListAllMyBucketsResult::from_xml(text).unwrap();
    let names: Vec<&str> = v.buckets.bucket.iter().map(|b| b.name.as_str()).collect();
    assert_eq!(names, vec!["b1", "b2"]);
    assert_eq!(v.owner.display_name, "minio");
    let init = b"<?xml version=\"1.0\" encoding=\"UTF-8\"?>\n<InitiateMultipartUploadResult \
xmlns=\"http://s3.amazonaws.com/doc/2006-03-01/\"><Bucket>b</Bucket><Key>k</Key>\
<UploadId>id-1</UploadId></InitiateMultipartUploadResult>";
    assert_eq!(InitiateMultipartUploadResult::from_xml(init).unwrap().upload_id, "id-1");
    assert_eq!(
        ListAllMyBucketsResult::from_xml(b"<?xml version=\"1.0\"").err(),
        Some(XmlError::Malformed)
    );
}

#[test]
fn unknown_text_elements_are_skipped() {
    let text = b"<?xml version=\"1.0\" encoding=\"UTF-8\"?>\n<Error><Code>NoSuchBucket</Code>\
<Message>The specified bucket does not exist</Message><BucketName>nope</BucketName>\
<Resource>/nope/</Resource><RequestId>17A</RequestId><HostId>dd9</HostId></Error>";
    let e = ErrorResponse::from_xml(text).unwrap();
    assert_eq!(e.code, "NoSuchBucket");
    assert_eq!(e.resource, "/nope/");
    assert_eq!(e.request_id, "17A");
    let list = b"<ListAllMyBucketsResult><Owner><ID>1</ID><DisplayName>me</DisplayName></Owner>\
<Buckets><Bucket><Name>b1</Name><BucketRegion>us-east-1</BucketRegion>\
<CreationDate>c</CreationDate></Bucket></Buckets></ListAllMyBucketsResult>";
    let v = ListAllMyBucketsResult::from_xml(list).unwrap();
    assert_eq!(v.buckets.bucket[0].creation_date, "c");
    let missing = b"<Error><Code>X</Code><Message>m</Message><RequestId>r</RequestId></Error>";
    assert_eq!(ErrorResponse::from_xml(missing).err(), Some(XmlError::Expected("Resource")));
}

#[test]
fn absent_bucket_list_and_unknown_root_elements() {
    let text = b"<ListAllMyBucketsResult><Owner><ID>1</ID><DisplayName>me</DisplayName></Owner></ListAllMyBucketsResult>";
    let v = ListAllMyBucketsResult::from_xml(text).unwrap();
    assert!(v.buckets.bucket.is_empty());
    assert_eq!(v.owner.id, "1");
    let text = b"<ListAllMyBucketsResult><Marker>m</Marker><Owner><ID>1</ID><DisplayName>me</DisplayName>\
</Owner><Prefix>p</Prefix><Buckets><Bucket><Name>b</Name><CreationDate>c</CreationDate></Bucket>\
</Buckets><Extra>x</Extra></ListAllMyBucketsResult>";
    let v = ListAllMyBucketsResult::from_xml(text).unwrap();
    assert_eq!(v.buckets.bucket[0].name, "b");
    let no_owner = b"<ListAllMyBucketsResult><Buckets></Buckets></ListAllMyBucketsResult>";
    assert_eq!(ListAllMyBucketsResult::from_xml(no_owner).err(), Some(XmlError::Expected("Owner")));
}

#[test]
fn completion_result_round_trip() {
    let text = b"<?xml version=\"1.0\" encoding=\"UTF-8\"?>\n<CompleteMultipartUploadResult \
xmlns=\"http://s3.amazonaws.com/doc/2006-03-01/\"><Location>http://h/b/k</Location><Bucket>b</Bucket>\
<Key>k</Key><ETag>&quot;3858f6-3&quot;</ETag></CompleteMultipartUploadResult>";
    let r = CompleteMultipartUploadResult::from_xml(text).unwrap();
    assert_eq!(r.e_tag, "\"3858f6-3\"");
    assert_eq!(r.location, "http://h/b/k");
    let back = CompleteMultipartUploadResult::from_xml(&r.to_xml()).unwrap();
    assert_eq!(back.key, "k");
    assert_eq!(back.bucket, "b");
}

#[test]
fn single_field_documents() {
    let text = b"<CopyPartResult><LastModified>2024</LastModified><ETag>e9</ETag></CopyPartResult>";
    assert_eq!(CopyPartResult::from_xml(text).unwrap().e_tag, "e9");
    let p = CommonPrefix { prefix: "photos/".to_string() };
    assert_eq!(p.to_xml(), b"<CommonPrefix><Prefix>photos/</Prefix></CommonPrefix>".to_vec());
    assert_eq!(CommonPrefix::from_xml(&p.to_xml()).unwrap().prefix, "photos/");
}

#[test]
fn legal_hold_keywords() {
    let on = LegalHold { status: LegalHoldStatus::ON };
    assert_eq!(on.to_xml(), b"<LegalHold><Status>ON</Status></LegalHold>".to_vec());
    assert_eq!(LegalHold::from_xml(&on.to_xml()).unwrap().status, LegalHoldStatus::ON);
    let off = b"<?xml version=\"1.0\"?><LegalHold xmlns=\"x\"><Status>OFF</Status></LegalHold>";
    assert_eq!(LegalHold::from_xml(off).unwrap().status, LegalHoldStatus::OFF);
    let bad = b"<LegalHold><Status>MAYBE</Status></LegalHold>";
    assert_eq!(LegalHold::from_xml(bad).err(), Some(XmlError::InvalidValue));
}

#[test]
fn retention_round_trip() {
    let r = Retention { mode: RetentionMode::COMPLIANCE, retain_until_date: "2030-01-01T00:00:00Z".to_string() };
    assert_eq!(
        String::from_utf8(r.to_xml()).unwrap(),
        "<Retention><Mode>COMPLIANCE</Mode><RetainUntilDate>2030-01-01T00:00:00Z</RetainUntilDate></Retention>"
    );
    let back = Retention::from_xml(&r.to_xml()).unwrap();
    assert_eq!(back.mode, RetentionMode::COMPLIANCE);
    assert_eq!(back.retain_until_date, "2030-01-01T00:00:00Z");
    let no_date = b"<Retention><Mode>GOVERNANCE</Mode></Retention>";
    assert_eq!(Retention::from_xml(no_date).err(), Some(XmlError::Expected("RetainUntilDate")));
}
