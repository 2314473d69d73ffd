use vstd::prelude::*;

verus! {

/// The name of a storage region.
#[derive(Clone, Debug, PartialEq)]
pub struct Region(pub String);

impl Region {
    pub fn from(region: &str) -> (r: Self)
        ensures
            r.0@ == region@,
    {
        Region(region.to_owned())
    }

    pub fn as_str(&self) -> (r: &str)
        ensures
            r@ == self.0@,
    {
        self.0.as_str()
    }
}

#[derive(Debug, Clone)]
pub struct Bucket {
    /// The name of the bucket.
    pub name: String,
    /// Date the bucket was created.
    pub creation_date: String,
}

impl View for Bucket {
    type V = (Seq<char>, Seq<char>);

    open spec fn view(&self) -> (Seq<char>, Seq<char>) {
        (self.name@, self.creation_date@)
    }
}

#[derive(Clone, Debug, Default)]
pub struct Buckets {
    pub bucket: Vec<Bucket>,
}

impl View for Buckets {
    type V = Seq<(Seq<char>, Seq<char>)>;

    open spec fn view(&self) -> Seq<(Seq<char>, Seq<char>)> {
        Seq::new(self.bucket@.len(), |i: int| self.bucket@[i]@)
    }
}

#[derive(Debug, Clone)]
pub struct Owner {
    pub display_name: String,
    pub id: String,
}

impl View for Owner {
    type V = (Seq<char>, Seq<char>);

    open spec fn view(&self) -> (Seq<char>, Seq<char>) {
        (self.id@, self.display_name@)
    }
}

#[derive(Debug, Clone)]
pub struct ListAllMyBucketsResult {
    pub buckets: Buckets,
    pub owner: Owner,
}

impl View for ListAllMyBucketsResult {
    type V = (Seq<(Seq<char>, Seq<char>)>, (Seq<char>, Seq<char>));

    open spec fn view(&self) -> Self::V {
        (self.buckets@, self.owner@)
    }
}

/// Container for all keys between Prefix and the next occurrence of the delimiter.
#[derive(Debug, Clone)]
pub struct CommonPrefix {
    pub prefix: String,
}

impl View for CommonPrefix {
    type V = Seq<char>;

    open spec fn view(&self) -> Seq<char> {
        self.prefix@
    }
}

#[derive(Debug, Clone)]
pub struct Part {
    pub e_tag: String,
    pub part_number: usize,
}

#[derive(Debug, Clone)]
pub struct CompleteMultipartUpload {
    pub parts: Vec<Part>,
}

impl View for CompleteMultipartUpload {
    /// Each part's ETag and number, in order.
    type V = Seq<(Seq<char>, nat)>;

    open spec fn view(&self) -> Seq<(Seq<char>, nat)> {
        Seq::new(self.parts@.len(), |i: int| (self.parts@[i].e_tag@, self.parts@[i].part_number as nat))
    }
}

#[derive(Debug, Clone)]
pub struct CompleteMultipartUploadResult {
    pub bucket: String,
    pub key: String,
    pub e_tag: String,
    pub location: String,
}

impl View for CompleteMultipartUploadResult {
    /// Location, bucket, key and ETag, in the order the document lists them.
    type V = (Seq<char>, Seq<char>, Seq<char>, Seq<char>);

    open spec fn view(&self) -> Self::V {
        (self.location@, self.bucket@, self.key@, self.e_tag@)
    }
}

#[derive(Debug, Clone)]
pub struct CopyPartResult {
    pub e_tag: String,
}

impl View for CopyPartResult {
    type V = Seq<char>;

    open spec fn view(&self) -> Seq<char> {
        self.e_tag@
    }
}

/// Default Object Lock retention for new objects: a mode and a period in
/// either days or years.
#[derive(Debug, Clone)]
pub struct DefaultRetention {
    pub days: Option<usize>,
    pub mode: RetentionMode,
    pub years: Option<usize>,
}

#[derive(Debug, Clone)]
pub struct InitiateMultipartUploadResult {
    pub bucket: String,
    pub key: String,
    pub upload_id: String,
}

impl View for InitiateMultipartUploadResult {
    type V = (Seq<char>, Seq<char>, Seq<char>);

    open spec fn view(&self) -> Self::V {
        (self.bucket@, self.key@, self.upload_id@)
    }
}

/// Who initiated a multipart upload.
#[derive(Clone, Debug)]
pub struct Initiator {
    pub display_name: String,
    pub id: String,
}

/// A legal hold configuration for an object.
#[derive(Debug, Clone)]
pub struct LegalHold {
    pub status: LegalHoldStatus,
}

#[derive(Debug, Clone)]
pub struct ListBucketResult {
    pub name: String,
    pub prefix: String,
    pub key_count: usize,
    pub max_keys: usize,
    pub delimiter: String,
    pub is_truncated: bool,
    pub start_after: Option<String>,
    pub contents: Vec<Object>,
    pub common_prefixes: Vec<CommonPrefix>,
    pub next_continuation_token: String,
    pub continuation_token: String,
}

#[derive(Debug, Clone)]
pub struct ListMultipartUploadsResult {
    pub bucket: String,
    pub key_marker: String,
    pub upload_id_marker: String,
    pub next_key_marker: String,
    pub prefix: String,
    pub delimiter: String,
    pub next_upload_id_marker: String,
    pub max_uploads: usize,
    pub is_truncated: bool,
    pub uploads: Vec<MultipartUpload>,
    pub common_prefixes: Vec<CommonPrefix>,
    pub encoding_type: Option<String>,
}

#[derive(Debug, Clone)]
pub struct ListPartsResult {
    pub bucket: String,
    pub key: String,
    pub upload_id: String,
    pub part_number_marker: usize,
    pub max_parts: usize,
    pub next_part_number_marker: usize,
    pub is_truncated: bool,
    pub parts: Vec<Part>,
    pub storage_class: String,
    pub checksum_algorithm: String,
    pub initiator: Initiator,
    pub owner: Owner,
}

#[derive(Clone, Debug)]
pub struct MultipartUpload {
    pub checksum_algorithm: String,
    pub upload_id: String,
    pub storage_class: String,
    pub key: String,
    pub initiated: String,
}

#[derive(Clone, Debug)]
pub struct Object {
    pub key: String,
    pub last_modified: String,
    pub e_tag: String,
    pub size: u64,
    pub storage_class: String,
    pub owner: Option<Owner>,
    pub checksum_algorithm: Option<String>,
}

/// The container element for an Object Lock rule.
#[derive(Debug, Clone)]
pub struct ObjectLockRule {
    pub default_retention: DefaultRetention,
}

/// Object Lock configuration of a bucket, as sent and as returned.
#[derive(Debug, Clone)]
pub struct ObjectLockConfiguration {
    /// `Enabled` when the bucket has Object Lock enabled.
    pub object_lock_enabled: String,
    pub rule: Option<ObjectLockRule>,
}

/// Progress of an operation.
#[derive(Debug, Clone, Copy, PartialEq, Eq, Structural)]
pub struct Progress {
    pub bytes_processed: u64,
    pub bytes_returned: u64,
    pub bytes_scanned: u64,
}

/// A container for replication rules.
#[derive(Debug, Clone)]
pub struct ReplicationConfiguration {
    pub role: String,
    pub rules: Vec<ReplicationRule>,
}

#[derive(Debug, Clone)]
pub struct ReplicationRule {
    pub role: String,
}

/// Retention of an object: a mode and the instant until which it holds.
#[derive(Debug, Clone)]
pub struct Retention {
    pub mode: RetentionMode,
    pub retain_until_date: String,
}

/// Container for the stats details.
#[derive(Debug, Clone, Copy, PartialEq, Eq, Structural)]
pub struct Stats {
    pub bytes_processed: u64,
    pub bytes_returned: u64,
    pub bytes_scanned: u64,
}

/// A key and value pair.
#[derive(Debug, Clone)]
pub struct Tag {
    pub key: String,
    pub value: String,
}

/// A set of tags.
#[derive(Debug, Clone)]
pub struct TagSet {
    pub tags: Vec<Tag>,
}

/// Container for a TagSet.
#[derive(Debug, Clone)]
pub struct Tagging {
    pub tag_set: TagSet,
}

/// The versioning state of a bucket.
#[derive(Debug, Clone)]
pub struct VersioningConfiguration {
    pub mfa_delete: Option<MFADelete>,
    pub status: Option<VersioningStatus>,
}

#[derive(Debug, Clone, Copy, PartialEq, Eq, Structural)]
pub enum ChecksumAlgorithm {
    CRC32,
    CRC32C,
    SHA1,
    SHA256,
}

/// Whether MFA delete is enabled in a bucket's versioning configuration.
#[derive(Debug, Clone, Copy, PartialEq, Eq, Structural)]
pub enum MFADelete {
    Enabled,
    Disabled,
}

#[derive(Debug, Clone, Copy, PartialEq, Eq, Structural)]
pub enum LegalHoldStatus {
    ON,
    OFF,
}

/// Retention mode: `GOVERNANCE` or `COMPLIANCE`.
#[derive(Debug, Clone, Copy, PartialEq, Eq, Structural)]
pub enum RetentionMode {
    GOVERNANCE,
    COMPLIANCE,
}

impl Default for RetentionMode {
    fn default() -> (r: Self)
        ensures
            r == RetentionMode::GOVERNANCE,
    {
        RetentionMode::GOVERNANCE
    }
}

/// The versioning state of a bucket.
#[derive(Debug, Clone, Copy, PartialEq, Eq, Structural)]
pub enum VersioningStatus {
    Enabled,
    Suspended,
}

} // verus!
