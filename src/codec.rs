use vstd::prelude::*;
use crate::client::{decimal, decimal_bytes};
use crate::datatype::{
    Bucket, Buckets, CommonPrefix, CompleteMultipartUpload, CompleteMultipartUploadResult,
    CopyPartResult, InitiateMultipartUploadResult, LegalHold, LegalHoldStatus, ListAllMyBucketsResult,
    Owner, Part, Retention, RetentionMode,
};
use crate::sort::bytes_equal;
use crate::error::{ErrorResponse, XmlError};
use crate::xml::{
    close_tag, close_tag_bytes, element, escape, lemma_no_prolog, lemma_root_open, lemma_skip_here,
    lemma_take_elem, lemma_take_end, lemma_take_field, lemma_take_lit, match_lit, open_tag,
    open_tag_bytes, push_close, push_element, push_open, read_elem, read_end, read_field,
    root_open_at, skip_prolog, skip_prolog_at, skip_unknown, skip_unknown_at, starts_with,
    str_element, take_elem, take_end, take_field, take_lit, take_root_open,
};

verus! {

pub open spec fn tag_owner() -> Seq<u8> {
    seq![79u8, 119u8, 110u8, 101u8, 114u8]
}

/// The bytes of `tag_owner`.
pub fn tag_owner_bytes() -> (r: Vec<u8>)
    ensures
        r@ == tag_owner(),
{
    let mut r: Vec<u8> = Vec::new();
    r.push(79u8);
    r.push(119u8);
    r.push(110u8);
    r.push(101u8);
    r.push(114u8);
    assert(r@ =~= tag_owner());
    r
}

pub open spec fn tag_id() -> Seq<u8> {
    seq![73u8, 68u8]
}

/// The bytes of `tag_id`.
pub fn tag_id_bytes() -> (r: Vec<u8>)
    ensures
        r@ == tag_id(),
{
    let mut r: Vec<u8> = Vec::new();
    r.push(73u8);
    r.push(68u8);
    assert(r@ =~= tag_id());
    r
}

pub open spec fn tag_display_name() -> Seq<u8> {
    seq![68u8, 105u8, 115u8, 112u8, 108u8, 97u8, 121u8, 78u8, 97u8, 109u8, 101u8]
}

/// The bytes of `tag_display_name`.
pub fn tag_display_name_bytes() -> (r: Vec<u8>)
    ensures
        r@ == tag_display_name(),
{
    let mut r: Vec<u8> = Vec::new();
    r.push(68u8);
    r.push(105u8);
    r.push(115u8);
    r.push(112u8);
    r.push(108u8);
    r.push(97u8);
    r.push(121u8);
    r.push(78u8);
    r.push(97u8);
    r.push(109u8);
    r.push(101u8);
    assert(r@ =~= tag_display_name());
    r
}

pub open spec fn tag_bucket() -> Seq<u8> {
    seq![66u8, 117u8, 99u8, 107u8, 101u8, 116u8]
}

/// The bytes of `tag_bucket`.
pub fn tag_bucket_bytes() -> (r: Vec<u8>)
    ensures
        r@ == tag_bucket(),
{
    let mut r: Vec<u8> = Vec::new();
    r.push(66u8);
    r.push(117u8);
    r.push(99u8);
    r.push(107u8);
    r.push(101u8);
    r.push(116u8);
    assert(r@ =~= tag_bucket());
    r
}

pub open spec fn tag_name() -> Seq<u8> {
    seq![78u8, 97u8, 109u8, 101u8]
}

/// The bytes of `tag_name`.
pub fn tag_name_bytes() -> (r: Vec<u8>)
    ensures
        r@ == tag_name(),
{
    let mut r: Vec<u8> = Vec::new();
    r.push(78u8);
    r.push(97u8);
    r.push(109u8);
    r.push(101u8);
    assert(r@ =~= tag_name());
    r
}

pub open spec fn tag_creation_date() -> Seq<u8> {
    seq![67u8, 114u8, 101u8, 97u8, 116u8, 105u8, 111u8, 110u8, 68u8, 97u8, 116u8, 101u8]
}

/// The bytes of `tag_creation_date`.
pub fn tag_creation_date_bytes() -> (r: Vec<u8>)
    ensures
        r@ == tag_creation_date(),
{
    let mut r: Vec<u8> = Vec::new();
    r.push(67u8);
    r.push(114u8);
    r.push(101u8);
    r.push(97u8);
    r.push(116u8);
    r.push(105u8);
    r.push(111u8);
    r.push(110u8);
    r.push(68u8);
    r.push(97u8);
    r.push(116u8);
    r.push(101u8);
    assert(r@ =~= tag_creation_date());
    r
}

pub open spec fn tag_initiate_multipart_upload_result() -> Seq<u8> {
    seq![73u8, 110u8, 105u8, 116u8, 105u8, 97u8, 116u8, 101u8, 77u8, 117u8, 108u8, 116u8, 105u8, 112u8, 97u8, 114u8, 116u8, 85u8, 112u8, 108u8, 111u8, 97u8, 100u8, 82u8, 101u8, 115u8, 117u8, 108u8, 116u8]
}

/// The bytes of `tag_initiate_multipart_upload_result`.
pub fn tag_initiate_multipart_upload_result_bytes() -> (r: Vec<u8>)
    ensures
        r@ == tag_initiate_multipart_upload_result(),
{
    let mut r: Vec<u8> = Vec::new();
    r.push(73u8);
    r.push(110u8);
    r.push(105u8);
    r.push(116u8);
    r.push(105u8);
    r.push(97u8);
    r.push(116u8);
    r.push(101u8);
    r.push(77u8);
    r.push(117u8);
    r.push(108u8);
    r.push(116u8);
    r.push(105u8);
    r.push(112u8);
    r.push(97u8);
    r.push(114u8);
    r.push(116u8);
    r.push(85u8);
    r.push(112u8);
    r.push(108u8);
    r.push(111u8);
    r.push(97u8);
    r.push(100u8);
    r.push(82u8);
    r.push(101u8);
    r.push(115u8);
    r.push(117u8);
    r.push(108u8);
    r.push(116u8);
    assert(r@ =~= tag_initiate_multipart_upload_result());
    r
}

pub open spec fn tag_key() -> Seq<u8> {
    seq![75u8, 101u8, 121u8]
}

/// The bytes of `tag_key`.
pub fn tag_key_bytes() -> (r: Vec<u8>)
    ensures
        r@ == tag_key(),
{
    let mut r: Vec<u8> = Vec::new();
    r.push(75u8);
    r.push(101u8);
    r.push(121u8);
    assert(r@ =~= tag_key());
    r
}

pub open spec fn tag_upload_id() -> Seq<u8> {
    seq![85u8, 112u8, 108u8, 111u8, 97u8, 100u8, 73u8, 100u8]
}

/// The bytes of `tag_upload_id`.
pub fn tag_upload_id_bytes() -> (r: Vec<u8>)
    ensures
        r@ == tag_upload_id(),
{
    let mut r: Vec<u8> = Vec::new();
    r.push(85u8);
    r.push(112u8);
    r.push(108u8);
    r.push(111u8);
    r.push(97u8);
    r.push(100u8);
    r.push(73u8);
    r.push(100u8);
    assert(r@ =~= tag_upload_id());
    r
}

pub open spec fn tag_error() -> Seq<u8> {
    seq![69u8, 114u8, 114u8, 111u8, 114u8]
}

/// The bytes of `tag_error`.
pub fn tag_error_bytes() -> (r: Vec<u8>)
    ensures
        r@ == tag_error(),
{
    let mut r: Vec<u8> = Vec::new();
    r.push(69u8);
    r.push(114u8);
    r.push(114u8);
    r.push(111u8);
    r.push(114u8);
    assert(r@ =~= tag_error());
    r
}

pub open spec fn tag_code() -> Seq<u8> {
    seq![67u8, 111u8, 100u8, 101u8]
}

/// The bytes of `tag_code`.
pub fn tag_code_bytes() -> (r: Vec<u8>)
    ensures
        r@ == tag_code(),
{
    let mut r: Vec<u8> = Vec::new();
    r.push(67u8);
    r.push(111u8);
    r.push(100u8);
    r.push(101u8);
    assert(r@ =~= tag_code());
    r
}

pub open spec fn tag_message() -> Seq<u8> {
    seq![77u8, 101u8, 115u8, 115u8, 97u8, 103u8, 101u8]
}

/// The bytes of `tag_message`.
pub fn tag_message_bytes() -> (r: Vec<u8>)
    ensures
        r@ == tag_message(),
{
    let mut r: Vec<u8> = Vec::new();
    r.push(77u8);
    r.push(101u8);
    r.push(115u8);
    r.push(115u8);
    r.push(97u8);
    r.push(103u8);
    r.push(101u8);
    assert(r@ =~= tag_message());
    r
}

pub open spec fn tag_resource() -> Seq<u8> {
    seq![82u8, 101u8, 115u8, 111u8, 117u8, 114u8, 99u8, 101u8]
}

/// The bytes of `tag_resource`.
pub fn tag_resource_bytes() -> (r: Vec<u8>)
    ensures
        r@ == tag_resource(),
{
    let mut r: Vec<u8> = Vec::new();
    r.push(82u8);
    r.push(101u8);
    r.push(115u8);
    r.push(111u8);
    r.push(117u8);
    r.push(114u8);
    r.push(99u8);
    r.push(101u8);
    assert(r@ =~= tag_resource());
    r
}

pub open spec fn tag_request_id() -> Seq<u8> {
    seq![82u8, 101u8, 113u8, 117u8, 101u8, 115u8, 116u8, 73u8, 100u8]
}

/// The bytes of `tag_request_id`.
pub fn tag_request_id_bytes() -> (r: Vec<u8>)
    ensures
        r@ == tag_request_id(),
{
    let mut r: Vec<u8> = Vec::new();
    r.push(82u8);
    r.push(101u8);
    r.push(113u8);
    r.push(117u8);
    r.push(101u8);
    r.push(115u8);
    r.push(116u8);
    r.push(73u8);
    r.push(100u8);
    assert(r@ =~= tag_request_id());
    r
}

pub open spec fn tag_list_all_my_buckets_result() -> Seq<u8> {
    seq![76u8, 105u8, 115u8, 116u8, 65u8, 108u8, 108u8, 77u8, 121u8, 66u8, 117u8, 99u8, 107u8, 101u8, 116u8, 115u8, 82u8, 101u8, 115u8, 117u8, 108u8, 116u8]
}

/// The bytes of `tag_list_all_my_buckets_result`.
pub fn tag_list_all_my_buckets_result_bytes() -> (r: Vec<u8>)
    ensures
        r@ == tag_list_all_my_buckets_result(),
{
    let mut r: Vec<u8> = Vec::new();
    r.push(76u8);
    r.push(105u8);
    r.push(115u8);
    r.push(116u8);
    r.push(65u8);
    r.push(108u8);
    r.push(108u8);
    r.push(77u8);
    r.push(121u8);
    r.push(66u8);
    r.push(117u8);
    r.push(99u8);
    r.push(107u8);
    r.push(101u8);
    r.push(116u8);
    r.push(115u8);
    r.push(82u8);
    r.push(101u8);
    r.push(115u8);
    r.push(117u8);
    r.push(108u8);
    r.push(116u8);
    assert(r@ =~= tag_list_all_my_buckets_result());
    r
}

pub open spec fn tag_buckets() -> Seq<u8> {
    seq![66u8, 117u8, 99u8, 107u8, 101u8, 116u8, 115u8]
}

/// The bytes of `tag_buckets`.
pub fn tag_buckets_bytes() -> (r: Vec<u8>)
    ensures
        r@ == tag_buckets(),
{
    let mut r: Vec<u8> = Vec::new();
    r.push(66u8);
    r.push(117u8);
    r.push(99u8);
    r.push(107u8);
    r.push(101u8);
    r.push(116u8);
    r.push(115u8);
    assert(r@ =~= tag_buckets());
    r
}

pub open spec fn tag_complete_multipart_upload() -> Seq<u8> {
    seq![67u8, 111u8, 109u8, 112u8, 108u8, 101u8, 116u8, 101u8, 77u8, 117u8, 108u8, 116u8, 105u8, 112u8, 97u8, 114u8, 116u8, 85u8, 112u8, 108u8, 111u8, 97u8, 100u8]
}

/// The bytes of `tag_complete_multipart_upload`.
pub fn tag_complete_multipart_upload_bytes() -> (r: Vec<u8>)
    ensures
        r@ == tag_complete_multipart_upload(),
{
    let mut r: Vec<u8> = Vec::new();
    r.push(67u8);
    r.push(111u8);
    r.push(109u8);
    r.push(112u8);
    r.push(108u8);
    r.push(101u8);
    r.push(116u8);
    r.push(101u8);
    r.push(77u8);
    r.push(117u8);
    r.push(108u8);
    r.push(116u8);
    r.push(105u8);
    r.push(112u8);
    r.push(97u8);
    r.push(114u8);
    r.push(116u8);
    r.push(85u8);
    r.push(112u8);
    r.push(108u8);
    r.push(111u8);
    r.push(97u8);
    r.push(100u8);
    assert(r@ =~= tag_complete_multipart_upload());
    r
}

pub open spec fn tag_part() -> Seq<u8> {
    seq![80u8, 97u8, 114u8, 116u8]
}

/// The bytes of `tag_part`.
pub fn tag_part_bytes() -> (r: Vec<u8>)
    ensures
        r@ == tag_part(),
{
    let mut r: Vec<u8> = Vec::new();
    r.push(80u8);
    r.push(97u8);
    r.push(114u8);
    r.push(116u8);
    assert(r@ =~= tag_part());
    r
}

pub open spec fn tag_part_number() -> Seq<u8> {
    seq![80u8, 97u8, 114u8, 116u8, 78u8, 117u8, 109u8, 98u8, 101u8, 114u8]
}

/// The bytes of `tag_part_number`.
pub fn tag_part_number_bytes() -> (r: Vec<u8>)
    ensures
        r@ == tag_part_number(),
{
    let mut r: Vec<u8> = Vec::new();
    r.push(80u8);
    r.push(97u8);
    r.push(114u8);
    r.push(116u8);
    r.push(78u8);
    r.push(117u8);
    r.push(109u8);
    r.push(98u8);
    r.push(101u8);
    r.push(114u8);
    assert(r@ =~= tag_part_number());
    r
}

pub open spec fn tag_etag() -> Seq<u8> {
    seq![69u8, 84u8, 97u8, 103u8]
}

/// The bytes of `tag_etag`.
pub fn tag_etag_bytes() -> (r: Vec<u8>)
    ensures
        r@ == tag_etag(),
{
    let mut r: Vec<u8> = Vec::new();
    r.push(69u8);
    r.push(84u8);
    r.push(97u8);
    r.push(103u8);
    assert(r@ =~= tag_etag());
    r
}

/// `<Owner>` with its ID and display name.
pub open spec fn owner_xml(v: (Seq<char>, Seq<char>)) -> Seq<u8> {
    open_tag(tag_owner()) + owner_fields_xml(v)
}

/// The fields of `owner_xml`, then its end tag.
pub open spec fn owner_fields_xml(v: (Seq<char>, Seq<char>)) -> Seq<u8> {
    str_element(tag_id(), v.0) + str_element(tag_display_name(), v.1) + close_tag(tag_owner())
}

pub open spec fn take_owner_fields(s: Seq<u8>) -> Option<((Seq<char>, Seq<char>), Seq<u8>)> {
    match take_field(s, tag_id()) {
        Some((x0, s1)) => match take_field(s1, tag_display_name()) {
            Some((x1, s2)) => match take_end(s2, tag_owner()) {
                Some(rest) => Some(((x0, x1), rest)),
                None => None,
            },
            None => None,
        },
        None => None,
    }
}

pub open spec fn take_owner(s: Seq<u8>) -> Option<((Seq<char>, Seq<char>), Seq<u8>)> {
    match take_lit(s, open_tag(tag_owner())) {
        Some(s0) => take_owner_fields(s0),
        None => None,
    }
}

proof fn lemma_owner_fields_round_trip(v: (Seq<char>, Seq<char>), r: Seq<u8>)
    ensures
        take_owner_fields(owner_fields_xml(v) + r) == Some((v, r)),
{
    let x2 = close_tag(tag_owner()) + r;
    let x1 = str_element(tag_display_name(), v.1) + x2;
    let x0 = str_element(tag_id(), v.0) + x1;
    assert(owner_fields_xml(v) + r == x0);
    lemma_take_field(tag_id(), v.0, x1);
    lemma_take_field(tag_display_name(), v.1, x2);
    lemma_take_end(tag_owner(), r);
}

/// A written `Owner` element reads back as the same value.
pub proof fn lemma_owner_round_trip(v: (Seq<char>, Seq<char>), r: Seq<u8>)
    ensures
        take_owner(owner_xml(v) + r) == Some((v, r)),
{
    assert(owner_xml(v) + r == open_tag(tag_owner()) + (owner_fields_xml(v) + r));
    lemma_take_lit(open_tag(tag_owner()), owner_fields_xml(v) + r);
    lemma_owner_fields_round_trip(v, r);
}

pub fn write_owner(out: &mut Vec<u8>, v: &Owner)
    ensures
        final(out)@ == old(out)@ + owner_xml(v@),
{
    push_open(out, tag_owner_bytes().as_slice());
    push_element(out, tag_id_bytes().as_slice(), v.id.as_str().as_bytes());
    push_element(out, tag_display_name_bytes().as_slice(), v.display_name.as_str().as_bytes());
    push_close(out, tag_owner_bytes().as_slice());
    assert(final(out)@ =~= old(out)@ + owner_xml(v@));
}

/// On failure, names the element that could not be read.
fn read_owner_fields(s: &[u8], pos: usize) -> (r: Result<(Owner, usize), &'static str>)
    requires
        pos <= s@.len(),
    ensures
        match take_owner_fields(s@.skip(pos as int)) {
            Some((v, rest)) => r matches Ok((x, p)) && x@ == v && p <= s@.len() && s@.skip(p as int) == rest,
            None => r is Err,
        },
{
    let p0 = pos;
    let (x0, p1) = match read_field(s, p0, tag_id_bytes().as_slice()) {
        Some(t) => t,
        None => {
            return Err("ID");
        },
    };
    let (x1, p2) = match read_field(s, p1, tag_display_name_bytes().as_slice()) {
        Some(t) => t,
        None => {
            return Err("DisplayName");
        },
    };
    let pe = match read_end(s, p2, tag_owner_bytes().as_slice()) {
        Some(p) => p,
        None => {
            return Err("/Owner");
        },
    };
    Ok((Owner { id: x0, display_name: x1 }, pe))
}

pub fn read_owner(s: &[u8], pos: usize) -> (r: Option<(Owner, usize)>)
    requires
        pos <= s@.len(),
    ensures
        match take_owner(s@.skip(pos as int)) {
            Some((v, rest)) => r matches Some((x, p)) && x@ == v && p <= s@.len() && s@.skip(p as int) == rest,
            None => r is None,
        },
{
    let p0 = match match_lit(s, pos, open_tag_bytes(tag_owner_bytes().as_slice()).as_slice()) {
        Some(p) => p,
        None => {
            return None;
        },
    };
    match read_owner_fields(s, p0) {
        Ok(t) => Some(t),
        Err(_) => None,
    }
}

/// `<Bucket>` with its name and creation date.
pub open spec fn bucket_xml(v: (Seq<char>, Seq<char>)) -> Seq<u8> {
    open_tag(tag_bucket()) + bucket_fields_xml(v)
}

/// The fields of `bucket_xml`, then its end tag.
pub open spec fn bucket_fields_xml(v: (Seq<char>, Seq<char>)) -> Seq<u8> {
    str_element(tag_name(), v.0) + str_element(tag_creation_date(), v.1) + close_tag(tag_bucket())
}

pub open spec fn take_bucket_fields(s: Seq<u8>) -> Option<((Seq<char>, Seq<char>), Seq<u8>)> {
    match take_field(s, tag_name()) {
        Some((x0, s1)) => match take_field(s1, tag_creation_date()) {
            Some((x1, s2)) => match take_end(s2, tag_bucket()) {
                Some(rest) => Some(((x0, x1), rest)),
                None => None,
            },
            None => None,
        },
        None => None,
    }
}

pub open spec fn take_bucket(s: Seq<u8>) -> Option<((Seq<char>, Seq<char>), Seq<u8>)> {
    match take_lit(s, open_tag(tag_bucket())) {
        Some(s0) => take_bucket_fields(s0),
        None => None,
    }
}

proof fn lemma_bucket_fields_round_trip(v: (Seq<char>, Seq<char>), r: Seq<u8>)
    ensures
        take_bucket_fields(bucket_fields_xml(v) + r) == Some((v, r)),
{
    let x2 = close_tag(tag_bucket()) + r;
    let x1 = str_element(tag_creation_date(), v.1) + x2;
    let x0 = str_element(tag_name(), v.0) + x1;
    assert(bucket_fields_xml(v) + r == x0);
    lemma_take_field(tag_name(), v.0, x1);
    lemma_take_field(tag_creation_date(), v.1, x2);
    lemma_take_end(tag_bucket(), r);
}

/// A written `Bucket` element reads back as the same value.
pub proof fn lemma_bucket_round_trip(v: (Seq<char>, Seq<char>), r: Seq<u8>)
    ensures
        take_bucket(bucket_xml(v) + r) == Some((v, r)),
{
    assert(bucket_xml(v) + r == open_tag(tag_bucket()) + (bucket_fields_xml(v) + r));
    lemma_take_lit(open_tag(tag_bucket()), bucket_fields_xml(v) + r);
    lemma_bucket_fields_round_trip(v, r);
}

pub fn write_bucket(out: &mut Vec<u8>, v: &Bucket)
    ensures
        final(out)@ == old(out)@ + bucket_xml(v@),
{
    push_open(out, tag_bucket_bytes().as_slice());
    push_element(out, tag_name_bytes().as_slice(), v.name.as_str().as_bytes());
    push_element(out, tag_creation_date_bytes().as_slice(), v.creation_date.as_str().as_bytes());
    push_close(out, tag_bucket_bytes().as_slice());
    assert(final(out)@ =~= old(out)@ + bucket_xml(v@));
}

/// On failure, names the element that could not be read.
fn read_bucket_fields(s: &[u8], pos: usize) -> (r: Result<(Bucket, usize), &'static str>)
    requires
        pos <= s@.len(),
    ensures
        match take_bucket_fields(s@.skip(pos as int)) {
            Some((v, rest)) => r matches Ok((x, p)) && x@ == v && p <= s@.len() && s@.skip(p as int) == rest,
            None => r is Err,
        },
{
    let p0 = pos;
    let (x0, p1) = match read_field(s, p0, tag_name_bytes().as_slice()) {
        Some(t) => t,
        None => {
            return Err("Name");
        },
    };
    let (x1, p2) = match read_field(s, p1, tag_creation_date_bytes().as_slice()) {
        Some(t) => t,
        None => {
            return Err("CreationDate");
        },
    };
    let pe = match read_end(s, p2, tag_bucket_bytes().as_slice()) {
        Some(p) => p,
        None => {
            return Err("/Bucket");
        },
    };
    Ok((Bucket { name: x0, creation_date: x1 }, pe))
}

pub fn read_bucket(s: &[u8], pos: usize) -> (r: Option<(Bucket, usize)>)
    requires
        pos <= s@.len(),
    ensures
        match take_bucket(s@.skip(pos as int)) {
            Some((v, rest)) => r matches Some((x, p)) && x@ == v && p <= s@.len() && s@.skip(p as int) == rest,
            None => r is None,
        },
{
    let p0 = match match_lit(s, pos, open_tag_bytes(tag_bucket_bytes().as_slice()).as_slice()) {
        Some(p) => p,
        None => {
            return None;
        },
    };
    match read_bucket_fields(s, p0) {
        Ok(t) => Some(t),
        Err(_) => None,
    }
}

/// The answer to initiate-multipart-upload.
pub open spec fn initiate_xml(v: (Seq<char>, Seq<char>, Seq<char>)) -> Seq<u8> {
    open_tag(tag_initiate_multipart_upload_result()) + initiate_fields_xml(v)
}

/// The fields of `initiate_xml`, then its end tag.
pub open spec fn initiate_fields_xml(v: (Seq<char>, Seq<char>, Seq<char>)) -> Seq<u8> {
    str_element(tag_bucket(), v.0) + str_element(tag_key(), v.1) + str_element(tag_upload_id(), v.2) + close_tag(tag_initiate_multipart_upload_result())
}

pub open spec fn take_initiate_fields(s: Seq<u8>) -> Option<((Seq<char>, Seq<char>, Seq<char>), Seq<u8>)> {
    match take_field(s, tag_bucket()) {
        Some((x0, s1)) => match take_field(s1, tag_key()) {
            Some((x1, s2)) => match take_field(s2, tag_upload_id()) {
                Some((x2, s3)) => match take_end(s3, tag_initiate_multipart_upload_result()) {
                    Some(rest) => Some(((x0, x1, x2), rest)),
                    None => None,
                },
                None => None,
            },
            None => None,
        },
        None => None,
    }
}

proof fn lemma_initiate_fields_round_trip(v: (Seq<char>, Seq<char>, Seq<char>), r: Seq<u8>)
    ensures
        take_initiate_fields(initiate_fields_xml(v) + r) == Some((v, r)),
{
    let x3 = close_tag(tag_initiate_multipart_upload_result()) + r;
    let x2 = str_element(tag_upload_id(), v.2) + x3;
    let x1 = str_element(tag_key(), v.1) + x2;
    let x0 = str_element(tag_bucket(), v.0) + x1;
    assert(initiate_fields_xml(v) + r == x0);
    lemma_take_field(tag_bucket(), v.0, x1);
    lemma_take_field(tag_key(), v.1, x2);
    lemma_take_field(tag_upload_id(), v.2, x3);
    lemma_take_end(tag_initiate_multipart_upload_result(), r);
}

pub fn write_initiate(out: &mut Vec<u8>, v: &InitiateMultipartUploadResult)
    ensures
        final(out)@ == old(out)@ + initiate_xml(v@),
{
    push_open(out, tag_initiate_multipart_upload_result_bytes().as_slice());
    push_element(out, tag_bucket_bytes().as_slice(), v.bucket.as_str().as_bytes());
    push_element(out, tag_key_bytes().as_slice(), v.key.as_str().as_bytes());
    push_element(out, tag_upload_id_bytes().as_slice(), v.upload_id.as_str().as_bytes());
    push_close(out, tag_initiate_multipart_upload_result_bytes().as_slice());
    assert(final(out)@ =~= old(out)@ + initiate_xml(v@));
}

/// On failure, names the element that could not be read.
fn read_initiate_fields(s: &[u8], pos: usize) -> (r: Result<(InitiateMultipartUploadResult, usize), &'static str>)
    requires
        pos <= s@.len(),
    ensures
        match take_initiate_fields(s@.skip(pos as int)) {
            Some((v, rest)) => r matches Ok((x, p)) && x@ == v && p <= s@.len() && s@.skip(p as int) == rest,
            None => r is Err,
        },
{
    let p0 = pos;
    let (x0, p1) = match read_field(s, p0, tag_bucket_bytes().as_slice()) {
        Some(t) => t,
        None => {
            return Err("Bucket");
        },
    };
    let (x1, p2) = match read_field(s, p1, tag_key_bytes().as_slice()) {
        Some(t) => t,
        None => {
            return Err("Key");
        },
    };
    let (x2, p3) = match read_field(s, p2, tag_upload_id_bytes().as_slice()) {
        Some(t) => t,
        None => {
            return Err("UploadId");
        },
    };
    let pe = match read_end(s, p3, tag_initiate_multipart_upload_result_bytes().as_slice()) {
        Some(p) => p,
        None => {
            return Err("/InitiateMultipartUploadResult");
        },
    };
    Ok((InitiateMultipartUploadResult { bucket: x0, key: x1, upload_id: x2 }, pe))
}

/// The error document of a failed request.
pub open spec fn error_doc_xml(v: (Seq<char>, Seq<char>, Seq<char>, Seq<char>)) -> Seq<u8> {
    open_tag(tag_error()) + error_doc_fields_xml(v)
}

/// The fields of `error_doc_xml`, then its end tag.
pub open spec fn error_doc_fields_xml(v: (Seq<char>, Seq<char>, Seq<char>, Seq<char>)) -> Seq<u8> {
    str_element(tag_code(), v.0) + str_element(tag_message(), v.1) + str_element(tag_resource(), v.2) + str_element(tag_request_id(), v.3) + close_tag(tag_error())
}

pub open spec fn take_error_doc_fields(s: Seq<u8>) -> Option<((Seq<char>, Seq<char>, Seq<char>, Seq<char>), Seq<u8>)> {
    match take_field(s, tag_code()) {
        Some((x0, s1)) => match take_field(s1, tag_message()) {
            Some((x1, s2)) => match take_field(s2, tag_resource()) {
                Some((x2, s3)) => match take_field(s3, tag_request_id()) {
                    Some((x3, s4)) => match take_end(s4, tag_error()) {
                        Some(rest) => Some(((x0, x1, x2, x3), rest)),
                        None => None,
                    },
                    None => None,
                },
                None => None,
            },
            None => None,
        },
        None => None,
    }
}

proof fn lemma_error_doc_fields_round_trip(v: (Seq<char>, Seq<char>, Seq<char>, Seq<char>), r: Seq<u8>)
    ensures
        take_error_doc_fields(error_doc_fields_xml(v) + r) == Some((v, r)),
{
    let x4 = close_tag(tag_error()) + r;
    let x3 = str_element(tag_request_id(), v.3) + x4;
    let x2 = str_element(tag_resource(), v.2) + x3;
    let x1 = str_element(tag_message(), v.1) + x2;
    let x0 = str_element(tag_code(), v.0) + x1;
    assert(error_doc_fields_xml(v) + r == x0);
    lemma_take_field(tag_code(), v.0, x1);
    lemma_take_field(tag_message(), v.1, x2);
    lemma_take_field(tag_resource(), v.2, x3);
    lemma_take_field(tag_request_id(), v.3, x4);
    lemma_take_end(tag_error(), r);
}

pub fn write_error_doc(out: &mut Vec<u8>, v: &ErrorResponse)
    ensures
        final(out)@ == old(out)@ + error_doc_xml(v@),
{
    push_open(out, tag_error_bytes().as_slice());
    push_element(out, tag_code_bytes().as_slice(), v.code.as_str().as_bytes());
    push_element(out, tag_message_bytes().as_slice(), v.message.as_str().as_bytes());
    push_element(out, tag_resource_bytes().as_slice(), v.resource.as_str().as_bytes());
    push_element(out, tag_request_id_bytes().as_slice(), v.request_id.as_str().as_bytes());
    push_close(out, tag_error_bytes().as_slice());
    assert(final(out)@ =~= old(out)@ + error_doc_xml(v@));
}

/// On failure, names the element that could not be read.
fn read_error_doc_fields(s: &[u8], pos: usize) -> (r: Result<(ErrorResponse, usize), &'static str>)
    requires
        pos <= s@.len(),
    ensures
        match take_error_doc_fields(s@.skip(pos as int)) {
            Some((v, rest)) => r matches Ok((x, p)) && x@ == v && p <= s@.len() && s@.skip(p as int) == rest,
            None => r is Err,
        },
{
    let p0 = pos;
    let (x0, p1) = match read_field(s, p0, tag_code_bytes().as_slice()) {
        Some(t) => t,
        None => {
            return Err("Code");
        },
    };
    let (x1, p2) = match read_field(s, p1, tag_message_bytes().as_slice()) {
        Some(t) => t,
        None => {
            return Err("Message");
        },
    };
    let (x2, p3) = match read_field(s, p2, tag_resource_bytes().as_slice()) {
        Some(t) => t,
        None => {
            return Err("Resource");
        },
    };
    let (x3, p4) = match read_field(s, p3, tag_request_id_bytes().as_slice()) {
        Some(t) => t,
        None => {
            return Err("RequestId");
        },
    };
    let pe = match read_end(s, p4, tag_error_bytes().as_slice()) {
        Some(p) => p,
        None => {
            return Err("/Error");
        },
    };
    Ok((ErrorResponse { code: x0, message: x1, resource: x2, request_id: x3 }, pe))
}

/// A whole `InitiateMultipartUploadResult` document: an optional XML declaration, the root
/// element (attributes allowed on its start tag), and nothing after it.
pub open spec fn parse_initiate(s: Seq<u8>) -> Option<(Seq<char>, Seq<char>, Seq<char>)> {
    match skip_prolog(s) {
        Some(t) => match take_root_open(t, tag_initiate_multipart_upload_result()) {
            Some(u) => match take_initiate_fields(u) {
                Some((v, rest)) => if rest.len() == 0 {
                    Some(v)
                } else {
                    None
                },
                None => None,
            },
            None => None,
        },
        None => None,
    }
}

/// Decoding what encoding wrote gives back the value.
pub proof fn lemma_parse_initiate_round_trip(v: (Seq<char>, Seq<char>, Seq<char>))
    ensures
        parse_initiate(initiate_xml(v)) == Some(v),
{
    let f = initiate_fields_xml(v);
    assert(tag_initiate_multipart_upload_result()[0] != 63u8);
    lemma_no_prolog(tag_initiate_multipart_upload_result(), f);
    lemma_root_open(tag_initiate_multipart_upload_result(), f);
    assert(f + Seq::<u8>::empty() == f);
    lemma_initiate_fields_round_trip(v, Seq::<u8>::empty());
}

impl InitiateMultipartUploadResult {
    /// Reads a whole document.
    pub fn decode_xml(s: &[u8]) -> (r: Result<Self, XmlError>)
        ensures
            match parse_initiate(s@) {
                Some(v) => r matches Ok(x) && x@ == v,
                None => r is Err,
            },
    {
        let p0 = match skip_prolog_at(s) {
            Some(p) => p,
            None => {
                return Err(XmlError::Malformed);
            },
        };
        let p1 = match root_open_at(s, p0, tag_initiate_multipart_upload_result_bytes().as_slice()) {
            Some(p) => p,
            None => {
                return Err(XmlError::Expected("InitiateMultipartUploadResult"));
            },
        };
        match read_initiate_fields(s, p1) {
            Ok((v, p)) => if p == s.len() {
                assert(s@.skip(p as int).len() == 0);
                Ok(v)
            } else {
                Err(XmlError::TrailingData)
            },
            Err(name) => Err(XmlError::Expected(name)),
        }
    }

    /// The document of this value.
    pub fn encode_xml(&self) -> (r: Vec<u8>)
        ensures
            r@ == initiate_xml(self@),
    {
        let mut out: Vec<u8> = Vec::new();
        write_initiate(&mut out, self);
        assert(out@ =~= initiate_xml(self@));
        out
    }
}

/// A whole `ErrorResponse` document: an optional XML declaration, the root
/// element (attributes allowed on its start tag), and nothing after it.
pub open spec fn parse_error_doc(s: Seq<u8>) -> Option<(Seq<char>, Seq<char>, Seq<char>, Seq<char>)> {
    match skip_prolog(s) {
        Some(t) => match take_root_open(t, tag_error()) {
            Some(u) => match take_error_doc_fields(u) {
                Some((v, rest)) => if rest.len() == 0 {
                    Some(v)
                } else {
                    None
                },
                None => None,
            },
            None => None,
        },
        None => None,
    }
}

/// Decoding what encoding wrote gives back the value.
pub proof fn lemma_parse_error_doc_round_trip(v: (Seq<char>, Seq<char>, Seq<char>, Seq<char>))
    ensures
        parse_error_doc(error_doc_xml(v)) == Some(v),
{
    let f = error_doc_fields_xml(v);
    assert(tag_error()[0] != 63u8);
    lemma_no_prolog(tag_error(), f);
    lemma_root_open(tag_error(), f);
    assert(f + Seq::<u8>::empty() == f);
    lemma_error_doc_fields_round_trip(v, Seq::<u8>::empty());
}

impl ErrorResponse {
    /// Reads a whole document.
    pub fn decode_xml(s: &[u8]) -> (r: Result<Self, XmlError>)
        ensures
            match parse_error_doc(s@) {
                Some(v) => r matches Ok(x) && x@ == v,
                None => r is Err,
            },
    {
        let p0 = match skip_prolog_at(s) {
            Some(p) => p,
            None => {
                return Err(XmlError::Malformed);
            },
        };
        let p1 = match root_open_at(s, p0, tag_error_bytes().as_slice()) {
            Some(p) => p,
            None => {
                return Err(XmlError::Expected("Error"));
            },
        };
        match read_error_doc_fields(s, p1) {
            Ok((v, p)) => if p == s.len() {
                assert(s@.skip(p as int).len() == 0);
                Ok(v)
            } else {
                Err(XmlError::TrailingData)
            },
            Err(name) => Err(XmlError::Expected(name)),
        }
    }

    /// The document of this value.
    pub fn encode_xml(&self) -> (r: Vec<u8>)
        ensures
            r@ == error_doc_xml(self@),
    {
        let mut out: Vec<u8> = Vec::new();
        write_error_doc(&mut out, self);
        assert(out@ =~= error_doc_xml(self@));
        out
    }
}


pub open spec fn tag_complete_multipart_upload_result() -> Seq<u8> {
    seq![67u8, 111u8, 109u8, 112u8, 108u8, 101u8, 116u8, 101u8, 77u8, 117u8, 108u8, 116u8, 105u8, 112u8, 97u8, 114u8, 116u8, 85u8, 112u8, 108u8, 111u8, 97u8, 100u8, 82u8, 101u8, 115u8, 117u8, 108u8, 116u8]
}

/// The bytes of `tag_complete_multipart_upload_result`.
pub fn tag_complete_multipart_upload_result_bytes() -> (r: Vec<u8>)
    ensures
        r@ == tag_complete_multipart_upload_result(),
{
    let mut r: Vec<u8> = Vec::new();
    r.push(67u8);
    r.push(111u8);
    r.push(109u8);
    r.push(112u8);
    r.push(108u8);
    r.push(101u8);
    r.push(116u8);
    r.push(101u8);
    r.push(77u8);
    r.push(117u8);
    r.push(108u8);
    r.push(116u8);
    r.push(105u8);
    r.push(112u8);
    r.push(97u8);
    r.push(114u8);
    r.push(116u8);
    r.push(85u8);
    r.push(112u8);
    r.push(108u8);
    r.push(111u8);
    r.push(97u8);
    r.push(100u8);
    r.push(82u8);
    r.push(101u8);
    r.push(115u8);
    r.push(117u8);
    r.push(108u8);
    r.push(116u8);
    assert(r@ =~= tag_complete_multipart_upload_result());
    r
}

pub open spec fn tag_location() -> Seq<u8> {
    seq![76u8, 111u8, 99u8, 97u8, 116u8, 105u8, 111u8, 110u8]
}

/// The bytes of `tag_location`.
pub fn tag_location_bytes() -> (r: Vec<u8>)
    ensures
        r@ == tag_location(),
{
    let mut r: Vec<u8> = Vec::new();
    r.push(76u8);
    r.push(111u8);
    r.push(99u8);
    r.push(97u8);
    r.push(116u8);
    r.push(105u8);
    r.push(111u8);
    r.push(110u8);
    assert(r@ =~= tag_location());
    r
}

/// The answer to complete-multipart-upload.
pub open spec fn complete_result_xml(v: (Seq<char>, Seq<char>, Seq<char>, Seq<char>)) -> Seq<u8> {
    open_tag(tag_complete_multipart_upload_result()) + complete_result_fields_xml(v)
}

/// The fields of `complete_result_xml`, then its end tag.
pub open spec fn complete_result_fields_xml(v: (Seq<char>, Seq<char>, Seq<char>, Seq<char>)) -> Seq<u8> {
    str_element(tag_location(), v.0) + str_element(tag_bucket(), v.1) + str_element(tag_key(), v.2) + str_element(tag_etag(), v.3) + close_tag(tag_complete_multipart_upload_result())
}

pub open spec fn take_complete_result_fields(s: Seq<u8>) -> Option<((Seq<char>, Seq<char>, Seq<char>, Seq<char>), Seq<u8>)> {
    match take_field(s, tag_location()) {
        Some((x0, s1)) => match take_field(s1, tag_bucket()) {
            Some((x1, s2)) => match take_field(s2, tag_key()) {
                Some((x2, s3)) => match take_field(s3, tag_etag()) {
                    Some((x3, s4)) => match take_end(s4, tag_complete_multipart_upload_result()) {
                        Some(rest) => Some(((x0, x1, x2, x3), rest)),
                        None => None,
                    },
                    None => None,
                },
                None => None,
            },
            None => None,
        },
        None => None,
    }
}

pub open spec fn take_complete_result(s: Seq<u8>) -> Option<((Seq<char>, Seq<char>, Seq<char>, Seq<char>), Seq<u8>)> {
    match take_lit(s, open_tag(tag_complete_multipart_upload_result())) {
        Some(s0) => take_complete_result_fields(s0),
        None => None,
    }
}

proof fn lemma_complete_result_fields_round_trip(v: (Seq<char>, Seq<char>, Seq<char>, Seq<char>), r: Seq<u8>)
    ensures
        take_complete_result_fields(complete_result_fields_xml(v) + r) == Some((v, r)),
{
    let x4 = close_tag(tag_complete_multipart_upload_result()) + r;
    let x3 = str_element(tag_etag(), v.3) + x4;
    let x2 = str_element(tag_key(), v.2) + x3;
    let x1 = str_element(tag_bucket(), v.1) + x2;
    let x0 = str_element(tag_location(), v.0) + x1;
    assert(complete_result_fields_xml(v) + r == x0);
    lemma_take_field(tag_location(), v.0, x1);
    lemma_take_field(tag_bucket(), v.1, x2);
    lemma_take_field(tag_key(), v.2, x3);
    lemma_take_field(tag_etag(), v.3, x4);
    lemma_take_end(tag_complete_multipart_upload_result(), r);
}

/// A written `CompleteMultipartUploadResult` element reads back as the same value.
pub proof fn lemma_complete_result_round_trip(v: (Seq<char>, Seq<char>, Seq<char>, Seq<char>), r: Seq<u8>)
    ensures
        take_complete_result(complete_result_xml(v) + r) == Some((v, r)),
{
    assert(complete_result_xml(v) + r == open_tag(tag_complete_multipart_upload_result()) + (complete_result_fields_xml(v) + r));
    lemma_take_lit(open_tag(tag_complete_multipart_upload_result()), complete_result_fields_xml(v) + r);
    lemma_complete_result_fields_round_trip(v, r);
}

pub fn write_complete_result(out: &mut Vec<u8>, v: &CompleteMultipartUploadResult)
    ensures
        final(out)@ == old(out)@ + complete_result_xml(v@),
{
    push_open(out, tag_complete_multipart_upload_result_bytes().as_slice());
    push_element(out, tag_location_bytes().as_slice(), v.location.as_str().as_bytes());
    push_element(out, tag_bucket_bytes().as_slice(), v.bucket.as_str().as_bytes());
    push_element(out, tag_key_bytes().as_slice(), v.key.as_str().as_bytes());
    push_element(out, tag_etag_bytes().as_slice(), v.e_tag.as_str().as_bytes());
    push_close(out, tag_complete_multipart_upload_result_bytes().as_slice());
    assert(final(out)@ =~= old(out)@ + complete_result_xml(v@));
}

/// On failure, names the element that could not be read.
fn read_complete_result_fields(s: &[u8], pos: usize) -> (r: Result<(CompleteMultipartUploadResult, usize), &'static str>)
    requires
        pos <= s@.len(),
    ensures
        match take_complete_result_fields(s@.skip(pos as int)) {
            Some((v, rest)) => r matches Ok((x, p)) && x@ == v && p <= s@.len() && s@.skip(p as int) == rest,
            None => r is Err,
        },
{
    let p0 = pos;
    let (x0, p1) = match read_field(s, p0, tag_location_bytes().as_slice()) {
        Some(t) => t,
        None => {
            return Err("Location");
        },
    };
    let (x1, p2) = match read_field(s, p1, tag_bucket_bytes().as_slice()) {
        Some(t) => t,
        None => {
            return Err("Bucket");
        },
    };
    let (x2, p3) = match read_field(s, p2, tag_key_bytes().as_slice()) {
        Some(t) => t,
        None => {
            return Err("Key");
        },
    };
    let (x3, p4) = match read_field(s, p3, tag_etag_bytes().as_slice()) {
        Some(t) => t,
        None => {
            return Err("ETag");
        },
    };
    let pe = match read_end(s, p4, tag_complete_multipart_upload_result_bytes().as_slice()) {
        Some(p) => p,
        None => {
            return Err("/CompleteMultipartUploadResult");
        },
    };
    Ok((CompleteMultipartUploadResult { location: x0, bucket: x1, key: x2, e_tag: x3 }, pe))
}

pub fn read_complete_result(s: &[u8], pos: usize) -> (r: Option<(CompleteMultipartUploadResult, usize)>)
    requires
        pos <= s@.len(),
    ensures
        match take_complete_result(s@.skip(pos as int)) {
            Some((v, rest)) => r matches Some((x, p)) && x@ == v && p <= s@.len() && s@.skip(p as int) == rest,
            None => r is None,
        },
{
    let p0 = match match_lit(s, pos, open_tag_bytes(tag_complete_multipart_upload_result_bytes().as_slice()).as_slice()) {
        Some(p) => p,
        None => {
            return None;
        },
    };
    match read_complete_result_fields(s, p0) {
        Ok(t) => Some(t),
        Err(_) => None,
    }
}


/// A whole `CompleteMultipartUploadResult` document: an optional XML declaration, the root
/// element (attributes allowed on its start tag), and nothing after it.
pub open spec fn parse_complete_result(s: Seq<u8>) -> Option<(Seq<char>, Seq<char>, Seq<char>, Seq<char>)> {
    match skip_prolog(s) {
        Some(t) => match take_root_open(t, tag_complete_multipart_upload_result()) {
            Some(u) => match take_complete_result_fields(u) {
                Some((v, rest)) => if rest.len() == 0 {
                    Some(v)
                } else {
                    None
                },
                None => None,
            },
            None => None,
        },
        None => None,
    }
}

/// Decoding what encoding wrote gives back the value.
pub proof fn lemma_parse_complete_result_round_trip(v: (Seq<char>, Seq<char>, Seq<char>, Seq<char>))
    ensures
        parse_complete_result(complete_result_xml(v)) == Some(v),
{
    let f = complete_result_fields_xml(v);
    assert(tag_complete_multipart_upload_result()[0] != 63u8);
    lemma_no_prolog(tag_complete_multipart_upload_result(), f);
    lemma_root_open(tag_complete_multipart_upload_result(), f);
    assert(f + Seq::<u8>::empty() == f);
    lemma_complete_result_fields_round_trip(v, Seq::<u8>::empty());
}

impl CompleteMultipartUploadResult {
    /// Reads a whole document.
    pub fn decode_xml(s: &[u8]) -> (r: Result<Self, XmlError>)
        ensures
            match parse_complete_result(s@) {
                Some(v) => r matches Ok(x) && x@ == v,
                None => r is Err,
            },
    {
        let p0 = match skip_prolog_at(s) {
            Some(p) => p,
            None => {
                return Err(XmlError::Malformed);
            },
        };
        let p1 = match root_open_at(s, p0, tag_complete_multipart_upload_result_bytes().as_slice()) {
            Some(p) => p,
            None => {
                return Err(XmlError::Expected("CompleteMultipartUploadResult"));
            },
        };
        match read_complete_result_fields(s, p1) {
            Ok((v, p)) => if p == s.len() {
                assert(s@.skip(p as int).len() == 0);
                Ok(v)
            } else {
                Err(XmlError::TrailingData)
            },
            Err(name) => Err(XmlError::Expected(name)),
        }
    }

    /// The document of this value.
    pub fn encode_xml(&self) -> (r: Vec<u8>)
        ensures
            r@ == complete_result_xml(self@),
    {
        let mut out: Vec<u8> = Vec::new();
        write_complete_result(&mut out, self);
        assert(out@ =~= complete_result_xml(self@));
        out
    }
}


pub open spec fn tag_copy_part_result() -> Seq<u8> {
    seq![67u8, 111u8, 112u8, 121u8, 80u8, 97u8, 114u8, 116u8, 82u8, 101u8, 115u8, 117u8, 108u8, 116u8]
}

/// The bytes of `tag_copy_part_result`.
pub fn tag_copy_part_result_bytes() -> (r: Vec<u8>)
    ensures
        r@ == tag_copy_part_result(),
{
    let mut r: Vec<u8> = Vec::new();
    r.push(67u8);
    r.push(111u8);
    r.push(112u8);
    r.push(121u8);
    r.push(80u8);
    r.push(97u8);
    r.push(114u8);
    r.push(116u8);
    r.push(82u8);
    r.push(101u8);
    r.push(115u8);
    r.push(117u8);
    r.push(108u8);
    r.push(116u8);
    assert(r@ =~= tag_copy_part_result());
    r
}

pub open spec fn tag_common_prefix() -> Seq<u8> {
    seq![67u8, 111u8, 109u8, 109u8, 111u8, 110u8, 80u8, 114u8, 101u8, 102u8, 105u8, 120u8]
}

/// The bytes of `tag_common_prefix`.
pub fn tag_common_prefix_bytes() -> (r: Vec<u8>)
    ensures
        r@ == tag_common_prefix(),
{
    let mut r: Vec<u8> = Vec::new();
    r.push(67u8);
    r.push(111u8);
    r.push(109u8);
    r.push(109u8);
    r.push(111u8);
    r.push(110u8);
    r.push(80u8);
    r.push(114u8);
    r.push(101u8);
    r.push(102u8);
    r.push(105u8);
    r.push(120u8);
    assert(r@ =~= tag_common_prefix());
    r
}

pub open spec fn tag_prefix() -> Seq<u8> {
    seq![80u8, 114u8, 101u8, 102u8, 105u8, 120u8]
}

/// The bytes of `tag_prefix`.
pub fn tag_prefix_bytes() -> (r: Vec<u8>)
    ensures
        r@ == tag_prefix(),
{
    let mut r: Vec<u8> = Vec::new();
    r.push(80u8);
    r.push(114u8);
    r.push(101u8);
    r.push(102u8);
    r.push(105u8);
    r.push(120u8);
    assert(r@ =~= tag_prefix());
    r
}

/// The answer to upload-part-copy.
pub open spec fn copy_part_xml(v: Seq<char>) -> Seq<u8> {
    open_tag(tag_copy_part_result()) + copy_part_fields_xml(v)
}

/// The fields of `copy_part_xml`, then its end tag.
pub open spec fn copy_part_fields_xml(v: Seq<char>) -> Seq<u8> {
    str_element(tag_etag(), v) + close_tag(tag_copy_part_result())
}

pub open spec fn take_copy_part_fields(s: Seq<u8>) -> Option<(Seq<char>, Seq<u8>)> {
    match take_field(s, tag_etag()) {
        Some((x0, s1)) => match take_end(s1, tag_copy_part_result()) {
            Some(rest) => Some((x0, rest)),
            None => None,
        },
        None => None,
    }
}

pub open spec fn take_copy_part(s: Seq<u8>) -> Option<(Seq<char>, Seq<u8>)> {
    match take_lit(s, open_tag(tag_copy_part_result())) {
        Some(s0) => take_copy_part_fields(s0),
        None => None,
    }
}

proof fn lemma_copy_part_fields_round_trip(v: Seq<char>, r: Seq<u8>)
    ensures
        take_copy_part_fields(copy_part_fields_xml(v) + r) == Some((v, r)),
{
    let x1 = close_tag(tag_copy_part_result()) + r;
    let x0 = str_element(tag_etag(), v) + x1;
    assert(copy_part_fields_xml(v) + r == x0);
    lemma_take_field(tag_etag(), v, x1);
    lemma_take_end(tag_copy_part_result(), r);
}

/// A written `CopyPartResult` element reads back as the same value.
pub proof fn lemma_copy_part_round_trip(v: Seq<char>, r: Seq<u8>)
    ensures
        take_copy_part(copy_part_xml(v) + r) == Some((v, r)),
{
    assert(copy_part_xml(v) + r == open_tag(tag_copy_part_result()) + (copy_part_fields_xml(v) + r));
    lemma_take_lit(open_tag(tag_copy_part_result()), copy_part_fields_xml(v) + r);
    lemma_copy_part_fields_round_trip(v, r);
}

pub fn write_copy_part(out: &mut Vec<u8>, v: &CopyPartResult)
    ensures
        final(out)@ == old(out)@ + copy_part_xml(v@),
{
    push_open(out, tag_copy_part_result_bytes().as_slice());
    push_element(out, tag_etag_bytes().as_slice(), v.e_tag.as_str().as_bytes());
    push_close(out, tag_copy_part_result_bytes().as_slice());
    assert(final(out)@ =~= old(out)@ + copy_part_xml(v@));
}

/// On failure, names the element that could not be read.
fn read_copy_part_fields(s: &[u8], pos: usize) -> (r: Result<(CopyPartResult, usize), &'static str>)
    requires
        pos <= s@.len(),
    ensures
        match take_copy_part_fields(s@.skip(pos as int)) {
            Some((v, rest)) => r matches Ok((x, p)) && x@ == v && p <= s@.len() && s@.skip(p as int) == rest,
            None => r is Err,
        },
{
    let p0 = pos;
    let (x0, p1) = match read_field(s, p0, tag_etag_bytes().as_slice()) {
        Some(t) => t,
        None => {
            return Err("ETag");
        },
    };
    let pe = match read_end(s, p1, tag_copy_part_result_bytes().as_slice()) {
        Some(p) => p,
        None => {
            return Err("/CopyPartResult");
        },
    };
    Ok((CopyPartResult { e_tag: x0 }, pe))
}

pub fn read_copy_part(s: &[u8], pos: usize) -> (r: Option<(CopyPartResult, usize)>)
    requires
        pos <= s@.len(),
    ensures
        match take_copy_part(s@.skip(pos as int)) {
            Some((v, rest)) => r matches Some((x, p)) && x@ == v && p <= s@.len() && s@.skip(p as int) == rest,
            None => r is None,
        },
{
    let p0 = match match_lit(s, pos, open_tag_bytes(tag_copy_part_result_bytes().as_slice()).as_slice()) {
        Some(p) => p,
        None => {
            return None;
        },
    };
    match read_copy_part_fields(s, p0) {
        Ok(t) => Some(t),
        Err(_) => None,
    }
}

/// A key prefix shared by several keys.
pub open spec fn common_prefix_xml(v: Seq<char>) -> Seq<u8> {
    open_tag(tag_common_prefix()) + common_prefix_fields_xml(v)
}

/// The fields of `common_prefix_xml`, then its end tag.
pub open spec fn common_prefix_fields_xml(v: Seq<char>) -> Seq<u8> {
    str_element(tag_prefix(), v) + close_tag(tag_common_prefix())
}

pub open spec fn take_common_prefix_fields(s: Seq<u8>) -> Option<(Seq<char>, Seq<u8>)> {
    match take_field(s, tag_prefix()) {
        Some((x0, s1)) => match take_end(s1, tag_common_prefix()) {
            Some(rest) => Some((x0, rest)),
            None => None,
        },
        None => None,
    }
}

pub open spec fn take_common_prefix(s: Seq<u8>) -> Option<(Seq<char>, Seq<u8>)> {
    match take_lit(s, open_tag(tag_common_prefix())) {
        Some(s0) => take_common_prefix_fields(s0),
        None => None,
    }
}

proof fn lemma_common_prefix_fields_round_trip(v: Seq<char>, r: Seq<u8>)
    ensures
        take_common_prefix_fields(common_prefix_fields_xml(v) + r) == Some((v, r)),
{
    let x1 = close_tag(tag_common_prefix()) + r;
    let x0 = str_element(tag_prefix(), v) + x1;
    assert(common_prefix_fields_xml(v) + r == x0);
    lemma_take_field(tag_prefix(), v, x1);
    lemma_take_end(tag_common_prefix(), r);
}

/// A written `CommonPrefix` element reads back as the same value.
pub proof fn lemma_common_prefix_round_trip(v: Seq<char>, r: Seq<u8>)
    ensures
        take_common_prefix(common_prefix_xml(v) + r) == Some((v, r)),
{
    assert(common_prefix_xml(v) + r == open_tag(tag_common_prefix()) + (common_prefix_fields_xml(v) + r));
    lemma_take_lit(open_tag(tag_common_prefix()), common_prefix_fields_xml(v) + r);
    lemma_common_prefix_fields_round_trip(v, r);
}

pub fn write_common_prefix(out: &mut Vec<u8>, v: &CommonPrefix)
    ensures
        final(out)@ == old(out)@ + common_prefix_xml(v@),
{
    push_open(out, tag_common_prefix_bytes().as_slice());
    push_element(out, tag_prefix_bytes().as_slice(), v.prefix.as_str().as_bytes());
    push_close(out, tag_common_prefix_bytes().as_slice());
    assert(final(out)@ =~= old(out)@ + common_prefix_xml(v@));
}

/// On failure, names the element that could not be read.
fn read_common_prefix_fields(s: &[u8], pos: usize) -> (r: Result<(CommonPrefix, usize), &'static str>)
    requires
        pos <= s@.len(),
    ensures
        match take_common_prefix_fields(s@.skip(pos as int)) {
            Some((v, rest)) => r matches Ok((x, p)) && x@ == v && p <= s@.len() && s@.skip(p as int) == rest,
            None => r is Err,
        },
{
    let p0 = pos;
    let (x0, p1) = match read_field(s, p0, tag_prefix_bytes().as_slice()) {
        Some(t) => t,
        None => {
            return Err("Prefix");
        },
    };
    let pe = match read_end(s, p1, tag_common_prefix_bytes().as_slice()) {
        Some(p) => p,
        None => {
            return Err("/CommonPrefix");
        },
    };
    Ok((CommonPrefix { prefix: x0 }, pe))
}

pub fn read_common_prefix(s: &[u8], pos: usize) -> (r: Option<(CommonPrefix, usize)>)
    requires
        pos <= s@.len(),
    ensures
        match take_common_prefix(s@.skip(pos as int)) {
            Some((v, rest)) => r matches Some((x, p)) && x@ == v && p <= s@.len() && s@.skip(p as int) == rest,
            None => r is None,
        },
{
    let p0 = match match_lit(s, pos, open_tag_bytes(tag_common_prefix_bytes().as_slice()).as_slice()) {
        Some(p) => p,
        None => {
            return None;
        },
    };
    match read_common_prefix_fields(s, p0) {
        Ok(t) => Some(t),
        Err(_) => None,
    }
}


/// A whole `CopyPartResult` document: an optional XML declaration, the root
/// element (attributes allowed on its start tag), and nothing after it.
pub open spec fn parse_copy_part(s: Seq<u8>) -> Option<Seq<char>> {
    match skip_prolog(s) {
        Some(t) => match take_root_open(t, tag_copy_part_result()) {
            Some(u) => match take_copy_part_fields(u) {
                Some((v, rest)) => if rest.len() == 0 {
                    Some(v)
                } else {
                    None
                },
                None => None,
            },
            None => None,
        },
        None => None,
    }
}

/// Decoding what encoding wrote gives back the value.
pub proof fn lemma_parse_copy_part_round_trip(v: Seq<char>)
    ensures
        parse_copy_part(copy_part_xml(v)) == Some(v),
{
    let f = copy_part_fields_xml(v);
    assert(tag_copy_part_result()[0] != 63u8);
    lemma_no_prolog(tag_copy_part_result(), f);
    lemma_root_open(tag_copy_part_result(), f);
    assert(f + Seq::<u8>::empty() == f);
    lemma_copy_part_fields_round_trip(v, Seq::<u8>::empty());
}

impl CopyPartResult {
    /// Reads a whole document.
    pub fn decode_xml(s: &[u8]) -> (r: Result<Self, XmlError>)
        ensures
            match parse_copy_part(s@) {
                Some(v) => r matches Ok(x) && x@ == v,
                None => r is Err,
            },
    {
        let p0 = match skip_prolog_at(s) {
            Some(p) => p,
            None => {
                return Err(XmlError::Malformed);
            },
        };
        let p1 = match root_open_at(s, p0, tag_copy_part_result_bytes().as_slice()) {
            Some(p) => p,
            None => {
                return Err(XmlError::Expected("CopyPartResult"));
            },
        };
        match read_copy_part_fields(s, p1) {
            Ok((v, p)) => if p == s.len() {
                assert(s@.skip(p as int).len() == 0);
                Ok(v)
            } else {
                Err(XmlError::TrailingData)
            },
            Err(name) => Err(XmlError::Expected(name)),
        }
    }

    /// The document of this value.
    pub fn encode_xml(&self) -> (r: Vec<u8>)
        ensures
            r@ == copy_part_xml(self@),
    {
        let mut out: Vec<u8> = Vec::new();
        write_copy_part(&mut out, self);
        assert(out@ =~= copy_part_xml(self@));
        out
    }
}

/// A whole `CommonPrefix` document: an optional XML declaration, the root
/// element (attributes allowed on its start tag), and nothing after it.
pub open spec fn parse_common_prefix(s: Seq<u8>) -> Option<Seq<char>> {
    match skip_prolog(s) {
        Some(t) => match take_root_open(t, tag_common_prefix()) {
            Some(u) => match take_common_prefix_fields(u) {
                Some((v, rest)) => if rest.len() == 0 {
                    Some(v)
                } else {
                    None
                },
                None => None,
            },
            None => None,
        },
        None => None,
    }
}

/// Decoding what encoding wrote gives back the value.
pub proof fn lemma_parse_common_prefix_round_trip(v: Seq<char>)
    ensures
        parse_common_prefix(common_prefix_xml(v)) == Some(v),
{
    let f = common_prefix_fields_xml(v);
    assert(tag_common_prefix()[0] != 63u8);
    lemma_no_prolog(tag_common_prefix(), f);
    lemma_root_open(tag_common_prefix(), f);
    assert(f + Seq::<u8>::empty() == f);
    lemma_common_prefix_fields_round_trip(v, Seq::<u8>::empty());
}

impl CommonPrefix {
    /// Reads a whole document.
    pub fn decode_xml(s: &[u8]) -> (r: Result<Self, XmlError>)
        ensures
            match parse_common_prefix(s@) {
                Some(v) => r matches Ok(x) && x@ == v,
                None => r is Err,
            },
    {
        let p0 = match skip_prolog_at(s) {
            Some(p) => p,
            None => {
                return Err(XmlError::Malformed);
            },
        };
        let p1 = match root_open_at(s, p0, tag_common_prefix_bytes().as_slice()) {
            Some(p) => p,
            None => {
                return Err(XmlError::Expected("CommonPrefix"));
            },
        };
        match read_common_prefix_fields(s, p1) {
            Ok((v, p)) => if p == s.len() {
                assert(s@.skip(p as int).len() == 0);
                Ok(v)
            } else {
                Err(XmlError::TrailingData)
            },
            Err(name) => Err(XmlError::Expected(name)),
        }
    }

    /// The document of this value.
    pub fn encode_xml(&self) -> (r: Vec<u8>)
        ensures
            r@ == common_prefix_xml(self@),
    {
        let mut out: Vec<u8> = Vec::new();
        write_common_prefix(&mut out, self);
        assert(out@ =~= common_prefix_xml(self@));
        out
    }
}


/// The `<Bucket>` elements of a list, in order.
pub open spec fn buckets_xml(bs: Seq<(Seq<char>, Seq<char>)>) -> Seq<u8>
    decreases bs.len(),
{
    if bs.len() == 0 {
        seq![]
    } else {
        bucket_xml(bs[0]) + buckets_xml(bs.drop_first())
    }
}

/// `<ListAllMyBucketsResult>`: the owner, then the buckets.
pub open spec fn list_all_xml(v: (Seq<(Seq<char>, Seq<char>)>, (Seq<char>, Seq<char>))) -> Seq<u8> {
    open_tag(tag_list_all_my_buckets_result()) + list_all_fields_xml(v)
}

pub open spec fn list_all_fields_xml(v: (Seq<(Seq<char>, Seq<char>)>, (Seq<char>, Seq<char>))) -> Seq<u8> {
    owner_xml(v.1) + open_tag(tag_buckets()) + buckets_xml(v.0) + close_tag(tag_buckets())
        + close_tag(tag_list_all_my_buckets_result())
}

/// `<Bucket>` elements for as long as they come.
pub open spec fn take_buckets(s: Seq<u8>) -> Option<(Seq<(Seq<char>, Seq<char>)>, Seq<u8>)>
    decreases s.len(),
{
    if starts_with(s, open_tag(tag_bucket())) {
        match take_bucket(s) {
            Some((b, r)) => if r.len() < s.len() {
                match take_buckets(r) {
                    Some((bs, q)) => Some((seq![b] + bs, q)),
                    None => None,
                }
            } else {
                None
            },
            None => None,
        }
    } else {
        Some((seq![], s))
    }
}

/// `<Buckets>` with its `<Bucket>` elements; an absent `<Buckets>` is an empty list.
pub open spec fn take_bucket_list(s: Seq<u8>) -> Option<(Seq<(Seq<char>, Seq<char>)>, Seq<u8>)> {
    match take_lit(s, open_tag(tag_buckets())) {
        Some(s2) => match take_buckets(s2) {
            Some((bs, s3)) => match take_lit(s3, close_tag(tag_buckets())) {
                Some(s4) => Some((bs, s4)),
                None => None,
            },
            None => None,
        },
        None => Some((seq![], s)),
    }
}

/// The owner, then the bucket list, then the end tag; unknown text-only
/// elements between them are skipped.
pub open spec fn take_list_all_fields(s: Seq<u8>) -> Option<
    ((Seq<(Seq<char>, Seq<char>)>, (Seq<char>, Seq<char>)), Seq<u8>),
> {
    match take_owner(skip_unknown(s, tag_owner())) {
        Some((o, s1)) => match take_bucket_list(skip_unknown(s1, tag_buckets())) {
            Some((bs, s3)) => match take_end(s3, tag_list_all_my_buckets_result()) {
                Some(rest) => Some(((bs, o), rest)),
                None => None,
            },
            None => None,
        },
        None => None,
    }
}

/// A whole document: an optional XML declaration, the root element
/// (attributes allowed on its start tag), and nothing after it.
pub open spec fn parse_list_all(s: Seq<u8>) -> Option<(Seq<(Seq<char>, Seq<char>)>, (Seq<char>, Seq<char>))> {
    match skip_prolog(s) {
        Some(t) => match take_root_open(t, tag_list_all_my_buckets_result()) {
            Some(u) => match take_list_all_fields(u) {
                Some((v, rest)) => if rest.len() == 0 {
                    Some(v)
                } else {
                    None
                },
                None => None,
            },
            None => None,
        },
        None => None,
    }
}

proof fn lemma_buckets_round_trip(bs: Seq<(Seq<char>, Seq<char>)>, r: Seq<u8>)
    requires
        !starts_with(r, open_tag(tag_bucket())),
    ensures
        take_buckets(buckets_xml(bs) + r) == Some((bs, r)),
    decreases bs.len(),
{
    if bs.len() == 0 {
        assert(buckets_xml(bs) + r == r);
    } else {
        let rest = buckets_xml(bs.drop_first()) + r;
        let s = buckets_xml(bs) + r;
        assert(s == bucket_xml(bs[0]) + rest);
        lemma_bucket_round_trip(bs[0], rest);
        assert(s.take(open_tag(tag_bucket()).len() as int) == open_tag(tag_bucket()));
        lemma_buckets_round_trip(bs.drop_first(), r);
        assert(seq![bs[0]] + bs.drop_first() == bs);
    }
}

proof fn lemma_close_buckets_not_bucket(r: Seq<u8>)
    ensures
        !starts_with(close_tag(tag_buckets()) + r, open_tag(tag_bucket())),
{
    let s = close_tag(tag_buckets()) + r;
    if starts_with(s, open_tag(tag_bucket())) {
        assert(s.take(open_tag(tag_bucket()).len() as int)[1] == s[1]);
        assert(open_tag(tag_bucket())[1] == 66u8);
    }
}

/// Decoding what encoding wrote gives back the value.
#[verifier::spinoff_prover]
#[verifier::rlimit(40)]
pub proof fn lemma_list_all_round_trip(v: (Seq<(Seq<char>, Seq<char>)>, (Seq<char>, Seq<char>)))
    ensures
        parse_list_all(list_all_xml(v)) == Some(v),
{
    let root = tag_list_all_my_buckets_result();
    let x4 = close_tag(root);
    let x3 = close_tag(tag_buckets()) + x4;
    let x2 = buckets_xml(v.0) + x3;
    let x1 = open_tag(tag_buckets()) + x2;
    let f = list_all_fields_xml(v);
    assert(f == owner_xml(v.1) + x1);
    assert(root[0] != 63u8);
    lemma_no_prolog(root, f);
    lemma_root_open(root, f);
    let o = owner_fields_xml(v.1) + x1;
    assert(f == open_tag(tag_owner()) + o);
    lemma_skip_here(tag_owner(), o);
    lemma_owner_round_trip(v.1, x1);
    assert(x1 == open_tag(tag_buckets()) + x2);
    lemma_skip_here(tag_buckets(), x2);
    lemma_take_lit(open_tag(tag_buckets()), x2);
    lemma_close_buckets_not_bucket(x4);
    lemma_buckets_round_trip(v.0, x3);
    lemma_take_lit(close_tag(tag_buckets()), x4);
    assert(x4 == close_tag(root) + Seq::<u8>::empty());
    lemma_take_end(root, Seq::<u8>::empty());
}

proof fn lemma_buckets_xml_push(bs: Seq<(Seq<char>, Seq<char>)>, b: (Seq<char>, Seq<char>))
    ensures
        buckets_xml(bs.push(b)) == buckets_xml(bs) + bucket_xml(b),
    decreases bs.len(),
{
    if bs.len() == 0 {
        assert(bs.push(b).drop_first() == bs);
        assert(buckets_xml(bs) == Seq::<u8>::empty());
        assert(bucket_xml(b) + Seq::<u8>::empty() == bucket_xml(b));
    } else {
        lemma_buckets_xml_push(bs.drop_first(), b);
        assert(bs.push(b).drop_first() == bs.drop_first().push(b));
    }
}

impl ListAllMyBucketsResult {
    /// The document of this value.
    pub fn encode_xml(&self) -> (r: Vec<u8>)
        ensures
            r@ == list_all_xml(self@),
    {
        let mut out: Vec<u8> = Vec::new();
        let root = tag_list_all_my_buckets_result_bytes();
        push_open(&mut out, root.as_slice());
        write_owner(&mut out, &self.owner);
        push_open(&mut out, tag_buckets_bytes().as_slice());
        let ghost before = out@;
        let ghost bs = self.buckets@;
        let mut i: usize = 0;
        assert(bs.take(0) =~= Seq::<(Seq<char>, Seq<char>)>::empty());
        while i < self.buckets.bucket.len()
            invariant
                0 <= i <= self.buckets.bucket@.len(),
                bs == self.buckets@,
                out@ == before + buckets_xml(bs.take(i as int)),
            decreases self.buckets.bucket@.len() - i,
        {
            write_bucket(&mut out, &self.buckets.bucket[i]);
            proof {
                lemma_buckets_xml_push(bs.take(i as int), bs[i as int]);
                assert(bs.take(i + 1) == bs.take(i as int).push(bs[i as int]));
            }
            i = i + 1;
        }
        assert(bs.take(i as int) == bs);
        push_close(&mut out, tag_buckets_bytes().as_slice());
        push_close(&mut out, root.as_slice());
        assert(out@ =~= list_all_xml(self@));
        out
    }

    /// Reads a document; fails where `parse_list_all` finds none.
    pub fn decode_xml(s: &[u8]) -> (r: Result<Self, XmlError>)
        ensures
            match parse_list_all(s@) {
                Some(v) => r matches Ok(x) && x@ == v,
                None => r is Err,
            },
    {
        let root = tag_list_all_my_buckets_result_bytes();
        let start = match skip_prolog_at(s) {
            Some(p) => p,
            None => {
                return Err(XmlError::Malformed);
            },
        };
        let p0 = match root_open_at(s, start, root.as_slice()) {
            Some(p) => p,
            None => {
                return Err(XmlError::Expected("ListAllMyBucketsResult"));
            },
        };
        let q0 = skip_unknown_at(s, p0, tag_owner_bytes().as_slice());
        let (owner, p1) = match read_owner(s, q0) {
            Some(t) => t,
            None => {
                return Err(XmlError::Expected("Owner"));
            },
        };
        let q1 = skip_unknown_at(s, p1, tag_buckets_bytes().as_slice());
        let (bucket, p4) = match read_bucket_list(s, q1) {
            Some(t) => t,
            None => {
                return Err(XmlError::Expected("Buckets"));
            },
        };
        let p5 = match read_end(s, p4, root.as_slice()) {
            Some(p) => p,
            None => {
                return Err(XmlError::Expected("/ListAllMyBucketsResult"));
            },
        };
        if p5 != s.len() {
            return Err(XmlError::TrailingData);
        }
        let r = ListAllMyBucketsResult { buckets: Buckets { bucket }, owner };
        assert(s@.skip(p5 as int).len() == 0);
        Ok(r)
    }
}

/// Reads an optional `<Buckets>` list at `pos`.
fn read_bucket_list(s: &[u8], pos: usize) -> (r: Option<(Vec<Bucket>, usize)>)
    requires
        pos <= s@.len(),
    ensures
        match take_bucket_list(s@.skip(pos as int)) {
            Some((v, rest)) => r matches Some((x, p)) && (Buckets { bucket: x })@ == v && p <= s@.len()
                && s@.skip(p as int) == rest,
            None => r is None,
        },
{
    let p2 = match match_lit(s, pos, open_tag_bytes(tag_buckets_bytes().as_slice()).as_slice()) {
        Some(p) => p,
        None => {
            let empty: Vec<Bucket> = Vec::new();
            assert((Buckets { bucket: empty })@ =~= Seq::<(Seq<char>, Seq<char>)>::empty());
            return Some((empty, pos));
        },
    };
    let (bucket, p3) = match read_buckets(s, p2) {
        Some(t) => t,
        None => {
            return None;
        },
    };
    match match_lit(s, p3, close_tag_bytes(tag_buckets_bytes().as_slice()).as_slice()) {
        Some(p) => Some((bucket, p)),
        None => None,
    }
}

/// Reads `<Bucket>` elements at `pos` for as long as they come.
fn read_buckets(s: &[u8], pos: usize) -> (r: Option<(Vec<Bucket>, usize)>)
    requires
        pos <= s@.len(),
    ensures
        match take_buckets(s@.skip(pos as int)) {
            Some((v, rest)) => r matches Some((x, p)) && (Buckets { bucket: x })@ == v && p <= s@.len()
                && s@.skip(p as int) == rest,
            None => r is None,
        },
{
    let open = open_tag_bytes(tag_bucket_bytes().as_slice());
    let mut acc: Vec<Bucket> = Vec::new();
    let mut p: usize = pos;
    while match_lit(s, p, open.as_slice()).is_some()
        invariant
            pos <= p <= s@.len(),
            open@ == open_tag(tag_bucket()),
            take_buckets(s@.skip(pos as int)) == match take_buckets(s@.skip(p as int)) {
                Some((bs, q)) => Some(((Buckets { bucket: acc })@ + bs, q)),
                None => None::<(Seq<(Seq<char>, Seq<char>)>, Seq<u8>)>,
            },
        decreases s@.len() - p,
    {
        let ghost t = s@.skip(p as int);
        let (b, p2) = match read_bucket(s, p) {
            Some(x) => x,
            None => {
                return None;
            },
        };
        if p2 <= p {
            return None;
        }
        let ghost old_acc = (Buckets { bucket: acc })@;
        acc.push(b);
        assert((Buckets { bucket: acc })@ =~= old_acc.push(b@));
        proof {
            match take_buckets(s@.skip(p2 as int)) {
                Some((bs, q)) => {
                    assert(old_acc + (seq![b@] + bs) =~= old_acc.push(b@) + bs);
                },
                None => {},
            }
        }
        p = p2;
    }
    assert((Buckets { bucket: acc })@ + Seq::<(Seq<char>, Seq<char>)>::empty() =~= (Buckets { bucket: acc })@);
    Some((acc, p))
}

/// The view of a part in a completion manifest: its ETag and number.
pub open spec fn part_view(p: Part) -> (Seq<char>, nat) {
    (p.e_tag@, p.part_number as nat)
}

/// `<Part>` with its number and ETag.
pub open spec fn part_xml(p: (Seq<char>, nat)) -> Seq<u8> {
    open_tag(tag_part()) + element(tag_part_number(), decimal(p.1)) + str_element(tag_etag(), p.0)
        + close_tag(tag_part())
}

pub open spec fn parts_xml(ps: Seq<(Seq<char>, nat)>) -> Seq<u8>
    decreases ps.len(),
{
    if ps.len() == 0 {
        seq![]
    } else {
        parts_xml(ps.drop_last()) + part_xml(ps.last())
    }
}

/// `<CompleteMultipartUpload>` listing the parts in the order given.
pub open spec fn complete_xml(ps: Seq<(Seq<char>, nat)>) -> Seq<u8> {
    open_tag(tag_complete_multipart_upload()) + parts_xml(ps) + close_tag(tag_complete_multipart_upload())
}

fn write_part(out: &mut Vec<u8>, part: &Part)
    ensures
        final(out)@ == old(out)@ + part_xml(part_view(*part)),
{
    push_open(out, tag_part_bytes().as_slice());
    push_element(out, tag_part_number_bytes().as_slice(), decimal_bytes(part.part_number).as_slice());
    push_element(out, tag_etag_bytes().as_slice(), part.e_tag.as_str().as_bytes());
    push_close(out, tag_part_bytes().as_slice());
    assert(final(out)@ =~= old(out)@ + part_xml(part_view(*part)));
}

impl CompleteMultipartUpload {
    /// The request body of complete-multipart-upload.
    pub fn encode_xml(&self) -> (r: Vec<u8>)
        ensures
            r@ == complete_xml(self@),
    {
        let mut out: Vec<u8> = Vec::new();
        let root = tag_complete_multipart_upload_bytes();
        push_open(&mut out, root.as_slice());
        let ghost before = out@;
        let ghost ps = self@;
        let mut i: usize = 0;
        assert(ps.take(0) =~= Seq::<(Seq<char>, nat)>::empty());
        while i < self.parts.len()
            invariant
                0 <= i <= self.parts@.len(),
                ps == self@,
                out@ == before + parts_xml(ps.take(i as int)),
            decreases self.parts@.len() - i,
        {
            write_part(&mut out, &self.parts[i]);
            assert(ps.take(i + 1).drop_last() =~= ps.take(i as int));
            assert(ps.take(i + 1).last() == part_view(self.parts@[i as int]));
            i = i + 1;
            assert(out@ =~= before + parts_xml(ps.take(i as int)));
        }
        assert(ps.take(i as int) =~= ps);
        push_close(&mut out, root.as_slice());
        assert(out@ =~= complete_xml(self@));
        out
    }
}

pub open spec fn tag_status() -> Seq<u8> {
    seq![83u8, 116u8, 97u8, 116u8, 117u8, 115u8]
}

pub open spec fn tag_legal_hold() -> Seq<u8> {
    seq![76u8, 101u8, 103u8, 97u8, 108u8, 72u8, 111u8, 108u8, 100u8]
}

fn tag_status_bytes() -> (r: Vec<u8>)
    ensures
        r@ == tag_status(),
{
    let r: Vec<u8> = vec![83u8, 116u8, 97u8, 116u8, 117u8, 115u8];
    assert(r@ =~= tag_status());
    r
}

fn tag_legal_hold_bytes() -> (r: Vec<u8>)
    ensures
        r@ == tag_legal_hold(),
{
    let r: Vec<u8> = vec![76u8, 101u8, 103u8, 97u8, 108u8, 72u8, 111u8, 108u8, 100u8];
    assert(r@ =~= tag_legal_hold());
    r
}

/// The keyword of a legal hold status: `ON` or `OFF`.
pub open spec fn status_keyword(v: LegalHoldStatus) -> Seq<u8> {
    match v {
        LegalHoldStatus::ON => seq![79u8, 78u8],
        LegalHoldStatus::OFF => seq![79u8, 70u8, 70u8],
    }
}

pub open spec fn status_of(t: Seq<u8>) -> Option<LegalHoldStatus> {
    if t == seq![79u8, 78u8] {
        Some(LegalHoldStatus::ON)
    } else if t == seq![79u8, 70u8, 70u8] {
        Some(LegalHoldStatus::OFF)
    } else {
        None
    }
}

/// `<LegalHold><Status>ON|OFF</Status></LegalHold>`
pub open spec fn legal_hold_xml(v: LegalHoldStatus) -> Seq<u8> {
    open_tag(tag_legal_hold()) + element(tag_status(), status_keyword(v)) + close_tag(tag_legal_hold())
}

pub open spec fn parse_legal_hold(s: Seq<u8>) -> Option<LegalHoldStatus> {
    match skip_prolog(s) {
        Some(t) => match take_root_open(t, tag_legal_hold()) {
            Some(u) => match take_elem(skip_unknown(u, tag_status()), tag_status()) {
                Some((k, s1)) => match status_of(k) {
                    Some(v) => match take_end(s1, tag_legal_hold()) {
                        Some(rest) => if rest.len() == 0 {
                            Some(v)
                        } else {
                            None
                        },
                        None => None,
                    },
                    None => None,
                },
                None => None,
            },
            None => None,
        },
        None => None,
    }
}

/// Decoding what encoding wrote gives back the value.
pub proof fn lemma_parse_legal_hold_round_trip(v: LegalHoldStatus)
    ensures
        parse_legal_hold(legal_hold_xml(v)) == Some(v),
{
    let root = tag_legal_hold();
    let x1 = close_tag(root);
    let x0 = element(tag_status(), status_keyword(v)) + x1;
    let f = x0;
    assert(legal_hold_xml(v) == open_tag(root) + f);
    assert(root[0] != 63u8);
    lemma_no_prolog(root, f);
    lemma_root_open(root, f);
    assert(x0 == open_tag(tag_status()) + (escape(status_keyword(v)) + close_tag(tag_status()) + x1));
    lemma_skip_here(tag_status(), escape(status_keyword(v)) + close_tag(tag_status()) + x1);
    lemma_take_elem(tag_status(), status_keyword(v), x1);
    assert(status_keyword(v) == seq![79u8, 78u8] || status_keyword(v) == seq![79u8, 70u8, 70u8]);
    if v == LegalHoldStatus::OFF {
        assert(seq![79u8, 70u8, 70u8] != seq![79u8, 78u8]) by {
            assert(seq![79u8, 70u8, 70u8].len() != seq![79u8, 78u8].len());
        }
    }
    assert(x1 == close_tag(root) + Seq::<u8>::empty());
    lemma_take_end(root, Seq::<u8>::empty());
}

impl View for LegalHold {
    type V = LegalHoldStatus;

    open spec fn view(&self) -> LegalHoldStatus {
        self.status
    }
}

impl LegalHold {
    /// The document of this value.
    pub fn encode_xml(&self) -> (r: Vec<u8>)
        ensures
            r@ == legal_hold_xml(self@),
    {
        let mut out: Vec<u8> = Vec::new();
        push_open(&mut out, tag_legal_hold_bytes().as_slice());
        let kw: Vec<u8> = match self.status {
            LegalHoldStatus::ON => vec![79u8, 78u8],
            LegalHoldStatus::OFF => vec![79u8, 70u8, 70u8],
        };
        assert(kw@ =~= status_keyword(self@));
        push_element(&mut out, tag_status_bytes().as_slice(), kw.as_slice());
        push_close(&mut out, tag_legal_hold_bytes().as_slice());
        assert(out@ =~= legal_hold_xml(self@));
        out
    }

    /// Reads a whole document.
    pub fn decode_xml(s: &[u8]) -> (r: Result<Self, XmlError>)
        ensures
            match parse_legal_hold(s@) {
                Some(v) => r matches Ok(x) && x@ == v,
                None => r is Err,
            },
    {
        let p0 = match skip_prolog_at(s) {
            Some(p) => p,
            None => {
                return Err(XmlError::Malformed);
            },
        };
        let root = tag_legal_hold_bytes();
        let p1 = match root_open_at(s, p0, root.as_slice()) {
            Some(p) => p,
            None => {
                return Err(XmlError::Expected("LegalHold"));
            },
        };
        let status = tag_status_bytes();
        let q = skip_unknown_at(s, p1, status.as_slice());
        let (k, p2) = match read_elem(s, q, status.as_slice()) {
            Some(t) => t,
            None => {
                return Err(XmlError::Expected("Status"));
            },
        };
        let on: Vec<u8> = vec![79u8, 78u8];
        let off: Vec<u8> = vec![79u8, 70u8, 70u8];
        assert(on@ =~= seq![79u8, 78u8]);
        assert(off@ =~= seq![79u8, 70u8, 70u8]);
        let v = if bytes_equal(k.as_slice(), on.as_slice()) {
            LegalHoldStatus::ON
        } else if bytes_equal(k.as_slice(), off.as_slice()) {
            LegalHoldStatus::OFF
        } else {
            return Err(XmlError::InvalidValue);
        };
        let p3 = match read_end(s, p2, root.as_slice()) {
            Some(p) => p,
            None => {
                return Err(XmlError::Expected("/LegalHold"));
            },
        };
        if p3 != s.len() {
            return Err(XmlError::TrailingData);
        }
        assert(s@.skip(p3 as int).len() == 0);
        Ok(LegalHold { status: v })
    }
}

impl ToXml for LegalHold {
    open spec fn xml_of(v: Self::V) -> Seq<u8> {
        legal_hold_xml(v)
    }

    fn to_xml(&self) -> (r: Vec<u8>) {
        self.encode_xml()
    }
}

impl FromXml for LegalHold {
    open spec fn parse(s: Seq<u8>) -> Option<Self::V> {
        parse_legal_hold(s)
    }

    fn from_xml(v: &[u8]) -> (r: Result<Self, XmlError>) {
        Self::decode_xml(v)
    }
}

pub open spec fn tag_retention() -> Seq<u8> {
    seq![82u8, 101u8, 116u8, 101u8, 110u8, 116u8, 105u8, 111u8, 110u8]
}

fn tag_retention_bytes() -> (r: Vec<u8>)
    ensures
        r@ == tag_retention(),
{
    let r: Vec<u8> = vec![82u8, 101u8, 116u8, 101u8, 110u8, 116u8, 105u8, 111u8, 110u8];
    assert(r@ =~= tag_retention());
    r
}

pub open spec fn tag_mode() -> Seq<u8> {
    seq![77u8, 111u8, 100u8, 101u8]
}

fn tag_mode_bytes() -> (r: Vec<u8>)
    ensures
        r@ == tag_mode(),
{
    let r: Vec<u8> = vec![77u8, 111u8, 100u8, 101u8];
    assert(r@ =~= tag_mode());
    r
}

pub open spec fn tag_retain_until_date() -> Seq<u8> {
    seq![82u8, 101u8, 116u8, 97u8, 105u8, 110u8, 85u8, 110u8, 116u8, 105u8, 108u8, 68u8, 97u8, 116u8, 101u8]
}

fn tag_retain_until_date_bytes() -> (r: Vec<u8>)
    ensures
        r@ == tag_retain_until_date(),
{
    let r: Vec<u8> = vec![82u8, 101u8, 116u8, 97u8, 105u8, 110u8, 85u8, 110u8, 116u8, 105u8, 108u8, 68u8, 97u8, 116u8, 101u8];
    assert(r@ =~= tag_retain_until_date());
    r
}

/// The keyword of a retention mode.
pub open spec fn mode_keyword(m: RetentionMode) -> Seq<u8> {
    match m {
        RetentionMode::GOVERNANCE => seq![71u8, 79u8, 86u8, 69u8, 82u8, 78u8, 65u8, 78u8, 67u8, 69u8],
        RetentionMode::COMPLIANCE => seq![67u8, 79u8, 77u8, 80u8, 76u8, 73u8, 65u8, 78u8, 67u8, 69u8],
    }
}

pub open spec fn mode_of(t: Seq<u8>) -> Option<RetentionMode> {
    if t == seq![71u8, 79u8, 86u8, 69u8, 82u8, 78u8, 65u8, 78u8, 67u8, 69u8] {
        Some(RetentionMode::GOVERNANCE)
    } else if t == seq![67u8, 79u8, 77u8, 80u8, 76u8, 73u8, 65u8, 78u8, 67u8, 69u8] {
        Some(RetentionMode::COMPLIANCE)
    } else {
        None
    }
}

/// `<Retention><Mode>..</Mode><RetainUntilDate>..</RetainUntilDate></Retention>`
pub open spec fn retention_xml(v: (RetentionMode, Seq<char>)) -> Seq<u8> {
    open_tag(tag_retention()) + element(tag_mode(), mode_keyword(v.0)) + str_element(
        tag_retain_until_date(),
        v.1,
    ) + close_tag(tag_retention())
}

pub open spec fn parse_retention(s: Seq<u8>) -> Option<(RetentionMode, Seq<char>)> {
    match skip_prolog(s) {
        Some(t) => match take_root_open(t, tag_retention()) {
            Some(u) => match take_elem(skip_unknown(u, tag_mode()), tag_mode()) {
                Some((k, s1)) => match mode_of(k) {
                    Some(m) => match take_field(s1, tag_retain_until_date()) {
                        Some((d, s2)) => match take_end(s2, tag_retention()) {
                            Some(rest) => if rest.len() == 0 {
                                Some((m, d))
                            } else {
                                None
                            },
                            None => None,
                        },
                        None => None,
                    },
                    None => None,
                },
                None => None,
            },
            None => None,
        },
        None => None,
    }
}

/// Decoding what encoding wrote gives back the value.
pub proof fn lemma_parse_retention_round_trip(v: (RetentionMode, Seq<char>))
    ensures
        parse_retention(retention_xml(v)) == Some(v),
{
    let root = tag_retention();
    let x2 = close_tag(root);
    let x1 = str_element(tag_retain_until_date(), v.1) + x2;
    let x0 = element(tag_mode(), mode_keyword(v.0)) + x1;
    assert(retention_xml(v) == open_tag(root) + x0);
    assert(root[0] != 63u8);
    lemma_no_prolog(root, x0);
    lemma_root_open(root, x0);
    assert(x0 == open_tag(tag_mode()) + (escape(mode_keyword(v.0)) + close_tag(tag_mode()) + x1));
    lemma_skip_here(tag_mode(), escape(mode_keyword(v.0)) + close_tag(tag_mode()) + x1);
    lemma_take_elem(tag_mode(), mode_keyword(v.0), x1);
    if v.0 == RetentionMode::COMPLIANCE {
        assert(seq![67u8, 79u8, 77u8, 80u8, 76u8, 73u8, 65u8, 78u8, 67u8, 69u8][0] != seq![71u8, 79u8, 86u8, 69u8, 82u8, 78u8, 65u8, 78u8, 67u8, 69u8][0]);
        assert(seq![67u8, 79u8, 77u8, 80u8, 76u8, 73u8, 65u8, 78u8, 67u8, 69u8] != seq![71u8, 79u8, 86u8, 69u8, 82u8, 78u8, 65u8, 78u8, 67u8, 69u8]);
    }
    lemma_take_field(tag_retain_until_date(), v.1, x2);
    assert(x2 == close_tag(root) + Seq::<u8>::empty());
    lemma_take_end(root, Seq::<u8>::empty());
}

impl View for Retention {
    type V = (RetentionMode, Seq<char>);

    open spec fn view(&self) -> Self::V {
        (self.mode, self.retain_until_date@)
    }
}

impl Retention {
    /// The document of this value.
    pub fn encode_xml(&self) -> (r: Vec<u8>)
        ensures
            r@ == retention_xml(self@),
    {
        let mut out: Vec<u8> = Vec::new();
        push_open(&mut out, tag_retention_bytes().as_slice());
        let kw: Vec<u8> = match self.mode {
            RetentionMode::GOVERNANCE => vec![71u8, 79u8, 86u8, 69u8, 82u8, 78u8, 65u8, 78u8, 67u8, 69u8],
            RetentionMode::COMPLIANCE => vec![67u8, 79u8, 77u8, 80u8, 76u8, 73u8, 65u8, 78u8, 67u8, 69u8],
        };
        assert(kw@ =~= mode_keyword(self.mode));
        push_element(&mut out, tag_mode_bytes().as_slice(), kw.as_slice());
        push_element(&mut out, tag_retain_until_date_bytes().as_slice(), self.retain_until_date.as_str().as_bytes());
        push_close(&mut out, tag_retention_bytes().as_slice());
        assert(out@ =~= retention_xml(self@));
        out
    }

    /// Reads a whole document.
    pub fn decode_xml(s: &[u8]) -> (r: Result<Self, XmlError>)
        ensures
            match parse_retention(s@) {
                Some(v) => r matches Ok(x) && x@ == v,
                None => r is Err,
            },
    {
        let p0 = match skip_prolog_at(s) {
            Some(p) => p,
            None => {
                return Err(XmlError::Malformed);
            },
        };
        let root = tag_retention_bytes();
        let p1 = match root_open_at(s, p0, root.as_slice()) {
            Some(p) => p,
            None => {
                return Err(XmlError::Expected("Retention"));
            },
        };
        let mode = tag_mode_bytes();
        let q = skip_unknown_at(s, p1, mode.as_slice());
        let (k, p2) = match read_elem(s, q, mode.as_slice()) {
            Some(t) => t,
            None => {
                return Err(XmlError::Expected("Mode"));
            },
        };
        let g: Vec<u8> = vec![71u8, 79u8, 86u8, 69u8, 82u8, 78u8, 65u8, 78u8, 67u8, 69u8];
        let c: Vec<u8> = vec![67u8, 79u8, 77u8, 80u8, 76u8, 73u8, 65u8, 78u8, 67u8, 69u8];
        assert(g@ =~= seq![71u8, 79u8, 86u8, 69u8, 82u8, 78u8, 65u8, 78u8, 67u8, 69u8]);
        assert(c@ =~= seq![67u8, 79u8, 77u8, 80u8, 76u8, 73u8, 65u8, 78u8, 67u8, 69u8]);
        let m = if bytes_equal(k.as_slice(), g.as_slice()) {
            RetentionMode::GOVERNANCE
        } else if bytes_equal(k.as_slice(), c.as_slice()) {
            RetentionMode::COMPLIANCE
        } else {
            return Err(XmlError::InvalidValue);
        };
        let (d, p3) = match read_field(s, p2, tag_retain_until_date_bytes().as_slice()) {
            Some(t) => t,
            None => {
                return Err(XmlError::Expected("RetainUntilDate"));
            },
        };
        let p4 = match read_end(s, p3, root.as_slice()) {
            Some(p) => p,
            None => {
                return Err(XmlError::Expected("/Retention"));
            },
        };
        if p4 != s.len() {
            return Err(XmlError::TrailingData);
        }
        assert(s@.skip(p4 as int).len() == 0);
        Ok(Retention { mode: m, retain_until_date: d })
    }
}

impl ToXml for Retention {
    open spec fn xml_of(v: Self::V) -> Seq<u8> {
        retention_xml(v)
    }

    fn to_xml(&self) -> (r: Vec<u8>) {
        self.encode_xml()
    }
}

impl FromXml for Retention {
    open spec fn parse(s: Seq<u8>) -> Option<Self::V> {
        parse_retention(s)
    }

    fn from_xml(v: &[u8]) -> (r: Result<Self, XmlError>) {
        Self::decode_xml(v)
    }
}

/// Types that this codec writes as XML: `xml_of` is the document of a value.
pub trait ToXml: View + Sized {
    spec fn xml_of(v: Self::V) -> Seq<u8>;

    fn to_xml(&self) -> (r: Vec<u8>)
        ensures
            r@ == Self::xml_of(self@),
    ;
}

/// Types that this codec reads from XML: `parse` is the value that a document
/// holds, if any.
pub trait FromXml: View + Sized {
    spec fn parse(s: Seq<u8>) -> Option<Self::V>;

    fn from_xml(v: &[u8]) -> (r: Result<Self, XmlError>)
        ensures
            match Self::parse(v@) {
                Some(x) => r matches Ok(y) && y@ == x,
                None => r is Err,
            },
    ;
}

impl ToXml for ListAllMyBucketsResult {
    open spec fn xml_of(v: Self::V) -> Seq<u8> {
        list_all_xml(v)
    }

    fn to_xml(&self) -> (r: Vec<u8>) {
        self.encode_xml()
    }
}

impl FromXml for ListAllMyBucketsResult {
    open spec fn parse(s: Seq<u8>) -> Option<Self::V> {
        parse_list_all(s)
    }

    fn from_xml(v: &[u8]) -> (r: Result<Self, XmlError>) {
        Self::decode_xml(v)
    }
}

impl ToXml for CompleteMultipartUpload {
    open spec fn xml_of(v: Self::V) -> Seq<u8> {
        complete_xml(v)
    }

    fn to_xml(&self) -> (r: Vec<u8>) {
        self.encode_xml()
    }
}

impl ToXml for InitiateMultipartUploadResult {
    open spec fn xml_of(v: Self::V) -> Seq<u8> {
        initiate_xml(v)
    }

    fn to_xml(&self) -> (r: Vec<u8>) {
        self.encode_xml()
    }
}

impl FromXml for InitiateMultipartUploadResult {
    open spec fn parse(s: Seq<u8>) -> Option<Self::V> {
        parse_initiate(s)
    }

    fn from_xml(v: &[u8]) -> (r: Result<Self, XmlError>) {
        Self::decode_xml(v)
    }
}

impl ToXml for ErrorResponse {
    open spec fn xml_of(v: Self::V) -> Seq<u8> {
        error_doc_xml(v)
    }

    fn to_xml(&self) -> (r: Vec<u8>) {
        self.encode_xml()
    }
}

impl FromXml for ErrorResponse {
    open spec fn parse(s: Seq<u8>) -> Option<Self::V> {
        parse_error_doc(s)
    }

    fn from_xml(v: &[u8]) -> (r: Result<Self, XmlError>) {
        Self::decode_xml(v)
    }
}

impl ToXml for CompleteMultipartUploadResult {
    open spec fn xml_of(v: Self::V) -> Seq<u8> {
        complete_result_xml(v)
    }

    fn to_xml(&self) -> (r: Vec<u8>) {
        self.encode_xml()
    }
}

impl FromXml for CompleteMultipartUploadResult {
    open spec fn parse(s: Seq<u8>) -> Option<Self::V> {
        parse_complete_result(s)
    }

    fn from_xml(v: &[u8]) -> (r: Result<Self, XmlError>) {
        Self::decode_xml(v)
    }
}

impl ToXml for CopyPartResult {
    open spec fn xml_of(v: Self::V) -> Seq<u8> {
        copy_part_xml(v)
    }

    fn to_xml(&self) -> (r: Vec<u8>) {
        self.encode_xml()
    }
}

impl FromXml for CopyPartResult {
    open spec fn parse(s: Seq<u8>) -> Option<Self::V> {
        parse_copy_part(s)
    }

    fn from_xml(v: &[u8]) -> (r: Result<Self, XmlError>) {
        Self::decode_xml(v)
    }
}

impl ToXml for CommonPrefix {
    open spec fn xml_of(v: Self::V) -> Seq<u8> {
        common_prefix_xml(v)
    }

    fn to_xml(&self) -> (r: Vec<u8>) {
        self.encode_xml()
    }
}

impl FromXml for CommonPrefix {
    open spec fn parse(s: Seq<u8>) -> Option<Self::V> {
        parse_common_prefix(s)
    }

    fn from_xml(v: &[u8]) -> (r: Result<Self, XmlError>) {
        Self::decode_xml(v)
    }
}

/// Reading back what `to_xml` wrote gives the value, for every type that
/// this codec both writes and reads.
pub proof fn lemma_codec_round_trip(
    a: <ListAllMyBucketsResult as View>::V,
    b: <InitiateMultipartUploadResult as View>::V,
    c: <ErrorResponse as View>::V,
    d: <CompleteMultipartUploadResult as View>::V,
    e: <CopyPartResult as View>::V,
    f: <CommonPrefix as View>::V,
    g: <LegalHold as View>::V,
    h: <Retention as View>::V,
)
    ensures
        <ListAllMyBucketsResult as FromXml>::parse(<ListAllMyBucketsResult as ToXml>::xml_of(a)) == Some(a),
        <InitiateMultipartUploadResult as FromXml>::parse(<InitiateMultipartUploadResult as ToXml>::xml_of(b)) == Some(b),
        <ErrorResponse as FromXml>::parse(<ErrorResponse as ToXml>::xml_of(c)) == Some(c),
        <CompleteMultipartUploadResult as FromXml>::parse(
            <CompleteMultipartUploadResult as ToXml>::xml_of(d),
        ) == Some(d),
        <CopyPartResult as FromXml>::parse(<CopyPartResult as ToXml>::xml_of(e)) == Some(e),
        <CommonPrefix as FromXml>::parse(<CommonPrefix as ToXml>::xml_of(f)) == Some(f),
        <LegalHold as FromXml>::parse(<LegalHold as ToXml>::xml_of(g)) == Some(g),
        <Retention as FromXml>::parse(<Retention as ToXml>::xml_of(h)) == Some(h),
{
    lemma_list_all_round_trip(a);
    lemma_parse_initiate_round_trip(b);
    lemma_parse_error_doc_round_trip(c);
    lemma_parse_complete_result_round_trip(d);
    lemma_parse_copy_part_round_trip(e);
    lemma_parse_common_prefix_round_trip(f);
    lemma_parse_legal_hold_round_trip(g);
    lemma_parse_retention_round_trip(h);
}

} // verus!
