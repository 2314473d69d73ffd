use vstd::prelude::*;
use vstd::string::StringSliceAdditionalSpecFns;
use vstd::utf8::encode_utf8;
use crate::canonical::{canonical_request, canonical_request_bytes, signed_headers};
use crate::encoding::{ascii_to_string, hex_encode, hex_encode_bytes, lemma_hex_encode_len, push_all};
use crate::sort::pairs_view;
use crate::time::{amz_timestamp, date_stamp, AmzDate};
use hmac::{Hmac, Mac};
use sha2::{Digest, Sha256};

verus! {

/// The SHA-256 digest of a byte string.
pub uninterp spec fn sha256_of(data: Seq<u8>) -> Seq<u8>;

/// HMAC-SHA256 of a message under a key.
pub uninterp spec fn hmac_sha256_of(key: Seq<u8>, data: Seq<u8>) -> Seq<u8>;

/// Relies on sha2's `Sha256::digest` for the digest of `data`.
#[verifier::external_body]
fn sha256(data: &[u8]) -> (r: Vec<u8>)
    ensures
        r@ == sha256_of(data@),
        r@.len() == 32,
{
    Sha256::digest(data).to_vec()
}

/// Relies on hmac's `Hmac<Sha256>` (`new_from_slice`, `update`, `finalize`) for
/// the code of `data` under `key`; HMAC takes keys of every length.
#[verifier::external_body]
fn hmac_sha256(key: &[u8], data: &[u8]) -> (r: Vec<u8>)
    ensures
        r@ == hmac_sha256_of(key@, data@),
        r@.len() == 32,
{
    match <Hmac<Sha256> as Mac>::new_from_slice(key) {
        Ok(mut mac) => {
            mac.update(data);
            mac.finalize().into_bytes().to_vec()
        },
        Err(_) => Vec::new(),
    }
}

/// Lower-case hex SHA-256 of a payload, as `x-amz-content-sha256` carries it.
pub fn sha256_hash(data: &[u8]) -> (r: String)
    ensures
        encode_utf8(r@) == hex_encode(sha256_of(data@)),
{
    let d = sha256(data);
    let h = hex_encode_bytes(d.as_slice());
    proof {
        lemma_hex_encode_len(d@);
    }
    ascii_to_string(h)
}

/// `date/region/service/aws4_request`
pub open spec fn scope(date: Seq<u8>, region: Seq<u8>, service: Seq<u8>) -> Seq<u8> {
    date + seq![47u8] + region + seq![47u8] + service + seq![47u8] + "aws4_request".spec_bytes()
}

pub open spec fn string_to_sign(timestamp: Seq<u8>, scope: Seq<u8>, canonical: Seq<u8>) -> Seq<u8> {
    "AWS4-HMAC-SHA256".spec_bytes() + seq![10u8] + timestamp + seq![10u8] + scope + seq![10u8]
        + hex_encode(sha256_of(canonical))
}

/// Four chained HMACs seeded with `"AWS4" + secret`, keyed in turn by date,
/// region, service and `aws4_request`.
pub open spec fn signing_key(secret: Seq<u8>, date: Seq<u8>, region: Seq<u8>, service: Seq<u8>) -> Seq<u8> {
    hmac_sha256_of(
        hmac_sha256_of(
            hmac_sha256_of(hmac_sha256_of("AWS4".spec_bytes() + secret, date), region),
            service,
        ),
        "aws4_request".spec_bytes(),
    )
}

pub open spec fn authorization(access_key: Seq<u8>, scope: Seq<u8>, signed: Seq<u8>, signature: Seq<u8>) -> Seq<u8> {
    "AWS4-HMAC-SHA256 Credential=".spec_bytes() + access_key + seq![47u8] + scope
        + ", SignedHeaders=".spec_bytes() + signed + ", Signature=".spec_bytes() + signature
}

/// The `Authorization` value of a request signed with AWS Signature Version 4.
pub open spec fn sign_v4(
    method: Seq<u8>,
    uri: Seq<u8>,
    params: Seq<(Seq<u8>, Seq<u8>)>,
    headers: Seq<(Seq<u8>, Seq<u8>)>,
    access_key: Seq<u8>,
    secret_key: Seq<u8>,
    region: Seq<u8>,
    service: Seq<u8>,
    payload_hash: Seq<u8>,
    date: AmzDate,
) -> Seq<u8> {
    let sc = scope(date_stamp(date), region, service);
    let sts = string_to_sign(amz_timestamp(date), sc, canonical_request(method, uri, params, headers, payload_hash));
    let key = signing_key(secret_key, date_stamp(date), region, service);
    authorization(access_key, sc, signed_headers(headers), hex_encode(hmac_sha256_of(key, sts)))
}

/// Computes the `Authorization` header value for a request whose URI path
/// `uri` is already percent-encoded; `headers` are those to be sent and signed.
pub fn sign_v4_authorization(
    method: &str,
    uri: &[u8],
    params: &Vec<(Vec<u8>, Vec<u8>)>,
    headers: &Vec<(Vec<u8>, Vec<u8>)>,
    access_key: &str,
    secret_key: &str,
    region: &str,
    service: &str,
    payload_hash: &str,
    date: &AmzDate,
) -> (r: Vec<u8>)
    ensures
        r@ == sign_v4(
            method.spec_bytes(),
            uri@,
            pairs_view(params@),
            pairs_view(headers@),
            access_key.spec_bytes(),
            secret_key.spec_bytes(),
            region.spec_bytes(),
            service.spec_bytes(),
            payload_hash.spec_bytes(),
            *date,
        ),
{
    let (creq, signed) = canonical_request_bytes(
        method.as_bytes(),
        uri,
        params,
        headers,
        payload_hash.as_bytes(),
    );
    let date_part = date.date_stamp();
    let mut sc: Vec<u8> = Vec::new();
    push_all(&mut sc, date_part.as_slice());
    sc.push(47u8);
    push_all(&mut sc, region.as_bytes());
    sc.push(47u8);
    push_all(&mut sc, service.as_bytes());
    sc.push(47u8);
    push_all(&mut sc, "aws4_request".as_bytes());

    let digest = sha256(creq.as_slice());
    let mut sts: Vec<u8> = Vec::new();
    push_all(&mut sts, "AWS4-HMAC-SHA256".as_bytes());
    sts.push(10u8);
    let ts = date.timestamp();
    push_all(&mut sts, ts.as_slice());
    sts.push(10u8);
    push_all(&mut sts, sc.as_slice());
    sts.push(10u8);
    push_all(&mut sts, hex_encode_bytes(digest.as_slice()).as_slice());
    assert(sc@ =~= scope(date_stamp(*date), region.spec_bytes(), service.spec_bytes()));
    assert(sts@ =~= string_to_sign(amz_timestamp(*date), sc@, creq@));

    let mut seed: Vec<u8> = Vec::new();
    push_all(&mut seed, "AWS4".as_bytes());
    push_all(&mut seed, secret_key.as_bytes());
    let k_date = hmac_sha256(seed.as_slice(), date_part.as_slice());
    let k_region = hmac_sha256(k_date.as_slice(), region.as_bytes());
    let k_service = hmac_sha256(k_region.as_slice(), service.as_bytes());
    let k_signing = hmac_sha256(k_service.as_slice(), "aws4_request".as_bytes());
    assert(seed@ =~= "AWS4".spec_bytes() + secret_key.spec_bytes());
    assert(k_signing@ == signing_key(secret_key.spec_bytes(), date_stamp(*date), region.spec_bytes(), service.spec_bytes()));
    let signature = hex_encode_bytes(hmac_sha256(k_signing.as_slice(), sts.as_slice()).as_slice());

    let mut r: Vec<u8> = Vec::new();
    push_all(&mut r, "AWS4-HMAC-SHA256 Credential=".as_bytes());
    push_all(&mut r, access_key.as_bytes());
    r.push(47u8);
    push_all(&mut r, sc.as_slice());
    push_all(&mut r, ", SignedHeaders=".as_bytes());
    push_all(&mut r, signed.as_slice());
    push_all(&mut r, ", Signature=".as_bytes());
    push_all(&mut r, signature.as_slice());
    assert(r@ =~= authorization(access_key.spec_bytes(), sc@, signed@, signature@));
    r
}

/// Signing is a function of its inputs: the same request, credentials and
/// instant give byte-identical `Authorization` values.
pub proof fn lemma_sign_v4_deterministic(
    method: Seq<u8>,
    uri: Seq<u8>,
    params: Seq<(Seq<u8>, Seq<u8>)>,
    headers: Seq<(Seq<u8>, Seq<u8>)>,
    access_key: Seq<u8>,
    secret_key: Seq<u8>,
    region: Seq<u8>,
    service: Seq<u8>,
    payload_hash: Seq<u8>,
    date: AmzDate,
    r1: Seq<u8>,
    r2: Seq<u8>,
)
    requires
        r1 == sign_v4(method, uri, params, headers, access_key, secret_key, region, service, payload_hash, date),
        r2 == sign_v4(method, uri, params, headers, access_key, secret_key, region, service, payload_hash, date),
    ensures
        r1 == r2,
{
}

} // verus!
