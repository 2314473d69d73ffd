use vstd::prelude::*;
use vstd::string::StringSliceAdditionalSpecFns;
use crate::canonical::{lowercase_bytes, normalize_header_list, sorted_headers, to_lower};
use crate::canonical::{split_query, split_query_bytes};
use crate::credentials::{Credentials, StaticProvider};
use crate::encoding::{hex_encode, push_all, uri_encode, uri_encode_bytes};
use crate::error::ValueError;
use crate::signer::{sha256_hash, sha256_of, sign_v4, sign_v4_authorization};
use crate::sort::{bytes_equal, pair_view, pairs_view, sort_pairs};
use crate::time::{amz_timestamp, AmzDate};
use crate::utils::{check_bucket_name, valid_bucket_name};
use vstd::utf8::encode_utf8;

verus! {

/// Whether the pattern compiles as a regular expression.
pub uninterp spec fn regex_compiles(pattern: Seq<char>) -> bool;

/// Whether the text matches the compiled regular expression.
pub uninterp spec fn regex_is_match(pattern: Seq<char>, text: Seq<char>) -> bool;

/// Relies on regex's `Regex::new` and `Regex::is_match`: `None` when the
/// pattern does not compile, else whether `text` matches it.
#[verifier::external_body]
fn regex_match(pattern: &str, text: &str) -> (r: Option<bool>)
    ensures
        r is Some <==> regex_compiles(pattern@),
        r matches Some(b) ==> b == regex_is_match(pattern@, text@),
{
    match regex::Regex::new(pattern) {
        Ok(re) => Some(re.is_match(text)),
        Err(_) => None,
    }
}

/// What a host name (with optional scheme, port and path) must look like.
pub const HOST_PATTERN: &'static str = r"^(http(s)?://)?(www\.)?[a-zA-Z0-9][-a-zA-Z0-9]{0,62}(\.[a-zA-Z0-9][-a-zA-Z0-9]{0,62})?(:\d+)*(/\w+\.\w+)*$";

/// Region used when none is set.
pub const DEFAULT_REGION: &'static str = "us-east-1";

/// `User-Agent` sent when none is set.
pub const DEFAULT_AGENT: &'static str = "MinIO (Linux; x86_64) minio-rs/0.1.0";

/// A byte that a header value may hold.
pub open spec fn header_value_byte(b: u8) -> bool {
    (b >= 32 && b != 127) || b == 9
}

pub open spec fn valid_header_value(s: Seq<u8>) -> bool {
    forall|i: int| 0 <= i < s.len() ==> header_value_byte(#[trigger] s[i])
}

/// Whether the text can stand as an HTTP header value.
pub fn is_valid_header_value(s: &str) -> (r: bool)
    ensures
        r == valid_header_value(s.spec_bytes()),
{
    let b = s.as_bytes();
    let mut i: usize = 0;
    while i < b.len()
        invariant
            b@ == s.spec_bytes(),
            0 <= i <= b@.len(),
            forall|j: int| 0 <= j < i ==> header_value_byte(#[trigger] b@[j]),
        decreases b@.len() - i,
    {
        let c = b[i];
        if !((c >= 32 && c != 127) || c == 9) {
            return false;
        }
        i = i + 1;
    }
    true
}

pub open spec fn has_prefix(s: Seq<char>, p: Seq<char>) -> bool {
    p.len() <= s.len() && s.subrange(0, p.len() as int) == p
}

fn starts_with(s: &str, p: &str) -> (r: bool)
    ensures
        r == has_prefix(s@, p@),
{
    let n = s.unicode_len();
    let m = p.unicode_len();
    if m > n {
        return false;
    }
    let mut i: usize = 0;
    while i < m
        invariant
            m == p@.len(),
            n == s@.len(),
            m <= n,
            0 <= i <= m,
            forall|j: int| 0 <= j < i ==> s@[j] == p@[j],
        decreases m - i,
    {
        if s.get_char(i) != p.get_char(i) {
            return false;
        }
        i = i + 1;
    }
    assert(s@.subrange(0, m as int) =~= p@);
    true
}

/// A validated client configuration.
#[derive(Debug, Clone)]
pub struct ClientConfig {
    /// Host and port, without scheme.
    pub host: String,
    pub secure: bool,
    pub region: String,
    pub agent: String,
    pub provider: StaticProvider,
}

impl ClientConfig {
    /// `http://` or `https://`, then the host.
    pub open spec fn spec_base(&self) -> Seq<u8> {
        (if self.secure { "https://".spec_bytes() } else { "http://".spec_bytes() })
            + encode_utf8(self.host@)
    }

    pub fn region(&self) -> (r: &str)
        ensures
            r@ == self.region@,
    {
        self.region.as_str()
    }
}

/// Client builder.
#[derive(Debug, Clone)]
pub struct Builder {
    pub host: Option<String>,
    pub access_key: Option<String>,
    pub secret_key: Option<String>,
    pub session_token: Option<String>,
    pub region: String,
    pub agent: String,
    pub secure: bool,
    pub provider: Option<StaticProvider>,
}

impl Builder {
    pub fn new() -> (r: Self)
        ensures
            r.host is None,
            r.access_key is None,
            r.secret_key is None,
            r.session_token is None,
            r.provider is None,
            r.secure,
            r.region@ == DEFAULT_REGION@,
            r.agent@ == DEFAULT_AGENT@,
    {
        Builder {
            host: None,
            access_key: None,
            secret_key: None,
            session_token: None,
            region: DEFAULT_REGION.to_owned(),
            agent: DEFAULT_AGENT.to_owned(),
            secure: true,
            provider: None,
        }
    }

    pub fn host(self, host: &str) -> (r: Self)
        ensures
            r.host matches Some(h) && h@ == host@,
            r.access_key == self.access_key && r.secret_key == self.secret_key && r.session_token
                == self.session_token && r.region == self.region && r.agent == self.agent
                && r.secure == self.secure && r.provider == self.provider,
    {
        Builder { host: Some(host.to_owned()), ..self }
    }

    pub fn access_key(self, access_key: &str) -> (r: Self)
        ensures
            r.access_key matches Some(h) && h@ == access_key@,
            r.host == self.host && r.secret_key == self.secret_key && r.session_token
                == self.session_token && r.region == self.region && r.agent == self.agent
                && r.secure == self.secure && r.provider == self.provider,
    {
        Builder { access_key: Some(access_key.to_owned()), ..self }
    }

    pub fn secret_key(self, secret_key: &str) -> (r: Self)
        ensures
            r.secret_key matches Some(h) && h@ == secret_key@,
            r.host == self.host && r.access_key == self.access_key && r.session_token
                == self.session_token && r.region == self.region && r.agent == self.agent
                && r.secure == self.secure && r.provider == self.provider,
    {
        Builder { secret_key: Some(secret_key.to_owned()), ..self }
    }

    pub fn session_token(self, session_token: &str) -> (r: Self)
        ensures
            r.session_token matches Some(h) && h@ == session_token@,
            r.host == self.host && r.access_key == self.access_key && r.secret_key
                == self.secret_key && r.region == self.region && r.agent == self.agent
                && r.secure == self.secure && r.provider == self.provider,
    {
        Builder { session_token: Some(session_token.to_owned()), ..self }
    }

    pub fn region(self, region: &str) -> (r: Self)
        ensures
            r.region@ == region@,
            r.host == self.host && r.access_key == self.access_key && r.secret_key
                == self.secret_key && r.session_token == self.session_token && r.agent == self.agent
                && r.secure == self.secure && r.provider == self.provider,
    {
        Builder { region: region.to_owned(), ..self }
    }

    pub fn agent(self, agent: &str) -> (r: Self)
        ensures
            r.agent@ == agent@,
            r.host == self.host && r.access_key == self.access_key && r.secret_key
                == self.secret_key && r.session_token == self.session_token && r.region
                == self.region && r.secure == self.secure && r.provider == self.provider,
    {
        Builder { agent: agent.to_owned(), ..self }
    }

    pub fn secure(self, secure: bool) -> (r: Self)
        ensures
            r.secure == secure,
            r.host == self.host && r.access_key == self.access_key && r.secret_key
                == self.secret_key && r.session_token == self.session_token && r.region
                == self.region && r.agent == self.agent && r.provider == self.provider,
    {
        Builder { secure, ..self }
    }

    pub fn provider(self, provider: StaticProvider) -> (r: Self)
        ensures
            r.provider == Some(provider),
            r.host == self.host && r.access_key == self.access_key && r.secret_key
                == self.secret_key && r.session_token == self.session_token && r.region
                == self.region && r.agent == self.agent && r.secure == self.secure,
    {
        Builder { provider: Some(provider), ..self }
    }

    /// Validates the settings once: a host that matches `HOST_PATTERN` and,
    /// without its scheme, can stand in a header; a provider or both keys; and
    /// an agent that can stand in a header. A leading `https://` or `http://`
    /// on the host sets the scheme. Succeeds exactly when `build_error` finds
    /// nothing.
    pub fn build(self) -> (r: Result<ClientConfig, ValueError>)
        ensures
            r is Ok <==> build_error(self) is None,
            r is Err ==> r == Err::<ClientConfig, ValueError>(build_error(self)->Some_0),
            r matches Ok(c) ==> {
                let h = self.host->Some_0@;
                &&& c.region == self.region
                &&& c.agent == self.agent
                &&& c.host@ == host_without_scheme(h)
                &&& c.secure == scheme_secure(h, self.secure)
                &&& self.provider matches Some(p) ==> c.provider == p
                &&& self.provider is None ==> c.provider.spec_credentials() == (
                    self.access_key->Some_0@,
                    self.secret_key->Some_0@,
                    crate::credentials::opt_view(self.session_token),
                )
            },
    {
        let host = match self.host {
            Some(h) => h,
            None => {
                return Err(ValueError::MissingHost);
            },
        };
        match regex_match(HOST_PATTERN, host.as_str()) {
            Some(true) => {},
            _ => {
                return Err(ValueError::InvalidHostname);
            },
        }
        let provider = match self.provider {
            Some(p) => p,
            None => match (self.access_key, self.secret_key) {
                (Some(ak), Some(sk)) => StaticProvider::new(ak, sk, self.session_token),
                (None, _) => {
                    return Err(ValueError::MissingAccessKey);
                },
                (Some(_), None) => {
                    return Err(ValueError::MissingSecretKey);
                },
            },
        };
        if !is_valid_header_value(self.agent.as_str()) {
            return Err(ValueError::InvalidAgent);
        }
        let (host, secure) = strip_scheme(host, self.secure);
        if !is_valid_header_value(host.as_str()) {
            return Err(ValueError::InvalidHost);
        }
        Ok(ClientConfig { host, secure, region: self.region, agent: self.agent, provider })
    }
}

/// The host with a leading `https://` or `http://` removed.
pub open spec fn host_without_scheme(h: Seq<char>) -> Seq<char> {
    if has_prefix(h, "https://"@) {
        h.skip(8)
    } else if has_prefix(h, "http://"@) {
        h.skip(7)
    } else {
        h
    }
}

/// `https://` means secure, `http://` not; without a scheme the setting decides.
pub open spec fn scheme_secure(h: Seq<char>, setting: bool) -> bool {
    if has_prefix(h, "https://"@) {
        true
    } else if has_prefix(h, "http://"@) {
        false
    } else {
        setting
    }
}

/// The first setting that `Builder::build` refuses, in the order it checks
/// them, or `None` when all are acceptable.
pub open spec fn build_error(b: Builder) -> Option<ValueError> {
    match b.host {
        None => Some(ValueError::MissingHost),
        Some(h) => if !(regex_compiles(HOST_PATTERN@) && regex_is_match(HOST_PATTERN@, h@)) {
            Some(ValueError::InvalidHostname)
        } else if b.provider is None && b.access_key is None {
            Some(ValueError::MissingAccessKey)
        } else if b.provider is None && b.secret_key is None {
            Some(ValueError::MissingSecretKey)
        } else if !valid_header_value(encode_utf8(b.agent@)) {
            Some(ValueError::InvalidAgent)
        } else if !valid_header_value(encode_utf8(host_without_scheme(h@))) {
            Some(ValueError::InvalidHost)
        } else {
            None
        },
    }
}

/// Splits a leading `https://` or `http://` off a host.
fn strip_scheme(host: String, default_secure: bool) -> (r: (String, bool))
    ensures
        has_prefix(host@, "https://"@) ==> r.1 && r.0@ == host@.skip(8),
        (!has_prefix(host@, "https://"@) && has_prefix(host@, "http://"@)) ==> !r.1 && r.0@
            == host@.skip(7),
        (!has_prefix(host@, "https://"@) && !has_prefix(host@, "http://"@)) ==> r.1
            == default_secure && r.0 == host,
{
    proof {
        reveal_strlit("https://");
        reveal_strlit("http://");
    }
    let n = host.as_str().unicode_len();
    if starts_with(host.as_str(), "https://") {
        let rest = host.as_str().substring_char(8, n);
        (rest.to_owned(), true)
    } else if starts_with(host.as_str(), "http://") {
        let rest = host.as_str().substring_char(7, n);
        (rest.to_owned(), false)
    } else {
        (host, default_secure)
    }
}

/// Whether a request may name this bucket and object: a bucket name that
/// passes `check_bucket_name`, and an object only non-empty and with a bucket.
pub open spec fn target_ok(bucket: Option<Seq<u8>>, object: Option<Seq<u8>>) -> bool {
    &&& bucket matches Some(b) ==> valid_bucket_name(b)
    &&& object matches Some(o) ==> o.len() > 0 && bucket is Some
}

/// The error of a target that `target_ok` refuses: the bucket name is
/// checked first, then the object name.
pub open spec fn target_error(bucket: Option<Seq<u8>>, object: Option<Seq<u8>>) -> ValueError {
    if bucket matches Some(b) && !valid_bucket_name(b) {
        ValueError::InvalidBucketName
    } else if object matches Some(o) && o.len() == 0 {
        ValueError::EmptyObjectName
    } else {
        ValueError::MissingBucketName
    }
}

pub open spec fn opt_bytes(s: Option<&str>) -> Option<Seq<u8>> {
    match s {
        Some(t) => Some(t.spec_bytes()),
        None => None,
    }
}

/// Validates the bucket and object names of a request.
pub fn check_target(bucket: Option<&str>, object: Option<&str>) -> (r: Result<(), ValueError>)
    ensures
        r is Ok <==> target_ok(opt_bytes(bucket), opt_bytes(object)),
        r is Err ==> r == Err::<(), ValueError>(target_error(opt_bytes(bucket), opt_bytes(object))),
{
    if let Some(b) = bucket {
        check_bucket_name(b)?;
    }
    if let Some(o) = object {
        if o.is_empty() {
            assert(o.spec_bytes() =~= Seq::<u8>::empty());
            return Err(ValueError::EmptyObjectName);
        }
        if bucket.is_none() {
            return Err(ValueError::MissingBucketName);
        }
        proof {
            if o.spec_bytes().len() == 0 {
                vstd::utf8::encode_utf8_decode_utf8(o@);
                assert(o.spec_bytes() =~= Seq::<u8>::empty());
            }
        }
    }
    Ok(())
}

/// The path of a request: `/bucket/object` with the object percent-encoded
/// (its `/` kept), `/bucket/` without an object, `/` without a bucket.
pub open spec fn request_path(bucket: Option<Seq<u8>>, object: Option<Seq<u8>>) -> Seq<u8> {
    match (bucket, object) {
        (Some(b), Some(o)) => seq![47u8] + b + seq![47u8] + uri_encode(o, true),
        (Some(b), None) => seq![47u8] + b + seq![47u8],
        _ => seq![47u8],
    }
}

pub fn build_path(bucket: Option<&str>, object: Option<&str>) -> (r: Vec<u8>)
    ensures
        r@ == request_path(opt_bytes(bucket), opt_bytes(object)),
{
    let mut r: Vec<u8> = Vec::new();
    r.push(47u8);
    match (bucket, object) {
        (Some(b), Some(o)) => {
            push_all(&mut r, b.as_bytes());
            r.push(47u8);
            let enc = uri_encode_bytes(o.as_bytes(), true);
            push_all(&mut r, enc.as_slice());
        },
        (Some(b), None) => {
            push_all(&mut r, b.as_bytes());
            r.push(47u8);
        },
        _ => {},
    }
    assert(r@ =~= request_path(opt_bytes(bucket), opt_bytes(object)));
    r
}

/// Decimal digits of `n`, without leading zeros.
pub open spec fn decimal(n: nat) -> Seq<u8>
    decreases n,
{
    if n < 10 {
        seq![(48u8 + n) as u8]
    } else {
        decimal(n / 10) + seq![(48u8 + n % 10) as u8]
    }
}

pub fn decimal_bytes(n: usize) -> (r: Vec<u8>)
    ensures
        r@ == decimal(n as nat),
    decreases n,
{
    if n < 10 {
        let mut r: Vec<u8> = Vec::new();
        r.push(48u8 + n as u8);
        r
    } else {
        let mut r = decimal_bytes(n / 10);
        r.push(48u8 + (n % 10) as u8);
        r
    }
}

pub open spec fn header(name: &str, value: Seq<u8>) -> (Seq<u8>, Seq<u8>) {
    (name.spec_bytes(), value)
}

/// The headers every signed request carries, after the caller's own:
/// host, user agent, content length when a body is sent, payload hash,
/// date, and the session token of temporary credentials.
pub open spec fn required_headers(
    host: Seq<u8>,
    agent: Seq<u8>,
    body_len: Option<nat>,
    payload_hash: Seq<u8>,
    date: AmzDate,
    token: Option<Seq<u8>>,
) -> Seq<(Seq<u8>, Seq<u8>)> {
    seq![header("host", host), header("user-agent", agent)]
        + (match body_len {
        Some(n) => seq![header("content-length", decimal(n))],
        None => Seq::empty(),
    }) + seq![header("x-amz-content-sha256", payload_hash), header("x-amz-date", amz_timestamp(date))]
        + (match token {
        Some(t) => seq![header("x-amz-security-token", t)],
        None => Seq::empty(),
    })
}

/// `?` and the query when there is one.
pub open spec fn query_suffix(query: Option<&str>) -> Seq<u8> {
    match query {
        Some(q) => seq![63u8] + q.spec_bytes(),
        None => Seq::empty(),
    }
}

/// The parameters that a query string holds, as signed.
pub open spec fn query_params(query: Option<&str>) -> Seq<(Seq<u8>, Seq<u8>)> {
    match query {
        Some(q) => split_query(q.spec_bytes()),
        None => Seq::empty(),
    }
}

/// Header names that the client sets itself, whatever their case.
pub open spec fn is_reserved(name: Seq<u8>) -> bool {
    let n = to_lower(name);
    ||| n == "host".spec_bytes()
    ||| n == "user-agent".spec_bytes()
    ||| n == "content-length".spec_bytes()
    ||| n == "x-amz-content-sha256".spec_bytes()
    ||| n == "x-amz-date".spec_bytes()
    ||| n == "x-amz-security-token".spec_bytes()
    ||| n == "authorization".spec_bytes()
}

/// The caller's headers without those the client sets itself.
pub open spec fn without_reserved(s: Seq<(Seq<u8>, Seq<u8>)>) -> Seq<(Seq<u8>, Seq<u8>)>
    decreases s.len(),
{
    if s.len() == 0 {
        s
    } else if is_reserved(s.last().0) {
        without_reserved(s.drop_last())
    } else {
        without_reserved(s.drop_last()).push(s.last())
    }
}

fn is_reserved_exec(name: &[u8]) -> (r: bool)
    ensures
        r == is_reserved(name@),
{
    let n = lowercase_bytes(name);
    let n = n.as_slice();
    bytes_equal(n, "host".as_bytes()) || bytes_equal(n, "user-agent".as_bytes()) || bytes_equal(
        n,
        "content-length".as_bytes(),
    ) || bytes_equal(n, "x-amz-content-sha256".as_bytes()) || bytes_equal(n, "x-amz-date".as_bytes())
        || bytes_equal(n, "x-amz-security-token".as_bytes()) || bytes_equal(
        n,
        "authorization".as_bytes(),
    )
}

/// Drops the caller's headers that the client sets itself.
pub fn drop_reserved(headers: &Vec<(Vec<u8>, Vec<u8>)>) -> (r: Vec<(Vec<u8>, Vec<u8>)>)
    ensures
        pairs_view(r@) == without_reserved(pairs_view(headers@)),
{
    let ghost hv = pairs_view(headers@);
    let mut r: Vec<(Vec<u8>, Vec<u8>)> = Vec::new();
    let mut i: usize = 0;
    assert(hv.take(0) =~= Seq::<(Seq<u8>, Seq<u8>)>::empty());
    while i < headers.len()
        invariant
            0 <= i <= headers@.len(),
            hv == pairs_view(headers@),
            pairs_view(r@) == without_reserved(hv.take(i as int)),
        decreases headers@.len() - i,
    {
        assert(hv.take(i + 1).drop_last() =~= hv.take(i as int));
        assert(hv.take(i + 1).last() == pair_view(headers@[i as int]));
        if !is_reserved_exec(headers[i].0.as_slice()) {
            let mut n: Vec<u8> = Vec::new();
            push_all(&mut n, headers[i].0.as_slice());
            let mut v: Vec<u8> = Vec::new();
            push_all(&mut v, headers[i].1.as_slice());
            let ghost prev = r@;
            r.push((n, v));
            assert(pairs_view(r@) =~= pairs_view(prev).push(pair_view(headers@[i as int])));
        }
        i = i + 1;
    }
    assert(hv.take(i as int) =~= hv);
    r
}

/// A request ready for the transport: its URL and every header to send,
/// the signed ones as they were signed (lower-cased, trimmed, in order), then
/// `authorization`.
#[derive(Debug, Clone)]
pub struct PreparedRequest {
    pub url: Vec<u8>,
    pub headers: Vec<(Vec<u8>, Vec<u8>)>,
}

pub open spec fn payload_hash_of(body: Option<Seq<u8>>) -> Seq<u8> {
    match body {
        Some(b) => hex_encode(sha256_of(b)),
        None => hex_encode(sha256_of(Seq::empty())),
    }
}

pub open spec fn token_bytes(c: Credentials) -> Option<Seq<u8>> {
    match c.session_token {
        Some(t) => Some(encode_utf8(t@)),
        None => None,
    }
}

/// Lower-case hex SHA-256 of the body, or of no bytes when there is none.
pub fn payload_hash(body: Option<&[u8]>) -> (r: String)
    ensures
        encode_utf8(r@) == payload_hash_of(match body {
            Some(b) => Some(b@),
            None => None,
        }),
{
    match body {
        Some(b) => sha256_hash(b),
        None => {
            let empty: Vec<u8> = Vec::new();
            assert(empty@ =~= Seq::<u8>::empty());
            sha256_hash(empty.as_slice())
        },
    }
}

fn push_header(v: &mut Vec<(Vec<u8>, Vec<u8>)>, name: &str, value: Vec<u8>)
    ensures
        pairs_view(final(v)@) == pairs_view(old(v)@).push(header(name, value@)),
{
    let mut n: Vec<u8> = Vec::new();
    push_all(&mut n, name.as_bytes());
    v.push((n, value));
    assert(pairs_view(final(v)@) =~= pairs_view(old(v)@).push(header(name, value@)));
}

fn str_bytes(s: &str) -> (r: Vec<u8>)
    ensures
        r@ == s.spec_bytes(),
{
    let mut r: Vec<u8> = Vec::new();
    push_all(&mut r, s.as_bytes());
    r
}

impl ClientConfig {
    /// Scheme, host, path, then `?` and the query exactly as given.
    pub fn build_url(&self, path: &[u8], query: Option<&str>) -> (r: Vec<u8>)
        ensures
            r@ == self.spec_base() + path@ + query_suffix(query),
    {
        let mut url: Vec<u8> = Vec::new();
        if self.secure {
            push_all(&mut url, "https://".as_bytes());
        } else {
            push_all(&mut url, "http://".as_bytes());
        }
        push_all(&mut url, self.host.as_str().as_bytes());
        push_all(&mut url, path);
        if let Some(q) = query {
            url.push(63u8);
            push_all(&mut url, q.as_bytes());
        }
        assert(url@ =~= self.spec_base() + path@ + query_suffix(query));
        url
    }

    /// The caller's headers followed by the required ones.
    pub fn required_header_list(
        &self,
        extra_headers: Vec<(Vec<u8>, Vec<u8>)>,
        body: Option<&[u8]>,
        hash: &str,
        date: &AmzDate,
        token: Option<&str>,
    ) -> (r: Vec<(Vec<u8>, Vec<u8>)>)
        ensures
            pairs_view(r@) == pairs_view(extra_headers@) + required_headers(
                encode_utf8(self.host@),
                encode_utf8(self.agent@),
                match body {
                    Some(b) => Some(b@.len()),
                    None => None,
                },
                hash.spec_bytes(),
                *date,
                opt_bytes(token),
            ),
    {
        let mut headers = extra_headers;
        push_header(&mut headers, "host", str_bytes(self.host.as_str()));
        push_header(&mut headers, "user-agent", str_bytes(self.agent.as_str()));
        if let Some(b) = body {
            push_header(&mut headers, "content-length", decimal_bytes(b.len()));
        }
        push_header(&mut headers, "x-amz-content-sha256", str_bytes(hash));
        push_header(&mut headers, "x-amz-date", date.timestamp());
        if let Some(t) = token {
            push_header(&mut headers, "x-amz-security-token", str_bytes(t));
        }
        assert(pairs_view(headers@) =~= pairs_view(extra_headers@) + required_headers(
            encode_utf8(self.host@),
            encode_utf8(self.agent@),
            match body {
                Some(b) => Some(b@.len()),
                None => None,
            },
            hash.spec_bytes(),
            *date,
            opt_bytes(token),
        ));
        headers
    }

    /// Validates the target, then builds the URL, the headers to sign and the
    /// `Authorization` header of one request, signed with `credentials` at `date`.
    /// `query` is already percent-encoded: it is appended as given, and its
    /// parameters are signed as they stand.
    pub fn prepare_request(
        &self,
        method: &str,
        bucket: Option<&str>,
        object: Option<&str>,
        query: Option<&str>,
        body: Option<&[u8]>,
        extra_headers: Vec<(Vec<u8>, Vec<u8>)>,
        credentials: &Credentials,
        date: &AmzDate,
    ) -> (r: Result<PreparedRequest, ValueError>)
        ensures
            r is Ok <==> target_ok(opt_bytes(bucket), opt_bytes(object)),
            r is Err ==> r == Err::<PreparedRequest, ValueError>(
                target_error(opt_bytes(bucket), opt_bytes(object))),
            r matches Ok(req) ==> {
                let path = request_path(opt_bytes(bucket), opt_bytes(object));
                let body_view = match body {
                    Some(b) => Some(b@),
                    None => None,
                };
                let hash = payload_hash_of(body_view);
                let signed = without_reserved(pairs_view(extra_headers@)) + required_headers(
                    encode_utf8(self.host@),
                    encode_utf8(self.agent@),
                    match body {
                        Some(b) => Some(b@.len()),
                        None => None,
                    },
                    hash,
                    *date,
                    token_bytes(*credentials),
                );
                &&& req.url@ == self.spec_base() + path + query_suffix(query)
                &&& pairs_view(req.headers@) == sorted_headers(signed).push(
                    header(
                        "authorization",
                        sign_v4(
                            method.spec_bytes(),
                            path,
                            query_params(query),
                            signed,
                            encode_utf8(credentials.access_key@),
                            encode_utf8(credentials.secret_key@),
                            encode_utf8(self.region@),
                            "s3".spec_bytes(),
                            hash,
                            *date,
                        ),
                    ),
                )
            },
    {
        match check_target(bucket, object) {
            Ok(()) => {},
            Err(e) => {
                return Err(e);
            },
        }
        let path = build_path(bucket, object);
        let url = self.build_url(path.as_slice(), query);
        let params = match query {
            Some(q) => split_query_bytes(q.as_bytes()),
            None => Vec::new(),
        };
        assert(pairs_view(params@) =~= query_params(query));
        let hash = payload_hash(body);
        let token = credentials.session_token();
        let own = drop_reserved(&extra_headers);
        let headers = self.required_header_list(own, body, hash.as_str(), date, token);
        let mut headers = headers;
        let auth = sign_v4_authorization(
            method,
            path.as_slice(),
            &params,
            &headers,
            credentials.access_key(),
            credentials.secret_key(),
            self.region.as_str(),
            "s3",
            hash.as_str(),
            date,
        );
        let mut sent = sort_pairs(normalize_header_list(&headers));
        push_header(&mut sent, "authorization", auth);
        Ok(PreparedRequest { url, headers: sent })
    }
}

} // verus!
