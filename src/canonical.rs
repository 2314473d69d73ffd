use vstd::prelude::*;
use crate::encoding::{push_all, uri_encode, uri_encode_bytes};
use crate::sort::{pair_view, pairs_view, sort_pairs, sort_pairs_spec};

verus! {

pub open spec fn is_space(c: u8) -> bool {
    c == 32u8 || c == 9u8
}

pub open spec fn lower_byte(c: u8) -> u8 {
    if 65u8 <= c && c <= 90u8 { (c + 32) as u8 } else { c }
}

/// ASCII letters lower-cased, other bytes unchanged.
pub open spec fn to_lower(s: Seq<u8>) -> Seq<u8> {
    Seq::new(s.len(), |i: int| lower_byte(s[i]))
}

pub open spec fn trim_start(s: Seq<u8>) -> Seq<u8>
    decreases s.len(),
{
    if s.len() > 0 && is_space(s[0]) { trim_start(s.drop_first()) } else { s }
}

pub open spec fn trim_end(s: Seq<u8>) -> Seq<u8>
    decreases s.len(),
{
    if s.len() > 0 && is_space(s.last()) { trim_end(s.drop_last()) } else { s }
}

/// Spaces and tabs removed from both ends.
pub open spec fn trim(s: Seq<u8>) -> Seq<u8> {
    trim_end(trim_start(s))
}

/// `key=value`
pub open spec fn query_item(p: (Seq<u8>, Seq<u8>)) -> Seq<u8> {
    p.0 + seq![61u8] + p.1
}

/// The items joined with `&`.
pub open spec fn join_query(s: Seq<(Seq<u8>, Seq<u8>)>) -> Seq<u8>
    decreases s.len(),
{
    if s.len() == 0 {
        seq![]
    } else if s.len() == 1 {
        query_item(s[0])
    } else {
        join_query(s.drop_last()) + seq![38u8] + query_item(s.last())
    }
}

/// Each parameter's key and value percent-encoded.
pub open spec fn encode_params(s: Seq<(Seq<u8>, Seq<u8>)>) -> Seq<(Seq<u8>, Seq<u8>)> {
    Seq::new(s.len(), |i: int| (uri_encode(s[i].0, false), uri_encode(s[i].1, false)))
}

/// The canonical query string of parameters that are already percent-encoded:
/// sorted by key then value, joined with `&`.
pub open spec fn canonical_query(params: Seq<(Seq<u8>, Seq<u8>)>) -> Seq<u8> {
    join_query(sort_pairs_spec(params))
}

/// Position of the first `c` in `s`.
pub open spec fn first_index(s: Seq<u8>, c: u8) -> Option<nat>
    decreases s.len(),
{
    if s.len() == 0 {
        None
    } else if s[0] == c {
        Some(0)
    } else {
        match first_index(s.drop_first(), c) {
            Some(i) => Some(i + 1),
            None => None,
        }
    }
}

/// `key=value` split at its first `=`; without one, the value is empty.
pub open spec fn split_item(item: Seq<u8>) -> (Seq<u8>, Seq<u8>) {
    match first_index(item, 61u8) {
        Some(i) => (item.take(i as int), item.skip((i + 1) as int)),
        None => (item, Seq::empty()),
    }
}

/// The parameters of a query string, split at each `&`, in order.
pub open spec fn split_query(q: Seq<u8>) -> Seq<(Seq<u8>, Seq<u8>)>
    decreases q.len(),
{
    match first_index(q, 38u8) {
        Some(i) => if i < q.len() {
            seq![split_item(q.take(i as int))] + split_query(q.skip((i + 1) as int))
        } else {
            seq![]
        },
        None => seq![split_item(q)],
    }
}

/// A header as it is signed: name lower-cased, value trimmed.
pub open spec fn normalize_header(p: (Seq<u8>, Seq<u8>)) -> (Seq<u8>, Seq<u8>) {
    (to_lower(p.0), trim(p.1))
}

pub open spec fn normalize_headers(s: Seq<(Seq<u8>, Seq<u8>)>) -> Seq<(Seq<u8>, Seq<u8>)> {
    Seq::new(s.len(), |i: int| normalize_header(s[i]))
}

/// One `name:value\n` line per header.
pub open spec fn header_lines(s: Seq<(Seq<u8>, Seq<u8>)>) -> Seq<u8>
    decreases s.len(),
{
    if s.len() == 0 {
        seq![]
    } else {
        header_lines(s.drop_last()) + s.last().0 + seq![58u8] + s.last().1 + seq![10u8]
    }
}

/// The header names joined with `;`.
pub open spec fn header_names(s: Seq<(Seq<u8>, Seq<u8>)>) -> Seq<u8>
    decreases s.len(),
{
    if s.len() == 0 {
        seq![]
    } else if s.len() == 1 {
        s[0].0
    } else {
        header_names(s.drop_last()) + seq![59u8] + s.last().0
    }
}

pub open spec fn sorted_headers(headers: Seq<(Seq<u8>, Seq<u8>)>) -> Seq<(Seq<u8>, Seq<u8>)> {
    sort_pairs_spec(normalize_headers(headers))
}

pub open spec fn canonical_headers(headers: Seq<(Seq<u8>, Seq<u8>)>) -> Seq<u8> {
    header_lines(sorted_headers(headers))
}

pub open spec fn signed_headers(headers: Seq<(Seq<u8>, Seq<u8>)>) -> Seq<u8> {
    header_names(sorted_headers(headers))
}

/// METHOD, URI, query, header lines, signed header names and payload hash,
/// separated by newlines.
pub open spec fn canonical_request(
    method: Seq<u8>,
    uri: Seq<u8>,
    params: Seq<(Seq<u8>, Seq<u8>)>,
    headers: Seq<(Seq<u8>, Seq<u8>)>,
    payload_hash: Seq<u8>,
) -> Seq<u8> {
    method + seq![10u8] + uri + seq![10u8] + canonical_query(params) + seq![10u8]
        + canonical_headers(headers) + seq![10u8] + signed_headers(headers) + seq![10u8]
        + payload_hash
}

fn lower_exec(c: u8) -> (r: u8)
    ensures
        r == lower_byte(c),
{
    if 65u8 <= c && c <= 90u8 { c + 32 } else { c }
}

fn is_space_exec(c: u8) -> (r: bool)
    ensures
        r == is_space(c),
{
    c == 32u8 || c == 9u8
}

pub fn lowercase_bytes(s: &[u8]) -> (r: Vec<u8>)
    ensures
        r@ == to_lower(s@),
{
    let mut r: Vec<u8> = Vec::new();
    let mut i: usize = 0;
    while i < s.len()
        invariant
            0 <= i <= s@.len(),
            r@ == to_lower(s@.subrange(0, i as int)),
        decreases s@.len() - i,
    {
        r.push(lower_exec(s[i]));
        i = i + 1;
        assert(r@ =~= to_lower(s@.subrange(0, i as int)));
    }
    assert(s@.subrange(0, s@.len() as int) =~= s@);
    r
}

pub fn trim_bytes(s: &[u8]) -> (r: Vec<u8>)
    ensures
        r@ == trim(s@),
{
    let mut i: usize = 0;
    assert(s@.skip(0) =~= s@);
    while i < s.len() && is_space_exec(s[i])
        invariant
            0 <= i <= s@.len(),
            trim_start(s@) == trim_start(s@.skip(i as int)),
        decreases s@.len() - i,
    {
        assert(s@.skip(i as int).drop_first() =~= s@.skip(i + 1));
        i = i + 1;
    }
    let ghost t = s@.skip(i as int);
    assert(trim_start(s@) == t) by {
        if i < s@.len() {
            assert(t[0] == s@[i as int]);
        }
    }
    let mut j: usize = s.len();
    assert(t.subrange(0, (j - i) as int) =~= t);
    while j > i && is_space_exec(s[j - 1])
        invariant
            i <= j <= s@.len(),
            t == s@.skip(i as int),
            trim_end(t) == trim_end(t.subrange(0, (j - i) as int)),
        decreases j,
    {
        assert(t.subrange(0, (j - i) as int).drop_last() =~= t.subrange(0, (j - 1 - i) as int));
        j = j - 1;
    }
    assert(trim_end(t.subrange(0, (j - i) as int)) == t.subrange(0, (j - i) as int));
    let mut r: Vec<u8> = Vec::new();
    push_all(&mut r, &s[i..j]);
    assert(r@ =~= t.subrange(0, (j - i) as int));
    r
}

/// Joins parameters, already encoded and in order, into a query string.
pub fn join_query_bytes(s: &Vec<(Vec<u8>, Vec<u8>)>) -> (r: Vec<u8>)
    ensures
        r@ == join_query(pairs_view(s@)),
{
    let ghost sv = pairs_view(s@);
    let mut r: Vec<u8> = Vec::new();
    let mut i: usize = 0;
    assert(sv.subrange(0, 0) =~= Seq::<(Seq<u8>, Seq<u8>)>::empty());
    while i < s.len()
        invariant
            0 <= i <= s@.len(),
            sv == pairs_view(s@),
            r@ == join_query(sv.subrange(0, i as int)),
        decreases s@.len() - i,
    {
        assert(sv.subrange(0, i + 1).drop_last() =~= sv.subrange(0, i as int));
        assert(sv.subrange(0, i + 1).last() == pair_view(s@[i as int]));
        if i > 0 {
            r.push(38u8);
        }
        push_all(&mut r, s[i].0.as_slice());
        r.push(61u8);
        push_all(&mut r, s[i].1.as_slice());
        proof {
            if i == 0 {
                assert(r@ =~= query_item(sv.subrange(0, 1)[0]));
            } else {
                assert(r@ =~= join_query(sv.subrange(0, i as int)) + seq![38u8] + query_item(
                    sv.subrange(0, i + 1).last(),
                ));
            }
        }
        i = i + 1;
    }
    assert(sv.subrange(0, s@.len() as int) =~= sv);
    r
}

/// Each parameter's key and value percent-encoded, in order.
pub fn encode_param_list(params: &Vec<(Vec<u8>, Vec<u8>)>) -> (r: Vec<(Vec<u8>, Vec<u8>)>)
    ensures
        pairs_view(r@) == encode_params(pairs_view(params@)),
{
    let mut enc: Vec<(Vec<u8>, Vec<u8>)> = Vec::new();
    let mut i: usize = 0;
    while i < params.len()
        invariant
            0 <= i <= params@.len(),
            enc@.len() == i,
            pairs_view(enc@) =~= encode_params(pairs_view(params@.subrange(0, i as int))),
        decreases params@.len() - i,
    {
        let k = uri_encode_bytes(params[i].0.as_slice(), false);
        let v = uri_encode_bytes(params[i].1.as_slice(), false);
        let ghost prev = enc@;
        enc.push((k, v));
        i = i + 1;
        let ghost want = encode_params(pairs_view(params@.subrange(0, i as int)));
        assert forall|j: int| 0 <= j < i implies #[trigger] pairs_view(enc@)[j] == want[j] by {
            if j + 1 < i {
                assert(enc@[j] == prev[j]);
                assert(params@.subrange(0, i as int)[j] == params@.subrange(0, i - 1)[j]);
                assert(pairs_view(prev)[j] == encode_params(pairs_view(params@.subrange(0, i - 1)))[j]);
            } else {
                assert(params@.subrange(0, i as int)[j] == params@[j]);
                assert(pairs_view(enc@)[j] == pair_view(enc@[j]));
            }
        }
        assert(pairs_view(enc@) =~= want);
    }
    assert(params@.subrange(0, params@.len() as int) =~= params@);
    enc
}

/// A query string from raw (key, value) parameters: each encoded, in the
/// order given, joined with `&`.
pub fn query_string_bytes(params: &Vec<(Vec<u8>, Vec<u8>)>) -> (r: Vec<u8>)
    ensures
        r@ == join_query(encode_params(pairs_view(params@))),
{
    join_query_bytes(&encode_param_list(params))
}

fn copy_pairs(v: &Vec<(Vec<u8>, Vec<u8>)>) -> (r: Vec<(Vec<u8>, Vec<u8>)>)
    ensures
        pairs_view(r@) == pairs_view(v@),
{
    let mut r: Vec<(Vec<u8>, Vec<u8>)> = Vec::new();
    let mut i: usize = 0;
    while i < v.len()
        invariant
            0 <= i <= v@.len(),
            r@.len() == i,
            pairs_view(r@) =~= pairs_view(v@).take(i as int),
        decreases v@.len() - i,
    {
        let mut k: Vec<u8> = Vec::new();
        push_all(&mut k, v[i].0.as_slice());
        let mut x: Vec<u8> = Vec::new();
        push_all(&mut x, v[i].1.as_slice());
        let ghost prev = r@;
        r.push((k, x));
        assert(pairs_view(r@) =~= pairs_view(prev).push(pair_view(v@[i as int])));
        i = i + 1;
        assert(pairs_view(r@) =~= pairs_view(v@).take(i as int));
    }
    assert(pairs_view(v@).take(i as int) =~= pairs_view(v@));
    r
}

/// Builds the canonical query string from encoded (key, value) parameters.
pub fn canonical_query_bytes(params: &Vec<(Vec<u8>, Vec<u8>)>) -> (r: Vec<u8>)
    ensures
        r@ == canonical_query(pairs_view(params@)),
{
    let sorted = sort_pairs(copy_pairs(params));
    join_query_bytes(&sorted)
}

/// Position of the first `c` at or after `pos`.
fn find_byte(s: &[u8], pos: usize, c: u8) -> (r: Option<usize>)
    requires
        pos <= s@.len(),
    ensures
        match first_index(s@.skip(pos as int), c) {
            Some(i) => r matches Some(j) && j == pos + i && j < s@.len(),
            None => r is None,
        },
{
    let mut i: usize = pos;
    assert(s@.skip(pos as int).skip(0) =~= s@.skip(pos as int));
    while i < s.len() && s[i] != c
        invariant
            pos <= i <= s@.len(),
            first_index(s@.skip(pos as int), c) == match first_index(s@.skip(i as int), c) {
                Some(k) => Some((k + (i - pos)) as nat),
                None => None::<nat>,
            },
        decreases s@.len() - i,
    {
        assert(s@.skip(i as int).drop_first() =~= s@.skip(i + 1));
        assert(s@.skip(i as int)[0] == s@[i as int]);
        i = i + 1;
    }
    if i < s.len() {
        assert(s@.skip(i as int)[0] == s@[i as int]);
        Some(i)
    } else {
        None
    }
}

fn split_item_bytes(item: &[u8]) -> (r: (Vec<u8>, Vec<u8>))
    ensures
        pair_view(r) == split_item(item@),
{
    assert(item@.skip(0) =~= item@);
    let mut k: Vec<u8> = Vec::new();
    let mut v: Vec<u8> = Vec::new();
    match find_byte(item, 0, 61u8) {
        Some(i) => {
            let n = item.len();
            assert(i < n);
            push_all(&mut k, &item[0..i]);
            push_all(&mut v, &item[i + 1..item.len()]);
            assert(k@ =~= item@.take(i as int));
            assert(v@ =~= item@.skip(i + 1));
        },
        None => {
            push_all(&mut k, item);
            assert(v@ =~= Seq::<u8>::empty());
        },
    }
    (k, v)
}

/// Splits an encoded query string into its parameters, without decoding them.
pub fn split_query_bytes(q: &[u8]) -> (r: Vec<(Vec<u8>, Vec<u8>)>)
    ensures
        pairs_view(r@) == split_query(q@),
{
    let mut r: Vec<(Vec<u8>, Vec<u8>)> = Vec::new();
    let mut p: usize = 0;
    assert(q@.skip(0) =~= q@);
    assert(pairs_view(r@) + split_query(q@.skip(0)) =~= split_query(q@));
    loop
        invariant
            p <= q@.len(),
            pairs_view(r@) + split_query(q@.skip(p as int)) == split_query(q@),
        decreases q@.len() - p,
    {
        let ghost t = q@.skip(p as int);
        let ghost prev = pairs_view(r@);
        match find_byte(q, p, 38u8) {
            Some(e) => {
                let n = q.len();
                assert(e < n);
                let item = split_item_bytes(&q[p..e]);
                assert(q@.subrange(p as int, e as int) =~= t.take((e - p) as int));
                assert(t.skip((e - p) + 1) =~= q@.skip(e + 1));
                r.push(item);
                assert(pairs_view(r@) =~= prev.push(split_item(t.take((e - p) as int))));
                assert(prev + split_query(t) =~= pairs_view(r@) + split_query(q@.skip(e + 1)));
                p = e + 1;
            },
            None => {
                let item = split_item_bytes(&q[p..q.len()]);
                assert(q@.subrange(p as int, q@.len() as int) =~= t);
                r.push(item);
                assert(pairs_view(r@) =~= prev + split_query(t));
                return r;
            },
        }
    }
}

/// Lower-cases each header name and trims each value.
pub fn normalize_header_list(headers: &Vec<(Vec<u8>, Vec<u8>)>) -> (r: Vec<(Vec<u8>, Vec<u8>)>)
    ensures
        pairs_view(r@) == normalize_headers(pairs_view(headers@)),
{
    let mut r: Vec<(Vec<u8>, Vec<u8>)> = Vec::new();
    let mut i: usize = 0;
    while i < headers.len()
        invariant
            0 <= i <= headers@.len(),
            r@.len() == i,
            pairs_view(r@) =~= normalize_headers(pairs_view(headers@.subrange(0, i as int))),
        decreases headers@.len() - i,
    {
        let n = lowercase_bytes(headers[i].0.as_slice());
        let v = trim_bytes(headers[i].1.as_slice());
        let ghost prev = r@;
        r.push((n, v));
        i = i + 1;
        let ghost want = normalize_headers(pairs_view(headers@.subrange(0, i as int)));
        assert forall|j: int| 0 <= j < i implies #[trigger] pairs_view(r@)[j] == want[j] by {
            if j + 1 < i {
                assert(r@[j] == prev[j]);
                assert(headers@.subrange(0, i as int)[j] == headers@.subrange(0, i - 1)[j]);
                assert(pairs_view(prev)[j] == normalize_headers(pairs_view(headers@.subrange(0, i - 1)))[j]);
            } else {
                assert(headers@.subrange(0, i as int)[j] == headers@[j]);
                assert(pairs_view(r@)[j] == pair_view(r@[j]));
            }
        }
        assert(pairs_view(r@) =~= want);
    }
    assert(headers@.subrange(0, headers@.len() as int) =~= headers@);
    r
}

/// Header lines and signed header names of normalized headers in order.
pub fn header_block(s: &Vec<(Vec<u8>, Vec<u8>)>) -> (r: (Vec<u8>, Vec<u8>))
    ensures
        r.0@ == header_lines(pairs_view(s@)),
        r.1@ == header_names(pairs_view(s@)),
{
    let ghost sv = pairs_view(s@);
    let mut lines: Vec<u8> = Vec::new();
    let mut names: Vec<u8> = Vec::new();
    let mut i: usize = 0;
    assert(sv.subrange(0, 0) =~= Seq::<(Seq<u8>, Seq<u8>)>::empty());
    while i < s.len()
        invariant
            0 <= i <= s@.len(),
            sv == pairs_view(s@),
            lines@ == header_lines(sv.subrange(0, i as int)),
            names@ == header_names(sv.subrange(0, i as int)),
        decreases s@.len() - i,
    {
        let ghost pre = sv.subrange(0, i + 1);
        assert(pre.drop_last() =~= sv.subrange(0, i as int));
        assert(pre.last() == pair_view(s@[i as int]));
        push_all(&mut lines, s[i].0.as_slice());
        lines.push(58u8);
        push_all(&mut lines, s[i].1.as_slice());
        lines.push(10u8);
        if i > 0 {
            names.push(59u8);
        }
        push_all(&mut names, s[i].0.as_slice());
        proof {
            if i == 0 {
                assert(names@ =~= pre[0].0);
            } else {
                assert(names@ =~= header_names(pre.drop_last()) + seq![59u8] + pre.last().0);
            }
            assert(lines@ =~= header_lines(pre.drop_last()) + pre.last().0 + seq![58u8]
                + pre.last().1 + seq![10u8]);
        }
        i = i + 1;
    }
    assert(sv.subrange(0, s@.len() as int) =~= sv);
    (lines, names)
}

/// The canonical request of a request whose URI is already percent-encoded.
pub fn canonical_request_bytes(
    method: &[u8],
    uri: &[u8],
    params: &Vec<(Vec<u8>, Vec<u8>)>,
    headers: &Vec<(Vec<u8>, Vec<u8>)>,
    payload_hash: &[u8],
) -> (r: (Vec<u8>, Vec<u8>))
    ensures
        r.0@ == canonical_request(method@, uri@, pairs_view(params@), pairs_view(headers@), payload_hash@),
        r.1@ == signed_headers(pairs_view(headers@)),
{
    let query = canonical_query_bytes(params);
    let normalized = normalize_header_list(headers);
    let sorted = sort_pairs(normalized);
    let (lines, names) = header_block(&sorted);
    let mut r: Vec<u8> = Vec::new();
    push_all(&mut r, method);
    r.push(10u8);
    push_all(&mut r, uri);
    r.push(10u8);
    push_all(&mut r, query.as_slice());
    r.push(10u8);
    push_all(&mut r, lines.as_slice());
    r.push(10u8);
    push_all(&mut r, names.as_slice());
    r.push(10u8);
    push_all(&mut r, payload_hash);
    assert(r@ =~= canonical_request(method@, uri@, pairs_view(params@), pairs_view(headers@), payload_hash@));
    (r, names)
}

} // verus!
