use vstd::prelude::*;
use vstd::multiset::Multiset;

verus! {

/// The bytes of a (name, value) pair.
pub open spec fn pair_view(p: (Vec<u8>, Vec<u8>)) -> (Seq<u8>, Seq<u8>) {
    (p.0@, p.1@)
}

pub open spec fn pairs_view(v: Seq<(Vec<u8>, Vec<u8>)>) -> Seq<(Seq<u8>, Seq<u8>)> {
    Seq::new(v.len(), |i: int| pair_view(v[i]))
}

/// Byte-wise lexicographic order: a proper prefix comes first.
pub open spec fn bytes_lt(a: Seq<u8>, b: Seq<u8>) -> bool
    decreases a.len(),
{
    if a.len() == 0 {
        b.len() > 0
    } else if b.len() == 0 {
        false
    } else if a[0] != b[0] {
        a[0] < b[0]
    } else {
        bytes_lt(a.drop_first(), b.drop_first())
    }
}

/// Order on (name, value) pairs: by name, ties broken by value.
pub open spec fn pair_lt(a: (Seq<u8>, Seq<u8>), b: (Seq<u8>, Seq<u8>)) -> bool {
    bytes_lt(a.0, b.0) || (a.0 == b.0 && bytes_lt(a.1, b.1))
}

pub open spec fn pair_le(a: (Seq<u8>, Seq<u8>), b: (Seq<u8>, Seq<u8>)) -> bool {
    pair_lt(a, b) || a == b
}

/// Each pair is at most the next one.
pub open spec fn pairs_sorted(s: Seq<(Seq<u8>, Seq<u8>)>) -> bool {
    forall|i: int| 0 <= i && i + 1 < s.len() ==> pair_le(s[i], #[trigger] s[i + 1])
}

/// Where `x` goes in `r`: before the first pair greater than it.
pub open spec fn insert_pos(r: Seq<(Seq<u8>, Seq<u8>)>, x: (Seq<u8>, Seq<u8>)) -> nat
    decreases r.len(),
{
    if r.len() == 0 {
        0
    } else if pair_lt(x, r[0]) {
        0
    } else {
        1 + insert_pos(r.drop_first(), x)
    }
}

pub open spec fn insert_sorted(r: Seq<(Seq<u8>, Seq<u8>)>, x: (Seq<u8>, Seq<u8>)) -> Seq<
    (Seq<u8>, Seq<u8>),
> {
    r.insert(insert_pos(r, x) as int, x)
}

/// The pairs in order, equal pairs in the order they came.
pub open spec fn sort_pairs_spec(s: Seq<(Seq<u8>, Seq<u8>)>) -> Seq<(Seq<u8>, Seq<u8>)>
    decreases s.len(),
{
    if s.len() == 0 {
        s
    } else {
        insert_sorted(sort_pairs_spec(s.drop_first()), s[0])
    }
}

pub proof fn lemma_bytes_lt_total(a: Seq<u8>, b: Seq<u8>)
    ensures
        bytes_lt(a, b) || bytes_lt(b, a) || a == b,
        !(bytes_lt(a, b) && bytes_lt(b, a)),
    decreases a.len(),
{
    if a.len() > 0 && b.len() > 0 && a[0] == b[0] {
        lemma_bytes_lt_total(a.drop_first(), b.drop_first());
        if a.drop_first() == b.drop_first() {
            assert(a == seq![a[0]] + a.drop_first());
            assert(b == seq![b[0]] + b.drop_first());
        }
    } else if a.len() == 0 && b.len() == 0 {
        assert(a == b);
    }
}

proof fn lemma_pair_total(a: (Seq<u8>, Seq<u8>), b: (Seq<u8>, Seq<u8>))
    ensures
        !pair_lt(a, b) ==> pair_le(b, a),
{
    lemma_bytes_lt_total(a.0, b.0);
    lemma_bytes_lt_total(a.1, b.1);
}

proof fn lemma_insert_pos(r: Seq<(Seq<u8>, Seq<u8>)>, x: (Seq<u8>, Seq<u8>))
    ensures
        insert_pos(r, x) <= r.len(),
        forall|k: int| 0 <= k < insert_pos(r, x) ==> !pair_lt(x, #[trigger] r[k]),
        insert_pos(r, x) < r.len() ==> pair_lt(x, r[insert_pos(r, x) as int]),
    decreases r.len(),
{
    if r.len() > 0 && !pair_lt(x, r[0]) {
        lemma_insert_pos(r.drop_first(), x);
        assert forall|k: int| 0 <= k < insert_pos(r, x) implies !pair_lt(x, #[trigger] r[k]) by {
            if k > 0 {
                assert(r[k] == r.drop_first()[k - 1]);
            }
        }
    }
}

/// Inserting at `insert_pos` keeps a sorted sequence sorted.
pub proof fn lemma_insert_sorted(r: Seq<(Seq<u8>, Seq<u8>)>, x: (Seq<u8>, Seq<u8>))
    requires
        pairs_sorted(r),
    ensures
        pairs_sorted(insert_sorted(r, x)),
        insert_sorted(r, x).len() == r.len() + 1,
        insert_sorted(r, x).to_multiset() == r.to_multiset().insert(x),
{
    lemma_insert_pos(r, x);
    let p = insert_pos(r, x) as int;
    let t = insert_sorted(r, x);
    assert(t.len() == r.len() + 1);
    assert forall|i: int| 0 <= i && i + 1 < t.len() implies pair_le(t[i], #[trigger] t[i + 1]) by {
        if i + 1 < p {
            assert(t[i] == r[i] && t[i + 1] == r[i + 1]);
            assert(pair_le(r[i], r[i + 1]));
        } else if i + 1 == p {
            assert(t[i] == r[i] && t[i + 1] == x);
            lemma_pair_total(x, r[i]);
        } else if i == p {
            assert(t[i] == x && t[i + 1] == r[i]);
        } else {
            assert(t[i] == r[i - 1] && t[i + 1] == r[i]);
            assert(pair_le(r[i - 1], r[(i - 1) + 1]));
        }
    }
    vstd::seq_lib::to_multiset_insert(r, p, x);
}

/// The spec sort yields its input's pairs, each at most the next.
pub proof fn lemma_sort_pairs(s: Seq<(Seq<u8>, Seq<u8>)>)
    ensures
        pairs_sorted(sort_pairs_spec(s)),
        sort_pairs_spec(s).to_multiset() == s.to_multiset(),
        sort_pairs_spec(s).len() == s.len(),
    decreases s.len(),
{
    if s.len() > 0 {
        lemma_sort_pairs(s.drop_first());
        lemma_insert_sorted(sort_pairs_spec(s.drop_first()), s[0]);
        assert(s.drop_first().insert(0, s[0]) =~= s);
        vstd::seq_lib::to_multiset_insert(s.drop_first(), 0, s[0]);
    }
}

/// Whether `a` comes strictly before `b` byte-wise.
pub fn bytes_less(a: &[u8], b: &[u8]) -> (r: bool)
    ensures
        r == bytes_lt(a@, b@),
{
    let mut i: usize = 0;
    assert(a@.skip(0) =~= a@);
    assert(b@.skip(0) =~= b@);
    while i < a.len() && i < b.len()
        invariant
            0 <= i <= a@.len(),
            i <= b@.len(),
            bytes_lt(a@, b@) == bytes_lt(a@.skip(i as int), b@.skip(i as int)),
        decreases a@.len() - i,
    {
        if a[i] != b[i] {
            return a[i] < b[i];
        }
        assert(a@.skip(i as int).drop_first() == a@.skip(i + 1));
        assert(b@.skip(i as int).drop_first() == b@.skip(i + 1));
        i = i + 1;
    }
    i < b.len()
}

/// Whether two byte strings are equal.
pub fn bytes_equal(a: &[u8], b: &[u8]) -> (r: bool)
    ensures
        r == (a@ == b@),
{
    proof {
        lemma_bytes_lt_total(a@, b@);
        lemma_bytes_lt_total(a@, a@);
    }
    !bytes_less(a, b) && !bytes_less(b, a)
}

fn pair_less(a: &(Vec<u8>, Vec<u8>), b: &(Vec<u8>, Vec<u8>)) -> (r: bool)
    ensures
        r == pair_lt(pair_view(*a), pair_view(*b)),
{
    if bytes_less(a.0.as_slice(), b.0.as_slice()) {
        true
    } else if bytes_less(b.0.as_slice(), a.0.as_slice()) {
        false
    } else {
        proof {
            lemma_bytes_lt_total(a.0@, b.0@);
        }
        bytes_less(a.1.as_slice(), b.1.as_slice())
    }
}

/// Sorts (name, value) pairs by name, then by value.
pub fn sort_pairs(v: Vec<(Vec<u8>, Vec<u8>)>) -> (r: Vec<(Vec<u8>, Vec<u8>)>)
    ensures
        pairs_view(r@) == sort_pairs_spec(pairs_view(v@)),
        pairs_sorted(pairs_view(r@)),
        pairs_view(r@).to_multiset() == pairs_view(v@).to_multiset(),
{
    let ghost s = pairs_view(v@);
    let mut v = v;
    let mut r: Vec<(Vec<u8>, Vec<u8>)> = Vec::new();
    assert(s.skip(s.len() as int) =~= Seq::<(Seq<u8>, Seq<u8>)>::empty());
    while v.len() > 0
        invariant
            pairs_view(v@) == s.take(v@.len() as int),
            v@.len() <= s.len(),
            pairs_view(r@) == sort_pairs_spec(s.skip(v@.len() as int)),
        decreases v@.len(),
    {
        let ghost n = v@.len();
        let ghost vv = v@;
        let x = v.pop().unwrap();
        assert(pairs_view(v@) =~= s.take(n - 1));
        assert(s[n - 1] == pairs_view(vv)[n - 1]);
        assert(pair_view(x) == s[n - 1]);
        let ghost t = s.skip(n - 1);
        assert(t.drop_first() =~= s.skip(n as int));
        assert(t[0] == s[n - 1]);
        let ghost rv = pairs_view(r@);
        let mut j: usize = 0;
        assert(rv.skip(0) =~= rv);
        while j < r.len() && !pair_less(&x, &r[j])
            invariant
                0 <= j <= r@.len(),
                pairs_view(r@) == rv,
                insert_pos(rv, pair_view(x)) == j + insert_pos(rv.skip(j as int), pair_view(x)),
            decreases r@.len() - j,
        {
            assert(rv.skip(j as int).drop_first() =~= rv.skip(j + 1));
            assert(rv.skip(j as int)[0] == rv[j as int]);
            j = j + 1;
        }
        proof {
            if j < r@.len() {
                assert(rv.skip(j as int)[0] == rv[j as int]);
            }
        }
        r.insert(j, x);
        assert(pairs_view(r@) =~= rv.insert(j as int, pair_view(x)));
    }
    assert(s.skip(0) =~= s);
    proof {
        lemma_sort_pairs(s);
    }
    r
}

} // verus!
