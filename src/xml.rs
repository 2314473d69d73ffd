use vstd::prelude::*;
use crate::encoding::{push_all, string_from_utf8};
use vstd::utf8::{decode_utf8, encode_utf8, valid_utf8};

verus! {

pub open spec fn lt_ent() -> Seq<u8> {
    seq![38u8, 108u8, 116u8, 59u8]
}

pub open spec fn gt_ent() -> Seq<u8> {
    seq![38u8, 103u8, 116u8, 59u8]
}

pub open spec fn amp_ent() -> Seq<u8> {
    seq![38u8, 97u8, 109u8, 112u8, 59u8]
}

pub open spec fn quot_ent() -> Seq<u8> {
    seq![38u8, 113u8, 117u8, 111u8, 116u8, 59u8]
}

pub open spec fn apos_ent() -> Seq<u8> {
    seq![38u8, 97u8, 112u8, 111u8, 115u8, 59u8]
}

/// How one byte of text is written: markup characters as entities.
pub open spec fn escape_byte(c: u8) -> Seq<u8> {
    if c == 60u8 {
        lt_ent()
    } else if c == 62u8 {
        gt_ent()
    } else if c == 38u8 {
        amp_ent()
    } else if c == 34u8 {
        quot_ent()
    } else if c == 39u8 {
        apos_ent()
    } else {
        seq![c]
    }
}

pub open spec fn escape(s: Seq<u8>) -> Seq<u8>
    decreases s.len(),
{
    if s.len() == 0 {
        seq![]
    } else {
        escape(s.drop_last()) + escape_byte(s.last())
    }
}

pub open spec fn starts_with(s: Seq<u8>, p: Seq<u8>) -> bool {
    p.len() <= s.len() && s.take(p.len() as int) == p
}

/// The byte that an entity at the start of `s` stands for, and its length.
pub open spec fn entity(s: Seq<u8>) -> Option<(u8, nat)> {
    if starts_with(s, lt_ent()) {
        Some((60u8, 4))
    } else if starts_with(s, gt_ent()) {
        Some((62u8, 4))
    } else if starts_with(s, amp_ent()) {
        Some((38u8, 5))
    } else if starts_with(s, quot_ent()) {
        Some((34u8, 6))
    } else if starts_with(s, apos_ent()) {
        Some((39u8, 6))
    } else {
        None
    }
}

/// Text with the five entities replaced by their bytes; any other `&` stays.
pub open spec fn unescape(s: Seq<u8>) -> Seq<u8>
    decreases s.len(),
{
    if s.len() == 0 {
        seq![]
    } else {
        match entity(s) {
            Some((c, n)) => if n <= s.len() {
                seq![c] + unescape(s.skip(n as int))
            } else {
                seq![]
            },
            None => seq![s[0]] + unescape(s.drop_first()),
        }
    }
}

pub proof fn lemma_escape_concat(a: Seq<u8>, b: Seq<u8>)
    ensures
        escape(a + b) == escape(a) + escape(b),
    decreases b.len(),
{
    if b.len() == 0 {
        assert(a + b == a);
        assert(escape(a) + Seq::<u8>::empty() == escape(a));
    } else {
        lemma_escape_concat(a, b.drop_last());
        assert((a + b).drop_last() == a + b.drop_last());
        assert((a + b).last() == b.last());
    }
}

proof fn lemma_escape_first(s: Seq<u8>)
    requires
        s.len() > 0,
    ensures
        escape(s) == escape_byte(s[0]) + escape(s.drop_first()),
{
    lemma_escape_concat(seq![s[0]], s.drop_first());
    assert(seq![s[0]] + s.drop_first() == s);
    assert(seq![s[0]].drop_last() == Seq::<u8>::empty());
    assert(seq![s[0]].last() == s[0]);
    assert(escape(Seq::<u8>::empty()) == Seq::<u8>::empty());
    assert(escape(seq![s[0]]) == Seq::<u8>::empty() + escape_byte(s[0]));
    assert(Seq::<u8>::empty() + escape_byte(s[0]) == escape_byte(s[0]));
}

proof fn lemma_unescape_step(e: Seq<u8>, c: u8, r: Seq<u8>)
    requires
        e == escape_byte(c),
    ensures
        unescape(e + r) == seq![c] + unescape(r),
{
    let x = e + r;
    assert(x.len() > 0);
    if c == 60u8 || c == 62u8 || c == 38u8 || c == 34u8 || c == 39u8 {
        assert(x.take(e.len() as int) == e);
        assert(x.skip(e.len() as int) == r);
        assert(x.take(4) == e.take(4));
        if e.len() >= 5 {
            assert(x.take(5) == e.take(5));
        }
        if e.len() >= 6 {
            assert(x.take(6) == e.take(6));
        }
        if c == 60u8 {
            assert(starts_with(x, lt_ent()));
        } else if c == 62u8 {
            assert(!starts_with(x, lt_ent())) by {
                assert(x.take(4)[1] != lt_ent()[1]);
            }
            assert(starts_with(x, gt_ent()));
        } else if c == 38u8 {
            assert(!starts_with(x, lt_ent())) by {
                assert(x.take(4)[1] != lt_ent()[1]);
            }
            assert(!starts_with(x, gt_ent())) by {
                assert(x.take(4)[1] != gt_ent()[1]);
            }
            assert(starts_with(x, amp_ent()));
        } else if c == 34u8 {
            assert(!starts_with(x, lt_ent())) by {
                assert(x.take(4)[1] != lt_ent()[1]);
            }
            assert(!starts_with(x, gt_ent())) by {
                assert(x.take(4)[1] != gt_ent()[1]);
            }
            assert(!starts_with(x, amp_ent())) by {
                assert(x.take(5)[1] != amp_ent()[1]);
            }
            assert(starts_with(x, quot_ent()));
        } else {
            assert(!starts_with(x, lt_ent())) by {
                assert(x.take(4)[1] != lt_ent()[1]);
            }
            assert(!starts_with(x, gt_ent())) by {
                assert(x.take(4)[1] != gt_ent()[1]);
            }
            assert(!starts_with(x, amp_ent())) by {
                assert(x.take(5)[2] != amp_ent()[2]);
            }
            assert(!starts_with(x, quot_ent())) by {
                assert(x.take(6)[1] != quot_ent()[1]);
            }
            assert(starts_with(x, apos_ent()));
        }
    } else {
        assert(x[0] == c);
        assert(!starts_with(x, lt_ent())) by {
            if starts_with(x, lt_ent()) {
                assert(x.take(4)[0] == x[0]);
            }
        }
        assert(!starts_with(x, gt_ent())) by {
            if starts_with(x, gt_ent()) {
                assert(x.take(4)[0] == x[0]);
            }
        }
        assert(!starts_with(x, amp_ent())) by {
            if starts_with(x, amp_ent()) {
                assert(x.take(5)[0] == x[0]);
            }
        }
        assert(!starts_with(x, quot_ent())) by {
            if starts_with(x, quot_ent()) {
                assert(x.take(6)[0] == x[0]);
            }
        }
        assert(!starts_with(x, apos_ent())) by {
            if starts_with(x, apos_ent()) {
                assert(x.take(6)[0] == x[0]);
            }
        }
        assert(x.drop_first() == r);
    }
}

/// Unescaping undoes escaping.
pub proof fn lemma_unescape_escape(s: Seq<u8>)
    ensures
        unescape(escape(s)) == s,
    decreases s.len(),
{
    if s.len() == 0 {
        assert(escape(s) == Seq::<u8>::empty());
    } else {
        lemma_escape_first(s);
        lemma_unescape_step(escape_byte(s[0]), s[0], escape(s.drop_first()));
        lemma_unescape_escape(s.drop_first());
        assert(seq![s[0]] + s.drop_first() == s);
    }
}

/// Escaped text holds no `<`.
pub proof fn lemma_escape_no_lt(s: Seq<u8>)
    ensures
        forall|i: int| 0 <= i < escape(s).len() ==> #[trigger] escape(s)[i] != 60u8,
    decreases s.len(),
{
    if s.len() > 0 {
        lemma_escape_no_lt(s.drop_last());
        let a = escape(s.drop_last());
        let b = escape_byte(s.last());
        assert forall|i: int| 0 <= i < escape(s).len() implies #[trigger] escape(s)[i] != 60u8 by {
            if i < a.len() {
                assert(escape(s)[i] == a[i]);
            } else {
                assert(escape(s)[i] == b[i - a.len()]);
            }
        }
    }
}

fn escape_byte_exec(out: &mut Vec<u8>, c: u8)
    ensures
        final(out)@ == old(out)@ + escape_byte(c),
{
    if c == 60u8 {
        out.push(38u8);
        out.push(108u8);
        out.push(116u8);
        out.push(59u8);
    } else if c == 62u8 {
        out.push(38u8);
        out.push(103u8);
        out.push(116u8);
        out.push(59u8);
    } else if c == 38u8 {
        out.push(38u8);
        out.push(97u8);
        out.push(109u8);
        out.push(112u8);
        out.push(59u8);
    } else if c == 34u8 {
        out.push(38u8);
        out.push(113u8);
        out.push(117u8);
        out.push(111u8);
        out.push(116u8);
        out.push(59u8);
    } else if c == 39u8 {
        out.push(38u8);
        out.push(97u8);
        out.push(112u8);
        out.push(111u8);
        out.push(115u8);
        out.push(59u8);
    } else {
        out.push(c);
    }
    assert(final(out)@ =~= old(out)@ + escape_byte(c));
}

/// Appends `s` escaped as XML text.
pub fn push_escaped(out: &mut Vec<u8>, s: &[u8])
    ensures
        final(out)@ == old(out)@ + escape(s@),
{
    let mut i: usize = 0;
    while i < s.len()
        invariant
            0 <= i <= s@.len(),
            out@ == old(out)@ + escape(s@.take(i as int)),
        decreases s@.len() - i,
    {
        assert(s@.take(i + 1).drop_last() == s@.take(i as int));
        escape_byte_exec(out, s[i]);
        i = i + 1;
    }
    assert(s@.take(s@.len() as int) == s@);
}

pub open spec fn open_tag(name: Seq<u8>) -> Seq<u8> {
    seq![60u8] + name + seq![62u8]
}

pub open spec fn close_tag(name: Seq<u8>) -> Seq<u8> {
    seq![60u8, 47u8] + name + seq![62u8]
}

/// `<name>text</name>`, the text escaped.
pub open spec fn element(name: Seq<u8>, text: Seq<u8>) -> Seq<u8> {
    open_tag(name) + escape(text) + close_tag(name)
}

/// An element whose text is the UTF-8 encoding of `text`.
pub open spec fn str_element(name: Seq<u8>, text: Seq<char>) -> Seq<u8> {
    element(name, encode_utf8(text))
}

/// What follows `lit` at the start of `s`.
pub open spec fn take_lit(s: Seq<u8>, lit: Seq<u8>) -> Option<Seq<u8>> {
    if starts_with(s, lit) {
        Some(s.skip(lit.len() as int))
    } else {
        None
    }
}

/// Length of the text before the next `<`.
pub open spec fn text_len(s: Seq<u8>) -> nat
    decreases s.len(),
{
    if s.len() == 0 || s[0] == 60u8 {
        0
    } else {
        1 + text_len(s.drop_first())
    }
}

/// An element `name` at the start of `s`: its unescaped text and what follows.
pub open spec fn take_elem(s: Seq<u8>, name: Seq<u8>) -> Option<(Seq<u8>, Seq<u8>)> {
    match take_lit(s, open_tag(name)) {
        Some(s1) => match take_lit(s1.skip(text_len(s1) as int), close_tag(name)) {
            Some(s2) => Some((unescape(s1.take(text_len(s1) as int)), s2)),
            None => None,
        },
        None => None,
    }
}

/// An element `name` whose text is valid UTF-8: its characters and what follows.
pub open spec fn take_str(s: Seq<u8>, name: Seq<u8>) -> Option<(Seq<char>, Seq<u8>)> {
    match take_elem(s, name) {
        Some((t, r)) => if valid_utf8(t) {
            Some((decode_utf8(t), r))
        } else {
            None
        },
        None => None,
    }
}

pub proof fn lemma_take_lit(lit: Seq<u8>, r: Seq<u8>)
    ensures
        take_lit(lit + r, lit) == Some(r),
{
    assert((lit + r).take(lit.len() as int) == lit);
    assert((lit + r).skip(lit.len() as int) == r);
}

proof fn lemma_text_len(x: Seq<u8>, y: Seq<u8>)
    requires
        forall|i: int| 0 <= i < x.len() ==> #[trigger] x[i] != 60u8,
        y.len() > 0,
        y[0] == 60u8,
    ensures
        text_len(x + y) == x.len(),
    decreases x.len(),
{
    if x.len() == 0 {
        assert(x + y == y);
    } else {
        assert((x + y).drop_first() == x.drop_first() + y);
        assert((x + y)[0] == x[0]);
        lemma_text_len(x.drop_first(), y);
    }
}

/// An element written by `element` reads back as its text.
pub proof fn lemma_take_elem(name: Seq<u8>, t: Seq<u8>, r: Seq<u8>)
    ensures
        take_elem(element(name, t) + r, name) == Some((t, r)),
{
    let e = escape(t);
    let s = element(name, t) + r;
    let s1 = e + (close_tag(name) + r);
    assert(s == open_tag(name) + s1);
    lemma_take_lit(open_tag(name), s1);
    lemma_escape_no_lt(t);
    assert((close_tag(name) + r)[0] == 60u8);
    lemma_text_len(e, close_tag(name) + r);
    assert(s1.skip(e.len() as int) == close_tag(name) + r);
    assert(s1.take(e.len() as int) == e);
    lemma_take_lit(close_tag(name), r);
    lemma_unescape_escape(t);
}

pub proof fn lemma_take_str(name: Seq<u8>, c: Seq<char>, r: Seq<u8>)
    ensures
        take_str(str_element(name, c) + r, name) == Some((c, r)),
{
    lemma_take_elem(name, encode_utf8(c), r);
    vstd::utf8::encode_utf8_valid_utf8(c);
    vstd::utf8::encode_utf8_decode_utf8(c);
}

/// Where `lit` ends when `s` holds it at `pos`.
pub fn match_lit(s: &[u8], pos: usize, lit: &[u8]) -> (r: Option<usize>)
    requires
        pos <= s@.len(),
    ensures
        match take_lit(s@.skip(pos as int), lit@) {
            Some(rest) => r matches Some(p) && p <= s@.len() && s@.skip(p as int) == rest,
            None => r is None,
        },
{
    if lit.len() > s.len() - pos {
        return None;
    }
    let end: usize = pos + lit.len();
    let mut i: usize = 0;
    while i < lit.len()
        invariant
            end == pos + lit@.len(),
            pos + lit@.len() <= s@.len(),
            0 <= i <= lit@.len(),
            forall|j: int| 0 <= j < i ==> s@[pos + j] == lit@[j],
        decreases lit@.len() - i,
    {
        if s[pos + i] != lit[i] {
            assert(s@.skip(pos as int).take(lit@.len() as int)[i as int] != lit@[i as int]);
            return None;
        }
        i = i + 1;
    }
    assert(s@.skip(pos as int).take(lit@.len() as int) =~= lit@);
    assert(s@.skip(pos as int).skip(lit@.len() as int) =~= s@.skip(pos + lit@.len()));
    Some(pos + lit.len())
}

fn lit_bytes(c0: u8, c1: u8, c2: u8, c3: u8) -> (r: Vec<u8>)
    ensures
        r@ == seq![c0, c1, c2, c3],
{
    let mut r: Vec<u8> = Vec::new();
    r.push(c0);
    r.push(c1);
    r.push(c2);
    r.push(c3);
    assert(r@ =~= seq![c0, c1, c2, c3]);
    r
}

/// The entity at `pos`, as `entity` reads it.
fn entity_at(s: &[u8], pos: usize) -> (r: Option<(u8, usize)>)
    requires
        pos <= s@.len(),
    ensures
        match entity(s@.skip(pos as int)) {
            Some((c, n)) => r == Some((c, n as usize)),
            None => r is None,
        },
{
    let ghost t = s@.skip(pos as int);
    let lt = lit_bytes(38u8, 108u8, 116u8, 59u8);
    if match_lit(s, pos, lt.as_slice()).is_some() {
        return Some((60u8, 4));
    }
    let gt = lit_bytes(38u8, 103u8, 116u8, 59u8);
    if match_lit(s, pos, gt.as_slice()).is_some() {
        return Some((62u8, 4));
    }
    let mut amp = lit_bytes(38u8, 97u8, 109u8, 112u8);
    amp.push(59u8);
    assert(amp@ =~= amp_ent());
    if match_lit(s, pos, amp.as_slice()).is_some() {
        return Some((38u8, 5));
    }
    let mut quot = lit_bytes(38u8, 113u8, 117u8, 111u8);
    quot.push(116u8);
    quot.push(59u8);
    assert(quot@ =~= quot_ent());
    if match_lit(s, pos, quot.as_slice()).is_some() {
        return Some((34u8, 6));
    }
    let mut apos = lit_bytes(38u8, 97u8, 112u8, 111u8);
    apos.push(115u8);
    apos.push(59u8);
    assert(apos@ =~= apos_ent());
    if match_lit(s, pos, apos.as_slice()).is_some() {
        return Some((39u8, 6));
    }
    None
}

/// The text with its entities replaced.
pub fn unescape_bytes(s: &[u8]) -> (r: Vec<u8>)
    ensures
        r@ == unescape(s@),
{
    let mut r: Vec<u8> = Vec::new();
    let mut i: usize = 0;
    assert(s@.skip(0) =~= s@);
    while i < s.len()
        invariant
            0 <= i <= s@.len(),
            r@ + unescape(s@.skip(i as int)) == unescape(s@),
        decreases s@.len() - i,
    {
        let ghost t = s@.skip(i as int);
        match entity_at(s, i) {
            Some((c, n)) => {
                assert(t.skip(n as int) =~= s@.skip(i + n));
                r.push(c);
                i = i + n;
                assert(r@ + unescape(s@.skip(i as int)) =~= unescape(s@));
            },
            None => {
                assert(t[0] == s@[i as int]);
                assert(t.drop_first() =~= s@.skip(i + 1));
                r.push(s[i]);
                i = i + 1;
                assert(r@ + unescape(s@.skip(i as int)) =~= unescape(s@));
            },
        }
    }
    assert(s@.skip(i as int) =~= Seq::<u8>::empty());
    assert(r@ + Seq::<u8>::empty() =~= r@);
    r
}

/// Index of the next `<` at or after `pos`, or the end.
fn text_end(s: &[u8], pos: usize) -> (r: usize)
    requires
        pos <= s@.len(),
    ensures
        r == pos + text_len(s@.skip(pos as int)),
        r <= s@.len(),
{
    let mut i: usize = pos;
    assert(s@.skip(pos as int).skip(0) =~= s@.skip(pos as int));
    while i < s.len() && s[i] != 60u8
        invariant
            pos <= i <= s@.len(),
            text_len(s@.skip(pos as int)) == (i - pos) + text_len(s@.skip(i as int)),
        decreases s@.len() - i,
    {
        assert(s@.skip(i as int).drop_first() =~= s@.skip(i + 1));
        assert(s@.skip(i as int)[0] == s@[i as int]);
        i = i + 1;
    }
    proof {
        if i < s@.len() {
            assert(s@.skip(i as int)[0] == s@[i as int]);
        }
    }
    i
}

pub fn push_open(out: &mut Vec<u8>, name: &[u8])
    ensures
        final(out)@ == old(out)@ + open_tag(name@),
{
    out.push(60u8);
    push_all(out, name);
    out.push(62u8);
    assert(final(out)@ =~= old(out)@ + open_tag(name@));
}

pub fn push_close(out: &mut Vec<u8>, name: &[u8])
    ensures
        final(out)@ == old(out)@ + close_tag(name@),
{
    out.push(60u8);
    out.push(47u8);
    push_all(out, name);
    out.push(62u8);
    assert(final(out)@ =~= old(out)@ + close_tag(name@));
}

pub fn push_element(out: &mut Vec<u8>, name: &[u8], text: &[u8])
    ensures
        final(out)@ == old(out)@ + element(name@, text@),
{
    push_open(out, name);
    push_escaped(out, text);
    push_close(out, name);
    assert(final(out)@ =~= old(out)@ + element(name@, text@));
}

/// Reads the element `name` at `pos`: its unescaped text and where it ends.
pub fn read_elem(s: &[u8], pos: usize, name: &[u8]) -> (r: Option<(Vec<u8>, usize)>)
    requires
        pos <= s@.len(),
    ensures
        match take_elem(s@.skip(pos as int), name@) {
            Some((t, rest)) => r matches Some((v, p)) && v@ == t && p <= s@.len() && s@.skip(p as int)
                == rest,
            None => r is None,
        },
{
    let mut open: Vec<u8> = Vec::new();
    push_open(&mut open, name);
    assert(open@ =~= open_tag(name@));
    let p1 = match match_lit(s, pos, open.as_slice()) {
        Some(p) => p,
        None => {
            return None;
        },
    };
    let e = text_end(s, p1);
    let mut close: Vec<u8> = Vec::new();
    push_close(&mut close, name);
    assert(close@ =~= close_tag(name@));
    let ghost s1 = s@.skip(p1 as int);
    assert(s1.skip(text_len(s1) as int) =~= s@.skip(e as int));
    let p2 = match match_lit(s, e, close.as_slice()) {
        Some(p) => p,
        None => {
            return None;
        },
    };
    let text = unescape_bytes(&s[p1..e]);
    assert(s@.subrange(p1 as int, e as int) =~= s1.take(text_len(s1) as int));
    Some((text, p2))
}

/// Reads the element `name` at `pos` as a string.
pub fn read_str(s: &[u8], pos: usize, name: &[u8]) -> (r: Option<(String, usize)>)
    requires
        pos <= s@.len(),
    ensures
        match take_str(s@.skip(pos as int), name@) {
            Some((t, rest)) => r matches Some((v, p)) && v@ == t && p <= s@.len() && s@.skip(p as int)
                == rest,
            None => r is None,
        },
{
    match read_elem(s, pos, name) {
        Some((t, p)) => match string_from_utf8(t) {
            Some(v) => Some((v, p)),
            None => None,
        },
        None => None,
    }
}

pub fn open_tag_bytes(name: &[u8]) -> (r: Vec<u8>)
    ensures
        r@ == open_tag(name@),
{
    let mut r: Vec<u8> = Vec::new();
    push_open(&mut r, name);
    assert(r@ =~= open_tag(name@));
    r
}

pub fn close_tag_bytes(name: &[u8]) -> (r: Vec<u8>)
    ensures
        r@ == close_tag(name@),
{
    let mut r: Vec<u8> = Vec::new();
    push_close(&mut r, name);
    assert(r@ =~= close_tag(name@));
    r
}

pub open spec fn is_ws(c: u8) -> bool {
    c == 32u8 || c == 9u8 || c == 10u8 || c == 13u8
}

pub open spec fn skip_ws(s: Seq<u8>) -> Seq<u8>
    decreases s.len(),
{
    if s.len() > 0 && is_ws(s[0]) {
        skip_ws(s.drop_first())
    } else {
        s
    }
}

/// Length up to and including the first `?>`.
pub open spec fn pi_end(s: Seq<u8>) -> Option<nat>
    decreases s.len(),
{
    if s.len() < 2 {
        None
    } else if s[0] == 63u8 && s[1] == 62u8 {
        Some(2)
    } else {
        match pi_end(s.drop_first()) {
            Some(n) => Some(n + 1),
            None => None,
        }
    }
}

/// The document without a leading XML declaration and the blank space after it.
pub open spec fn skip_prolog(s: Seq<u8>) -> Option<Seq<u8>> {
    if starts_with(s, seq![60u8, 63u8]) {
        match pi_end(s) {
            Some(n) => Some(skip_ws(s.skip(n as int))),
            None => None,
        }
    } else {
        Some(s)
    }
}

/// Length up to and including the first `>`.
pub open spec fn gt_end(s: Seq<u8>) -> Option<nat>
    decreases s.len(),
{
    if s.len() == 0 {
        None
    } else if s[0] == 62u8 {
        Some(1)
    } else {
        match gt_end(s.drop_first()) {
            Some(n) => Some(n + 1),
            None => None,
        }
    }
}

/// The start tag of a document's root element, attributes allowed: what
/// follows it.
pub open spec fn take_root_open(s: Seq<u8>, name: Seq<u8>) -> Option<Seq<u8>> {
    match take_lit(s, seq![60u8] + name) {
        Some(r) => if r.len() > 0 && r[0] == 62u8 {
            Some(r.drop_first())
        } else if r.len() > 0 && is_ws(r[0]) {
            match gt_end(r) {
                Some(n) => Some(r.skip(n as int)),
                None => None,
            }
        } else {
            None
        },
        None => None,
    }
}

pub proof fn lemma_root_open(name: Seq<u8>, r: Seq<u8>)
    ensures
        take_root_open(open_tag(name) + r, name) == Some(r),
{
    let x = seq![62u8] + r;
    assert(open_tag(name) + r == (seq![60u8] + name) + x);
    lemma_take_lit(seq![60u8] + name, x);
    assert(x.drop_first() == r);
}

/// A document that starts with an element has no declaration to skip.
pub proof fn lemma_no_prolog(name: Seq<u8>, r: Seq<u8>)
    requires
        name.len() > 0,
        name[0] != 63u8,
    ensures
        skip_prolog(open_tag(name) + r) == Some(open_tag(name) + r),
{
    let s = open_tag(name) + r;
    if starts_with(s, seq![60u8, 63u8]) {
        assert(s.take(2)[1] == s[1]);
        assert(s[1] == name[0]);
    }
}

fn skip_ws_at(s: &[u8], pos: usize) -> (r: usize)
    requires
        pos <= s@.len(),
    ensures
        r <= s@.len(),
        s@.skip(r as int) == skip_ws(s@.skip(pos as int)),
{
    let mut i: usize = pos;
    while i < s.len() && (s[i] == 32u8 || s[i] == 9u8 || s[i] == 10u8 || s[i] == 13u8)
        invariant
            pos <= i <= s@.len(),
            skip_ws(s@.skip(pos as int)) == skip_ws(s@.skip(i as int)),
        decreases s@.len() - i,
    {
        assert(s@.skip(i as int).drop_first() =~= s@.skip(i + 1));
        assert(s@.skip(i as int)[0] == s@[i as int]);
        i = i + 1;
    }
    proof {
        if i < s@.len() {
            assert(s@.skip(i as int)[0] == s@[i as int]);
        }
    }
    i
}

/// Where the first `?>` at or after `pos` ends.
fn pi_end_at(s: &[u8], pos: usize) -> (r: Option<usize>)
    requires
        pos <= s@.len(),
    ensures
        r matches Some(p) ==> pos < p <= s@.len(),
        match pi_end(s@.skip(pos as int)) {
            Some(n) => r == Some((pos + n) as usize) && pos + n <= s@.len(),
            None => r is None,
        },
{
    let mut i: usize = pos;
    while i < s.len() && i + 1 < s.len() && !(s[i] == 63u8 && s[i + 1] == 62u8)
        invariant
            pos <= i <= s@.len(),
            pi_end(s@.skip(pos as int)) == match pi_end(s@.skip(i as int)) {
                Some(n) => Some((n + (i - pos)) as nat),
                None => None::<nat>,
            },
        decreases s@.len() - i,
    {
        assert(s@.skip(i as int).drop_first() =~= s@.skip(i + 1));
        assert(s@.skip(i as int)[0] == s@[i as int]);
        assert(s@.skip(i as int)[1] == s@[i + 1]);
        i = i + 1;
    }
    if i < s.len() && i + 1 < s.len() {
        assert(s@.skip(i as int)[0] == s@[i as int]);
        assert(s@.skip(i as int)[1] == s@[i + 1]);
        Some(i + 2)
    } else {
        None
    }
}

/// Where the first `>` at or after `pos` ends.
fn gt_end_at(s: &[u8], pos: usize) -> (r: Option<usize>)
    requires
        pos <= s@.len(),
    ensures
        r matches Some(p) ==> pos < p <= s@.len(),
        match gt_end(s@.skip(pos as int)) {
            Some(n) => r == Some((pos + n) as usize) && pos + n <= s@.len(),
            None => r is None,
        },
{
    let mut i: usize = pos;
    while i < s.len() && s[i] != 62u8
        invariant
            pos <= i <= s@.len(),
            gt_end(s@.skip(pos as int)) == match gt_end(s@.skip(i as int)) {
                Some(n) => Some((n + (i - pos)) as nat),
                None => None::<nat>,
            },
        decreases s@.len() - i,
    {
        assert(s@.skip(i as int).drop_first() =~= s@.skip(i + 1));
        assert(s@.skip(i as int)[0] == s@[i as int]);
        i = i + 1;
    }
    if i < s.len() {
        assert(s@.skip(i as int)[0] == s@[i as int]);
        Some(i + 1)
    } else {
        None
    }
}

/// Where the document's content starts, past any XML declaration.
pub fn skip_prolog_at(s: &[u8]) -> (r: Option<usize>)
    ensures
        match skip_prolog(s@) {
            Some(t) => r matches Some(p) && p <= s@.len() && s@.skip(p as int) == t,
            None => r is None,
        },
{
    let mut pi: Vec<u8> = Vec::new();
    pi.push(60u8);
    pi.push(63u8);
    assert(pi@ =~= seq![60u8, 63u8]);
    assert(s@.skip(0) =~= s@);
    let m = match_lit(s, 0, pi.as_slice());
    if m.is_some() {
        assert(starts_with(s@, seq![60u8, 63u8]));
        match pi_end_at(s, 0) {
            Some(p) => {
                let q = skip_ws_at(s, p);
                assert(s@.skip(0) == s@);
                assert(pi_end(s@.skip(0)) is Some);
                let ghost n = pi_end(s@)->Some_0;
                let len = s.len();
                assert(n <= len);
                assert(p as int == n);
                assert(skip_prolog(s@) == Some(skip_ws(s@.skip(p as int))));
                Some(q)
            },
            None => None,
        }
    } else {
        assert(!starts_with(s@, seq![60u8, 63u8]));
        Some(0)
    }
}

/// Where the root start tag `name` at `pos` ends, attributes allowed.
pub fn root_open_at(s: &[u8], pos: usize, name: &[u8]) -> (r: Option<usize>)
    requires
        pos <= s@.len(),
    ensures
        match take_root_open(s@.skip(pos as int), name@) {
            Some(t) => r matches Some(p) && p <= s@.len() && s@.skip(p as int) == t,
            None => r is None,
        },
{
    let mut head: Vec<u8> = Vec::new();
    head.push(60u8);
    push_all(&mut head, name);
    assert(head@ =~= seq![60u8] + name@);
    let p = match match_lit(s, pos, head.as_slice()) {
        Some(p) => p,
        None => {
            return None;
        },
    };
    if p < s.len() && s[p] == 62u8 {
        assert(s@.skip(p as int)[0] == s@[p as int]);
        assert(s@.skip(p as int).drop_first() =~= s@.skip(p + 1));
        Some(p + 1)
    } else if p < s.len() && (s[p] == 32u8 || s[p] == 9u8 || s[p] == 10u8 || s[p] == 13u8) {
        assert(s@.skip(p as int)[0] == s@[p as int]);
        match gt_end_at(s, p) {
            Some(q) => {
                assert(s@.skip(p as int).skip(q - p) =~= s@.skip(q as int));
                Some(q)
            },
            None => None,
        }
    } else {
        proof {
            if p < s@.len() {
                assert(s@.skip(p as int)[0] == s@[p as int]);
            }
        }
        None
    }
}

/// An element with a text body and no children at the start of `s`,
/// whatever its name: what follows it.
pub open spec fn take_other(s: Seq<u8>) -> Option<Seq<u8>> {
    if s.len() >= 2 && s[0] == 60u8 && s[1] != 47u8 {
        match gt_end(s.drop_first()) {
            Some(n) => {
                let name = s.subrange(1, n as int);
                let s1 = s.skip(n as int + 1);
                take_lit(s1.skip(text_len(s1) as int), close_tag(name))
            },
            None => None,
        }
    } else {
        None
    }
}

/// Skips text-only elements until the start tag `name`, or until none is left
/// to skip.
pub open spec fn skip_unknown(s: Seq<u8>, name: Seq<u8>) -> Seq<u8>
    decreases s.len(),
{
    if starts_with(s, open_tag(name)) {
        s
    } else {
        match take_other(s) {
            Some(r) => if r.len() < s.len() {
                skip_unknown(r, name)
            } else {
                s
            },
            None => s,
        }
    }
}

/// An element `name` after any unknown text-only elements.
pub open spec fn take_field(s: Seq<u8>, name: Seq<u8>) -> Option<(Seq<char>, Seq<u8>)> {
    take_str(skip_unknown(s, name), name)
}

/// The end tag `name` after any unknown text-only elements.
pub open spec fn take_end(s: Seq<u8>, name: Seq<u8>) -> Option<Seq<u8>> {
    take_lit(skip_unknown(s, seq![47u8] + name), close_tag(name))
}

pub proof fn lemma_take_field(name: Seq<u8>, c: Seq<char>, r: Seq<u8>)
    ensures
        take_field(str_element(name, c) + r, name) == Some((c, r)),
{
    let s = str_element(name, c) + r;
    assert(s == open_tag(name) + (escape(encode_utf8(c)) + close_tag(name) + r));
    lemma_take_lit(open_tag(name), escape(encode_utf8(c)) + close_tag(name) + r);
    lemma_take_str(name, c, r);
}

pub proof fn lemma_take_end(name: Seq<u8>, r: Seq<u8>)
    ensures
        take_end(close_tag(name) + r, name) == Some(r),
{
    let s = close_tag(name) + r;
    assert(close_tag(name) == open_tag(seq![47u8] + name));
    lemma_take_lit(close_tag(name), r);
}

/// Where the text-only element at `pos` ends, whatever its name.
fn other_at(s: &[u8], pos: usize) -> (r: Option<usize>)
    requires
        pos <= s@.len(),
    ensures
        match take_other(s@.skip(pos as int)) {
            Some(rest) => r matches Some(p) && p <= s@.len() && s@.skip(p as int) == rest,
            None => r is None,
        },
{
    let ghost t = s@.skip(pos as int);
    if !(pos < s.len() && pos + 1 < s.len() && s[pos] == 60u8 && s[pos + 1] != 47u8) {
        proof {
            if t.len() >= 2 {
                assert(t[0] == s@[pos as int] && t[1] == s@[pos + 1]);
            }
        }
        return None;
    }
    assert(t[0] == s@[pos as int] && t[1] == s@[pos + 1]);
    assert(t.drop_first() =~= s@.skip(pos + 1));
    let q = match gt_end_at(s, pos + 1) {
        Some(q) => q,
        None => {
            return None;
        },
    };
    let mut name: Vec<u8> = Vec::new();
    push_all(&mut name, &s[pos + 1..q - 1]);
    assert(name@ =~= t.subrange(1, (q - pos - 1) as int));
    assert(t.skip((q - pos) as int) =~= s@.skip(q as int));
    let e = text_end(s, q);
    let close = close_tag_bytes(name.as_slice());
    assert(s@.skip(q as int).skip(text_len(s@.skip(q as int)) as int) =~= s@.skip(e as int));
    match_lit(s, e, close.as_slice())
}

/// Skips unknown text-only elements at `pos` until the start tag `name`.
pub fn skip_unknown_at(s: &[u8], pos: usize, name: &[u8]) -> (r: usize)
    requires
        pos <= s@.len(),
    ensures
        r <= s@.len(),
        s@.skip(r as int) == skip_unknown(s@.skip(pos as int), name@),
{
    let open = open_tag_bytes(name);
    let mut p: usize = pos;
    while match_lit(s, p, open.as_slice()).is_none()
        invariant
            pos <= p <= s@.len(),
            open@ == open_tag(name@),
            skip_unknown(s@.skip(pos as int), name@) == skip_unknown(s@.skip(p as int), name@),
        decreases s@.len() - p,
    {
        match other_at(s, p) {
            Some(q) => {
                if q <= p {
                    return p;
                }
                assert(s@.skip(q as int).len() < s@.skip(p as int).len());
                p = q;
            },
            None => {
                return p;
            },
        }
    }
    p
}

/// Reads the element `name` at `pos` after any unknown text-only elements.
pub fn read_field(s: &[u8], pos: usize, name: &[u8]) -> (r: Option<(String, usize)>)
    requires
        pos <= s@.len(),
    ensures
        match take_field(s@.skip(pos as int), name@) {
            Some((t, rest)) => r matches Some((v, p)) && v@ == t && p <= s@.len() && s@.skip(p as int)
                == rest,
            None => r is None,
        },
{
    let p = skip_unknown_at(s, pos, name);
    read_str(s, p, name)
}

/// Where the end tag `name` at `pos` ends, after any unknown text-only elements.
pub fn read_end(s: &[u8], pos: usize, name: &[u8]) -> (r: Option<usize>)
    requires
        pos <= s@.len(),
    ensures
        match take_end(s@.skip(pos as int), name@) {
            Some(rest) => r matches Some(p) && p <= s@.len() && s@.skip(p as int) == rest,
            None => r is None,
        },
{
    let mut slash_name: Vec<u8> = Vec::new();
    slash_name.push(47u8);
    push_all(&mut slash_name, name);
    assert(slash_name@ =~= seq![47u8] + name@);
    let p = skip_unknown_at(s, pos, slash_name.as_slice());
    match_lit(s, p, close_tag_bytes(name).as_slice())
}

/// Nothing is skipped before the start tag that is looked for.
pub proof fn lemma_skip_here(name: Seq<u8>, r: Seq<u8>)
    ensures
        skip_unknown(open_tag(name) + r, name) == open_tag(name) + r,
{
    assert((open_tag(name) + r).take(open_tag(name).len() as int) == open_tag(name));
}

} // verus!
