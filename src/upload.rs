use vstd::prelude::*;
use crate::datatype::Part;

verus! {

/// The smallest part that the multipart protocol accepts, but for the last.
pub const MIN_PART_SIZE: u64 = 5242880;

/// Part size used when the caller names none: 8 MiB.
pub const DEFAULT_PART_SIZE: u64 = 8388608;

/// The most parts one multipart upload may hold.
pub const MAX_PARTS: u64 = 10000;

/// Number of parts of `part_size` bytes that `total` bytes fill, the last one
/// possibly short.
pub open spec fn part_count(total: nat, part_size: nat) -> nat
    recommends
        part_size > 0,
{
    if total % part_size == 0 { total / part_size } else { total / part_size + 1 }
}

/// Length of the part at index `i` (part number `i + 1`).
pub open spec fn part_len(total: nat, part_size: nat, i: nat) -> nat {
    if (i + 1) * part_size <= total { part_size } else { (total - i * part_size) as nat }
}

/// Lengths of the parts that a stream of `total` bytes is cut into, in order.
pub fn part_sizes(total: u64, part_size: u64) -> (r: Vec<u64>)
    requires
        part_size > 0,
    ensures
        r@.len() == part_count(total as nat, part_size as nat),
        forall|i: int| 0 <= i < r@.len() ==> #[trigger] r@[i] == part_len(total as nat, part_size as nat, i as nat),
        forall|i: int| 0 <= i < r@.len() ==> 0 < #[trigger] r@[i] <= part_size,
{
    assert(total % part_size != 0 ==> total / part_size < total) by {
        if total % part_size != 0 {
            assert(total > 0 && part_size > 1) by (nonlinear_arith)
                requires
                    total % part_size != 0,
                    part_size > 0,
            {}
            vstd::arithmetic::div_mod::lemma_div_decreases(total as int, part_size as int);
        }
    }
    let n: u64 = if total % part_size == 0 { total / part_size } else { total / part_size + 1 };
    let ghost ps = part_size as nat;
    let ghost t = total as nat;
    let mut r: Vec<u64> = Vec::new();
    let mut i: u64 = 0;
    while i < n
        invariant
            part_size > 0,
            n == part_count(t, ps),
            t == total,
            ps == part_size,
            i <= n,
            r@.len() == i,
            forall|j: int| 0 <= j < r@.len() ==> #[trigger] r@[j] == part_len(t, ps, j as nat),
            forall|j: int| 0 <= j < r@.len() ==> 0 < #[trigger] r@[j] <= part_size,
        decreases n - i,
    {
        assert(i * ps < t) by (nonlinear_arith)
            requires
                i < n,
                n == (if t % ps == 0 { t / ps } else { t / ps + 1 }),
                ps > 0,
        {
            vstd::arithmetic::div_mod::lemma_fundamental_div_mod(t as int, ps as int);
            if t % ps == 0 {
                assert(i + 1 <= t / ps);
            } else {
                assert(i <= t / ps);
            }
            assert(i * ps <= (t / ps) * ps) by (nonlinear_arith)
                requires
                    i <= t / ps,
                    ps > 0,
            {}
        }
        let rem: u64 = total - i * part_size;
        assert((i + 1) * ps == i * ps + ps) by (nonlinear_arith);
        if rem >= part_size {
            r.push(part_size);
        } else {
            r.push(rem);
        }
        i = i + 1;
    }
    r
}

/// Whether one PUT carries the whole body: the announced length, or the
/// length seen once the stream has ended, is below the multipart threshold.
pub open spec fn single_shot(known_length: Option<u64>, buffered: u64, stream_ended: bool, threshold: u64) -> bool {
    match known_length {
        Some(n) => n < threshold,
        None => stream_ended && buffered < threshold,
    }
}

/// Decides between one PUT and a multipart upload once either the length is
/// announced, or the stream has ended, or `threshold` bytes are buffered.
pub fn use_single_put(known_length: Option<u64>, buffered: u64, stream_ended: bool, threshold: u64) -> (r: bool)
    ensures
        r == single_shot(known_length, buffered, stream_ended, threshold),
{
    match known_length {
        Some(n) => n < threshold,
        None => stream_ended && buffered < threshold,
    }
}

/// Bytes received from a stream and not yet sent, cut into parts of a fixed
/// size so that at most about one part is held at a time.
pub struct PartBuffer {
    buf: Vec<u8>,
    part_size: usize,
}

impl PartBuffer {
    pub closed spec fn spec_bytes(&self) -> Seq<u8> {
        self.buf@
    }

    pub closed spec fn spec_part_size(&self) -> nat {
        self.part_size as nat
    }

    pub fn new(part_size: usize) -> (r: Self)
        requires
            part_size > 0,
        ensures
            r.spec_bytes() == Seq::<u8>::empty(),
            r.spec_part_size() == part_size,
    {
        PartBuffer { buf: Vec::new(), part_size }
    }

    /// Appends a chunk that the stream produced.
    pub fn push(&mut self, chunk: &[u8])
        ensures
            final(self).spec_bytes() == old(self).spec_bytes() + chunk@,
            final(self).spec_part_size() == old(self).spec_part_size(),
    {
        crate::encoding::push_all(&mut self.buf, chunk);
    }

    pub fn len(&self) -> (r: usize)
        ensures
            r == self.spec_bytes().len(),
    {
        self.buf.len()
    }

    /// Whether a whole part is buffered.
    pub fn has_part(&self) -> (r: bool)
        ensures
            r == (self.spec_bytes().len() >= self.spec_part_size()),
    {
        self.buf.len() >= self.part_size
    }

    /// Takes the next part: the first `part_size` bytes, or all that is left
    /// when fewer remain.
    pub fn take_part(&mut self) -> (r: Vec<u8>)
        ensures
            final(self).spec_part_size() == old(self).spec_part_size(),
            old(self).spec_bytes().len() >= old(self).spec_part_size() ==> r@ == old(self).spec_bytes().take(
                old(self).spec_part_size() as int) && final(self).spec_bytes() == old(self).spec_bytes().skip(
                old(self).spec_part_size() as int),
            old(self).spec_bytes().len() < old(self).spec_part_size() ==> r@ == old(self).spec_bytes()
                && final(self).spec_bytes() == Seq::<u8>::empty(),
    {
        let n = if self.buf.len() >= self.part_size { self.part_size } else { self.buf.len() };
        let mut rest = self.buf.split_off(n);
        core::mem::swap(&mut self.buf, &mut rest);
        assert(rest@ =~= old(self).spec_bytes().take(n as int));
        rest
    }

    /// Takes everything buffered.
    pub fn take_all(&mut self) -> (r: Vec<u8>)
        ensures
            r@ == old(self).spec_bytes(),
            final(self).spec_bytes() == Seq::<u8>::empty(),
            final(self).spec_part_size() == old(self).spec_part_size(),
    {
        let mut rest: Vec<u8> = Vec::new();
        core::mem::swap(&mut self.buf, &mut rest);
        rest
    }
}

/// Where a multipart upload stands.
#[derive(Debug, Clone, Copy, PartialEq, Eq, Structural)]
pub enum UploadPhase {
    /// Parts are being sent.
    Open,
    /// The completion request is out.
    Completing,
    /// A part or the completion failed; the abort request is out.
    Aborting,
    /// Completed.
    Done,
    /// Aborted after a failure.
    Failed,
}

/// The bookkeeping of one multipart upload: its id, the part numbers handed
/// out, the ETag of each finished part, and the first failure.
pub struct UploadSession<E> {
    upload_id: String,
    etags: Vec<Option<String>>,
    phase: UploadPhase,
    failure: Option<E>,
}

impl<E> UploadSession<E> {
    pub closed spec fn spec_upload_id(&self) -> Seq<char> {
        self.upload_id@
    }

    /// The ETag recorded for each part number handed out, by index (part number - 1).
    pub closed spec fn spec_etags(&self) -> Seq<Option<Seq<char>>> {
        Seq::new(self.etags@.len(), |i: int| match self.etags@[i] {
            Some(s) => Some(s@),
            None => None,
        })
    }

    pub closed spec fn spec_phase(&self) -> UploadPhase {
        self.phase
    }

    pub closed spec fn spec_failure(&self) -> Option<E> {
        self.failure
    }

    /// A failure is held exactly while aborting or after.
    pub open spec fn wf(&self) -> bool {
        &&& (self.spec_phase() == UploadPhase::Aborting || self.spec_phase() == UploadPhase::Failed)
            <==> self.spec_failure() is Some
        &&& self.spec_etags().len() <= MAX_PARTS
    }

    /// A session for the id that initiate-multipart-upload returned.
    pub fn new(upload_id: String) -> (r: Self)
        ensures
            r.wf(),
            r.spec_upload_id() == upload_id@,
            r.spec_etags().len() == 0,
            r.spec_phase() == UploadPhase::Open,
    {
        UploadSession { upload_id, etags: Vec::new(), phase: UploadPhase::Open, failure: None }
    }

    pub fn upload_id(&self) -> (r: &str)
        ensures
            r@ == self.spec_upload_id(),
    {
        self.upload_id.as_str()
    }

    pub fn phase(&self) -> (r: UploadPhase)
        ensures
            r == self.spec_phase(),
    {
        self.phase
    }

    /// How many part numbers were handed out.
    pub fn parts_issued(&self) -> (r: usize)
        ensures
            r == self.spec_etags().len(),
    {
        self.etags.len()
    }

    /// Hands out the next part number: 1 first, then one more each time;
    /// `None` once the session is no longer open or holds the most parts allowed.
    pub fn next_part_number(&mut self) -> (r: Option<usize>)
        requires
            old(self).wf(),
        ensures
            final(self).wf(),
            final(self).spec_upload_id() == old(self).spec_upload_id(),
            final(self).spec_phase() == old(self).spec_phase(),
            final(self).spec_failure() == old(self).spec_failure(),
            (old(self).spec_phase() == UploadPhase::Open && old(self).spec_etags().len() < MAX_PARTS) ==> (
                r == Some((old(self).spec_etags().len() + 1) as usize)
                && final(self).spec_etags() == old(self).spec_etags().push(None)),
            !(old(self).spec_phase() == UploadPhase::Open && old(self).spec_etags().len() < MAX_PARTS) ==> (
                r is None && final(self).spec_etags() == old(self).spec_etags()),
    {
        if self.phase == UploadPhase::Open && (self.etags.len() as u64) < MAX_PARTS {
            self.etags.push(None);
            assert(self.spec_etags() =~= old(self).spec_etags().push(None));
            Some(self.etags.len())
        } else {
            None
        }
    }

    /// Records the ETag of a finished part, whatever order parts finish in.
    pub fn part_done(&mut self, part_number: usize, etag: String)
        requires
            old(self).wf(),
        ensures
            final(self).wf(),
            final(self).spec_upload_id() == old(self).spec_upload_id(),
            final(self).spec_phase() == old(self).spec_phase(),
            final(self).spec_failure() == old(self).spec_failure(),
            (1 <= part_number <= old(self).spec_etags().len()) ==> final(self).spec_etags()
                == old(self).spec_etags().update(part_number - 1, Some(etag@)),
            !(1 <= part_number <= old(self).spec_etags().len()) ==> final(self).spec_etags()
                == old(self).spec_etags(),
    {
        if 1 <= part_number && part_number <= self.etags.len() {
            self.etags.set(part_number - 1, Some(etag));
            assert(self.spec_etags() =~= old(self).spec_etags().update(part_number - 1, Some(etag@)));
        }
    }

    /// A part upload failed. The first failure of an open or completing
    /// session is kept and answered with the one abort of the upload
    /// (`true`); any later failure is dropped and asks for no abort.
    pub fn part_failed(&mut self, error: E) -> (abort: bool)
        requires
            old(self).wf(),
        ensures
            final(self).wf(),
            final(self).spec_upload_id() == old(self).spec_upload_id(),
            final(self).spec_etags() == old(self).spec_etags(),
            abort == (old(self).spec_phase() == UploadPhase::Open || old(self).spec_phase()
                == UploadPhase::Completing),
            abort ==> final(self).spec_phase() == UploadPhase::Aborting && final(self).spec_failure()
                == Some(error),
            !abort ==> final(self).spec_phase() == old(self).spec_phase() && final(self).spec_failure()
                == old(self).spec_failure(),
    {
        if self.phase == UploadPhase::Open || self.phase == UploadPhase::Completing {
            self.phase = UploadPhase::Aborting;
            self.failure = Some(error);
            true
        } else {
            false
        }
    }

    /// The completion request failed: handled as a failed part.
    pub fn complete_failed(&mut self, error: E) -> (abort: bool)
        requires
            old(self).wf(),
        ensures
            final(self).wf(),
            final(self).spec_upload_id() == old(self).spec_upload_id(),
            final(self).spec_etags() == old(self).spec_etags(),
            abort == (old(self).spec_phase() == UploadPhase::Open || old(self).spec_phase()
                == UploadPhase::Completing),
            abort ==> final(self).spec_phase() == UploadPhase::Aborting && final(self).spec_failure()
                == Some(error),
            !abort ==> final(self).spec_phase() == old(self).spec_phase() && final(self).spec_failure()
                == old(self).spec_failure(),
    {
        self.part_failed(error)
    }

    /// The abort request came back, succeeded or not: the session is over and
    /// the error to report is the failure that caused the abort.
    pub fn abort_finished(self) -> (r: Option<E>)
        requires
            self.wf(),
        ensures
            r == self.spec_failure(),
            self.spec_phase() == UploadPhase::Aborting ==> r is Some,
    {
        self.failure
    }

    /// All parts were sent. When every part number handed out has its ETag, the
    /// session turns to completing and returns the manifest: one entry per
    /// part, numbers 1, 2, ... in ascending order, each with its ETag.
    pub fn finish(&mut self) -> (r: Option<Vec<Part>>)
        requires
            old(self).wf(),
        ensures
            final(self).wf(),
            final(self).spec_upload_id() == old(self).spec_upload_id(),
            final(self).spec_etags() == old(self).spec_etags(),
            final(self).spec_failure() == old(self).spec_failure(),
            r is Some <==> (old(self).spec_phase() == UploadPhase::Open && forall|i: int|
                0 <= i < old(self).spec_etags().len() ==> (#[trigger] old(self).spec_etags()[i]) is Some),
            r is Some ==> final(self).spec_phase() == UploadPhase::Completing,
            r is None ==> final(self).spec_phase() == old(self).spec_phase(),
            r matches Some(parts) ==> {
                &&& parts@.len() == old(self).spec_etags().len()
                &&& forall|i: int| 0 <= i < parts@.len() ==> (#[trigger] parts@[i]).part_number == i + 1
                    && old(self).spec_etags()[i] == Some(parts@[i].e_tag@)
            },
    {
        if self.phase != UploadPhase::Open {
            return None;
        }
        let mut parts: Vec<Part> = Vec::new();
        let mut i: usize = 0;
        while i < self.etags.len()
            invariant
                self.wf(),
                *self == *old(self),
                0 <= i <= self.etags@.len(),
                parts@.len() == i,
                forall|j: int| 0 <= j < i ==> (#[trigger] self.spec_etags()[j]) is Some,
                forall|j: int| 0 <= j < i ==> (#[trigger] parts@[j]).part_number == j + 1
                    && self.spec_etags()[j] == Some(parts@[j].e_tag@),
            decreases self.etags@.len() - i,
        {
            match &self.etags[i] {
                Some(etag) => {
                    parts.push(Part { e_tag: etag.clone(), part_number: i + 1 });
                },
                None => {
                    assert(self.spec_etags()[i as int] is None);
                    return None;
                },
            }
            i = i + 1;
        }
        self.phase = UploadPhase::Completing;
        Some(parts)
    }

    /// The completion request succeeded.
    pub fn complete_done(&mut self)
        requires
            old(self).wf(),
        ensures
            final(self).wf(),
            final(self).spec_upload_id() == old(self).spec_upload_id(),
            final(self).spec_etags() == old(self).spec_etags(),
            final(self).spec_failure() == old(self).spec_failure(),
            old(self).spec_phase() == UploadPhase::Completing ==> final(self).spec_phase()
                == UploadPhase::Done,
            old(self).spec_phase() != UploadPhase::Completing ==> final(self).spec_phase()
                == old(self).spec_phase(),
    {
        if self.phase == UploadPhase::Completing {
            self.phase = UploadPhase::Done;
        }
    }
}

/// `n` part numbers handed out, none finished.
pub open spec fn no_parts(n: nat) -> Seq<Option<Seq<char>>> {
    Seq::new(n, |i: int| None::<Seq<char>>)
}

/// The ETags recorded by `part_done` calls, in the order the parts finished,
/// starting from `etags`.
pub open spec fn record_all(etags: Seq<Option<Seq<char>>>, done: Seq<(nat, Seq<char>)>) -> Seq<Option<Seq<char>>>
    decreases done.len(),
{
    if done.len() == 0 {
        etags
    } else {
        let prev = record_all(etags, done.drop_last());
        let (k, e) = done.last();
        if 1 <= k <= prev.len() {
            prev.update(k - 1, Some(e))
        } else {
            prev
        }
    }
}

/// Completion order does not matter: when the parts handed out finish in any
/// order, each with a distinct number, every part's ETag stands at its
/// number, and a number that never finished has none. `finish` then lists
/// them by ascending number.
pub proof fn lemma_manifest_any_order(n: nat, done: Seq<(nat, Seq<char>)>)
    requires
        forall|j: int| 0 <= j < done.len() ==> 1 <= #[trigger] done[j].0 <= n,
        forall|j: int, k: int| 0 <= j < k < done.len() ==> done[j].0 != done[k].0,
    ensures
        record_all(no_parts(n), done).len() == n,
        forall|j: int| 0 <= j < done.len() ==> record_all(no_parts(n), done)[
            done[j].0 - 1] == Some(#[trigger] done[j].1),
        forall|i: int| 0 <= i < n && (forall|j: int| 0 <= j < done.len() ==> #[trigger] done[j].0 != i + 1)
            ==> (#[trigger] record_all(no_parts(n), done)[i]) is None,
    decreases done.len(),
{
    let empty = no_parts(n);
    if done.len() > 0 {
        let d = done.drop_last();
        assert forall|j: int, k: int| 0 <= j < k < d.len() implies d[j].0 != d[k].0 by {
            assert(d[j] == done[j] && d[k] == done[k]);
        }
        assert forall|j: int| 0 <= j < d.len() implies 1 <= #[trigger] d[j].0 <= n by {
            assert(d[j] == done[j]);
        }
        lemma_manifest_any_order(n, d);
        let prev = record_all(empty, d);
        let last = done.last();
        assert(done[done.len() - 1] == last);
        assert forall|j: int| 0 <= j < done.len() implies record_all(empty, done)[done[j].0 - 1] == Some(
            #[trigger] done[j].1) by {
            if j < done.len() - 1 {
                assert(d[j] == done[j]);
                assert(done[j].0 != last.0);
            }
        }
        assert forall|i: int| 0 <= i < n && (forall|j: int| 0 <= j < done.len() ==> #[trigger] done[j].0 != i + 1)
            implies (#[trigger] record_all(empty, done)[i]) is None by {
            assert(done[done.len() - 1].0 != i + 1);
            assert forall|j: int| 0 <= j < d.len() implies #[trigger] d[j].0 != i + 1 by {
                assert(d[j] == done[j]);
            }
        }
    }
}

} // verus!
