//! The bookkeeping of a copy loop: how many bytes the next read asks for,
//! what has been transferred so far, and when the loop stops. The loop
//! itself reads a chunk, writes it, then reports the outcome here.
use vstd::prelude::*;
use crate::sum_of;

verus! {

/// Appending a count adds it to the sum.
pub proof fn lemma_sum_push(s: Seq<nat>, x: nat)
    ensures
        sum_of(s.push(x)) == sum_of(s) + x,
    decreases s.len(),
{
    if s.len() == 0 {
        assert(s.push(x).drop_first() =~= Seq::<nat>::empty());
        assert(sum_of(s.push(x).drop_first()) == 0);
    } else {
        lemma_sum_push(s.drop_first(), x);
        assert(s.push(x).drop_first() =~= s.drop_first().push(x));
        assert(s.push(x)[0] == s[0]);
    }
}

/// The state of a copy loop.
pub ghost struct CopyView {
    /// The configured chunk size.
    pub buffer_size: nat,
    /// The exact number of bytes to transfer; 0 when the run is unbounded.
    pub target: nat,
    /// The size of the next read.
    pub chunk_len: nat,
    /// The bytes transferred so far.
    pub total: nat,
    pub stopped: bool,
    /// The size of each chunk transferred, in order.
    pub log: Seq<nat>,
}

impl CopyView {
    /// A run of `repeat_count` chunks of `buffer_size` bytes, or an
    /// unbounded one when `repeat_count` is 0.
    pub open spec fn initial(buffer_size: nat, repeat_count: nat) -> CopyView {
        CopyView {
            buffer_size,
            target: repeat_count * buffer_size,
            chunk_len: buffer_size,
            total: 0,
            stopped: false,
            log: Seq::empty(),
        }
    }

    pub open spec fn wf(self) -> bool {
        &&& self.buffer_size > 0
        &&& self.total == sum_of(self.log)
        &&& self.target == 0 ==> self.chunk_len == self.buffer_size
        &&& self.target > 0 ==> self.total <= self.target
        &&& (self.target > 0 && !self.stopped) ==> {
            &&& self.total < self.target
            &&& self.chunk_len == if self.target - self.total < self.buffer_size {
                (self.target - self.total) as nat
            } else {
                self.buffer_size
            }
        }
    }

    /// The state once a read of `read` bytes has been handled, with
    /// `cancelled` telling whether a stop was requested meanwhile. A read
    /// of 0 bytes means that the source is exhausted. Otherwise the chunk
    /// counts in full; a bounded run then shrinks the next read to what is
    /// still owed, and stops once nothing is.
    pub open spec fn next(self, read: nat, cancelled: bool) -> CopyView {
        if read == 0 {
            CopyView { stopped: true, ..self }
        } else {
            let total = self.total + read;
            let log = self.log.push(read);
            if cancelled {
                CopyView { total, log, stopped: true, ..self }
            } else if self.target == 0 {
                CopyView { total, log, ..self }
            } else if total >= self.target {
                CopyView { total, log, stopped: true, ..self }
            } else if self.target - total < self.buffer_size {
                CopyView { total, log, chunk_len: (self.target - total) as nat, ..self }
            } else {
                CopyView { total, log, ..self }
            }
        }
    }
}

/// The bookkeeping of one copy loop.
pub struct Copier {
    buffer_size: usize,
    target: u128,
    chunk_len: usize,
    chunks: u64,
    total: u128,
    stopped: bool,
    log: Ghost<Seq<nat>>,
}

impl View for Copier {
    type V = CopyView;

    closed spec fn view(&self) -> CopyView {
        CopyView {
            buffer_size: self.buffer_size as nat,
            target: self.target as nat,
            chunk_len: self.chunk_len as nat,
            total: self.total as nat,
            stopped: self.stopped,
            log: self.log@,
        }
    }
}

impl Copier {
    pub closed spec fn wf(&self) -> bool {
        &&& self@.wf()
        &&& self.chunks == self.log@.len()
    }

    /// A run of `repeat_count` chunks of `buffer_size` bytes, or an
    /// unbounded one when `repeat_count` is 0.
    pub fn new(buffer_size: usize, repeat_count: u64) -> (r: Self)
        requires
            buffer_size > 0,
        ensures
            r.wf(),
            r@ == CopyView::initial(buffer_size as nat, repeat_count as nat),
    {
        proof {
            assert(repeat_count as u128 * buffer_size as u128 <= u64::MAX as u128 * u64::MAX as u128)
                by (nonlinear_arith)
                requires
                    repeat_count <= u64::MAX,
                    buffer_size <= u64::MAX,
            ;
            assert(repeat_count * buffer_size > 0 ==> repeat_count * buffer_size >= buffer_size)
                by (nonlinear_arith);
        }
        Copier {
            buffer_size,
            target: repeat_count as u128 * buffer_size as u128,
            chunk_len: buffer_size,
            chunks: 0,
            total: 0,
            stopped: false,
            log: Ghost(Seq::empty()),
        }
    }

    /// The number of bytes the next read asks for; 0 once the loop has
    /// stopped, so that no empty read is ever issued.
    pub fn request_len(&self) -> (r: usize)
        ensures
            r == if self@.stopped {
                0
            } else {
                self@.chunk_len
            },
    {
        if self.stopped {
            0
        } else {
            self.chunk_len
        }
    }

    pub fn is_stopped(&self) -> (r: bool)
        ensures
            r == self@.stopped,
    {
        self.stopped
    }

    /// The number of bytes transferred so far.
    pub fn total(&self) -> (r: u128)
        ensures
            r == self@.total,
    {
        self.total
    }

    /// The number of chunks transferred so far.
    pub fn chunks(&self) -> (r: u64)
        requires
            self.wf(),
        ensures
            r == self@.log.len(),
    {
        self.chunks
    }

    /// Records the outcome of a read of `read` bytes, and whether a stop
    /// was requested by the time its chunk was written.
    pub fn record(&mut self, read: usize, cancelled: bool)
        requires
            old(self).wf(),
            !old(self)@.stopped,
            read <= old(self)@.chunk_len,
            old(self)@.log.len() < u64::MAX,
            old(self)@.total + read <= u128::MAX,
        ensures
            final(self).wf(),
            final(self)@ == old(self)@.next(read as nat, cancelled),
    {
        if read == 0 {
            self.stopped = true;
            return;
        }
        proof {
            lemma_sum_push(self.log@, read as nat);
        }
        self.total = self.total + read as u128;
        self.chunks = self.chunks + 1;
        self.log = Ghost(self.log@.push(read as nat));
        if cancelled {
            self.stopped = true;
        } else if self.target > 0 {
            if self.total >= self.target {
                self.stopped = true;
            } else {
                let remaining = self.target - self.total;
                if remaining < self.buffer_size as u128 {
                    self.chunk_len = remaining as usize;
                }
            }
        }
    }
}

/// The state after `steps` reads, each of which obtains all it asks for,
/// with no stop requested.
pub open spec fn run_full(m: CopyView, steps: nat) -> CopyView
    decreases steps,
{
    if steps == 0 || m.stopped {
        m
    } else {
        run_full(m.next(m.chunk_len, false), (steps - 1) as nat)
    }
}

/// The state after the reads in `reads`, in order, when a stop is requested
/// after the chunk of index `cancel_at` and at no other time.
pub open spec fn replay(m: CopyView, reads: Seq<nat>, cancel_at: int) -> CopyView
    decreases reads.len(),
{
    if reads.len() == 0 || m.stopped {
        m
    } else {
        replay(m.next(reads[0], cancel_at == 0), reads.drop_first(), cancel_at - 1)
    }
}

/// A bounded run from a source that always fills the request, after `k`
/// of its `n` chunks.
spec fn full_state(buffer_size: nat, n: nat, k: nat) -> CopyView {
    CopyView {
        buffer_size,
        target: n * buffer_size,
        chunk_len: buffer_size,
        total: k * buffer_size,
        stopped: k == n,
        log: Seq::new(k, |i: int| buffer_size),
    }
}

proof fn lemma_full_run_from(buffer_size: nat, n: nat, k: nat)
    requires
        buffer_size > 0,
        n > 0,
        k <= n,
    ensures
        run_full(full_state(buffer_size, n, k), (n - k) as nat) == full_state(buffer_size, n, n),
    decreases n - k,
{
    if k < n {
        let m = full_state(buffer_size, n, k);
        let total = k * buffer_size + buffer_size;
        assert(total == (k + 1) * buffer_size) by (nonlinear_arith)
            requires
                total == k * buffer_size + buffer_size,
        ;
        assert((k + 1 < n) ==> n * buffer_size - total >= buffer_size) by (nonlinear_arith)
            requires
                total == (k + 1) * buffer_size,
        ;
        assert((k + 1 == n) ==> total == n * buffer_size);
        assert((k + 1 < n) ==> total < n * buffer_size) by (nonlinear_arith)
            requires
                total == (k + 1) * buffer_size,
                buffer_size > 0,
        ;
        assert(n * buffer_size > 0) by (nonlinear_arith)
            requires
                n > 0,
                buffer_size > 0,
        ;
        assert(m.log.push(buffer_size) =~= Seq::new(k + 1, |i: int| buffer_size));
        assert(m.next(buffer_size, false) == full_state(buffer_size, n, k + 1));
        lemma_full_run_from(buffer_size, n, k + 1);
    }
}

/// A run of `n > 0` chunks of `buffer_size > 0` bytes from a source that
/// always fills the request stops after exactly `n` reads, every one of
/// them a whole chunk, having transferred exactly `n * buffer_size` bytes.
pub proof fn lemma_bounded_run_total(buffer_size: nat, n: nat)
    requires
        buffer_size > 0,
        n > 0,
    ensures
        run_full(CopyView::initial(buffer_size, n), n).stopped,
        run_full(CopyView::initial(buffer_size, n), n).total == n * buffer_size,
        run_full(CopyView::initial(buffer_size, n), n).log == Seq::new(n, |i: int| buffer_size),
{
    assert(CopyView::initial(buffer_size, n) == full_state(buffer_size, n, 0)) by {
        assert(Seq::new(0, |i: int| buffer_size) =~= Seq::<nat>::empty());
    }
    lemma_full_run_from(buffer_size, n, 0);
}

/// Whether a run from `m`, with no stop requested, is still going before
/// each of the reads in `reads`, and each of them obtains at least one byte
/// and at most what it asks for.
pub open spec fn runs_through(m: CopyView, reads: Seq<nat>) -> bool
    decreases reads.len(),
{
    reads.len() == 0 || {
        &&& !m.stopped
        &&& 0 < reads[0] <= m.chunk_len
        &&& runs_through(m.next(reads[0], false), reads.drop_first())
    }
}

/// A stop requested after the chunk of index `i`, in a run that was still
/// going, ends the run with exactly the first `i + 1` chunks counted, each
/// in full, and nothing after them.
pub proof fn lemma_cancel_counts_whole_chunks(m: CopyView, reads: Seq<nat>, i: nat)
    requires
        i < reads.len(),
        runs_through(m, reads.take(i + 1 as int)),
    ensures
        replay(m, reads, i as int).stopped,
        replay(m, reads, i as int).total == m.total + sum_of(reads.take(i + 1 as int)),
        replay(m, reads, i as int).log == m.log + reads.take(i + 1 as int),
    decreases i,
{
    let first = reads.take(i + 1 as int);
    assert(first.drop_first() =~= reads.drop_first().take(i as int));
    assert(first[0] == reads[0]);
    if i == 0 {
        let m1 = m.next(reads[0], true);
        assert(replay(m1, reads.drop_first(), -1) == m1);
        assert(replay(m, reads, 0) == m1);
        assert(sum_of(first.drop_first()) == 0);
        assert(m.log + first =~= m.log.push(reads[0]));
    } else {
        let m2 = m.next(reads[0], false);
        assert(replay(m, reads, i as int) == replay(m2, reads.drop_first(), i - 1));
        lemma_cancel_counts_whole_chunks(m2, reads.drop_first(), (i - 1) as nat);
        assert(m.log + first =~= m2.log + reads.drop_first().take(i as int));
    }
}

} // verus!
