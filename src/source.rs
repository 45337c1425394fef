//! Synthetic content sources. Each one fills a caller's buffer from
//! offset 0 and reports how many bytes it wrote.
use vstd::prelude::*;
use vstd::arithmetic::div_mod::{
    lemma_add_mod_noop, lemma_add_mod_noop_right, lemma_mod_multiples_basic, lemma_mod_twice,
    lemma_small_mod,
};
use crate::sum_of;
use rand::Rng;

verus! {

/// The `n` bytes read from `data` starting at `start`, wrapping around
/// to its beginning whenever its end is reached.
pub open spec fn cycle_run(data: Seq<u8>, start: int, n: nat) -> Seq<u8> {
    Seq::new(n, |i: int| data[(start + i) % (data.len() as int)])
}

/// What successive requests of the sizes in `sizes` read from a cycle
/// over `data`, one after the other, when the first starts at `start`:
/// each reads on from where the one before it stopped.
pub open spec fn successive_cycle(data: Seq<u8>, start: int, sizes: Seq<nat>) -> Seq<u8>
    decreases sizes.len(),
{
    if sizes.len() == 0 {
        Seq::empty()
    } else {
        cycle_run(data, start, sizes[0]) + successive_cycle(
            data,
            (start + sizes[0]) % (data.len() as int),
            sizes.drop_first(),
        )
    }
}

/// `data` repeated `k` times.
pub open spec fn repeated(data: Seq<u8>, k: nat) -> Seq<u8>
    decreases k,
{
    if k == 0 {
        Seq::empty()
    } else {
        data + repeated(data, (k - 1) as nat)
    }
}

/// Two successive runs over a cycle read the same bytes as one run
/// of their joint length.
pub proof fn lemma_cycle_concat(data: Seq<u8>, start: int, n: nat, m: nat)
    requires
        data.len() > 0,
    ensures
        cycle_run(data, start, n) + cycle_run(data, (start + n) % (data.len() as int), m)
            == cycle_run(data, start, n + m),
{
    let l = data.len() as int;
    let lhs = cycle_run(data, start, n) + cycle_run(data, (start + n) % l, m);
    let rhs = cycle_run(data, start, n + m);
    assert forall|i: int| n <= i < n + m implies lhs[i] == rhs[i] by {
        lemma_add_mod_noop(start + n, i - n, l);
        lemma_mod_twice(start + n, l);
        lemma_add_mod_noop((start + n) % l, i - n, l);
        lemma_mod_twice(i - n, l);
    }
    assert(lhs =~= rhs);
}

/// However a run over a cycle is split into requests, the bytes read are
/// those of one run of the total length.
pub proof fn lemma_successive_cycle(data: Seq<u8>, start: int, sizes: Seq<nat>)
    requires
        data.len() > 0,
    ensures
        successive_cycle(data, start, sizes) == cycle_run(data, start, sum_of(sizes)),
    decreases sizes.len(),
{
    if sizes.len() == 0 {
        assert(cycle_run(data, start, 0) =~= Seq::<u8>::empty());
    } else {
        let l = data.len() as int;
        lemma_successive_cycle(data, (start + sizes[0]) % l, sizes.drop_first());
        lemma_cycle_concat(data, start, sizes[0], sum_of(sizes.drop_first()));
    }
}

/// A run of `k * L + r` bytes over a cycle of length `L`, from its start,
/// is the cycle `k` times followed by its first `r` bytes.
proof fn lemma_cycle_run_repeats(data: Seq<u8>, k: nat, r: nat)
    requires
        data.len() > 0,
        r < data.len(),
    ensures
        cycle_run(data, 0, k * data.len() + r) == repeated(data, k) + data.take(r as int),
    decreases k,
{
    let l = data.len();
    if k == 0 {
        assert forall|i: int| 0 <= i < r implies #[trigger] cycle_run(data, 0, r)[i] == data[i] by {
            lemma_small_mod(i as nat, l);
        }
        assert(cycle_run(data, 0, 0 * l + r) =~= repeated(data, k) + data.take(r as int));
    } else {
        lemma_cycle_run_repeats(data, (k - 1) as nat, r);
        assert(k * l + r == l + ((k - 1) as nat * l + r)) by (nonlinear_arith)
            requires
                k > 0,
        ;
        lemma_cycle_concat(data, 0, l, (k - 1) as nat * l + r);
        lemma_mod_multiples_basic(1, l as int);
        assert forall|i: int| 0 <= i < l implies #[trigger] cycle_run(data, 0, l)[i] == data[i] by {
            lemma_small_mod(i as nat, l);
        }
        assert(cycle_run(data, 0, l) =~= data);
        assert(repeated(data, k) + data.take(r as int) =~= data + (repeated(data, (k - 1) as nat)
            + data.take(r as int)));
    }
}

/// The printable characters 0x20 through 0x7E, in order.
pub open spec fn ascii_table() -> Seq<u8> {
    Seq::new(95, |i: int| (0x20 + i) as u8)
}

/// A source of printable ASCII that cycles through `ascii_table`.
pub struct AsciiGenerator {
    /// Position in `ascii_table` of the next byte.
    pub index: u8,
}

impl AsciiGenerator {
    pub open spec fn wf(self) -> bool {
        self.index < 95
    }

    pub fn new() -> (r: Self)
        ensures
            r.wf(),
            r.index == 0,
    {
        AsciiGenerator { index: 0 }
    }

    /// Fills the whole buffer with the next bytes of the cycle.
    pub fn fill(&mut self, buf: &mut Vec<u8>) -> (r: usize)
        requires
            old(self).wf(),
        ensures
            final(self).wf(),
            r == old(buf).len(),
            final(buf)@ == cycle_run(ascii_table(), old(self).index as int, old(buf)@.len()),
            final(self).index == (old(self).index + old(buf)@.len()) % 95,
    {
        let len = buf.len();
        let ghost start = self.index as int;
        let mut i: usize = 0;
        while i < len
            invariant
                i <= len,
                len == buf@.len(),
                self.wf(),
                self.index == (start + i) % 95,
                forall|j: int|
                    0 <= j < i ==> buf@[j] == ascii_table()[(start + j) % 95],
            decreases len - i,
        {
            buf.set(i, 0x20 + self.index);
            proof {
                lemma_add_mod_noop(start + i, 1, 95);
                lemma_mod_twice(start + i, 95);
            }
            self.index = if self.index < 94 {
                self.index + 1
            } else {
                0
            };
            i += 1;
        }
        assert(buf@ =~= cycle_run(ascii_table(), start, len as nat));
        len
    }
}

/// A source of zero bytes.
pub struct NullGenerator {}

impl NullGenerator {
    pub fn new() -> (r: Self) {
        NullGenerator {  }
    }

    /// Sets every byte of the buffer to zero.
    pub fn fill(&mut self, buf: &mut Vec<u8>) -> (r: usize)
        ensures
            r == old(buf).len(),
            final(buf)@ == Seq::new(old(buf)@.len(), |i: int| 0u8),
    {
        let len = buf.len();
        let mut i: usize = 0;
        while i < len
            invariant
                i <= len,
                len == buf@.len(),
                forall|j: int| 0 <= j < i ==> buf@[j] == 0u8,
            decreases len - i,
        {
            buf.set(i, 0);
            i += 1;
        }
        assert(buf@ =~= Seq::new(len as nat, |i: int| 0u8));
        len
    }
}

/// A source that replays a byte sequence held in memory, either once
/// or, when `circular`, over and over.
pub struct MemoryGenerator {
    pub data: Vec<u8>,
    /// Position in `data` of the next byte.
    pub index: usize,
    pub circular: bool,
}

impl MemoryGenerator {
    pub open spec fn wf(self) -> bool {
        &&& self.index <= self.data@.len()
        &&& (self.circular && self.data@.len() > 0) ==> self.index < self.data@.len()
    }

    /// The number of bytes that a request for `n` bytes obtains.
    pub open spec fn fill_count(self, n: nat) -> nat {
        if self.circular {
            if self.data@.len() == 0 {
                0
            } else {
                n
            }
        } else if n <= self.data@.len() - self.index {
            n
        } else {
            (self.data@.len() - self.index) as nat
        }
    }

    /// The buffer `buf` once a request for its whole length is served.
    pub open spec fn fill_bytes(self, buf: Seq<u8>) -> Seq<u8> {
        if self.circular {
            if self.data@.len() == 0 {
                buf
            } else {
                cycle_run(self.data@, self.index as int, buf.len())
            }
        } else {
            let k = self.fill_count(buf.len()) as int;
            self.data@.subrange(self.index as int, self.index + k) + buf.subrange(k, buf.len() as int)
        }
    }

    /// The position after a request for `n` bytes.
    pub open spec fn next_index(self, n: nat) -> int {
        if self.circular && self.data@.len() > 0 {
            (self.index + n) % (self.data@.len() as int)
        } else {
            self.index + self.fill_count(n)
        }
    }

    pub fn new(bytes: Vec<u8>, circular: bool) -> (r: Self)
        ensures
            r.wf(),
            r.data@ == bytes@,
            r.index == 0,
            r.circular == circular,
    {
        MemoryGenerator { data: bytes, index: 0, circular }
    }

    /// Copies the next bytes of `data` into the buffer from offset 0. A
    /// single pass stops at the end of `data`, so the request may be served
    /// short, and once it is exhausted nothing more comes; a circular one
    /// starts over at the beginning and always serves the whole request.
    pub fn fill(&mut self, buf: &mut Vec<u8>) -> (r: usize)
        requires
            old(self).wf(),
        ensures
            final(self).wf(),
            r == old(self).fill_count(old(buf)@.len()),
            final(buf)@ == old(self).fill_bytes(old(buf)@),
            final(self).data@ == old(self).data@,
            final(self).circular == old(self).circular,
            final(self).index == old(self).next_index(old(buf)@.len()),
    {
        let len = buf.len();
        let dlen = self.data.len();
        let ghost start = self.index as int;
        let ghost buf0 = buf@;
        if !self.circular {
            let avail = dlen - self.index;
            let n = if avail < len {
                avail
            } else {
                len
            };
            let mut i: usize = 0;
            while i < n
                invariant
                    i <= n,
                    n <= len,
                    len == buf@.len(),
                    self.index == start,
                    start + n <= dlen,
                    dlen == self.data@.len(),
                    forall|j: int| 0 <= j < i ==> buf@[j] == self.data@[start + j],
                    forall|j: int| n <= j < len ==> buf@[j] == buf0[j],
                decreases n - i,
            {
                buf.set(i, self.data[self.index + i]);
                i += 1;
            }
            self.index = self.index + n;
            assert(buf@ =~= old(self).fill_bytes(buf0));
            n
        } else if dlen == 0 {
            0
        } else {
            proof {
                lemma_small_mod(start as nat, dlen as nat);
            }
            let mut i: usize = 0;
            while i < len
                invariant
                    i <= len,
                    len == buf@.len(),
                    dlen == self.data@.len(),
                    dlen > 0,
                    self.data@ == old(self).data@,
                    self.circular,
                    self.index < dlen,
                    self.index == (start + i) % (dlen as int),
                    forall|j: int|
                        0 <= j < i ==> buf@[j] == self.data@[(start + j) % (dlen as int)],
                decreases len - i,
            {
                buf.set(i, self.data[self.index]);
                proof {
                    lemma_add_mod_noop_right(1, start + i, dlen as int);
                    if self.index + 1 < dlen {
                        lemma_small_mod((self.index + 1) as nat, dlen as nat);
                    } else {
                        lemma_mod_multiples_basic(1, dlen as int);
                    }
                }
                self.index = if self.index + 1 < dlen {
                    self.index + 1
                } else {
                    0
                };
                i += 1;
            }
            assert(buf@ =~= cycle_run(self.data@, start, len as nat));
            len
        }
    }
}

/// The kinds of synthetic content.
#[derive(PartialEq, Eq, Structural, Clone, Copy, Debug)]
pub enum Generator {
    /// Printable characters, in order.
    Text,
    /// Zero bytes.
    Null,
    /// Random bytes over the whole byte range.
    Random,
    /// Random printable characters.
    RandomText,
}

/// A synthetic content source of any kind.
pub enum ContentSource {
    Ascii(AsciiGenerator),
    Null(NullGenerator),
    Fixed(MemoryGenerator),
}

impl ContentSource {
    pub open spec fn wf(self) -> bool {
        match self {
            ContentSource::Ascii(g) => g.wf(),
            ContentSource::Null(_) => true,
            ContentSource::Fixed(g) => g.wf(),
        }
    }

    /// The number of bytes that a request for `n` bytes obtains.
    pub open spec fn fill_count(self, n: nat) -> nat {
        match self {
            ContentSource::Fixed(g) => g.fill_count(n),
            _ => n,
        }
    }

    /// The buffer `buf` once a request for its whole length is served.
    pub open spec fn fill_bytes(self, buf: Seq<u8>) -> Seq<u8> {
        match self {
            ContentSource::Ascii(g) => cycle_run(ascii_table(), g.index as int, buf.len()),
            ContentSource::Null(_) => Seq::new(buf.len(), |i: int| 0u8),
            ContentSource::Fixed(g) => g.fill_bytes(buf),
        }
    }

    /// Whether `next` is this source after a request for `n` bytes.
    pub open spec fn steps_to(self, next: ContentSource, n: nat) -> bool {
        match (self, next) {
            (ContentSource::Ascii(g), ContentSource::Ascii(h)) => h.index == (g.index + n) % 95,
            (ContentSource::Null(_), ContentSource::Null(_)) => true,
            (ContentSource::Fixed(g), ContentSource::Fixed(h)) => {
                &&& h.data@ == g.data@
                &&& h.index == g.next_index(n)
                &&& h.circular == g.circular
            },
            _ => false,
        }
    }

    /// Serves a request for the whole buffer, writing from offset 0, and
    /// returns the number of bytes written; 0 means that the source is
    /// exhausted.
    pub fn fill(&mut self, buf: &mut Vec<u8>) -> (r: usize)
        requires
            old(self).wf(),
        ensures
            final(self).wf(),
            r == old(self).fill_count(old(buf)@.len()),
            final(buf)@ == old(self).fill_bytes(old(buf)@),
            old(self).steps_to(*final(self), old(buf)@.len()),
    {
        match self {
            ContentSource::Ascii(g) => g.fill(buf),
            ContentSource::Null(g) => g.fill(buf),
            ContentSource::Fixed(g) => g.fill(buf),
        }
    }
}

/// Relies on rand's `thread_rng().gen_range` over an inclusive range,
/// which yields a value within the bounds and panics only when the range
/// is empty.
#[verifier::external_body]
fn random_byte(lo: u8, hi: u8) -> (r: u8)
    requires
        lo <= hi,
    ensures
        lo <= r <= hi,
{
    rand::thread_rng().gen_range(lo..=hi)
}

/// The number of bytes a random source materializes: one buffer's worth
/// when the run is unbounded, the whole output otherwise.
pub open spec fn materialized_len(buffer_size: nat, repeat_count: nat) -> nat {
    if repeat_count == 0 {
        buffer_size
    } else {
        repeat_count * buffer_size
    }
}

/// `materialized_len`, or `None` when it exceeds the address space.
pub fn generate_size(buffer_size: usize, repeat_count: u64) -> (r: Option<usize>)
    ensures
        r is Some <==> materialized_len(buffer_size as nat, repeat_count as nat) <= usize::MAX,
        r is Some ==> r->Some_0 == materialized_len(buffer_size as nat, repeat_count as nat),
{
    if repeat_count == 0 {
        Some(buffer_size)
    } else {
        proof {
            assert(repeat_count as u128 * buffer_size as u128 <= u64::MAX as u128 * u64::MAX as u128)
                by (nonlinear_arith)
                requires
                    repeat_count <= u64::MAX,
                    buffer_size <= u64::MAX,
            ;
        }
        let total = repeat_count as u128 * buffer_size as u128;
        if total <= usize::MAX as u128 {
            Some(total as usize)
        } else {
            None
        }
    }
}

/// `size` bytes sampled one by one: printable characters 0x20 through
/// 0x7E when `printable`, any byte otherwise.
pub fn random_content(size: usize, printable: bool) -> (r: Vec<u8>)
    ensures
        r@.len() == size,
        printable ==> forall|i: int| 0 <= i < size ==> 0x20 <= #[trigger] r@[i] <= 0x7E,
{
    let (lo, hi) = if printable {
        (0x20u8, 0x7Eu8)
    } else {
        (0u8, 0xFFu8)
    };
    let mut bytes: Vec<u8> = Vec::with_capacity(size);
    let mut i: usize = 0;
    while i < size
        invariant
            i <= size,
            bytes@.len() == i,
            lo <= hi,
            printable ==> lo == 0x20 && hi == 0x7E,
            forall|j: int| 0 <= j < i ==> lo <= #[trigger] bytes@[j] <= hi,
        decreases size - i,
    {
        bytes.push(random_byte(lo, hi));
        i += 1;
    }
    bytes
}

impl ContentSource {
    /// Builds the source of the given kind for a run with this buffer size
    /// and repeat count. Random kinds are materialized here, in full, and
    /// replayed circularly only when the run is unbounded; `None` when
    /// that content would not fit in memory.
    pub fn new(kind: Generator, buffer_size: usize, repeat_count: u64) -> (r: Option<ContentSource>)
        ensures
            r is Some ==> r->Some_0.wf(),
            kind == Generator::Text ==> r == Some(ContentSource::Ascii(AsciiGenerator { index: 0 })),
            kind == Generator::Null ==> r == Some(ContentSource::Null(NullGenerator {  })),
            (kind == Generator::Random || kind == Generator::RandomText) ==> match r {
                Some(ContentSource::Fixed(g)) => {
                    &&& g.data@.len() == materialized_len(buffer_size as nat, repeat_count as nat)
                    &&& g.index == 0
                    &&& g.circular == (repeat_count == 0)
                    &&& kind == Generator::RandomText ==> forall|i: int|
                        0 <= i < g.data@.len() ==> 0x20 <= #[trigger] g.data@[i] <= 0x7E
                },
                Some(_) => false,
                None => materialized_len(buffer_size as nat, repeat_count as nat) > usize::MAX,
            },
    {
        match kind {
            Generator::Text => Some(ContentSource::Ascii(AsciiGenerator::new())),
            Generator::Null => Some(ContentSource::Null(NullGenerator::new())),
            _ => match generate_size(buffer_size, repeat_count) {
                None => None,
                Some(size) => {
                    let bytes = random_content(size, kind == Generator::RandomText);
                    Some(ContentSource::Fixed(MemoryGenerator::new(bytes, repeat_count == 0)))
                },
            },
        }
    }
}

/// Successive requests of any sizes to a fresh printable source yield
/// 0x20, 0x21, ..., 0x7E and then the same again, with period 95,
/// wherever the boundaries between the requests fall.
pub proof fn lemma_ascii_chunking(sizes: Seq<nat>)
    ensures
        successive_cycle(ascii_table(), 0, sizes) == Seq::new(
            sum_of(sizes),
            |i: int| (0x20 + i % 95) as u8,
        ),
{
    lemma_successive_cycle(ascii_table(), 0, sizes);
    assert(cycle_run(ascii_table(), 0, sum_of(sizes)) =~= Seq::new(
        sum_of(sizes),
        |i: int| (0x20 + i % 95) as u8,
    ));
}

/// A single-pass source that served a request short has nothing left: the
/// next request obtains no bytes.
pub proof fn lemma_single_pass_exhausted(g: MemoryGenerator, next: MemoryGenerator, n: nat, m: nat)
    requires
        g.wf(),
        !g.circular,
        g.fill_count(n) < n,
        next.data@ == g.data@,
        next.circular == g.circular,
        next.index == g.next_index(n),
    ensures
        next.fill_count(m) == 0,
{
}

/// A circular source over `L > 0` bytes, from its start, asked for
/// `k * L + r` bytes (`r < L`) in one request or in several, yields its
/// bytes `k` times over followed by their first `r`.
pub proof fn lemma_circular_replay(data: Seq<u8>, sizes: Seq<nat>, k: nat, r: nat)
    requires
        data.len() > 0,
        r < data.len(),
        sum_of(sizes) == k * data.len() + r,
    ensures
        successive_cycle(data, 0, sizes) == repeated(data, k) + data.take(r as int),
{
    lemma_successive_cycle(data, 0, sizes);
    lemma_cycle_run_repeats(data, k, r);
}

/// The printable and zero sources, and a circular one over some bytes,
/// never run dry: every request obtains all it asks for.
pub proof fn lemma_endless_sources_fill_fully(src: ContentSource, n: nat)
    requires
        match src {
            ContentSource::Fixed(g) => g.circular && g.data@.len() > 0,
            _ => true,
        },
    ensures
        src.fill_count(n) == n,
{
}

} // verus!
