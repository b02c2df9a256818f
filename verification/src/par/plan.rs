//! Work partitioning and reproducible seeding.

use std::ops::Range;

use rand::{RngCore, SeedableRng};
use rand_chacha::ChaCha8Rng;
use vstd::prelude::*;

verus! {

/// A fixed partition of `0..n` into chunks.
///
/// The chunk count is a function of `n` and the grain **only**, never of the
/// thread-pool size. The items are spread *evenly* over the chunks: every chunk
/// holds `n / chunks` or `n / chunks + 1` of them, and never more than the
/// grain.
#[derive(Clone, Copy, PartialEq, Eq, Structural, Debug)]
pub struct Plan {
    pub(crate) n: usize,
    pub(crate) chunks: usize,
}

/// How many chunks a partition of `n` items by `grain` has.
pub open spec fn chunk_count(n: int, grain: int) -> int {
    if n == 0 {
        1
    } else {
        (n - 1) / grain + 1
    }
}

/// Where the `k`-th of `chunks` even cuts of `0..n` lies: the first
/// `n % chunks` chunks carry one item more.
pub open spec fn cut(n: int, chunks: int, k: int) -> int {
    k * (n / chunks) + (if k < n % chunks {
        k
    } else {
        n % chunks
    })
}

impl Plan {
    /// The number of items.
    pub open(crate) spec fn items(self) -> int {
        self.n as int
    }

    /// The number of chunks.
    pub open(crate) spec fn parts(self) -> int {
        self.chunks as int
    }

    /// There is at least one chunk.
    pub open spec fn wf(self) -> bool {
        self.parts() > 0
    }

    /// Partition `0..n` into chunks of about `grain` items, which is not zero.
    ///
    /// The empty plan still has one (empty) chunk.
    pub fn new(n: usize, grain: usize) -> (r: Self)
        requires
            grain > 0,
        ensures
            r.wf(),
            r.items() == n,
            r.parts() == chunk_count(n as int, grain as int),
            n > 0 ==> (r.parts() - 1) * grain < n <= r.parts() * grain,
            n == 0 ==> r.parts() == 1,
    {
        proof {
            the_chunks_are_as_few_as_the_grain_allows(n as int, grain as int);
        }
        if n == 0 {
            Plan { n, chunks: 1 }
        } else {
            proof {
                let (a, g) = ((n - 1) as int, grain as int);
                vstd::arithmetic::div_mod::lemma_div_is_ordered_by_denominator(a, 1, g);
                vstd::arithmetic::div_mod::lemma_div_basics(a);
                vstd::arithmetic::div_mod::lemma_div_pos_is_pos(a, g);
            }
            Plan { n, chunks: (n - 1) / grain + 1 }
        }
    }

    /// Total item count.
    #[inline]
    pub fn len(&self) -> (r: usize)
        ensures
            r == self.items(),
    {
        self.n
    }

    /// Whether there is nothing to do.
    #[inline]
    pub fn is_empty(&self) -> (r: bool)
        ensures
            r <==> self.items() == 0,
    {
        self.n == 0
    }

    /// Number of chunks.
    #[inline]
    pub fn chunks(&self) -> (r: usize)
        ensures
            r == self.parts(),
    {
        self.chunks
    }

    /// The `k`-th chunk. The chunks are an exact cover of `0..n`.
    #[inline]
    pub fn range(&self, k: usize) -> (r: Range<usize>)
        requires
            self.wf(),
            k < self.parts(),
        ensures
            r.start == cut(self.items(), self.parts(), k as int),
            r.end == cut(self.items(), self.parts(), k + 1),
            r.start <= r.end <= self.items(),
    {
        let base: usize = self.n / self.chunks;
        let rem: usize = self.n % self.chunks;
        proof {
            let (n, c) = (self.n as int, self.chunks as int);
            the_chunks_cover_exactly(n, c);
            assert(cut(n, c, k as int) <= cut(n, c, k + 1) <= cut(n, c, c)) by {
                lemma_cuts_rise(n, c, k as int, k + 1);
                lemma_cuts_rise(n, c, k + 1, c);
            }
            lemma_next_cut(n, c, k as int);
            assert(0 <= k * base) by (nonlinear_arith)
                requires
                    k >= 0,
                    base >= 0,
            ;
        }
        let start: usize = k * base + if k < rem {
            k
        } else {
            rem
        };
        let end: usize = start + base + if k < rem {
            1
        } else {
            0
        };
        Range { start, end }
    }
}

proof fn lemma_next_cut(n: int, chunks: int, k: int)
    requires
        n >= 0,
        chunks > 0,
        0 <= k < chunks,
    ensures
        cut(n, chunks, k + 1) == cut(n, chunks, k) + n / chunks + (if k < n % chunks {
            1int
        } else {
            0int
        }),
{
    let base = n / chunks;
    assert((k + 1) * base == k * base + base) by (nonlinear_arith);
}

proof fn lemma_cuts_rise(n: int, chunks: int, j: int, k: int)
    requires
        n >= 0,
        chunks > 0,
        0 <= j <= k <= chunks,
    ensures
        cut(n, chunks, j) <= cut(n, chunks, k),
    decreases k - j,
{
    if j < k {
        lemma_next_cut(n, chunks, j);
        vstd::arithmetic::div_mod::lemma_div_pos_is_pos(n, chunks);
        lemma_cuts_rise(n, chunks, j + 1, k);
    }
}

/// The chunks cover `0..n` exactly: the first begins at zero, the last ends at
/// `n`, and each begins where the one before it ends.
pub proof fn the_chunks_cover_exactly(n: int, chunks: int)
    requires
        n >= 0,
        chunks > 0,
    ensures
        cut(n, chunks, 0) == 0,
        cut(n, chunks, chunks) == n,
        forall|j: int, k: int|
            0 <= j <= k <= chunks ==> #[trigger] cut(n, chunks, j) <= #[trigger] cut(n, chunks, k),
{
    vstd::arithmetic::div_mod::lemma_fundamental_div_mod(n, chunks);
    vstd::arithmetic::div_mod::lemma_mod_bound(n, chunks);
    assert(0 * (n / chunks) == 0);
    assert forall|j: int, k: int| 0 <= j <= k <= chunks implies #[trigger] cut(n, chunks, j)
        <= #[trigger] cut(n, chunks, k) by {
        lemma_cuts_rise(n, chunks, j, k);
    }
}

/// Every item lies in exactly one chunk.
pub proof fn every_item_is_in_one_chunk(n: int, chunks: int, i: int)
    requires
        n >= 0,
        chunks > 0,
        0 <= i < n,
    ensures
        exists|k: int|
            0 <= k < chunks && #[trigger] cut(n, chunks, k) <= i < cut(n, chunks, k + 1),
        forall|j: int, k: int|
            0 <= j < chunks && 0 <= k < chunks && #[trigger] cut(n, chunks, j) <= i < cut(
                n,
                chunks,
                j + 1,
            ) && #[trigger] cut(n, chunks, k) <= i < cut(n, chunks, k + 1) ==> j == k,
{
    the_chunks_cover_exactly(n, chunks);
    lemma_some_chunk(n, chunks, i, chunks);
    assert forall|j: int, k: int|
        0 <= j < chunks && 0 <= k < chunks && #[trigger] cut(n, chunks, j) <= i < cut(
            n,
            chunks,
            j + 1,
        ) && #[trigger] cut(n, chunks, k) <= i < cut(n, chunks, k + 1) implies j == k by {
        if j < k {
            lemma_cuts_rise(n, chunks, j + 1, k);
        } else if k < j {
            lemma_cuts_rise(n, chunks, k + 1, j);
        }
    }
}

proof fn lemma_some_chunk(n: int, chunks: int, i: int, upto: int)
    requires
        n >= 0,
        chunks > 0,
        0 <= upto <= chunks,
        0 <= i < cut(n, chunks, upto),
    ensures
        exists|k: int|
            0 <= k < chunks && #[trigger] cut(n, chunks, k) <= i < cut(n, chunks, k + 1),
    decreases upto,
{
    the_chunks_cover_exactly(n, chunks);
    if cut(n, chunks, upto - 1) <= i {
        assert(cut(n, chunks, upto - 1) <= i < cut(n, chunks, upto - 1 + 1));
    } else {
        lemma_some_chunk(n, chunks, i, upto - 1);
    }
}

/// The chunks are balanced: they differ by at most one item, and none holds
/// more than the grain that the plan was made with.
pub proof fn the_chunks_are_balanced(n: int, grain: int, k: int)
    requires
        n >= 0,
        grain > 0,
        0 <= k < chunk_count(n, grain),
    ensures
        ({
            let chunks = chunk_count(n, grain);
            let size = cut(n, chunks, k + 1) - cut(n, chunks, k);
            &&& size == n / chunks || size == n / chunks + 1
            &&& size <= grain
        }),
{
    let chunks = chunk_count(n, grain);
    if n == 0 {
        assert(cut(0, 1, k + 1) == 0) by {
            lemma_next_cut(0, 1, k);
        }
        lemma_next_cut(0, 1, k);
    } else {
        vstd::arithmetic::div_mod::lemma_div_pos_is_pos(n - 1, grain);
        lemma_next_cut(n, chunks, k);
        vstd::arithmetic::div_mod::lemma_fundamental_div_mod(n, chunks);
        vstd::arithmetic::div_mod::lemma_fundamental_div_mod(n - 1, grain);
        vstd::arithmetic::div_mod::lemma_mod_bound(n, chunks);
        vstd::arithmetic::div_mod::lemma_mod_bound(n - 1, grain);
        let base = n / chunks;
        let rem = n % chunks;
        let q = (n - 1) / grain;
        assert(n <= chunks * grain) by (nonlinear_arith)
            requires
                n - 1 == grain * q + (n - 1) % grain,
                (n - 1) % grain < grain,
                chunks == q + 1,
                grain > 0,
        ;
        assert(base < grain || (base == grain && rem == 0)) by (nonlinear_arith)
            requires
                n <= chunks * grain,
                n == chunks * base + rem,
                0 <= rem < chunks,
                chunks > 0,
        ;
    }
}

/// A plan has as few chunks as the grain allows: one chunk less, filled up to
/// the grain, would leave an item over, and the chunks it has hold every item.
/// Without items there is one chunk.
pub proof fn the_chunks_are_as_few_as_the_grain_allows(n: int, grain: int)
    requires
        n >= 0,
        grain > 0,
    ensures
        n > 0 ==> (chunk_count(n, grain) - 1) * grain < n <= chunk_count(n, grain) * grain,
        n == 0 ==> chunk_count(n, grain) == 1,
        chunk_count(n, grain) >= 1,
{
    if n > 0 {
        let q = (n - 1) / grain;
        vstd::arithmetic::div_mod::lemma_fundamental_div_mod(n - 1, grain);
        vstd::arithmetic::div_mod::lemma_mod_bound(n - 1, grain);
        vstd::arithmetic::div_mod::lemma_div_pos_is_pos(n - 1, grain);
        assert(q * grain == grain * q) by (nonlinear_arith);
        assert((q + 1) * grain == q * grain + grain) by (nonlinear_arith);
    }
}

/// A coarser grain never makes more chunks of the same items.
pub proof fn a_coarser_grain_makes_no_more_chunks(n: int, fine: int, coarse: int)
    requires
        n >= 0,
        0 < fine <= coarse,
    ensures
        chunk_count(n, coarse) <= chunk_count(n, fine),
{
    the_chunks_are_as_few_as_the_grain_allows(n, fine);
    the_chunks_are_as_few_as_the_grain_allows(n, coarse);
    let (f, c) = (chunk_count(n, fine), chunk_count(n, coarse));
    if c > f {
        assert((c - 1) * coarse >= f * fine) by (nonlinear_arith)
            requires
                c - 1 >= f,
                f >= 0,
                0 < fine <= coarse,
        ;
    }
}

/// The chunks are as even as can be, the larger ones first: a chunk is never
/// smaller than a later one, and never by more than one item larger.
pub proof fn earlier_chunks_are_no_smaller(n: int, chunks: int, j: int, k: int)
    requires
        n >= 0,
        0 <= j <= k < chunks,
    ensures
        ({
            let early = cut(n, chunks, j + 1) - cut(n, chunks, j);
            let late = cut(n, chunks, k + 1) - cut(n, chunks, k);
            late <= early <= late + 1
        }),
{
    lemma_next_cut(n, chunks, j);
    lemma_next_cut(n, chunks, k);
}

/// The generator of `rand_chacha`.
#[verifier::external_type_specification]
#[verifier::external_body]
pub struct ExChaCha8Rng(ChaCha8Rng);

/// The seed that a generator was made from.
pub uninterp spec fn rng_seed(r: ChaCha8Rng) -> Seq<u8>;

/// The stream that a generator draws from.
pub uninterp spec fn rng_stream(r: ChaCha8Rng) -> u64;

/// How far into its stream a generator is, in 32-bit words.
pub uninterp spec fn rng_word_pos(r: ChaCha8Rng) -> u128;

/// The `len` bytes of ChaCha8's keystream from word `pos` of `stream` on, under
/// the key `seed`.
pub uninterp spec fn keystream(seed: Seq<u8>, stream: u64, pos: u128, len: nat) -> Seq<u8>;

/// `ChaCha8Rng::from_seed`: a generator with that seed, at the start of stream
/// zero.
#[verifier::external_body]
fn rng_from_seed(seed: [u8; 32]) -> (r: ChaCha8Rng)
    ensures
        rng_seed(r) == seed@,
        rng_stream(r) == 0,
        rng_word_pos(r) == 0,
{
    ChaCha8Rng::from_seed(seed)
}

/// `ChaCha8Rng::set_stream`: the same seed and position, in another stream.
#[verifier::external_body]
fn rng_set_stream(r: &mut ChaCha8Rng, stream: u64)
    ensures
        rng_seed(*final(r)) == rng_seed(*old(r)),
        rng_stream(*final(r)) == stream,
        rng_word_pos(*final(r)) == rng_word_pos(*old(r)),
{
    r.set_stream(stream)
}

/// `ChaCha8Rng::fill_bytes`: the next 32 bytes of the keystream. The seed and the
/// stream stay, and the position moves by the eight words read, around a stream
/// of 2^68 words.
#[verifier::external_body]
fn rng_fill_bytes(r: &mut ChaCha8Rng, dest: &mut [u8; 32])
    ensures
        final(dest)@ == keystream(
            rng_seed(*old(r)),
            rng_stream(*old(r)),
            rng_word_pos(*old(r)),
            32,
        ),
        rng_seed(*final(r)) == rng_seed(*old(r)),
        rng_stream(*final(r)) == rng_stream(*old(r)),
        rng_word_pos(*final(r)) == (rng_word_pos(*old(r)) + 8) % 0x10_0000_0000_0000_0000,
{
    r.fill_bytes(dest)
}

/// Root entropy for a run.
#[derive(Clone, Copy, Debug)]
pub struct Seed(pub [u8; 32]);

/// Whether `r` is the generator that `seed` derives for chunk `k`: fresh, from
/// the first 32 bytes of the seed's keystream in stream `k`.
pub open spec fn is_split(seed: Seed, k: u64, r: ChaCha8Rng) -> bool {
    &&& rng_seed(r) == keystream(seed.0@, k, 0, 32)
    &&& rng_stream(r) == 0
    &&& rng_word_pos(r) == 0
}

impl Seed {
    /// Derive the generator for one chunk.
    ///
    /// Keyed on the *work-item* index, never on a thread id. The root seed is
    /// the key, `k` is the stream, and the first 32 bytes of that keystream are
    /// the seed that the returned generator is made from.
    pub fn split(self, k: u64) -> (r: ChaCha8Rng)
        ensures
            is_split(self, k, r),
            rng_seed(r) == keystream(self.0@, k, 0, 32),
            rng_stream(r) == 0,
            rng_word_pos(r) == 0,
    {
        let mut kdf = rng_from_seed(self.0);
        rng_set_stream(&mut kdf, k);
        let mut derived: [u8; 32] = [0u8; 32];
        rng_fill_bytes(&mut kdf, &mut derived);
        rng_from_seed(derived)
    }
}

/// The generator of chunk `k` is the one seeded with the first 32 bytes that the
/// root seed yields in stream `k`, at the start of its own stream zero, and no
/// other is.
pub proof fn a_chunk_reads_the_stream_of_its_index(seed: Seed, k: u64, r: ChaCha8Rng)
    ensures
        is_split(seed, k, r) <==> rng_seed(r) == keystream(seed.0@, k, 0, 32) && rng_stream(r) == 0
            && rng_word_pos(r) == 0,
{
}

/// Two chunks have the same generator exactly where the root seed yields the
/// same 32 bytes in the streams of their two indices: no index is read as
/// another.
pub proof fn chunks_share_a_generator_only_with_their_stream(
    seed: Seed,
    j: u64,
    k: u64,
    a: ChaCha8Rng,
    b: ChaCha8Rng,
)
    requires
        is_split(seed, j, a),
        is_split(seed, k, b),
    ensures
        rng_seed(a) == rng_seed(b) <==> keystream(seed.0@, j, 0, 32) == keystream(
            seed.0@,
            k,
            0,
            32,
        ),
{
}

} // verus!
