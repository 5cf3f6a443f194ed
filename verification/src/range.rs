//! Half-open byte ranges, and the cutting of an object into the ranges that
//! one read pass requests.

use vstd::prelude::*;

verus! {

/// The half-open interval `[start, end)` of byte offsets into an object.
#[derive(Clone, Copy, Debug, PartialEq, Eq, Structural)]
pub struct ByteRange {
    pub start: u64,
    pub end: u64,
}

impl ByteRange {
    /// Whether the byte at `offset` lies in the range.
    pub open spec fn contains(self, offset: int) -> bool {
        self.start <= offset < self.end
    }

    /// Number of bytes in the range; zero where `end` is not above `start`.
    pub open spec fn spec_len(self) -> nat {
        if self.start <= self.end {
            (self.end - self.start) as nat
        } else {
            0
        }
    }

    /// Number of bytes in the range; zero where `end` is not above `start`.
    pub fn len(&self) -> (n: u64)
        ensures
            n == self.spec_len(),
    {
        if self.start <= self.end {
            self.end - self.start
        } else {
            0
        }
    }

    /// Whether the range holds no byte.
    pub fn is_empty(&self) -> (empty: bool)
        ensures
            empty <==> self.spec_len() == 0,
    {
        self.end <= self.start
    }
}

/// How many ranges of `chunk` bytes it takes to cover `total` bytes: the
/// quotient rounded up.
pub open spec fn range_count(total: int, chunk: int) -> int {
    if total <= 0 || chunk <= 0 {
        0
    } else {
        (total - 1) / chunk + 1
    }
}

/// First byte of the range with the given index.
pub open spec fn range_start(index: int, chunk: int) -> int {
    index * chunk
}

/// End of the range with the given index: one chunk past its start, cut back
/// to `total` for the last range.
pub open spec fn range_end(index: int, total: int, chunk: int) -> int {
    if (index + 1) * chunk <= total {
        (index + 1) * chunk
    } else {
        total
    }
}

/// The ranges are exactly the fixed-size cut of `[0, total)`: as many as are
/// needed, in ascending order, each `chunk` long but the last, which ends at
/// `total`.
pub open spec fn is_split(ranges: Seq<ByteRange>, total: int, chunk: int) -> bool {
    &&& ranges.len() == range_count(total, chunk)
    &&& forall|i: int|
        0 <= i < ranges.len() ==> (#[trigger] ranges[i]).start == range_start(i, chunk)
            && ranges[i].end == range_end(i, total, chunk)
}

/// Whether some range holds the byte at offset `b`.
pub open spec fn covered(ranges: Seq<ByteRange>, b: int) -> bool {
    exists|i: int| 0 <= i < ranges.len() && #[trigger] ranges[i].contains(b)
}

/// The union of the ranges is `[0, total)` and no byte lies in two of them.
pub open spec fn covers_exactly_once(ranges: Seq<ByteRange>, total: int) -> bool {
    &&& forall|b: int| #[trigger] covered(ranges, b) <==> 0 <= b < total
    &&& forall|i: int, j: int, b: int|
        0 <= i < ranges.len() && 0 <= j < ranges.len() && #[trigger] ranges[i].contains(b)
            && #[trigger] ranges[j].contains(b) ==> i == j
}

/// `n` is the rounded-up quotient of `total` by `chunk` exactly when `n`
/// chunks reach `total` and `n - 1` chunks do not.
pub proof fn lemma_range_count_bounds(total: int, chunk: int, n: int)
    requires
        0 <= total,
        0 < chunk,
        0 <= n,
    ensures
        n == range_count(total, chunk) <==> (n * chunk >= total && (n > 0 ==> (n - 1) * chunk
            < total)),
{
    if total == 0 {
        assert(n * chunk >= 0) by (nonlinear_arith)
            requires
                0 <= n,
                0 < chunk,
        ;
        if n > 0 {
            assert((n - 1) * chunk >= 0) by (nonlinear_arith)
                requires
                    0 < n,
                    0 < chunk,
            ;
        }
    } else {
        let q = (total - 1) / chunk;
        let r = (total - 1) % chunk;
        vstd::arithmetic::div_mod::lemma_fundamental_div_mod(total - 1, chunk);
        vstd::arithmetic::div_mod::lemma_mod_bound(total - 1, chunk);
        vstd::arithmetic::div_mod::lemma_div_pos_is_pos(total - 1, chunk);
        assert(total - 1 == chunk * q + r);
        assert((q + 1) * chunk == chunk * q + chunk) by (nonlinear_arith);
        assert(((q + 1) - 1) * chunk == chunk * q) by (nonlinear_arith);
        if n >= q + 2 {
            assert((n - 1) * chunk >= (q + 1) * chunk) by (nonlinear_arith)
                requires
                    n - 1 >= q + 1,
                    0 < chunk,
            ;
        }
        if n <= q {
            assert(n * chunk <= q * chunk) by (nonlinear_arith)
                requires
                    n <= q,
                    0 < chunk,
            ;
            assert(q * chunk == chunk * q) by (nonlinear_arith);
        }
    }
}

/// Within a fixed-size cut, the range that holds byte `b` is the one whose
/// index is `b / chunk`, and no other.
pub proof fn lemma_range_of_byte(total: int, chunk: int, index: int, b: int)
    requires
        0 < chunk,
        0 <= total,
        0 <= index < range_count(total, chunk),
    ensures
        (range_start(index, chunk) <= b < range_end(index, total, chunk)) <==> (0 <= b < total
            && index == b / chunk),
        0 <= range_start(index, chunk) < range_end(index, total, chunk) <= total,
{
    lemma_range_count_bounds(total, chunk, range_count(total, chunk));
    let n = range_count(total, chunk);
    assert(index * chunk <= (n - 1) * chunk) by (nonlinear_arith)
        requires
            0 <= index <= n - 1,
            0 < chunk,
    ;
    assert(index * chunk >= 0) by (nonlinear_arith)
        requires
            0 <= index,
            0 < chunk,
    ;
    assert((index + 1) * chunk == index * chunk + chunk) by (nonlinear_arith);
    if 0 <= b < total && index == b / chunk {
        vstd::arithmetic::div_mod::lemma_fundamental_div_mod(b, chunk);
        vstd::arithmetic::div_mod::lemma_mod_bound(b, chunk);
        assert(chunk * index == index * chunk) by (nonlinear_arith);
    }
    if range_start(index, chunk) <= b < range_end(index, total, chunk) {
        let r = b - index * chunk;
        assert(0 <= r < chunk);
        assert(b == index * chunk + r);
        vstd::arithmetic::div_mod::lemma_fundamental_div_mod_converse(b, chunk, index, r);
    }
}

/// A fixed-size cut of `[0, total)` covers every byte of it exactly once.
pub proof fn lemma_split_covers_exactly_once(ranges: Seq<ByteRange>, total: int, chunk: int)
    requires
        0 < chunk,
        0 <= total,
        is_split(ranges, total, chunk),
    ensures
        covers_exactly_once(ranges, total),
{
    assert forall|b: int| #[trigger] covered(ranges, b) <==> 0 <= b < total by {
        if covered(ranges, b) {
            let i = choose|i: int| 0 <= i < ranges.len() && #[trigger] ranges[i].contains(b);
            lemma_range_of_byte(total, chunk, i, b);
        }
        if 0 <= b < total {
            let i = b / chunk;
            vstd::arithmetic::div_mod::lemma_div_pos_is_pos(b, chunk);
            vstd::arithmetic::div_mod::lemma_div_is_ordered(b, total - 1, chunk);
            lemma_range_of_byte(total, chunk, i, b);
            assert(ranges[i].contains(b));
        }
    }
    assert forall|i: int, j: int, b: int|
        0 <= i < ranges.len() && 0 <= j < ranges.len() && #[trigger] ranges[i].contains(b)
            && #[trigger] ranges[j].contains(b) implies i == j by {
        lemma_range_of_byte(total, chunk, i, b);
        lemma_range_of_byte(total, chunk, j, b);
    }
}

/// The cut of an object depends on its size and the chunk size alone: two
/// read passes over an object of one size ask for the same ranges.
pub proof fn lemma_split_is_unique(
    first: Seq<ByteRange>,
    second: Seq<ByteRange>,
    total: int,
    chunk: int,
)
    requires
        is_split(first, total, chunk),
        is_split(second, total, chunk),
    ensures
        first == second,
{
    assert(first =~= second);
}

/// Cuts `[0, total_size)` into consecutive ranges of `chunk_size` bytes, in
/// ascending order. The last range is cut back so that it ends at
/// `total_size`; an empty object gives no range.
pub fn split_ranges(total_size: u64, chunk_size: u64) -> (ranges: Vec<ByteRange>)
    requires
        chunk_size > 0,
    ensures
        is_split(ranges@, total_size as int, chunk_size as int),
        covers_exactly_once(ranges@, total_size as int),
{
    let mut ranges: Vec<ByteRange> = Vec::new();
    let mut start: u64 = 0;
    assert(ranges.len() * chunk_size == 0) by (nonlinear_arith)
        requires
            ranges.len() == 0,
    ;
    while start < total_size
        invariant
            chunk_size > 0,
            start <= total_size,
            start < total_size ==> start == ranges.len() * chunk_size,
            ranges.len() * chunk_size >= start,
            ranges.len() > 0 ==> (ranges.len() - 1) * chunk_size < start,
            forall|i: int|
                0 <= i < ranges.len() ==> (#[trigger] ranges@[i]).start == range_start(
                    i,
                    chunk_size as int,
                ) && ranges@[i].end == range_end(i, total_size as int, chunk_size as int),
        decreases total_size - start,
    {
        let remaining: u64 = total_size - start;
        let end: u64 = if remaining < chunk_size {
            total_size
        } else {
            start + chunk_size
        };
        proof {
            let n = ranges.len() as int;
            let c = chunk_size as int;
            assert((n + 1) * c == n * c + c) by (nonlinear_arith);
            assert(((n + 1) - 1) * c == n * c) by (nonlinear_arith);
        }
        ranges.push(ByteRange { start, end });
        start = end;
    }
    proof {
        lemma_range_count_bounds(total_size as int, chunk_size as int, ranges.len() as int);
        lemma_split_covers_exactly_once(ranges@, total_size as int, chunk_size as int);
    }
    ranges
}

} // verus!
