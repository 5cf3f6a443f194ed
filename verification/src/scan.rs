//! One read pass of a scan: the object is cut into ranges of one size, and
//! the ranges are dealt out over the clients of the pool.

use vstd::prelude::*;
use crate::fanout::{
    assign_round_robin, is_round_robin, lane_len, lemma_every_task_assigned_once, task_at,
    has_place,
};
use crate::range::{
    covered, covers_exactly_once, is_split, range_count, range_end, range_start, split_ranges,
    ByteRange,
};

verus! {

/// Why a read pass cannot be planned.
#[derive(Clone, Copy, Debug, PartialEq, Eq, Structural)]
pub enum ReadPlanError {
    /// Ranges of no bytes never get through the object.
    ZeroDownloadSize,
    /// There are ranges to read but the pool holds no client.
    NoClients,
}

/// The lists are those of a read pass over an object of `total` bytes in
/// ranges of `chunk` bytes: client `c` of `n` gets the ranges with the
/// indices `c`, `c + n`, `c + 2n`, ... of the cut of the object, in that
/// order.
pub open spec fn is_read_pass(lanes: Seq<Vec<ByteRange>>, total: int, chunk: int) -> bool {
    forall|c: int|
        0 <= c < lanes.len() ==> (#[trigger] lanes[c])@.len() == lane_len(
            range_count(total, chunk),
            lanes.len() as int,
            c,
        ) && forall|k: int|
            0 <= k < lanes[c]@.len() ==> (#[trigger] lanes[c]@[k]).start == range_start(
                task_at(c, k, lanes.len() as int),
                chunk,
            ) && lanes[c]@[k].end == range_end(task_at(c, k, lanes.len() as int), total, chunk)
}

/// Whether some client reads the byte at offset `b`.
pub open spec fn read_by_some(lanes: Seq<Vec<ByteRange>>, b: int) -> bool {
    exists|c: int, k: int|
        0 <= c < lanes.len() && 0 <= k < lanes[c]@.len() && #[trigger] lanes[c]@[k].contains(b)
}

/// Over all clients together, the bytes read are those of `[0, total)`, and
/// no byte is read twice, neither by two clients nor twice by one.
pub open spec fn reads_exactly_once(lanes: Seq<Vec<ByteRange>>, total: int) -> bool {
    &&& forall|b: int| #[trigger] read_by_some(lanes, b) <==> 0 <= b < total
    &&& forall|c: int, k: int, d: int, m: int, b: int|
        0 <= c < lanes.len() && 0 <= k < lanes[c]@.len() && 0 <= d < lanes.len() && 0 <= m
            < lanes[d]@.len() && #[trigger] lanes[c]@[k].contains(b)
            && #[trigger] lanes[d]@[m].contains(b) ==> c == d && k == m
}

/// Dealing the cut of an object out round-robin gives a read pass, and the
/// pass reads every byte of the object exactly once.
pub proof fn lemma_dealt_ranges_read_once(
    lanes: Seq<Vec<ByteRange>>,
    ranges: Seq<ByteRange>,
    total: int,
    chunk: int,
)
    requires
        0 < chunk,
        0 <= total,
        lanes.len() > 0,
        is_split(ranges, total, chunk),
        covers_exactly_once(ranges, total),
        is_round_robin(lanes, ranges),
    ensures
        is_read_pass(lanes, total, chunk),
        reads_exactly_once(lanes, total),
{
    let n = lanes.len() as int;
    lemma_every_task_assigned_once(lanes, ranges);
    assert forall|c: int, k: int| 0 <= c < lanes.len() && 0 <= k < lanes[c]@.len() implies (
    #[trigger] lanes[c]@[k]) == ranges[task_at(c, k, n)] && 0 <= task_at(c, k, n)
        < ranges.len() by {
        assert(0 <= task_at(c, k, n) < ranges.len());
    }
    assert forall|b: int| #[trigger] read_by_some(lanes, b) <==> 0 <= b < total by {
        if read_by_some(lanes, b) {
            let (c, k) = choose|c: int, k: int|
                0 <= c < lanes.len() && 0 <= k < lanes[c]@.len()
                    && #[trigger] lanes[c]@[k].contains(b);
            assert(ranges[task_at(c, k, n)].contains(b));
            assert(covered(ranges, b));
        }
        if 0 <= b < total {
            assert(covered(ranges, b));
            let i = choose|i: int| 0 <= i < ranges.len() && #[trigger] ranges[i].contains(b);
            assert(has_place(lanes, ranges[i], i));
            let c = i % n;
            let k = i / n;
            assert(lanes[c]@[k].contains(b));
        }
    }
    assert forall|c: int, k: int, d: int, m: int, b: int|
        0 <= c < lanes.len() && 0 <= k < lanes[c]@.len() && 0 <= d < lanes.len() && 0 <= m
            < lanes[d]@.len() && #[trigger] lanes[c]@[k].contains(b)
            && #[trigger] lanes[d]@[m].contains(b) implies c == d && k == m by {
        let i = task_at(c, k, n);
        let j = task_at(d, m, n);
        assert(ranges[i].contains(b));
        assert(ranges[j].contains(b));
        assert(i == j);
    }
}

/// A read pass depends on the size of the object, the size of a range and
/// the number of clients alone: passes over an object of one size give
/// every client the same ranges in the same order.
pub proof fn lemma_read_pass_is_repeatable(
    first: Seq<Vec<ByteRange>>,
    second: Seq<Vec<ByteRange>>,
    total: int,
    chunk: int,
)
    requires
        first.len() == second.len(),
        is_read_pass(first, total, chunk),
        is_read_pass(second, total, chunk),
    ensures
        forall|c: int| 0 <= c < first.len() ==> (#[trigger] first[c])@ == second[c]@,
{
    assert forall|c: int| 0 <= c < first.len() implies (#[trigger] first[c])@ == second[c]@ by {
        assert(first[c]@.len() == second[c]@.len());
        assert forall|k: int| 0 <= k < first[c]@.len() implies first[c]@[k] == second[c]@[k] by {
            assert(first[c]@[k].start == second[c]@[k].start);
            assert(first[c]@[k].end == second[c]@[k].end);
        }
        assert(first[c]@ =~= second[c]@);
    }
}

/// Plans one read pass over an object of `total_size` bytes: the ranges of
/// `download_size` bytes that cut it, the last one cut back to the end of
/// the object, dealt out over `num_clients` clients in turn. The answer
/// holds one list per client, in the order in which the client starts its
/// reads.
pub fn plan_read_pass(total_size: u64, download_size: u64, num_clients: u32) -> (pass: Result<
    Vec<Vec<ByteRange>>,
    ReadPlanError,
>)
    ensures
        pass == Err::<Vec<Vec<ByteRange>>, ReadPlanError>(ReadPlanError::ZeroDownloadSize)
            <==> download_size == 0,
        pass == Err::<Vec<Vec<ByteRange>>, ReadPlanError>(ReadPlanError::NoClients) <==> (
        download_size > 0 && num_clients == 0 && total_size > 0),
        pass is Ok <==> (download_size > 0 && (num_clients > 0 || total_size == 0)),
        pass matches Ok(lanes) ==> {
            &&& lanes@.len() == num_clients
            &&& is_read_pass(lanes@, total_size as int, download_size as int)
            &&& reads_exactly_once(lanes@, total_size as int)
        },
{
    if download_size == 0 {
        return Err(ReadPlanError::ZeroDownloadSize);
    }
    let ranges = split_ranges(total_size, download_size);
    match assign_round_robin(&ranges, num_clients) {
        Err(_) => Err(ReadPlanError::NoClients),
        Ok(lanes) => {
            proof {
                if lanes@.len() > 0 {
                    lemma_dealt_ranges_read_once(
                        lanes@,
                        ranges@,
                        total_size as int,
                        download_size as int,
                    );
                } else {
                    assert(!covered(ranges@, 0));
                    assert forall|b: int| #[trigger]
                        read_by_some(lanes@, b) <==> 0 <= b < total_size by {}
                }
            }
            Ok(lanes)
        },
    }
}

} // verus!
