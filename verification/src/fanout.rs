//! Spreading the tasks of one pass over a fixed pool of clients.
//!
//! Tasks are dealt out in dispatch order, one to each client in turn: task
//! `i` goes to client `i % clients` and is the `i / clients`-th task that this
//! client starts.

use vstd::prelude::*;
use crate::range::{lemma_range_count_bounds, range_count};

verus! {

/// Why a pass could not be spread over the pool.
#[derive(Clone, Copy, Debug, PartialEq, Eq, Structural)]
pub enum FanoutError {
    /// There are tasks to run but the pool holds no client.
    NoClients,
}

/// The client that runs the task with index `task`.
pub open spec fn lane_of(task: int, lanes: int) -> int {
    task % lanes
}

/// The position of the task with index `task` in its client's list.
pub open spec fn slot_of(task: int, lanes: int) -> int {
    task / lanes
}

/// The index of the task that client `lane` starts at position `slot`.
pub open spec fn task_at(lane: int, slot: int, lanes: int) -> int {
    slot * lanes + lane
}

/// How many of `tasks` tasks client `lane` gets: the number of indices below
/// `tasks` that leave the remainder `lane`.
pub open spec fn lane_len(tasks: int, lanes: int, lane: int) -> int {
    range_count(tasks - lane, lanes)
}

/// `lanes` deals `tasks` out round-robin: client `c` holds, in dispatch
/// order, the tasks with the indices `c`, `c + n`, `c + 2n`, ... for a pool of
/// `n` clients.
pub open spec fn is_round_robin<T>(lanes: Seq<Vec<T>>, tasks: Seq<T>) -> bool {
    forall|c: int|
        0 <= c < lanes.len() ==> (#[trigger] lanes[c])@.len() == lane_len(
            tasks.len() as int,
            lanes.len() as int,
            c,
        ) && forall|k: int|
            0 <= k < lanes[c]@.len() ==> #[trigger] lanes[c]@[k] == tasks[task_at(
                c,
                k,
                lanes.len() as int,
            )]
}

/// The task with index `index` stands in the list of the client that
/// `lane_of` gives, at the position that `slot_of` gives.
pub open spec fn has_place<T>(lanes: Seq<Vec<T>>, task: T, index: int) -> bool {
    let c = lane_of(index, lanes.len() as int);
    let k = slot_of(index, lanes.len() as int);
    &&& 0 <= c < lanes.len()
    &&& 0 <= k < lanes[c]@.len()
    &&& task_at(c, k, lanes.len() as int) == index
    &&& lanes[c]@[k] == task
}

/// A round-robin deal is a one-to-one match between the tasks and the places
/// in the clients' lists: every task has exactly one place, the one that
/// `lane_of` and `slot_of` give, and every place holds exactly one task.
pub proof fn lemma_every_task_assigned_once<T>(lanes: Seq<Vec<T>>, tasks: Seq<T>)
    requires
        lanes.len() > 0,
        is_round_robin(lanes, tasks),
    ensures
        forall|i: int|
            0 <= i < tasks.len() ==> has_place(lanes, #[trigger] tasks[i], i),
        forall|c: int, k: int|
            0 <= c < lanes.len() && 0 <= k < lanes[c]@.len() ==> 0 <= #[trigger] task_at(
                c,
                k,
                lanes.len() as int,
            ) < tasks.len() && lane_of(task_at(c, k, lanes.len() as int), lanes.len() as int) == c
                && slot_of(task_at(c, k, lanes.len() as int), lanes.len() as int) == k,
{
    let n = lanes.len() as int;
    let len = tasks.len() as int;
    assert forall|i: int| 0 <= i < tasks.len() implies has_place(
        lanes,
        #[trigger] tasks[i],
        i,
    ) by {
        let c = i % n;
        let k = i / n;
        vstd::arithmetic::div_mod::lemma_fundamental_div_mod(i, n);
        vstd::arithmetic::div_mod::lemma_mod_bound(i, n);
        vstd::arithmetic::div_mod::lemma_div_pos_is_pos(i, n);
        assert(n * k == k * n) by (nonlinear_arith);
        lemma_lane_len_bounds(len, n, c, lanes[c]@.len() as int);
        if k >= lanes[c]@.len() {
            assert(k * n >= lanes[c]@.len() * n) by (nonlinear_arith)
                requires
                    k >= lanes[c]@.len(),
                    n > 0,
            ;
        }
        assert(lanes[c]@[k] == tasks[task_at(c, k, n)]);
    }
    assert forall|c: int, k: int|
        0 <= c < lanes.len() && 0 <= k < lanes[c]@.len() implies 0 <= #[trigger] task_at(c, k, n)
        < tasks.len() && lane_of(task_at(c, k, n), n) == c && slot_of(task_at(c, k, n), n)
        == k by {
        let m = lanes[c]@.len() as int;
        lemma_lane_len_bounds(len, n, c, m);
        assert(k * n <= (m - 1) * n) by (nonlinear_arith)
            requires
                k <= m - 1,
                n > 0,
        ;
        assert(k * n >= 0) by (nonlinear_arith)
            requires
                k >= 0,
                n > 0,
        ;
        assert(k * n == n * k) by (nonlinear_arith);
        vstd::arithmetic::div_mod::lemma_fundamental_div_mod_converse(k * n + c, n, k, c);
    }
}

/// Client `lane` of `lanes` gets `m` of `tasks` tasks exactly when its
/// `m`-th index reaches `tasks` and the one before does not.
pub proof fn lemma_lane_len_bounds(tasks: int, lanes: int, lane: int, m: int)
    requires
        0 <= tasks,
        0 <= lane < lanes,
        0 <= m,
    ensures
        m == lane_len(tasks, lanes, lane) <==> (task_at(lane, m, lanes) >= tasks && (m > 0
            ==> task_at(lane, m - 1, lanes) < tasks)),
{
    if tasks - lane >= 0 {
        lemma_range_count_bounds(tasks - lane, lanes, m);
    } else {
        assert(m * lanes >= 0) by (nonlinear_arith)
            requires
                m >= 0,
                lanes > 0,
        ;
        if m > 0 {
            assert((m - 1) * lanes >= 0) by (nonlinear_arith)
                requires
                    m > 0,
                    lanes > 0,
            ;
        }
    }
}

/// The client that runs the task with index `task` in a pool of
/// `num_clients` clients, or `None` where the pool is empty.
pub fn client_of(task: u64, num_clients: u32) -> (client: Option<u32>)
    ensures
        client is None <==> num_clients == 0,
        client matches Some(c) ==> c == lane_of(task as int, num_clients as int),
{
    if num_clients == 0 {
        None
    } else {
        let c: u64 = task % (num_clients as u64);
        Some(c as u32)
    }
}

/// Deals `tasks` out over `num_clients` clients in turn, keeping dispatch
/// order within each client. With no task there is nothing to deal and an
/// empty pool is accepted; with tasks and no client the deal fails.
pub fn assign_round_robin<T: Copy>(tasks: &Vec<T>, num_clients: u32) -> (dealt: Result<
    Vec<Vec<T>>,
    FanoutError,
>)
    ensures
        dealt is Err <==> (num_clients == 0 && tasks@.len() > 0),
        dealt matches Ok(lanes) ==> lanes@.len() == num_clients && is_round_robin(
            lanes@,
            tasks@,
        ),
{
    let len: usize = tasks.len();
    if num_clients == 0 {
        if len > 0 {
            return Err(FanoutError::NoClients);
        }
        return Ok(Vec::new());
    }
    let n: usize = num_clients as usize;
    let mut lanes: Vec<Vec<T>> = Vec::new();
    let mut c: usize = 0;
    while c < n
        invariant
            n == num_clients,
            n > 0,
            len == tasks@.len(),
            c <= n,
            lanes@.len() == c,
            forall|d: int|
                0 <= d < c ==> (#[trigger] lanes@[d])@.len() == lane_len(len as int, n as int, d)
                    && forall|k: int|
                    0 <= k < lanes@[d]@.len() ==> #[trigger] lanes@[d]@[k] == tasks@[task_at(
                        d,
                        k,
                        n as int,
                    )],
        decreases n - c,
    {
        let mut lane: Vec<T> = Vec::new();
        let mut idx: usize = if c < len {
            c
        } else {
            len
        };
        assert(lane@.len() * n + c == c) by (nonlinear_arith)
            requires
                lane@.len() == 0,
        ;
        while idx < len
            invariant
                n > 0,
                c < n,
                len == tasks@.len(),
                idx <= len,
                idx < len ==> idx == task_at(c as int, lane@.len() as int, n as int),
                task_at(c as int, lane@.len() as int, n as int) >= idx,
                lane@.len() > 0 ==> task_at(c as int, lane@.len() - 1, n as int) < len,
                lane@.len() == 0 ==> idx == len || idx == c,
                forall|k: int|
                    0 <= k < lane@.len() ==> #[trigger] lane@[k] == tasks@[task_at(
                        c as int,
                        k,
                        n as int,
                    )],
            decreases len - idx,
        {
            proof {
                let k = lane@.len() as int;
                assert((k + 1) * n + c == k * n + c + n) by (nonlinear_arith);
            }
            lane.push(tasks[idx]);
            if len - idx <= n {
                idx = len;
            } else {
                idx = idx + n;
            }
        }
        proof {
            lemma_lane_len_bounds(len as int, n as int, c as int, lane@.len() as int);
        }
        lanes.push(lane);
        c = c + 1;
    }
    Ok(lanes)
}

} // verus!
