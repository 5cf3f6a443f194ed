//! The parts of a multipart upload.
//!
//! An object of `total_size` bytes is uploaded as consecutive parts whose
//! sizes follow a schedule, until the parts reach `total_size`. Every part
//! has the size that the schedule gives it but the last, which is cut back so
//! that it ends with the object: the sizes add up to `total_size`, and no
//! byte is sent twice or past the end.

use vstd::prelude::*;
use crate::range::{lemma_range_count_bounds, range_count};

verus! {

/// Step by which a growing schedule raises the part size.
pub const PART_SIZE_INCREMENT: u64 = 5 * 1024 * 1024;

/// Number of parts that a growing schedule sends before it raises the size.
pub const PARTS_PER_STEP: u64 = 100;

/// A growing schedule cuts its parts from a buffer of this many initial
/// part sizes.
pub const BUFFER_INITIAL_PARTS: u64 = 99;

/// How the size of a part follows from its index.
#[derive(Clone, Copy, Debug, PartialEq, Eq, Structural)]
pub enum PartSchedule {
    /// Every part has `part_size` bytes.
    Fixed { part_size: u64 },
    /// The size is raised by `PART_SIZE_INCREMENT` after every
    /// `PARTS_PER_STEP` parts, and is never below `initial_part_size`.
    Growing { initial_part_size: u64 },
}

/// One part of an upload: `size` bytes that start at `offset` in the object.
#[derive(Clone, Copy, Debug, PartialEq, Eq, Structural)]
pub struct UploadPart {
    pub offset: u64,
    pub size: u64,
}

/// Why an upload cannot be planned.
#[derive(Clone, Copy, Debug, PartialEq, Eq, Structural)]
pub enum UploadError {
    /// A fixed schedule with parts of no bytes.
    ZeroPartSize,
    /// The part with this index is the first that is larger than the buffer
    /// the parts are cut from.
    PartExceedsBuffer { index: u64, size: u64 },
}

/// One step of an upload.
#[derive(Clone, Copy, Debug, PartialEq, Eq, Structural)]
pub enum UploadStep {
    /// Send this part.
    Put { part: UploadPart },
    /// Complete the upload.
    Complete,
}

/// How many of `total` bytes are still to be sent once `offset` bytes are.
pub open spec fn bytes_to_send(total: int, offset: int) -> int {
    if offset < total {
        total - offset
    } else {
        0
    }
}

impl UploadPart {
    /// Whether the byte at offset `b` of the object lies in this part.
    pub open spec fn holds(self, b: int) -> bool {
        self.offset <= b < self.offset + self.size
    }
}

impl PartSchedule {
    /// Every part that the schedule gives has at least one byte.
    pub open spec fn valid(self) -> bool {
        match self {
            PartSchedule::Fixed { part_size } => part_size > 0,
            PartSchedule::Growing { .. } => true,
        }
    }

    /// Size that the schedule gives the part with the given index.
    pub open spec fn size_at(self, index: int) -> int {
        match self {
            PartSchedule::Fixed { part_size } => part_size as int,
            PartSchedule::Growing { initial_part_size } => {
                let stepped = (index / (PARTS_PER_STEP as int) + 1) * PART_SIZE_INCREMENT;
                if initial_part_size >= stepped {
                    initial_part_size as int
                } else {
                    stepped
                }
            },
        }
    }

    /// Offset at which the part with the given index starts: the sum of the
    /// scheduled sizes of the parts before it.
    pub open spec fn offset_at(self, index: int) -> int
        decreases index,
    {
        if index <= 0 {
            0
        } else {
            self.offset_at(index - 1) + self.size_at(index - 1)
        }
    }

    /// The least index at or after `index` at which the offset has reached
    /// `total`, where the part with index `index` starts at `offset`.
    pub open spec fn first_reaching(self, total: int, index: int, offset: int) -> int
        decreases bytes_to_send(total, offset),
    {
        if offset >= total || self.size_at(index) <= 0 {
            index
        } else {
            self.first_reaching(total, index + 1, offset + self.size_at(index))
        }
    }

    /// Number of parts that an upload of `total` bytes takes: the least
    /// number of parts whose scheduled sizes add up to `total` or more.
    pub open spec fn part_count(self, total: int) -> int {
        self.first_reaching(total, 0, 0)
    }

    /// Size of the part with the given index in an upload of `total` bytes:
    /// the scheduled size, or what is left of the object from the offset of
    /// the part if that is less.
    pub open spec fn part_len(self, total: int, index: int) -> int {
        let left = total - self.offset_at(index);
        if self.size_at(index) <= left {
            self.size_at(index)
        } else {
            left
        }
    }

    /// Length of the buffer that the parts are cut from.
    pub open spec fn buffer_len(self) -> int {
        match self {
            PartSchedule::Fixed { part_size } => part_size as int,
            PartSchedule::Growing { initial_part_size } => BUFFER_INITIAL_PARTS
                * initial_part_size,
        }
    }

    /// Whether some part of an upload of `total` bytes is larger than the
    /// buffer.
    pub open spec fn overruns_buffer(self, total: int) -> bool {
        exists|i: int|
            0 <= i < self.part_count(total) && #[trigger] self.part_len(total, i)
                > self.buffer_len()
    }

    /// Size that the schedule gives the part with the given index, or `None`
    /// where it does not fit in 64 bits.
    pub fn part_size(&self, index: u64) -> (size: Option<u64>)
        ensures
            self.size_at(index as int) <= u64::MAX ==> size == Some(
                self.size_at(index as int) as u64,
            ),
            self.size_at(index as int) > u64::MAX ==> size is None,
    {
        match *self {
            PartSchedule::Fixed { part_size } => Some(part_size),
            PartSchedule::Growing { initial_part_size } => {
                let steps: u64 = index / PARTS_PER_STEP + 1;
                match steps.checked_mul(PART_SIZE_INCREMENT) {
                    Some(stepped) => {
                        if initial_part_size >= stepped {
                            Some(initial_part_size)
                        } else {
                            Some(stepped)
                        }
                    },
                    None => None,
                }
            },
        }
    }

    /// Size that the schedule gives the part with the given index, where it
    /// fits in 64 bits.
    fn fitting_part_size(&self, index: u64) -> (size: u64)
        requires
            self.size_at(index as int) <= u64::MAX,
        ensures
            size == self.size_at(index as int),
    {
        match *self {
            PartSchedule::Fixed { part_size } => part_size,
            PartSchedule::Growing { initial_part_size } => {
                let steps: u64 = index / PARTS_PER_STEP + 1;
                let stepped: u64 = steps * PART_SIZE_INCREMENT;
                if initial_part_size >= stepped {
                    initial_part_size
                } else {
                    stepped
                }
            },
        }
    }

    /// Length of the buffer that the parts are cut from, or `None` where it
    /// does not fit in 64 bits.
    pub fn buffer_capacity(&self) -> (capacity: Option<u64>)
        ensures
            self.buffer_len() <= u64::MAX ==> capacity == Some(self.buffer_len() as u64),
            self.buffer_len() > u64::MAX ==> capacity is None,
    {
        match *self {
            PartSchedule::Fixed { part_size } => Some(part_size),
            PartSchedule::Growing { initial_part_size } => BUFFER_INITIAL_PARTS.checked_mul(
                initial_part_size,
            ),
        }
    }
}

/// The parts are those of an upload of `total` bytes under `schedule`: as
/// many as it takes, each at the offset that the schedule gives for its
/// index, and of the scheduled size but the last, which ends at `total`.
pub open spec fn is_plan(parts: Seq<UploadPart>, total: int, schedule: PartSchedule) -> bool {
    &&& parts.len() == schedule.part_count(total)
    &&& forall|i: int|
        0 <= i < parts.len() ==> (#[trigger] parts[i]).offset == schedule.offset_at(i)
            && parts[i].size == schedule.part_len(total, i)
}

/// Sum of the sizes of the parts.
pub open spec fn uploaded_bytes(parts: Seq<UploadPart>) -> int
    decreases parts.len(),
{
    if parts.len() == 0 {
        0
    } else {
        uploaded_bytes(parts.drop_last()) + parts.last().size
    }
}

/// Whether some part holds the byte at offset `b`.
pub open spec fn uploaded(parts: Seq<UploadPart>, b: int) -> bool {
    exists|i: int| 0 <= i < parts.len() && #[trigger] parts[i].holds(b)
}

/// The parts lie end to end from offset 0 to `total`: the first starts at 0,
/// each next one starts where the one before ends, the last ends at `total`,
/// and none is empty.
pub open spec fn joined(parts: Seq<UploadPart>, total: int) -> bool {
    &&& parts.len() == 0 ==> total == 0
    &&& parts.len() > 0 ==> parts[0].offset == 0 && parts.last().offset + parts.last().size
        == total
    &&& forall|i: int| 0 <= i < parts.len() ==> (#[trigger] parts[i]).size > 0
    &&& forall|i: int|
        0 <= i < parts.len() - 1 ==> (#[trigger] parts[i]).offset + parts[i].size == parts[i
            + 1].offset
}

/// The parts tile `[0, total)`: they lie end to end from 0 to `total`, a
/// byte lies in some part exactly when it is a byte of `[0, total)`, and no
/// byte lies in two parts.
pub open spec fn tiles(parts: Seq<UploadPart>, total: int) -> bool {
    &&& joined(parts, total)
    &&& forall|b: int| #[trigger] uploaded(parts, b) <==> 0 <= b < total
    &&& forall|i: int, j: int, b: int|
        0 <= i < parts.len() && 0 <= j < parts.len() && #[trigger] parts[i].holds(b)
            && #[trigger] parts[j].holds(b) ==> i == j
}

/// The steps are those of the upload of `parts`: every part is sent, in
/// order, and then the upload is completed, once.
pub open spec fn is_script(steps: Seq<UploadStep>, parts: Seq<UploadPart>) -> bool {
    &&& steps.len() == parts.len() + 1
    &&& forall|i: int|
        0 <= i < parts.len() ==> #[trigger] steps[i] == (UploadStep::Put { part: parts[i] })
    &&& steps[parts.len() as int] == UploadStep::Complete
}

/// Under a valid schedule every part has at least one byte, and under a
/// growing one at least one increment.
pub proof fn lemma_size_positive(schedule: PartSchedule, index: int)
    requires
        schedule.valid(),
        0 <= index,
    ensures
        schedule.size_at(index) >= 1,
        schedule is Growing ==> schedule.size_at(index) >= PART_SIZE_INCREMENT,
        schedule is Growing ==> schedule.size_at(index) >= schedule->initial_part_size,
{
    if schedule is Growing {
        let steps = index / (PARTS_PER_STEP as int) + 1;
        assert(steps >= 1);
        assert(steps * PART_SIZE_INCREMENT >= PART_SIZE_INCREMENT) by (nonlinear_arith)
            requires
                steps >= 1,
        ;
    }
}

/// The sizes of a schedule never shrink as the index grows.
pub proof fn lemma_size_monotone(schedule: PartSchedule, i: int, j: int)
    requires
        0 <= i <= j,
    ensures
        schedule.size_at(i) <= schedule.size_at(j),
{
    if schedule is Growing {
        let a = i / (PARTS_PER_STEP as int) + 1;
        let b = j / (PARTS_PER_STEP as int) + 1;
        assert(a <= b);
        assert(a * PART_SIZE_INCREMENT <= b * PART_SIZE_INCREMENT) by (nonlinear_arith)
            requires
                a <= b,
        ;
    }
}

/// Offsets grow with the index: by at least one byte per part, and under a
/// growing schedule by at least one increment per part.
pub proof fn lemma_offset_monotone(schedule: PartSchedule, i: int, j: int)
    requires
        schedule.valid(),
        0 <= i <= j,
    ensures
        schedule.offset_at(j) - schedule.offset_at(i) >= j - i,
        schedule is Growing ==> schedule.offset_at(j) - schedule.offset_at(i) >= (j - i)
            * PART_SIZE_INCREMENT,
    decreases j,
{
    if i < j {
        lemma_offset_monotone(schedule, i, j - 1);
        lemma_size_positive(schedule, j - 1);
        assert((j - i) * PART_SIZE_INCREMENT == (j - 1 - i) * PART_SIZE_INCREMENT
            + PART_SIZE_INCREMENT) by (nonlinear_arith);
    } else {
        assert((j - i) * PART_SIZE_INCREMENT == 0) by (nonlinear_arith)
            requires
                j - i == 0,
        ;
    }
}

/// `first_reaching` gives an index at which the offset has reached `total`,
/// and no index between `index` and it has.
proof fn lemma_first_reaching(schedule: PartSchedule, total: int, index: int)
    requires
        schedule.valid(),
        0 <= index,
    ensures
        index <= schedule.first_reaching(total, index, schedule.offset_at(index)),
        schedule.offset_at(schedule.first_reaching(total, index, schedule.offset_at(index)))
            >= total,
        forall|j: int|
            index <= j < schedule.first_reaching(total, index, schedule.offset_at(index))
                ==> #[trigger] schedule.offset_at(j) < total,
    decreases bytes_to_send(total, schedule.offset_at(index)),
{
    lemma_size_positive(schedule, index);
    if schedule.offset_at(index) < total {
        assert(schedule.offset_at(index + 1) == schedule.offset_at(index) + schedule.size_at(
            index,
        ));
        lemma_first_reaching(schedule, total, index + 1);
    }
}

/// `n` is the number of parts of an upload of `total` bytes exactly when `n`
/// parts reach `total` and `n - 1` parts do not.
pub proof fn lemma_part_count_bounds(schedule: PartSchedule, total: int, n: int)
    requires
        schedule.valid(),
        0 <= n,
    ensures
        n == schedule.part_count(total) <==> (schedule.offset_at(n) >= total && (n > 0
            ==> schedule.offset_at(n - 1) < total)),
{
    let count = schedule.part_count(total);
    lemma_first_reaching(schedule, total, 0);
    if n < count {
        assert(schedule.offset_at(n) < total);
    }
    if n > count {
        lemma_offset_monotone(schedule, count, n - 1);
    }
    if n == count && n > 0 {
        assert(schedule.offset_at(n - 1) < total);
    }
}

/// Under a fixed schedule the part with index `i` starts at `i * part_size`,
/// and an upload takes the rounded-up quotient of `total` by `part_size`
/// parts.
pub proof fn lemma_fixed_schedule(part_size: u64, total: int, index: int)
    requires
        part_size > 0,
        0 <= total,
        0 <= index,
    ensures
        (PartSchedule::Fixed { part_size }).offset_at(index) == index * part_size,
        (PartSchedule::Fixed { part_size }).part_count(total) == range_count(
            total,
            part_size as int,
        ),
{
    let schedule = PartSchedule::Fixed { part_size };
    lemma_fixed_offset(part_size, index);
    let n = range_count(total, part_size as int);
    lemma_range_count_bounds(total, part_size as int, n);
    lemma_fixed_offset(part_size, n);
    if n > 0 {
        lemma_fixed_offset(part_size, n - 1);
    }
    lemma_part_count_bounds(schedule, total, n);
}

proof fn lemma_fixed_offset(part_size: u64, index: int)
    requires
        0 <= index,
    ensures
        (PartSchedule::Fixed { part_size }).offset_at(index) == index * part_size,
    decreases index,
{
    if index > 0 {
        lemma_fixed_offset(part_size, index - 1);
        assert(index * part_size == (index - 1) * part_size + part_size) by (nonlinear_arith);
    } else {
        assert(index * part_size == 0) by (nonlinear_arith)
            requires
                index == 0,
        ;
    }
}

/// Parts that lie end to end from 0 to `total` add up to `total`.
pub proof fn lemma_joined_parts_add_up(parts: Seq<UploadPart>, total: int)
    requires
        joined(parts, total),
    ensures
        uploaded_bytes(parts) == total,
    decreases parts.len(),
{
    if parts.len() > 0 {
        let front = parts.drop_last();
        let cut = parts.last().offset as int;
        if front.len() > 0 {
            assert(front[0] == parts[0]);
            assert(front.last() == parts[parts.len() - 2]);
        }
        assert forall|i: int| 0 <= i < front.len() implies (#[trigger] front[i]).size > 0 by {
            assert(front[i] == parts[i]);
        }
        assert forall|i: int| 0 <= i < front.len() - 1 implies (#[trigger] front[i]).offset
            + front[i].size == front[i + 1].offset by {
            assert(front[i] == parts[i]);
            assert(front[i + 1] == parts[i + 1]);
        }
        lemma_joined_parts_add_up(front, cut);
    }
}

/// In an upload of `total` bytes every part but the last has its scheduled
/// size and ends before `total`; the last is cut back to end at `total`, and
/// no part is empty.
pub proof fn lemma_part_len(schedule: PartSchedule, total: int, index: int)
    requires
        schedule.valid(),
        0 <= index < schedule.part_count(total),
    ensures
        0 < schedule.part_len(total, index) <= schedule.size_at(index),
        schedule.offset_at(index) + schedule.part_len(total, index) <= total,
        index < schedule.part_count(total) - 1 ==> schedule.part_len(total, index)
            == schedule.size_at(index) && schedule.offset_at(index + 1) < total,
        index == schedule.part_count(total) - 1 ==> schedule.offset_at(index)
            + schedule.part_len(total, index) == total,
{
    let n = schedule.part_count(total);
    lemma_part_count_bounds(schedule, total, n);
    lemma_size_positive(schedule, index);
    lemma_offset_monotone(schedule, index, n - 1);
    if index < n - 1 {
        lemma_offset_monotone(schedule, index + 1, n - 1);
    }
}

/// The parts of a plan tile the object: they hold every byte of it exactly
/// once, without gap or overlap, none reaches past its end, and their sizes
/// add up to `total`.
pub proof fn lemma_plan_tiles(parts: Seq<UploadPart>, total: int, schedule: PartSchedule)
    requires
        schedule.valid(),
        0 <= total,
        is_plan(parts, total, schedule),
    ensures
        tiles(parts, total),
        uploaded_bytes(parts) == total,
{
    let n = parts.len() as int;
    lemma_part_count_bounds(schedule, total, n);
    assert forall|i: int| 0 <= i < parts.len() implies (#[trigger] parts[i]).size > 0
        && parts[i].offset + parts[i].size <= total && (i < n - 1 ==> parts[i].offset
        + parts[i].size == schedule.offset_at(i + 1)) && (i == n - 1 ==> parts[i].offset
        + parts[i].size == total) by {
        lemma_part_len(schedule, total, i);
    }
    assert forall|i: int| 0 <= i < parts.len() - 1 implies (#[trigger] parts[i]).offset
        + parts[i].size == parts[i + 1].offset by {
        assert(parts[i].offset + parts[i].size == schedule.offset_at(i + 1));
        assert(parts[i + 1].offset == schedule.offset_at(i + 1));
    }
    if n > 0 {
        assert(parts[0].offset == schedule.offset_at(0));
        assert(parts.last() == parts[n - 1]);
    }
    assert(joined(parts, total));
    assert forall|b: int| #[trigger] uploaded(parts, b) <==> 0 <= b < total by {
        if uploaded(parts, b) {
            let i = choose|i: int| 0 <= i < parts.len() && #[trigger] parts[i].holds(b);
            assert(parts[i].size > 0);
            lemma_offset_monotone(schedule, 0, i);
        }
        if 0 <= b < total {
            let i = lemma_part_of_byte(schedule, total, b);
            lemma_part_len(schedule, total, i);
            assert(parts[i].holds(b));
        }
    }
    assert forall|i: int, j: int, b: int|
        0 <= i < parts.len() && 0 <= j < parts.len() && #[trigger] parts[i].holds(b)
            && #[trigger] parts[j].holds(b) implies i == j by {
        assert(parts[i].size > 0);
        assert(parts[j].size > 0);
        if i < j {
            lemma_offset_monotone(schedule, i + 1, j);
        }
        if j < i {
            lemma_offset_monotone(schedule, j + 1, i);
        }
    }
    lemma_joined_parts_add_up(parts, total);
}

/// Names the part of an upload of `total` bytes in whose scheduled reach
/// byte `b` lies.
proof fn lemma_part_of_byte(schedule: PartSchedule, total: int, b: int) -> (i: int)
    requires
        schedule.valid(),
        0 <= b < total,
    ensures
        0 <= i < schedule.part_count(total),
        schedule.offset_at(i) <= b < schedule.offset_at(i) + schedule.size_at(i),
{
    let m = schedule.part_count(b + 1);
    lemma_first_reaching(schedule, b + 1, 0);
    lemma_first_reaching(schedule, total, 0);
    lemma_part_count_bounds(schedule, b + 1, m);
    let n = schedule.part_count(total);
    assert(m > 0);
    if m > n {
        lemma_offset_monotone(schedule, n, m - 1);
    }
    m - 1
}

/// Under a fixed schedule an upload takes the rounded-up quotient of `total`
/// by the part size parts; part `i` starts at `i` part sizes; every part but
/// the last has the part size, and the last has what is left. Where `total`
/// is a multiple of the part size, every part has the part size.
pub proof fn lemma_fixed_plan(parts: Seq<UploadPart>, total: int, part_size: u64)
    requires
        part_size > 0,
        0 <= total,
        is_plan(parts, total, PartSchedule::Fixed { part_size }),
    ensures
        parts.len() == range_count(total, part_size as int),
        uploaded_bytes(parts) == total,
        forall|i: int| 0 <= i < parts.len() ==> (#[trigger] parts[i]).offset == i * part_size,
        forall|i: int| 0 <= i < parts.len() - 1 ==> (#[trigger] parts[i]).size == part_size,
        parts.len() > 0 ==> parts.last().size == total - (parts.len() - 1) * part_size,
        total % (part_size as int) == 0 ==> forall|i: int|
            0 <= i < parts.len() ==> (#[trigger] parts[i]).size == part_size,
{
    let schedule = PartSchedule::Fixed { part_size };
    let n = parts.len() as int;
    lemma_fixed_schedule(part_size, total, 0);
    lemma_plan_tiles(parts, total, schedule);
    assert forall|i: int| 0 <= i < parts.len() implies (#[trigger] parts[i]).offset == i
        * part_size && (i < n - 1 ==> parts[i].size == part_size) by {
        lemma_fixed_schedule(part_size, total, i);
        lemma_part_len(schedule, total, i);
    }
    if n > 0 {
        assert(parts.last() == parts[n - 1]);
        if total % (part_size as int) == 0 {
            let q = total / (part_size as int);
            vstd::arithmetic::div_mod::lemma_fundamental_div_mod(total, part_size as int);
            vstd::arithmetic::div_mod::lemma_div_pos_is_pos(total, part_size as int);
            assert(q * part_size == part_size * q) by (nonlinear_arith);
            assert((q - 1) * part_size == q * part_size - part_size) by (nonlinear_arith);
            lemma_range_count_bounds(total, part_size as int, q);
            assert(n == q);
            assert(parts[n - 1].size == part_size);
            assert forall|i: int| 0 <= i < parts.len() implies (#[trigger] parts[i]).size
                == part_size by {
                if i < n - 1 {
                } else {
                    assert(parts[i] == parts[n - 1]);
                }
            }
        }
    }
}

/// Plans the upload of an object of `total_size` bytes: the parts in the
/// order in which they are sent, each with its offset and size. The sizes
/// add up to `total_size`: the last part is cut back to end with the object.
///
/// The plan fails where the schedule gives parts of no bytes, and where a
/// part that the upload needs is larger than the buffer of the schedule; the
/// error then names the first such part.
pub fn plan_upload(total_size: u64, schedule: PartSchedule) -> (plan: Result<
    Vec<UploadPart>,
    UploadError,
>)
    ensures
        plan == Err::<Vec<UploadPart>, UploadError>(UploadError::ZeroPartSize)
            <==> !schedule.valid(),
        plan is Ok <==> schedule.valid() && !schedule.overruns_buffer(total_size as int),
        plan matches Ok(parts) ==> {
            &&& is_plan(parts@, total_size as int, schedule)
            &&& tiles(parts@, total_size as int)
            &&& uploaded_bytes(parts@) == total_size
            &&& forall|i: int|
                0 <= i < parts@.len() ==> (#[trigger] parts@[i]).size <= schedule.buffer_len()
        },
        plan matches Err(UploadError::PartExceedsBuffer { index, size }) ==> {
            &&& schedule.valid()
            &&& index < schedule.part_count(total_size as int)
            &&& size == schedule.part_len(total_size as int, index as int)
            &&& size > schedule.buffer_len()
            &&& forall|j: int|
                0 <= j < index ==> #[trigger] schedule.part_len(total_size as int, j)
                    <= schedule.buffer_len()
        },
{
    if let PartSchedule::Fixed { part_size } = schedule {
        if part_size == 0 {
            return Err(UploadError::ZeroPartSize);
        }
    }
    let capacity: Option<u64> = schedule.buffer_capacity();
    let mut parts: Vec<UploadPart> = Vec::new();
    let mut written: u64 = 0;
    let mut index: u64 = 0;
    while written < total_size
        invariant
            schedule.valid(),
            schedule.buffer_len() <= u64::MAX ==> capacity == Some(schedule.buffer_len() as u64),
            schedule.buffer_len() > u64::MAX ==> capacity is None,
            index == parts@.len(),
            written <= total_size,
            written < total_size ==> written == schedule.offset_at(index as int),
            schedule.offset_at(index as int) >= written,
            index > 0 ==> schedule.offset_at(index - 1) < total_size,
            forall|i: int|
                0 <= i < parts@.len() ==> (#[trigger] parts@[i]).offset == schedule.offset_at(i)
                    && parts@[i].size == schedule.part_len(total_size as int, i),
            forall|j: int|
                0 <= j < index ==> #[trigger] schedule.part_len(total_size as int, j)
                    <= schedule.buffer_len(),
        decreases total_size - written,
    {
        proof {
            lemma_offset_monotone(schedule, 0, index as int);
            lemma_size_positive(schedule, index as int);
            lemma_first_reaching(schedule, total_size as int, 0);
            lemma_part_count_bounds(
                schedule,
                total_size as int,
                schedule.part_count(total_size as int),
            );
            if schedule.part_count(total_size as int) <= index {
                lemma_offset_monotone(
                    schedule,
                    schedule.part_count(total_size as int),
                    index as int,
                );
            }
            lemma_growing_size_fits(schedule, index as int);
        }
        let scheduled: u64 = schedule.fitting_part_size(index);
        let left: u64 = total_size - written;
        let size: u64 = if scheduled <= left {
            scheduled
        } else {
            left
        };
        assert(size == schedule.part_len(total_size as int, index as int));
        if let Some(limit) = capacity {
            if size > limit {
                return Err(UploadError::PartExceedsBuffer { index, size });
            }
        }
        parts.push(UploadPart { offset: written, size });
        index = index + 1;
        written = written + size;
    }
    proof {
        lemma_part_count_bounds(schedule, total_size as int, index as int);
        lemma_plan_tiles(parts@, total_size as int, schedule);
        if schedule.overruns_buffer(total_size as int) {
            let i = choose|i: int|
                0 <= i < schedule.part_count(total_size as int) && #[trigger] schedule.part_len(
                    total_size as int,
                    i,
                ) > schedule.buffer_len();
            assert(schedule.part_len(total_size as int, i) <= schedule.buffer_len());
        }
    }
    Ok(parts)
}

/// The steps of the upload of `parts`: every part is sent, in the order of
/// the plan, and after the last part the upload is completed, once.
pub fn upload_steps(parts: &Vec<UploadPart>) -> (steps: Vec<UploadStep>)
    ensures
        is_script(steps@, parts@),
{
    let mut steps: Vec<UploadStep> = Vec::new();
    let mut i: usize = 0;
    while i < parts.len()
        invariant
            i <= parts@.len(),
            steps@.len() == i,
            forall|k: int|
                0 <= k < i ==> #[trigger] steps@[k] == (UploadStep::Put { part: parts@[k] }),
        decreases parts@.len() - i,
    {
        steps.push(UploadStep::Put { part: parts[i] });
        i = i + 1;
    }
    steps.push(UploadStep::Complete);
    steps
}

/// The number of bytes that the parts send in all, or `None` where that is
/// more than 64 bits count. After the upload of a plan this is the size of
/// the object.
pub fn uploaded_size(parts: &Vec<UploadPart>) -> (size: Option<u64>)
    ensures
        uploaded_bytes(parts@) <= u64::MAX ==> size == Some(uploaded_bytes(parts@) as u64),
        uploaded_bytes(parts@) > u64::MAX ==> size is None,
{
    let mut sum: u64 = 0;
    let mut i: usize = 0;
    while i < parts.len()
        invariant
            i <= parts@.len(),
            sum == uploaded_bytes(parts@.subrange(0, i as int)),
        decreases parts@.len() - i,
    {
        proof {
            let next = parts@.subrange(0, i as int + 1);
            assert(next.drop_last() =~= parts@.subrange(0, i as int));
            lemma_uploaded_bytes_grow(parts@, i as int + 1);
        }
        match sum.checked_add(parts[i].size) {
            Some(more) => {
                sum = more;
            },
            None => {
                return None;
            },
        }
        i = i + 1;
    }
    assert(parts@.subrange(0, i as int) =~= parts@);
    Some(sum)
}

/// The sum of the sizes of the first `n` parts is no more than the sum of
/// all sizes.
proof fn lemma_uploaded_bytes_grow(parts: Seq<UploadPart>, n: int)
    requires
        0 <= n <= parts.len(),
    ensures
        0 <= uploaded_bytes(parts.subrange(0, n)) <= uploaded_bytes(parts),
    decreases parts.len() - n,
{
    if n < parts.len() {
        lemma_uploaded_bytes_grow(parts, n + 1);
        assert(parts.subrange(0, n + 1).drop_last() =~= parts.subrange(0, n));
    } else {
        assert(parts.subrange(0, n) =~= parts);
    }
    lemma_uploaded_bytes_nonnegative(parts.subrange(0, n));
}

proof fn lemma_uploaded_bytes_nonnegative(parts: Seq<UploadPart>)
    ensures
        0 <= uploaded_bytes(parts),
    decreases parts.len(),
{
    if parts.len() > 0 {
        lemma_uploaded_bytes_nonnegative(parts.drop_last());
    }
}

/// While the parts before `index` have not filled 64 bits, the size of the
/// part with that index fits in 64 bits.
proof fn lemma_growing_size_fits(schedule: PartSchedule, index: int)
    requires
        schedule.valid(),
        0 <= index,
        schedule.offset_at(index) <= u64::MAX,
    ensures
        schedule.size_at(index) <= u64::MAX,
{
    if schedule is Growing {
        lemma_offset_monotone(schedule, 0, index);
        let steps = index / (PARTS_PER_STEP as int);
        assert(steps * 100 <= index);
        assert(index * PART_SIZE_INCREMENT <= u64::MAX);
        assert((steps + 1) * PART_SIZE_INCREMENT == steps * PART_SIZE_INCREMENT
            + PART_SIZE_INCREMENT) by (nonlinear_arith);
        assert(steps * PART_SIZE_INCREMENT * 100 <= index * PART_SIZE_INCREMENT)
            by (nonlinear_arith)
            requires
                steps * 100 <= index,
        ;
    }
}

} // verus!
