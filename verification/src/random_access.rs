//! Random point reads over a table that is spread over equal files.
//!
//! The table has `num_rows` rows of `bytes_per_row` bytes. Every file holds
//! `num_rows / num_files` rows, so the row with address `a` lives in file
//! `a / rows_per_file`, at byte offset `(a % rows_per_file) * bytes_per_row`.
//! One iteration reads the first `takes` rows of a fresh random order of all
//! row addresses.

use rand::seq::SliceRandom;
use vstd::prelude::*;
use crate::range::ByteRange;

verus! {

/// Why a table cannot be laid out or read.
#[derive(Clone, Copy, Debug, PartialEq, Eq, Structural)]
pub enum AccessError {
    /// The table is to be spread over no file.
    NoFiles,
    /// One file would hold more bytes than 64 bits count.
    FileTooLarge,
    /// There are fewer rows than files, so every file is empty and no row
    /// has a place.
    EmptyFiles,
    /// The row lies past the last file: its file index is not below the
    /// number of files.
    FileIndexOutOfRange { row: u64, file_id: u64 },
    /// More reads are asked for than there are row addresses.
    TooManyTakes,
    /// There are more rows than one list can hold.
    TooManyRows,
}

/// One point read: the bytes of row `row`, found in file `file_id` at
/// `range`.
#[derive(Clone, Copy, Debug, PartialEq, Eq, Structural)]
pub struct PointRead {
    pub row: u64,
    pub file_id: u64,
    pub range: ByteRange,
}

/// How a table is spread over files. A value of this type always has at
/// least one file, and files whose size in bytes fits in 64 bits.
#[derive(Clone, Copy, Debug, PartialEq, Eq)]
pub struct TableLayout {
    num_files: u64,
    num_rows: u64,
    bytes_per_row: u64,
}

/// The row addresses `0, 1, ..., num_rows - 1` in ascending order.
pub open spec fn row_sequence(num_rows: int) -> Seq<u64> {
    Seq::new(num_rows as nat, |i: int| i as u64)
}

/// `order` holds every row address below `num_rows` exactly once.
pub open spec fn is_row_order(order: Seq<u64>, num_rows: int) -> bool {
    order.to_multiset() == row_sequence(num_rows).to_multiset()
}

impl TableLayout {
    /// Number of files.
    pub closed spec fn files(self) -> int {
        self.num_files as int
    }

    /// Number of rows in the table.
    pub closed spec fn rows(self) -> int {
        self.num_rows as int
    }

    /// Number of bytes in a row.
    pub closed spec fn row_bytes(self) -> int {
        self.bytes_per_row as int
    }

    /// What holds of every layout: it has a file, and the bytes of a file
    /// can be counted in 64 bits.
    #[verifier::type_invariant]
    pub open spec fn valid(self) -> bool {
        &&& self.files() > 0
        &&& self.file_bytes() <= u64::MAX
    }

    /// The rows divide over the files without a rest, and no file is empty;
    /// then every row has a place.
    pub open spec fn is_even(self) -> bool {
        &&& self.file_rows() > 0
        &&& self.rows() == self.files() * self.file_rows()
    }

    /// Number of rows in every file.
    pub open spec fn file_rows(self) -> int {
        self.rows() / self.files()
    }

    /// Number of bytes in every file.
    pub open spec fn file_bytes(self) -> int {
        self.file_rows() * self.row_bytes()
    }

    /// Index of the file that holds the row with address `row`.
    pub open spec fn file_of(self, row: int) -> int {
        row / self.file_rows()
    }

    /// Byte offset of the row with address `row` within its file.
    pub open spec fn offset_of(self, row: int) -> int {
        (row % self.file_rows()) * self.row_bytes()
    }

    /// What `locate` answers for the row with address `row`.
    pub open spec fn located(self, row: u64) -> Result<PointRead, AccessError> {
        if self.file_rows() == 0 {
            Err(AccessError::EmptyFiles)
        } else if self.file_of(row as int) >= self.files() {
            Err(
                AccessError::FileIndexOutOfRange {
                    row,
                    file_id: self.file_of(row as int) as u64,
                },
            )
        } else {
            Ok(
                PointRead {
                    row,
                    file_id: self.file_of(row as int) as u64,
                    range: ByteRange {
                        start: self.offset_of(row as int) as u64,
                        end: (self.offset_of(row as int) + self.row_bytes()) as u64,
                    },
                },
            )
        }
    }

    /// What `reads_for` answers: the reads of the first `takes` rows of
    /// `order`, or the error of the first of them that has none.
    pub open spec fn reads_of(self, order: Seq<u64>, takes: int) -> Result<
        Seq<PointRead>,
        AccessError,
    >
        decreases takes,
    {
        if takes > order.len() {
            Err(AccessError::TooManyTakes)
        } else if takes <= 0 {
            Ok(Seq::empty())
        } else {
            match self.reads_of(order, takes - 1) {
                Err(e) => Err(e),
                Ok(reads) => match self.located(order[takes - 1]) {
                    Err(e) => Err(e),
                    Ok(read) => Ok(reads.push(read)),
                },
            }
        }
    }

    /// Lays a table of `num_rows` rows of `bytes_per_row` bytes out over
    /// `num_files` files.
    pub fn new(num_files: u64, num_rows: u64, bytes_per_row: u64) -> (layout: Result<
        TableLayout,
        AccessError,
    >)
        ensures
            layout == Err::<TableLayout, AccessError>(AccessError::NoFiles) <==> num_files == 0,
            layout == Err::<TableLayout, AccessError>(AccessError::FileTooLarge) <==> (num_files
                > 0 && (num_rows / num_files) * bytes_per_row > u64::MAX),
            layout is Ok <==> (num_files > 0 && (num_rows / num_files) * bytes_per_row
                <= u64::MAX),
            layout matches Ok(l) ==> l.files() == num_files && l.rows() == num_rows
                && l.row_bytes() == bytes_per_row && l.valid(),
    {
        if num_files == 0 {
            return Err(AccessError::NoFiles);
        }
        let rows_per_file: u64 = num_rows / num_files;
        match rows_per_file.checked_mul(bytes_per_row) {
            None => Err(AccessError::FileTooLarge),
            Some(_) => Ok(TableLayout { num_files, num_rows, bytes_per_row }),
        }
    }

    /// Number of files.
    pub fn num_files(&self) -> (n: u64)
        ensures
            n == self.files(),
            n > 0,
    {
        proof {
            use_type_invariant(self);
        }
        self.num_files
    }

    /// Number of rows in the table.
    pub fn num_rows(&self) -> (n: u64)
        ensures
            n == self.rows(),
    {
        self.num_rows
    }

    /// Number of bytes in a row.
    pub fn bytes_per_row(&self) -> (n: u64)
        ensures
            n == self.row_bytes(),
    {
        self.bytes_per_row
    }

    /// Number of rows in every file.
    pub fn rows_per_file(&self) -> (n: u64)
        ensures
            n == self.file_rows(),
    {
        proof {
            use_type_invariant(self);
        }
        self.num_rows / self.num_files
    }

    /// Number of bytes in every file, which is what is uploaded for it.
    pub fn file_size(&self) -> (n: u64)
        ensures
            n == self.file_bytes(),
    {
        proof {
            use_type_invariant(self);
        }
        (self.num_rows / self.num_files) * self.bytes_per_row
    }

    /// Number of rows that the file with index `file_id` takes: a full
    /// file's worth, or what is left of the table after the files before it
    /// if that is less.
    pub open spec fn rows_in_file(self, file_id: int) -> int {
        let left = self.rows() - file_id * self.file_rows();
        if self.file_rows() <= left {
            self.file_rows()
        } else {
            left
        }
    }

    /// Number of bytes to upload for the file with index `file_id`, or
    /// `None` where there is no such file. Every file of the table is full:
    /// what is left of the table is never less than a file's worth.
    pub fn upload_size(&self, file_id: u64) -> (size: Option<u64>)
        ensures
            size is Some <==> file_id < self.files(),
            size matches Some(n) ==> n == self.rows_in_file(file_id as int) * self.row_bytes() && n
                == self.file_bytes(),
    {
        proof {
            use_type_invariant(self);
        }
        if file_id >= self.num_files {
            return None;
        }
        let rows_per_file: u64 = self.num_rows / self.num_files;
        proof {
            let per = rows_per_file as int;
            let files = self.num_files as int;
            vstd::arithmetic::div_mod::lemma_fundamental_div_mod(self.num_rows as int, files);
            vstd::arithmetic::div_mod::lemma_mod_bound(self.num_rows as int, files);
            assert((file_id + 1) * per <= files * per) by (nonlinear_arith)
                requires
                    file_id + 1 <= files,
                    0 <= per,
            ;
            assert((file_id + 1) * per == file_id * per + per) by (nonlinear_arith);
            assert(0 <= file_id * per) by (nonlinear_arith)
                requires
                    0 <= per,
            ;
        }
        let offset: u64 = file_id * rows_per_file;
        let left: u64 = self.num_rows - offset;
        let rows: u64 = if rows_per_file <= left {
            rows_per_file
        } else {
            left
        };
        Some(rows * self.bytes_per_row)
    }

    /// Finds the row with address `row`: its file and its bytes in that
    /// file. A row whose file index is not below the number of files has no
    /// place, and is refused.
    pub fn locate(&self, row: u64) -> (found: Result<PointRead, AccessError>)
        ensures
            found == self.located(row),
    {
        proof {
            use_type_invariant(self);
        }
        let rows_per_file: u64 = self.num_rows / self.num_files;
        if rows_per_file == 0 {
            return Err(AccessError::EmptyFiles);
        }
        let file_id: u64 = row / rows_per_file;
        if file_id >= self.num_files {
            return Err(AccessError::FileIndexOutOfRange { row, file_id });
        }
        let row_in_file: u64 = row % rows_per_file;
        proof {
            lemma_row_fits(
                row_in_file as int,
                rows_per_file as int,
                self.bytes_per_row as int,
            );
        }
        let start: u64 = row_in_file * self.bytes_per_row;
        let end: u64 = start + self.bytes_per_row;
        Ok(PointRead { row, file_id, range: ByteRange { start, end } })
    }

    /// The reads of the first `takes` rows of `order`, in that order. Fails
    /// where `order` is shorter than `takes`, and else with the error of the
    /// first row that has no place.
    pub fn reads_for(&self, order: &Vec<u64>, takes: u32) -> (reads: Result<
        Vec<PointRead>,
        AccessError,
    >)
        ensures
            match reads {
                Ok(list) => self.reads_of(order@, takes as int) == Ok::<
                    Seq<PointRead>,
                    AccessError,
                >(list@),
                Err(e) => self.reads_of(order@, takes as int) == Err::<
                    Seq<PointRead>,
                    AccessError,
                >(e),
            },
    {
        let wanted: usize = takes as usize;
        if wanted > order.len() {
            return Err(AccessError::TooManyTakes);
        }
        let mut list: Vec<PointRead> = Vec::new();
        let mut i: usize = 0;
        while i < wanted
            invariant
                wanted == takes,
                i <= wanted <= order@.len(),
                self.reads_of(order@, i as int) == Ok::<Seq<PointRead>, AccessError>(list@),
            decreases wanted - i,
        {
            match self.locate(order[i]) {
                Err(e) => {
                    proof {
                        self.lemma_error_stays(order@, i as int + 1, takes as int);
                    }
                    return Err(e);
                },
                Ok(read) => {
                    list.push(read);
                },
            }
            i = i + 1;
        }
        Ok(list)
    }

    /// The reads of one iteration: the first `takes` rows of a fresh random
    /// order of all row addresses. Whatever order chance gives, it holds
    /// every address below the number of rows once, so no row is read twice
    /// in an iteration.
    pub fn plan_iteration(&self, takes: u32) -> (reads: Result<Vec<PointRead>, AccessError>)
        ensures
            exists|order: Seq<u64>| #[trigger]
                is_row_order(order, self.rows()) && match reads {
                    Ok(list) => self.reads_of(order, takes as int) == Ok::<
                        Seq<PointRead>,
                        AccessError,
                    >(list@),
                    Err(e) => self.rows() > usize::MAX && e == AccessError::TooManyRows
                        || self.rows() <= usize::MAX && self.reads_of(order, takes as int)
                        == Err::<Seq<PointRead>, AccessError>(e),
                },
            reads matches Ok(list) ==> {
                &&& list@.len() == takes
                &&& forall|i: int| 0 <= i < list@.len() ==> (#[trigger] list@[i]).row < self.rows()
                &&& forall|i: int, j: int|
                    0 <= i < j < list@.len() ==> (#[trigger] list@[i]).row != (
                    #[trigger] list@[j]).row
            },
            self.rows() <= usize::MAX && takes > self.rows() ==> reads == Err::<
                Vec<PointRead>,
                AccessError,
            >(AccessError::TooManyTakes),
            self.rows() <= usize::MAX && takes <= self.rows() && self.is_even() ==> reads is Ok,
    {
        proof {
            use_type_invariant(self);
        }
        let mut order: Vec<u64> = match row_ids(self.num_rows) {
            Some(order) => order,
            None => {
                proof {
                    assert(is_row_order(row_sequence(self.rows()), self.rows()));
                }
                return Err(AccessError::TooManyRows);
            },
        };
        shuffle_rows(&mut order);
        let reads = self.reads_for(&order, takes);
        proof {
            assert(is_row_order(order@, self.rows()));
            lemma_row_order(order@, self.rows());
            if reads is Ok {
                self.lemma_reads_follow_order(order@, takes as int);
            }
            if takes <= self.rows() && self.is_even() {
                self.lemma_even_table_reads(order@, takes as int);
            }
        }
        reads
    }

    /// In an even table every row below the number of rows has a place, so
    /// the reads of any rows of a row order exist.
    pub proof fn lemma_even_table_reads(self, order: Seq<u64>, takes: int)
        requires
            self.valid(),
            self.is_even(),
            0 <= self.rows() <= u64::MAX,
            is_row_order(order, self.rows()),
            0 <= takes <= self.rows(),
        ensures
            self.reads_of(order, takes) is Ok,
        decreases takes,
    {
        lemma_row_order(order, self.rows());
        if takes > 0 {
            self.lemma_even_table_reads(order, takes - 1);
            let row = order[takes - 1] as int;
            let per = self.file_rows();
            vstd::arithmetic::div_mod::lemma_fundamental_div_mod(row, per);
            vstd::arithmetic::div_mod::lemma_mod_bound(row, per);
            if row / per >= self.files() {
                assert(per * (row / per) >= per * self.files()) by (nonlinear_arith)
                    requires
                        row / per >= self.files(),
                        per > 0,
                ;
                assert(per * self.files() == self.files() * per) by (nonlinear_arith);
            }
        }
    }

    /// Once a row has no place, taking more rows gives the same error.
    proof fn lemma_error_stays(self, order: Seq<u64>, failed: int, takes: int)
        requires
            0 < failed <= takes <= order.len(),
            self.reads_of(order, failed) is Err,
        ensures
            self.reads_of(order, takes) == self.reads_of(order, failed),
        decreases takes - failed,
    {
        if failed < takes {
            self.lemma_error_stays(order, failed, takes - 1);
        }
    }

    /// Where the reads of the first `takes` rows of `order` exist, there is
    /// one for each of these rows, in the same order, and it is what `locate`
    /// answers for the row.
    pub proof fn lemma_reads_follow_order(self, order: Seq<u64>, takes: int)
        requires
            self.reads_of(order, takes) is Ok,
        ensures
            0 <= takes <= order.len() || (takes < 0 && self.reads_of(order, takes)->Ok_0.len()
                == 0),
            takes >= 0 ==> self.reads_of(order, takes)->Ok_0.len() == takes,
            forall|i: int|
                0 <= i < takes ==> self.located(order[i]) == Ok::<PointRead, AccessError>(
                    #[trigger] self.reads_of(order, takes)->Ok_0[i],
                ),
            forall|i: int|
                0 <= i < takes ==> (#[trigger] self.reads_of(order, takes)->Ok_0[i]).row
                    == order[i],
        decreases takes,
    {
        if takes > 0 {
            self.lemma_reads_follow_order(order, takes - 1);
        }
    }

    /// A read that `locate` gives lies within its file, and tells its row
    /// apart from every other: two rows of one file never share a byte.
    pub proof fn lemma_reads_disjoint(self, a: u64, b: u64)
        requires
            self.valid(),
            self.located(a) is Ok,
            self.located(b) is Ok,
        ensures
            self.located(a)->Ok_0.file_id < self.files(),
            self.located(a)->Ok_0.range.start + self.row_bytes() == self.located(
                a,
            )->Ok_0.range.end,
            self.located(a)->Ok_0.range.end <= self.file_bytes(),
            a != b && self.located(a)->Ok_0.file_id == self.located(b)->Ok_0.file_id ==> (
            self.located(a)->Ok_0.range.end <= self.located(b)->Ok_0.range.start || self.located(
                b,
            )->Ok_0.range.end <= self.located(a)->Ok_0.range.start),
    {
        let per = self.file_rows();
        let bpr = self.row_bytes();
        let ra = (a as int) % per;
        let rb = (b as int) % per;
        lemma_row_fits(ra, per, bpr);
        lemma_row_fits(rb, per, bpr);
        vstd::arithmetic::div_mod::lemma_fundamental_div_mod(a as int, per);
        vstd::arithmetic::div_mod::lemma_fundamental_div_mod(b as int, per);
        vstd::arithmetic::div_mod::lemma_div_pos_is_pos(a as int, per);
        vstd::arithmetic::div_mod::lemma_div_pos_is_pos(b as int, per);
        if a != b && (a as int) / per == (b as int) / per {
            assert(ra != rb);
            if ra < rb {
                assert((ra + 1) * bpr <= rb * bpr) by (nonlinear_arith)
                    requires
                        ra + 1 <= rb,
                        bpr >= 0,
                ;
                assert((ra + 1) * bpr == ra * bpr + bpr) by (nonlinear_arith);
            } else {
                assert((rb + 1) * bpr <= ra * bpr) by (nonlinear_arith)
                    requires
                        rb + 1 <= ra,
                        bpr >= 0,
                ;
                assert((rb + 1) * bpr == rb * bpr + bpr) by (nonlinear_arith);
            }
        }
    }
}

/// The bytes of a row of a file end within the file.
proof fn lemma_row_fits(row_in_file: int, rows_per_file: int, bytes_per_row: int)
    requires
        0 <= row_in_file < rows_per_file,
        0 <= bytes_per_row,
    ensures
        0 <= row_in_file * bytes_per_row,
        row_in_file * bytes_per_row + bytes_per_row <= rows_per_file * bytes_per_row,
{
    assert(0 <= row_in_file * bytes_per_row) by (nonlinear_arith)
        requires
            0 <= row_in_file,
            0 <= bytes_per_row,
    ;
    assert((row_in_file + 1) * bytes_per_row <= rows_per_file * bytes_per_row)
        by (nonlinear_arith)
        requires
            row_in_file + 1 <= rows_per_file,
            0 <= bytes_per_row,
    ;
    assert((row_in_file + 1) * bytes_per_row == row_in_file * bytes_per_row + bytes_per_row)
        by (nonlinear_arith);
}

/// An order of the row addresses is as long as there are rows, holds no
/// address twice, and holds exactly the addresses below `num_rows`.
pub proof fn lemma_row_order(order: Seq<u64>, num_rows: int)
    requires
        0 <= num_rows <= u64::MAX,
        is_row_order(order, num_rows),
    ensures
        order.len() == num_rows,
        order.no_duplicates(),
        forall|i: int| 0 <= i < order.len() ==> #[trigger] order[i] < num_rows,
        forall|row: u64| row < num_rows ==> order.contains(row),
{
    broadcast use vstd::seq_lib::group_to_multiset_ensures;

    let rows = row_sequence(num_rows);
    assert(order.len() == order.to_multiset().len());
    assert(rows.len() == rows.to_multiset().len());
    assert(rows.no_duplicates());
    rows.lemma_multiset_has_no_duplicates();
    order.lemma_multiset_has_no_duplicates_conv();
    assert forall|i: int| 0 <= i < order.len() implies #[trigger] order[i] < num_rows by {
        assert(order.contains(order[i]));
        assert(rows.to_multiset().count(order[i]) > 0);
        assert(rows.contains(order[i]));
    }
    assert forall|row: u64| row < num_rows implies order.contains(row) by {
        assert(rows[row as int] == row);
        assert(rows.contains(row));
        assert(order.to_multiset().count(row) > 0);
    }
}

/// The row addresses `0, 1, ..., num_rows - 1` in ascending order, or `None`
/// where they are more than one list can hold.
pub fn row_ids(num_rows: u64) -> (rows: Option<Vec<u64>>)
    ensures
        rows is Some <==> num_rows <= usize::MAX,
        rows matches Some(list) ==> list@ == row_sequence(num_rows as int),
{
    if num_rows > usize::MAX as u64 {
        return None;
    }
    let mut list: Vec<u64> = Vec::new();
    let mut next: u64 = 0;
    while next < num_rows
        invariant
            next <= num_rows,
            list@ == row_sequence(next as int),
        decreases num_rows - next,
    {
        list.push(next);
        next = next + 1;
        assert(list@ =~= row_sequence(next as int));
    }
    Some(list)
}

/// `rand::seq::SliceRandom::shuffle` with the thread's generator: puts the
/// rows into a random order. The shuffle only ever swaps two elements of the
/// list, so afterwards the list holds what it held before, each element as
/// often as before; in which order is left open.
#[verifier::external_body]
fn shuffle_rows(rows: &mut Vec<u64>)
    ensures
        final(rows)@.to_multiset() == old(rows)@.to_multiset(),
{
    rows.shuffle(&mut rand::thread_rng());
}

} // verus!
