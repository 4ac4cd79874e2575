//! Which rows a command reads, and how the batches it reads are written.

use vstd::prelude::*;

use crate::cli::{Mode, OutputFormat};
use crate::error::RunError;
use crate::json::{json_lines, outcome_matches, write_json_batch};
use crate::model::{Batch, Field};
use crate::table::{column_width, header_text, min_nat, table_rows, TableWriter};

verus! {

/// Rows per batch when reading.
pub const BATCH_SIZE: usize = 8192;

/// A row count from the file's metadata; negative or oversized counts read as zero.
pub open spec fn row_count(n: i64) -> nat {
    if 0 <= n && n <= usize::MAX {
        n as nat
    } else {
        0
    }
}

pub fn count_rows(n: i64) -> (c: usize)
    ensures
        c == row_count(n),
        0 <= n <= usize::MAX ==> c == n,
{
    if 0 <= n && (n as u64) <= (usize::MAX as u64) {
        n as usize
    } else {
        0
    }
}

/// The rows of the row groups from `from` to the end.
pub open spec fn group_total(groups: Seq<i64>, from: int) -> nat
    decreases groups.len() - from,
{
    if from < 0 || from >= groups.len() {
        0
    } else {
        row_count(groups[from]) + group_total(groups, from + 1)
    }
}

/// Row groups to read for the last rows of a file, and how many leading rows
/// of them to skip.
pub struct TailPlan {
    pub row_groups: Vec<usize>,
    pub offset: usize,
}

/// The groups `first`, `first + 1`, … up to the last one.
pub open spec fn groups_from(first: int, count: int) -> Seq<usize> {
    Seq::new((count - first) as nat, |k: int| (first + k) as usize)
}

/// The shortest run of trailing row groups, from group `first` on, that
/// holds `wanted` rows (all groups when the file holds fewer), and the rows of
/// it to skip so that exactly the last `wanted` rows remain.
pub open spec fn is_tail_plan(groups: Seq<i64>, wanted: nat, row_groups: Seq<usize>, offset: nat) -> bool {
    exists|first: int|
        0 <= first <= groups.len() && row_groups == groups_from(first, groups.len() as int) && (
        group_total(groups, first) >= wanted || first == 0) && (first < groups.len()
            ==> group_total(groups, first + 1) < wanted) && offset == (if group_total(groups, first)
            >= wanted {
            group_total(groups, first) - wanted
        } else {
            0
        })
}

/// The plan for the last `wanted_rows` rows of a file whose row groups have
/// the given row counts.
pub fn tail_plan(group_rows: &Vec<i64>, wanted_rows: usize) -> (plan: TailPlan)
    ensures
        is_tail_plan(group_rows@, wanted_rows as nat, plan.row_groups@, plan.offset as nat),
{
    let n = group_rows.len();
    let mut selected: u128 = 0;
    let mut first: usize = n;
    while first > 0 && selected < wanted_rows as u128
        invariant
            n == group_rows@.len(),
            first <= n,
            selected == group_total(group_rows@, first as int),
            first < n ==> group_total(group_rows@, first + 1) < wanted_rows,
            selected <= wanted_rows as u128 + usize::MAX as u128,
        decreases first,
    {
        first = first - 1;
        let rows = count_rows(group_rows[first]);
        selected = selected + rows as u128;
    }
    let mut row_groups: Vec<usize> = Vec::new();
    let mut g = first;
    while g < n
        invariant
            first <= g <= n,
            n == group_rows@.len(),
            row_groups@ == groups_from(first as int, g as int),
        decreases n - g,
    {
        row_groups.push(g);
        g = g + 1;
        assert(row_groups@ =~= groups_from(first as int, g as int));
    }
    let offset: usize = if selected >= wanted_rows as u128 {
        (selected - wanted_rows as u128) as usize
    } else {
        0
    };
    let plan = TailPlan { row_groups, offset };
    assert(0 <= first as int <= group_rows@.len() && plan.row_groups@ == groups_from(
        first as int,
        group_rows@.len() as int,
    ));
    plan
}

/// Whether the command opens the Parquet reader at all (a head or tail of
/// no rows does not).
pub open spec fn opens_reader(mode: Mode) -> bool {
    match mode {
        Mode::Head { lines } => lines != 0,
        Mode::Tail { lines } => lines != 0,
        _ => true,
    }
}

pub fn reader_needed(mode: Mode) -> (b: bool)
    ensures
        b == opens_reader(mode),
{
    match mode {
        Mode::Head { lines } => lines != 0,
        Mode::Tail { lines } => lines != 0,
        _ => true,
    }
}

/// How the reader is set up for a row command.
pub struct RowSelection {
    pub batch_size: usize,
    /// Only these row groups, when given.
    pub row_groups: Option<Vec<usize>>,
    /// Rows to skip first, when given.
    pub offset: Option<usize>,
    /// At most this many rows, when given.
    pub limit: Option<usize>,
}

/// What a command does once the reader is open.
pub enum ReadPlan {
    /// Write nothing.
    Nothing,
    /// Write the schema.
    Schema,
    /// Read and write rows.
    Rows(RowSelection),
}

/// The reader setup for `mode` on a file of `total_rows` rows in row groups
/// of `group_rows` rows.
pub fn plan_read(mode: Mode, total_rows: i64, group_rows: &Vec<i64>) -> (plan: ReadPlan)
    ensures
        mode is Schema ==> plan is Schema,
        !(mode is Schema) && row_count(total_rows) == 0 ==> plan is Nothing,
        !(mode is Schema) && row_count(total_rows) > 0 ==> (plan matches ReadPlan::Rows(sel) && sel.batch_size == BATCH_SIZE && match mode {
            Mode::Cat => sel.row_groups is None && sel.offset is None && sel.limit is None,
            Mode::Head { lines } => sel.row_groups is None && sel.offset is None && sel.limit
                == Some(lines),
            Mode::Tail { lines } => sel.row_groups is Some && sel.offset is Some && sel.limit
                == Some(lines) && is_tail_plan(
                group_rows@,
                min_nat(lines as nat, row_count(total_rows)),
                sel.row_groups->0@,
                sel.offset->0 as nat,
            ),
            Mode::Schema => true,
        }),
{
    if let Mode::Schema = mode {
        return ReadPlan::Schema;
    }
    let total = count_rows(total_rows);
    if total == 0 {
        return ReadPlan::Nothing;
    }
    match mode {
        Mode::Cat => ReadPlan::Rows(
            RowSelection { batch_size: BATCH_SIZE, row_groups: None, offset: None, limit: None },
        ),
        Mode::Head { lines } => ReadPlan::Rows(
            RowSelection {
                batch_size: BATCH_SIZE,
                row_groups: None,
                offset: None,
                limit: Some(lines),
            },
        ),
        Mode::Tail { lines } => {
            let wanted = if lines < total {
                lines
            } else {
                total
            };
            let plan = tail_plan(group_rows, wanted);
            ReadPlan::Rows(
                RowSelection {
                    batch_size: BATCH_SIZE,
                    row_groups: Some(plan.row_groups),
                    offset: Some(plan.offset),
                    limit: Some(lines),
                },
            )
        },
        Mode::Schema => ReadPlan::Schema,
    }
}

/// Writes the batches of a row command one after the other: as JSON lines,
/// or as a table whose columns are fixed by the first batch.
pub struct RowEmitter {
    format: OutputFormat,
    table: Option<TableWriter>,
}

impl RowEmitter {
    pub closed spec fn format(&self) -> OutputFormat {
        self.format
    }

    /// Whether a table has been started (by a first batch).
    pub closed spec fn started(&self) -> bool {
        self.table is Some
    }

    /// The column widths of the table, once started.
    pub closed spec fn widths(&self) -> Seq<usize> {
        match self.table {
            Some(t) => t@.widths,
            None => Seq::empty(),
        }
    }

    pub closed spec fn wf(&self) -> bool {
        match self.table {
            Some(t) => t.wf() && t@.wrote_header,
            None => true,
        }
    }

    pub fn new(format: OutputFormat) -> (e: RowEmitter)
        ensures
            e.wf(),
            e.format() == format,
            !e.started(),
    {
        RowEmitter { format, table: None }
    }

    /// Whether `batch` has a column for every column of the table started so far.
    pub fn fits(&self, batch: &Batch) -> (b: bool)
        ensures
            b == (self.started() ==> self.widths().len() <= batch.columns@.len()),
    {
        match &self.table {
            Some(t) => t.column_count() <= batch.columns.len(),
            None => true,
        }
    }

    /// Writes one batch.
    pub fn emit(&mut self, batch: &Batch, out: &mut String) -> (r: Result<(), RunError>)
        requires
            old(self).wf(),
            batch.wf(),
            old(self).started() ==> old(self).widths().len() <= batch.columns@.len(),
        ensures
            final(self).wf(),
            final(self).format() == old(self).format(),
            match old(self).format() {
                OutputFormat::Jsonl => final(out)@ == old(out)@ + json_lines(
                    *batch,
                    batch.num_rows as int,
                ).text && outcome_matches(r, json_lines(*batch, batch.num_rows as int)),
                OutputFormat::Table => {
                    &&& final(self).started()
                    &&& old(self).started() ==> final(self).widths() == old(self).widths()
                    &&& !old(self).started() ==> {
                        &&& final(self).widths().len() == batch.fields@.len()
                        &&& forall|i: int|
                            0 <= i < batch.fields@.len() ==> final(self).widths()[i] as nat
                                == column_width(
                                #[trigger] batch.fields@[i].name@,
                                batch.fields@[i].data_type,
                            )
                    }
                    &&& final(out)@ == old(out)@ + (if old(self).started() {
                        Seq::empty()
                    } else {
                        header_text(
                            batch.fields@.map_values(|f: Field| f.name@),
                            final(self).widths(),
                        )
                    }) + table_rows(*batch, final(self).widths(), batch.num_rows as int).text
                    &&& outcome_matches(
                        r,
                        table_rows(*batch, final(self).widths(), batch.num_rows as int),
                    )
                },
            },
    {
        match self.format {
            OutputFormat::Jsonl => write_json_batch(batch, out),
            OutputFormat::Table => {
                if self.table.is_none() {
                    self.table = Some(TableWriter::new(batch));
                }
                let mut t = self.table.take().unwrap();
                let r = t.write_batch(batch, out);
                self.table = Some(t);
                r
            },
        }
    }
}

// ---------------------------------------------------------------------------
// Laws
// ---------------------------------------------------------------------------

proof fn lemma_group_total_bounds(groups: Seq<i64>, from: int, to: int)
    requires
        0 <= from <= to,
    ensures
        group_total(groups, from) >= group_total(groups, to),
    decreases to - from,
{
    if from < to {
        lemma_group_total_bounds(groups, from + 1, to);
    }
}

/// A tail plan reads exactly the last rows: its groups are a trailing run of
/// the file's row groups, and they hold the skipped rows followed by the
/// `wanted` rows, when the file has that many.
pub proof fn law_tail_reads_the_last_rows(
    groups: Seq<i64>,
    wanted: nat,
    row_groups: Seq<usize>,
    offset: nat,
)
    requires
        is_tail_plan(groups, wanted, row_groups, offset),
        wanted <= group_total(groups, 0),
    ensures
        row_groups.len() <= groups.len(),
        row_groups == groups_from(groups.len() - row_groups.len(), groups.len() as int),
        group_total(groups, groups.len() - row_groups.len()) == offset + wanted,
{
    let first = choose|first: int|
        0 <= first <= groups.len() && row_groups == groups_from(first, groups.len() as int) && (
        group_total(groups, first) >= wanted || first == 0) && (first < groups.len()
            ==> group_total(groups, first + 1) < wanted) && offset == (if group_total(groups, first)
            >= wanted {
            group_total(groups, first) - wanted
        } else {
            0
        });
    assert(row_groups.len() == groups.len() - first);
    lemma_group_total_bounds(groups, 0, first);
}

/// The number of the first row of group `g`: the rows of the groups before it.
pub open spec fn group_start(groups: Seq<i64>, g: int) -> int {
    group_total(groups, 0) - group_total(groups, g)
}

/// The rows `from` up to `to` (numbered from 0 in file order).
pub open spec fn row_range(from: int, to: int) -> Seq<int> {
    Seq::new((to - from) as nat, |i: int| from + i)
}

/// The rows of the listed row groups, group after group.
pub open spec fn rows_of_groups(groups: Seq<i64>, listed: Seq<usize>) -> Seq<int>
    decreases listed.len(),
{
    if listed.len() == 0 {
        Seq::empty()
    } else {
        let g = listed.last() as int;
        rows_of_groups(groups, listed.drop_last()) + Seq::new(
            row_count(groups[g]),
            |i: int| group_start(groups, g) + i,
        )
    }
}

/// The rows that a reader set up with a row selection yields: the rows of
/// the selected groups (all groups when none are named), without the first
/// `offset` of them, and at most `limit` of the rest.
pub open spec fn rows_read(
    groups: Seq<i64>,
    row_groups: Option<Seq<usize>>,
    offset: Option<usize>,
    limit: Option<usize>,
) -> Seq<int> {
    let all = match row_groups {
        Some(listed) => rows_of_groups(groups, listed),
        None => rows_of_groups(groups, groups_from(0, groups.len() as int)),
    };
    let kept = match offset {
        Some(o) => all.skip(min_nat(o as nat, all.len()) as int),
        None => all,
    };
    match limit {
        Some(n) => kept.take(min_nat(n as nat, kept.len()) as int),
        None => kept,
    }
}

proof fn lemma_trailing_rows(groups: Seq<i64>, first: int, to: int)
    requires
        0 <= first <= to <= groups.len(),
        groups.len() <= usize::MAX,
    ensures
        rows_of_groups(groups, groups_from(first, to)) == row_range(
            group_start(groups, first),
            group_start(groups, to),
        ),
    decreases to - first,
{
    if to > first {
        lemma_trailing_rows(groups, first, to - 1);
        lemma_group_total_bounds(groups, first, to - 1);
        assert(groups_from(first, to).drop_last() =~= groups_from(first, to - 1));
        assert(groups_from(first, to).last() == (to - 1) as usize);
        assert(group_total(groups, to - 1) == row_count(groups[to - 1]) + group_total(groups, to));
        assert(rows_of_groups(groups, groups_from(first, to)) =~= row_range(
            group_start(groups, first),
            group_start(groups, to),
        ));
    } else {
        assert(row_range(group_start(groups, first), group_start(groups, to)) =~= Seq::<
            int,
        >::empty());
    }
}

/// `cat`, `head` and `tail` read slices of the same rows: with the read plans
/// that `plan_read` gives, `cat` reads every row of the file in order,
/// `head -n n` the first `min(n, N)` of them and `tail -n n` the last
/// `min(n, N)`, where `N` is the number of rows in the file's row groups.
pub proof fn law_row_commands_read_slices(
    groups: Seq<i64>,
    n: usize,
    tail_groups: Seq<usize>,
    tail_offset: usize,
)
    requires
        groups.len() <= usize::MAX,
        is_tail_plan(
            groups,
            min_nat(n as nat, group_total(groups, 0)),
            tail_groups,
            tail_offset as nat,
        ),
    ensures
        rows_read(groups, None, None, None) == row_range(0, group_total(groups, 0) as int),
        rows_read(groups, None, None, Some(n)) == row_range(
            0,
            min_nat(n as nat, group_total(groups, 0)) as int,
        ),
        rows_read(groups, Some(tail_groups), Some(tail_offset), Some(n)) == row_range(
            group_total(groups, 0) - min_nat(n as nat, group_total(groups, 0)),
            group_total(groups, 0) as int,
        ),
{
    let total = group_total(groups, 0);
    let wanted = min_nat(n as nat, total);
    let len = groups.len() as int;
    lemma_trailing_rows(groups, 0, len);
    assert(group_total(groups, len) == 0);
    let all = rows_of_groups(groups, groups_from(0, len));
    assert(all == row_range(0, total as int));
    assert(all.take(wanted as int) =~= row_range(0, wanted as int));
    law_tail_reads_the_last_rows(groups, wanted, tail_groups, tail_offset as nat);
    let first = len - tail_groups.len();
    lemma_trailing_rows(groups, first, len);
    let picked = rows_of_groups(groups, tail_groups);
    assert(picked == row_range(group_start(groups, first), total as int));
    assert(picked.len() == tail_offset + wanted);
    let kept = picked.skip(tail_offset as int);
    assert(kept =~= row_range(total - wanted, total as int));
    assert(kept.take(wanted as int) =~= kept);
}

/// The sum of the row counts of the groups from `from` on, as the metadata
/// gives them.
pub open spec fn counts_sum(groups: Seq<i64>, from: int) -> int
    decreases groups.len() - from,
{
    if from < 0 || from >= groups.len() {
        0
    } else {
        groups[from] + counts_sum(groups, from + 1)
    }
}

/// Every row group's count is a row count: not negative and within `usize`.
pub open spec fn counts_in_range(groups: Seq<i64>) -> bool {
    forall|i: int| 0 <= i < groups.len() ==> 0 <= #[trigger] groups[i] <= usize::MAX
}

proof fn lemma_counts_are_rows(groups: Seq<i64>, from: int)
    requires
        counts_in_range(groups),
        0 <= from,
    ensures
        group_total(groups, from) == counts_sum(groups, from),
    decreases groups.len() - from,
{
    if from < groups.len() {
        assert(0 <= groups[from] <= usize::MAX);
        lemma_counts_are_rows(groups, from + 1);
    }
}

/// Row groups count as many rows as their metadata says: when every count
/// is a valid row count, a tail plan for `wanted` rows (at most the file's
/// `N` rows, the sum of the counts) is a trailing run of the file's groups
/// whose counts add up to exactly `offset + wanted`; so after skipping
/// `offset` rows the reader yields rows `N - wanted` to `N - 1`.
pub proof fn law_tail_uses_the_metadata_counts(
    groups: Seq<i64>,
    wanted: nat,
    row_groups: Seq<usize>,
    offset: nat,
)
    requires
        counts_in_range(groups),
        is_tail_plan(groups, wanted, row_groups, offset),
        wanted <= counts_sum(groups, 0),
    ensures
        row_groups == groups_from(groups.len() - row_groups.len(), groups.len() as int),
        counts_sum(groups, groups.len() - row_groups.len()) == offset + wanted,
        counts_sum(groups, 0) - counts_sum(groups, groups.len() - row_groups.len()) + offset
            == counts_sum(groups, 0) - wanted,
{
    lemma_counts_are_rows(groups, 0);
    law_tail_reads_the_last_rows(groups, wanted, row_groups, offset);
    lemma_counts_are_rows(groups, groups.len() - row_groups.len());
}

} // verus!
