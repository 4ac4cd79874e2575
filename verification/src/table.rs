//! The table output: fixed-width columns for quick terminal views.

use vstd::prelude::*;

use crate::error::{JsonFailure, RunError};
use crate::format::{
    is_unsupported, law_time_of_day, time_text, unit_precision, units_per_second,
};
use crate::json::{emit, json_value, outcome_matches, then, write_value, Emitted, Failure};
use crate::model::{Batch, DataType, Field, TimeUnit, Value};
use crate::text::{
    lemma_repeat_len,
    char_count, has_prefix, is_control, json_quote, law_json_quote_injective, push_char, push_repeat,
    repeat, starts_with,
};

verus! {

pub const MIN_TABLE_COLUMN_WIDTH: usize = 8;

pub const MAX_TABLE_COLUMN_WIDTH: usize = 32;

// ---------------------------------------------------------------------------
// Column widths
// ---------------------------------------------------------------------------

pub open spec fn time_width(unit: TimeUnit) -> nat {
    match unit {
        TimeUnit::Second => 8,
        TimeUnit::Millisecond => 12,
        TimeUnit::Microsecond => 15,
        TimeUnit::Nanosecond => 18,
    }
}

pub open spec fn timestamp_width(unit: TimeUnit) -> nat {
    match unit {
        TimeUnit::Second => 19,
        TimeUnit::Millisecond => 23,
        TimeUnit::Microsecond => 26,
        TimeUnit::Nanosecond => 29,
    }
}

/// The width that rendered dates, times and timestamps of a type need.
pub open spec fn temporal_width(data_type: DataType) -> Option<nat> {
    match data_type {
        DataType::Date32 | DataType::Date64 => Some(10),
        DataType::Time32(unit) | DataType::Time64(unit) => Some(time_width(unit)),
        DataType::Timestamp(unit, zoned) => Some(
            timestamp_width(unit) + if zoned {
                1nat
            } else {
                0nat
            },
        ),
        _ => None,
    }
}

pub open spec fn clamp(x: nat, low: nat, high: nat) -> nat {
    if x < low {
        low
    } else if x > high {
        high
    } else {
        x
    }
}

pub open spec fn max_nat(a: nat, b: nat) -> nat {
    if a >= b {
        a
    } else {
        b
    }
}

pub open spec fn min_nat(a: nat, b: nat) -> nat {
    if a <= b {
        a
    } else {
        b
    }
}

/// A column is as wide as its (clamped) name, or as its temporal values
/// need, and never wider than the maximum.
pub open spec fn column_width(name: Seq<char>, data_type: DataType) -> nat {
    let header = clamp(name.len(), 8, 32);
    let data = match temporal_width(data_type) {
        Some(w) => w,
        None => 8,
    };
    min_nat(max_nat(header, data), 32)
}

fn time_table_width(unit: TimeUnit) -> (w: usize)
    ensures
        w == time_width(unit),
{
    match unit {
        TimeUnit::Second => 8,
        TimeUnit::Millisecond => 12,
        TimeUnit::Microsecond => 15,
        TimeUnit::Nanosecond => 18,
    }
}

fn timestamp_table_width(unit: TimeUnit) -> (w: usize)
    ensures
        w == timestamp_width(unit),
{
    match unit {
        TimeUnit::Second => 19,
        TimeUnit::Millisecond => 23,
        TimeUnit::Microsecond => 26,
        TimeUnit::Nanosecond => 29,
    }
}

fn temporal_table_width(data_type: &DataType) -> (w: Option<usize>)
    ensures
        match temporal_width(*data_type) {
            Some(t) => w == Some(t as usize),
            None => w is None,
        },
{
    match data_type {
        DataType::Date32 | DataType::Date64 => Some(10),
        DataType::Time32(unit) | DataType::Time64(unit) => Some(time_table_width(*unit)),
        DataType::Timestamp(unit, zoned) => Some(
            timestamp_table_width(*unit) + if *zoned {
                1
            } else {
                0
            },
        ),
        _ => None,
    }
}

/// The width of the column for `field`.
pub fn table_column_width(field: &Field) -> (w: usize)
    ensures
        w == column_width(field.name@, field.data_type),
        w <= MAX_TABLE_COLUMN_WIDTH,
{
    let n = char_count(field.name.as_str());
    let header = if n < MIN_TABLE_COLUMN_WIDTH {
        MIN_TABLE_COLUMN_WIDTH
    } else if n > MAX_TABLE_COLUMN_WIDTH {
        MAX_TABLE_COLUMN_WIDTH
    } else {
        n
    };
    let data = match temporal_table_width(&field.data_type) {
        Some(w) => w,
        None => MIN_TABLE_COLUMN_WIDTH,
    };
    let wide = if header >= data {
        header
    } else {
        data
    };
    if wide <= MAX_TABLE_COLUMN_WIDTH {
        wide
    } else {
        MAX_TABLE_COLUMN_WIDTH
    }
}

// ---------------------------------------------------------------------------
// Cells
// ---------------------------------------------------------------------------

/// Control characters replaced by spaces.
pub open spec fn normalized(s: Seq<char>) -> Seq<char> {
    s.map_values(
        |c: char|
            if is_control(c) {
                ' '
            } else {
                c
            },
    )
}

/// At most `width` characters: longer text is cut and ends in `...`
/// (or is all dots when the width is three or less).
pub open spec fn truncated(s: Seq<char>, width: nat) -> Seq<char> {
    if s.len() <= width {
        s
    } else if width <= 3 {
        repeat('.', width)
    } else {
        s.take(width - 3) + seq!['.', '.', '.']
    }
}

/// `s` followed by spaces up to `width` characters.
pub open spec fn padded(s: Seq<char>, width: nat) -> Seq<char> {
    s + repeat(' ', if width > s.len() {
        (width - s.len()) as nat
    } else {
        0
    })
}

/// A table cell: normalized, truncated and padded to the column width.
pub open spec fn table_cell(s: Seq<char>, width: nat) -> Seq<char> {
    padded(truncated(normalized(s), width), width)
}

/// Cells joined by two spaces.
pub open spec fn joined_cells(cells: Seq<Seq<char>>, widths: Seq<usize>, n: int) -> Seq<char>
    decreases n,
{
    if n <= 0 || n > cells.len() || n > widths.len() {
        Seq::empty()
    } else {
        joined_cells(cells, widths, n - 1) + (if n - 1 > 0 {
            seq![' ', ' ']
        } else {
            Seq::empty()
        }) + table_cell(cells[n - 1], widths[n - 1] as nat)
    }
}

/// One line of cells.
pub open spec fn table_line(cells: Seq<Seq<char>>, widths: Seq<usize>) -> Seq<char> {
    joined_cells(cells, widths, cells.len() as int) + seq!['\n']
}

/// Appends `cell` normalized, truncated and padded to `width`.
pub fn write_table_cell(out: &mut String, cell: &str, width: usize)
    ensures
        final(out)@ == old(out)@ + table_cell(cell@, width as nat),
{
    let ghost start = out@;
    let ghost norm = normalized(cell@);
    let ghost cut = truncated(norm, width as nat);
    let n = char_count(cell);
    if n <= width {
        let mut i: usize = 0;
        while i < n
            invariant
                n == cell@.len(),
                i <= n,
                start == old(out)@,
                norm == normalized(cell@),
                out@ == start + norm.take(i as int),
            decreases n - i,
        {
            let c = cell.get_char(i);
            let code = c as u32;
            if code < 32 || (127 <= code && code <= 159) {
                push_char(out, ' ');
            } else {
                push_char(out, c);
            }
            assert(norm[i as int] == (if is_control(cell@[i as int]) {
                ' '
            } else {
                cell@[i as int]
            }));
            assert(out@ =~= start + norm.take(i + 1));
            i = i + 1;
        }
        assert(norm.len() == n);
        assert(norm.take(n as int) =~= norm);
        assert(out@ == start + norm);
        push_repeat(out, ' ', width - n);
        assert(out@ == start + norm + repeat(' ', (width - n) as nat));
        assert(table_cell(cell@, width as nat) == padded(truncated(norm, width as nat), width as nat));
        assert(truncated(norm, width as nat) == norm);
        assert(padded(norm, width as nat) == norm + repeat(' ', (width - n) as nat));
        assert(start + norm + repeat(' ', (width - n) as nat) =~= start + (norm + repeat(' ', (width - n) as nat)));
    } else if width <= 3 {
        push_repeat(out, '.', width);
        proof {
            lemma_repeat_len('.', width as nat);
        }
        assert(norm.len() == n);
        assert(repeat(' ', 0) =~= Seq::<char>::empty());
        assert(out@ =~= start + table_cell(cell@, width as nat));
    } else {
        let keep = width - 3;
        let mut i: usize = 0;
        while i < keep
            invariant
                n == cell@.len(),
                keep < n,
                i <= keep,
                keep == width - 3,
                start == old(out)@,
                norm == normalized(cell@),
                out@ == start + norm.take(i as int),
            decreases keep - i,
        {
            let c = cell.get_char(i);
            let code = c as u32;
            if code < 32 || (127 <= code && code <= 159) {
                push_char(out, ' ');
            } else {
                push_char(out, c);
            }
            assert(norm[i as int] == (if is_control(cell@[i as int]) {
                ' '
            } else {
                cell@[i as int]
            }));
            assert(out@ =~= start + norm.take(i + 1));
            i = i + 1;
        }
        push_char(out, '.');
        push_char(out, '.');
        push_char(out, '.');
        assert(out@ =~= start + cut);
        assert(norm.len() == n);
        assert(repeat(' ', 0) =~= Seq::<char>::empty());
        assert(out@ =~= start + table_cell(cell@, width as nat));
    }
}

// ---------------------------------------------------------------------------
// Displayed values
// ---------------------------------------------------------------------------

/// What serde_json's `from_str::<String>` reads from `text`, when it reads a
/// string.
pub uninterp spec fn json_string_decode(text: Seq<char>) -> Option<Seq<char>>;

/// serde_json's `from_str::<String>`. The contract names the result, and
/// states that a string literal written as `json_quote` writes it (the
/// escapes that serde_json's own serializer uses) reads back as the string.
#[verifier::external_body]
fn decode_json_string(text: &str) -> (r: Result<String, serde_json::Error>)
    ensures
        match r {
            Ok(s) => json_string_decode(text@) == Some(s@),
            Err(_) => json_string_decode(text@) is None,
        },
        r matches Ok(s) ==> ((exists|c: Seq<char>| text@ == json_quote(c)) ==> s@ == (choose|
            c: Seq<char>,
        | text@ == json_quote(c))),
        (exists|c: Seq<char>| text@ == json_quote(c)) ==> r is Ok,
{
    serde_json::from_str::<String>(text)
}

/// How a value reads in a table cell: its JSON text, or the string when the
/// JSON text is a string literal.
#[verifier::opaque]
pub open spec fn displayed(v: Value) -> Emitted {
    let j = json_value(v);
    if j.failure is Some {
        Emitted { text: Seq::empty(), failure: j.failure }
    } else if starts_with(j.text, seq!['"']) {
        match json_string_decode(j.text) {
            Some(s) => emit(s),
            None => Emitted { text: Seq::empty(), failure: Some(Failure::Json) },
        }
    } else {
        emit(j.text)
    }
}

/// The text of `v` for a table cell: its JSON text, or the string that a
/// JSON string literal holds (so a text value shows as itself).
pub fn display_value(v: &Value) -> (r: Result<String, RunError>)
    ensures
        match displayed(*v).failure {
            None => r matches Ok(s) && s@ == displayed(*v).text,
            Some(Failure::Unsupported(m)) => r matches Err(e) && is_unsupported(e, m),
            Some(Failure::Json) => r matches Err(e) && e is Json,
        },
        displayed(*v).failure is Some ==> displayed(*v).text == Seq::<char>::empty(),
        json_value(*v).failure is None && (exists|c: Seq<char>|
            json_value(*v).text == json_quote(c)) ==> (r matches Ok(s) && s@ == (choose|
            c: Seq<char>,
        | json_value(*v).text == json_quote(c))),
        v matches Value::Text(t) ==> (r matches Ok(s) && s@ == t@),
{
    proof {
        if let Value::Text(t) = v {
            let q = json_quote(t@);
            assert(json_value(*v).text == q);
            let c = choose|c: Seq<char>| q == json_quote(c);
            law_json_quote_injective(c, t@);
        }
        reveal(displayed);
        reveal_strlit("\"");
        assert("\""@ =~= seq!['"']);
    }
    let mut json = String::new();
    write_value(v, &mut json)?;
    if has_prefix(json.as_str(), "\"") {
        match decode_json_string(json.as_str()) {
            Ok(s) => Ok(s),
            Err(e) => Err(RunError::Json(JsonFailure::new(e))),
        }
    } else {
        proof {
            assert forall|c: Seq<char>| json@ != json_quote(c) by {
                if json@ == json_quote(c) {
                    assert(json_quote(c).take(1) =~= seq!['"']);
                }
            }
        }
        Ok(json)
    }
}

// ---------------------------------------------------------------------------
// The writer
// ---------------------------------------------------------------------------

/// The separator cells under the header: one run of dashes per column.
pub open spec fn dashes(widths: Seq<usize>) -> Seq<Seq<char>> {
    widths.map_values(|w: usize| repeat('-', w as nat))
}

/// The header line and the separator line.
pub open spec fn header_text(names: Seq<Seq<char>>, widths: Seq<usize>) -> Seq<char> {
    table_line(names, widths) + table_line(dashes(widths), widths)
}

/// A displayed value as a cell of width `width`.
pub open spec fn cell_of(d: Emitted, width: nat) -> Emitted {
    if d.failure is Some {
        d
    } else {
        emit(table_cell(d.text, width))
    }
}

/// The first `n` cells of row `row`.
pub open spec fn table_row_cells(batch: Batch, row: int, widths: Seq<usize>, n: int) -> Emitted
    decreases n,
{
    if n <= 0 || n > widths.len() {
        emit(Seq::empty())
    } else {
        then(
            table_row_cells(batch, row, widths, n - 1),
            then(
                emit(
                    if n - 1 > 0 {
                        seq![' ', ' ']
                    } else {
                        Seq::empty()
                    },
                ),
                cell_of(displayed(batch.columns@[n - 1]@[row]), widths[n - 1] as nat),
            ),
        )
    }
}

/// The first `n` rows of the batch as table lines.
pub open spec fn table_rows(batch: Batch, widths: Seq<usize>, n: int) -> Emitted
    decreases n,
{
    if n <= 0 {
        emit(Seq::empty())
    } else {
        then(
            table_rows(batch, widths, n - 1),
            then(table_row_cells(batch, n - 1, widths, widths.len() as int), emit(seq!['\n'])),
        )
    }
}

/// Column names and widths, fixed by the first batch, and whether the
/// header has been written.
pub struct TableWriter {
    names: Vec<String>,
    widths: Vec<usize>,
    wrote_header: bool,
}

pub struct TableView {
    pub names: Seq<Seq<char>>,
    pub widths: Seq<usize>,
    pub wrote_header: bool,
}

impl View for TableWriter {
    type V = TableView;

    closed spec fn view(&self) -> TableView {
        TableView {
            names: self.names@.map_values(|n: String| n@),
            widths: self.widths@,
            wrote_header: self.wrote_header,
        }
    }
}

proof fn lemma_rows_stuck(batch: Batch, widths: Seq<usize>, k: int, n: int)
    requires
        0 <= k <= n,
        table_rows(batch, widths, k).failure is Some,
    ensures
        table_rows(batch, widths, n) == table_rows(batch, widths, k),
    decreases n - k,
{
    if n > k {
        lemma_rows_stuck(batch, widths, k, n - 1);
    }
}

proof fn lemma_cells_stuck(batch: Batch, row: int, widths: Seq<usize>, k: int, n: int)
    requires
        0 <= k <= n <= widths.len(),
        table_row_cells(batch, row, widths, k).failure is Some,
    ensures
        table_row_cells(batch, row, widths, n) == table_row_cells(batch, row, widths, k),
    decreases n - k,
{
    if n > k {
        lemma_cells_stuck(batch, row, widths, k, n - 1);
    }
}

/// Appends one line of cells, each fitted to its column's width.
pub fn write_table_row(out: &mut String, cells: &Vec<String>, widths: &Vec<usize>)
    requires
        cells@.len() <= widths@.len(),
    ensures
        final(out)@ == old(out)@ + table_line(cells@.map_values(|c: String| c@), widths@),
{
    let ghost start = out@;
    let ghost cv = cells@.map_values(|c: String| c@);
    let n = cells.len();
    let mut i: usize = 0;
    while i < n
        invariant
            n == cells@.len(),
            n <= widths@.len(),
            i <= n,
            start == old(out)@,
            cv == cells@.map_values(|c: String| c@),
            out@ == start + joined_cells(cv, widths@, i as int),
        decreases n - i,
    {
        if i > 0 {
            push_char(out, ' ');
            push_char(out, ' ');
        }
        write_table_cell(out, cells[i].as_str(), widths[i]);
        assert(cv[i as int] == cells@[i as int]@);
        assert(out@ =~= start + joined_cells(cv, widths@, i + 1));
        i = i + 1;
    }
    push_char(out, '\n');
}

impl TableWriter {
    /// The writer's columns: every field's name and column width.
    pub open spec fn wf(&self) -> bool {
        self@.names.len() == self@.widths.len()
    }

    /// The number of columns.
    pub fn column_count(&self) -> (n: usize)
        ensures
            n == self@.widths.len(),
    {
        self.widths.len()
    }

    /// A writer for the columns of `batch`, before any output.
    pub fn new(batch: &Batch) -> (w: TableWriter)
        ensures
            w.wf(),
            !w@.wrote_header,
            w@.names == batch.fields@.map_values(|f: Field| f.name@),
            w@.widths.len() == batch.fields@.len(),
            forall|i: int|
                0 <= i < batch.fields@.len() ==> w@.widths[i] as nat == column_width(
                    #[trigger] batch.fields@[i].name@,
                    batch.fields@[i].data_type,
                ),
    {
        let n = batch.fields.len();
        let mut names: Vec<String> = Vec::new();
        let mut widths: Vec<usize> = Vec::new();
        let mut i: usize = 0;
        while i < n
            invariant
                n == batch.fields@.len(),
                i <= n,
                names@.len() == i,
                widths@.len() == i,
                forall|k: int| 0 <= k < i ==> (#[trigger] names@[k])@ == batch.fields@[k].name@,
                forall|k: int|
                    0 <= k < i ==> (#[trigger] widths@[k]) as nat == column_width(
                        batch.fields@[k].name@,
                        batch.fields@[k].data_type,
                    ),
            decreases n - i,
        {
            names.push(batch.fields[i].name.clone());
            widths.push(table_column_width(&batch.fields[i]));
            i = i + 1;
        }
        let w = TableWriter { names, widths, wrote_header: false };
        assert(w@.names =~= batch.fields@.map_values(|f: Field| f.name@));
        w
    }

    /// Appends the header (the first time only) and every row of `batch`.
    pub fn write_batch(&mut self, batch: &Batch, out: &mut String) -> (r: Result<(), RunError>)
        requires
            old(self).wf(),
            batch.wf(),
            old(self)@.widths.len() <= batch.columns@.len(),
        ensures
            final(self).wf(),
            final(self)@.names == old(self)@.names,
            final(self)@.widths == old(self)@.widths,
            final(self)@.wrote_header,
            final(out)@ == old(out)@ + (if old(self)@.wrote_header {
                Seq::empty()
            } else {
                header_text(old(self)@.names, old(self)@.widths)
            }) + table_rows(*batch, old(self)@.widths, batch.num_rows as int).text,
            outcome_matches(r, table_rows(*batch, old(self)@.widths, batch.num_rows as int)),
    {
        let ghost start = out@;
        let ghost widths = self@.widths;
        if !self.wrote_header {
            write_table_row(out, &self.names, &self.widths);
            let mut separators: Vec<String> = Vec::new();
            let mut k: usize = 0;
            while k < self.widths.len()
                invariant
                    k <= self.widths@.len(),
                    separators@.len() == k,
                    forall|j: int|
                        0 <= j < k ==> (#[trigger] separators@[j])@ == repeat(
                            '-',
                            self.widths@[j] as nat,
                        ),
                decreases self.widths@.len() - k,
            {
                let mut dash = String::new();
                push_repeat(&mut dash, '-', self.widths[k]);
                separators.push(dash);
                k = k + 1;
            }
            assert(separators@.map_values(|c: String| c@) =~= dashes(self.widths@));
            write_table_row(out, &separators, &self.widths);
            self.wrote_header = true;
        }
        let ghost body_start = out@;
        assert(body_start == start + (if old(self)@.wrote_header {
            Seq::empty()
        } else {
            header_text(old(self)@.names, old(self)@.widths)
        }));
        let ncols = self.widths.len();
        let mut row: usize = 0;
        while row < batch.num_rows
            invariant
                batch.wf(),
                ncols == self.widths@.len(),
                ncols <= batch.columns@.len(),
                widths == self.widths@,
                self.wf(),
                self@.names == old(self)@.names,
                self@.widths == old(self)@.widths,
                self@.wrote_header,
                start == old(out)@,
                body_start == start + (if old(self)@.wrote_header {
                    Seq::empty()
                } else {
                    header_text(old(self)@.names, old(self)@.widths)
                }),
                row <= batch.num_rows,
                out@ == body_start + table_rows(*batch, widths, row as int).text,
                table_rows(*batch, widths, row as int).failure is None,
            decreases batch.num_rows - row,
        {
            let ghost line_start = out@;
            let mut c: usize = 0;
            while c < ncols
                invariant
                    batch.wf(),
                    ncols == self.widths@.len(),
                    ncols <= batch.columns@.len(),
                    widths == self.widths@,
                    self.wf(),
                    self@.names == old(self)@.names,
                    self@.widths == old(self)@.widths,
                    self@.wrote_header,
                    start == old(out)@,
                    body_start == start + (if old(self)@.wrote_header {
                        Seq::empty()
                    } else {
                        header_text(old(self)@.names, old(self)@.widths)
                    }),
                    row < batch.num_rows,
                    c <= ncols,
                    line_start == body_start + table_rows(*batch, widths, row as int).text,
                    table_rows(*batch, widths, row as int).failure is None,
                    out@ == line_start + table_row_cells(*batch, row as int, widths, c as int).text,
                    table_row_cells(*batch, row as int, widths, c as int).failure is None,
                decreases ncols - c,
            {
                let ghost before = out@;
                if c > 0 {
                    push_char(out, ' ');
                    push_char(out, ' ');
                }
                assert(batch.columns@[c as int]@.len() == batch.num_rows);
                let shown = display_value(&batch.columns[c][row]);
                match shown {
                    Ok(text) => {
                        write_table_cell(out, text.as_str(), self.widths[c]);
                        assert(out@ =~= line_start + table_row_cells(
                            *batch,
                            row as int,
                            widths,
                            c + 1,
                        ).text);
                    },
                    Err(e) => {
                        assert(out@ =~= line_start + table_row_cells(
                            *batch,
                            row as int,
                            widths,
                            c + 1,
                        ).text);
                        proof {
                            lemma_cells_stuck(*batch, row as int, widths, c + 1, ncols as int);
                            assert(out@ =~= body_start + table_rows(*batch, widths, row + 1).text);
                            lemma_rows_stuck(*batch, widths, row + 1, batch.num_rows as int);
                        }
                        return Err(e);
                    },
                }
                c = c + 1;
            }
            push_char(out, '\n');
            assert(out@ =~= body_start + table_rows(*batch, widths, row + 1).text);
            row = row + 1;
        }
        Ok(())
    }
}

// ---------------------------------------------------------------------------
// Laws
// ---------------------------------------------------------------------------

/// Every table cell is exactly as wide as its column, whatever its text:
/// short text is padded, long text is cut.
pub proof fn law_cell_fills_column(s: Seq<char>, width: nat)
    ensures
        table_cell(s, width).len() == width,
{
    let n = normalized(s);
    assert(n.len() == s.len());
    let t = truncated(n, width);
    if n.len() <= width {
    } else if width <= 3 {
        lemma_repeat_len('.', width);
    } else {
        assert(t.len() == width);
    }
    assert(t.len() <= width);
    lemma_repeat_len(' ', (width - t.len()) as nat);
}

/// Table columns are between 8 and 32 characters wide, and a date, time or
/// timestamp column is wide enough for its rendered values.
pub proof fn law_column_width_bounds(name: Seq<char>, data_type: DataType)
    ensures
        8 <= column_width(name, data_type) <= 32,
        temporal_width(data_type) matches Some(w) ==> column_width(name, data_type) >= w,
{
}

/// The length of a line of the first `n` columns: their widths, and two
/// spaces between neighbours.
pub open spec fn line_width(widths: Seq<usize>, n: int) -> nat
    decreases n,
{
    if n <= 0 || n > widths.len() {
        0
    } else {
        line_width(widths, n - 1) + (if n - 1 > 0 {
            2nat
        } else {
            0nat
        }) + widths[n - 1] as nat
    }
}

proof fn lemma_joined_width(cells: Seq<Seq<char>>, widths: Seq<usize>, n: int)
    requires
        0 <= n <= cells.len(),
        n <= widths.len(),
    ensures
        joined_cells(cells, widths, n).len() == line_width(widths, n),
    decreases n,
{
    if n > 0 {
        lemma_joined_width(cells, widths, n - 1);
        law_cell_fills_column(cells[n - 1], widths[n - 1] as nat);
    }
}

proof fn lemma_row_cells_width(batch: Batch, row: int, widths: Seq<usize>, n: int)
    requires
        0 <= n <= widths.len(),
        table_row_cells(batch, row, widths, n).failure is None,
    ensures
        table_row_cells(batch, row, widths, n).text.len() == line_width(widths, n),
    decreases n,
{
    if n > 0 {
        let d = displayed(batch.columns@[n - 1]@[row]);
        let sep = emit(
            if n - 1 > 0 {
                seq![' ', ' ']
            } else {
                Seq::empty()
            },
        );
        let cell = cell_of(d, widths[n - 1] as nat);
        assert(table_row_cells(batch, row, widths, n) == then(
            table_row_cells(batch, row, widths, n - 1),
            then(sep, cell),
        ));
        assert(table_row_cells(batch, row, widths, n - 1).failure is None);
        assert(cell.failure is None);
        lemma_row_cells_width(batch, row, widths, n - 1);
        law_cell_fills_column(d.text, widths[n - 1] as nat);
    }
}

/// The table lines up: the header line, the separator line and every row
/// line (its cells and the line break) written without failure are equally
/// long, each cell exactly as wide as its column.
pub proof fn law_table_lines_line_up(
    batch: Batch,
    names: Seq<Seq<char>>,
    widths: Seq<usize>,
    row: int,
)
    requires
        names.len() == widths.len(),
        table_row_cells(batch, row, widths, widths.len() as int).failure is None,
    ensures
        table_line(names, widths).len() == line_width(widths, widths.len() as int) + 1,
        table_line(dashes(widths), widths).len() == line_width(widths, widths.len() as int) + 1,
        (table_row_cells(batch, row, widths, widths.len() as int).text + seq!['\n']).len()
            == line_width(widths, widths.len() as int) + 1,
{
    lemma_joined_width(names, widths, widths.len() as int);
    lemma_joined_width(dashes(widths), widths, widths.len() as int);
    lemma_row_cells_width(batch, row, widths, widths.len() as int);
}

/// The characters of a fraction of a second with `precision` digits: the
/// point and the digits, or nothing.
pub open spec fn fraction_len(precision: nat) -> nat {
    if precision == 0 {
        0
    } else {
        1 + precision
    }
}

/// Date, time and timestamp columns are never narrower than their values'
/// text (in years 1000 to 9999): ten characters for `YYYY-MM-DD`; for a time,
/// `HH:MM:SS` and the unit's fraction, which is exactly the length of the
/// text of every time within the day; for a timestamp,
/// `YYYY-MM-DDTHH:MM:SS`, the unit's fraction and `Z` when it has a time
/// zone. So such cells are never cut.
pub proof fn law_temporal_columns_fit_their_values(name: Seq<char>, data_type: DataType)
    ensures
        match data_type {
            DataType::Date32 | DataType::Date64 => column_width(name, data_type) >= 10,
            DataType::Time32(unit) | DataType::Time64(unit) => {
                &&& column_width(name, data_type) >= 8 + fraction_len(unit_precision(unit))
                &&& forall|v: i64|
                    0 <= v < 86400 * units_per_second(unit) ==> column_width(name, data_type)
                        >= #[trigger] time_text(v, unit).len()
            },
            DataType::Timestamp(unit, zoned) => column_width(name, data_type) >= 19
                + fraction_len(unit_precision(unit)) + (if zoned {
                1nat
            } else {
                0nat
            }),
            _ => true,
        },
{
    match data_type {
        DataType::Time32(unit) | DataType::Time64(unit) => {
            assert forall|v: i64|
                0 <= v < 86400 * units_per_second(unit) implies column_width(name, data_type)
                >= #[trigger] time_text(v, unit).len() by {
                law_time_of_day(v, unit);
            }
        },
        _ => {},
    }
}

} // verus!
