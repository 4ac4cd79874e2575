//! The schema output: one line per field, nested fields indented below their parent.

use vstd::prelude::*;

use crate::model::{DataType, Field, UnionMode};
use crate::table::{max_nat, padded};
use crate::text::{
    char_count, lemma_repeat_len, push_char, push_repeat, push_signed_decimal, push_str, repeat,
    signed_decimal,
};

verus! {

/// One line of the schema output.
pub struct SchemaRow {
    pub name: String,
    pub data_type: String,
    pub nullable: String,
}

pub struct RowView {
    pub name: Seq<char>,
    pub data_type: Seq<char>,
    pub nullable: Seq<char>,
}

impl View for SchemaRow {
    type V = RowView;

    open spec fn view(&self) -> RowView {
        RowView { name: self.name@, data_type: self.data_type@, nullable: self.nullable@ }
    }
}

/// Two spaces per level of nesting.
pub open spec fn indent(depth: nat) -> Seq<char> {
    repeat(' ', 2 * depth)
}

pub open spec fn union_mode_text(mode: UnionMode) -> Seq<char> {
    match mode {
        UnionMode::Sparse => "Sparse"@,
        UnionMode::Dense => "Dense"@,
    }
}

/// The type column: a short name for nested types, Arrow's text for the rest.
pub open spec fn type_label(f: Field) -> Seq<char> {
    match f.data_type {
        DataType::List(_) => "List"@,
        DataType::LargeList(_) => "LargeList"@,
        DataType::ListView(_) => "ListView"@,
        DataType::LargeListView(_) => "LargeListView"@,
        DataType::FixedSizeList(_, size) => "FixedSizeList("@ + signed_decimal(size as int) + ")"@,
        DataType::Struct(_) => "Struct"@,
        DataType::MapOf(_, sorted) => if sorted {
            "Map(sorted)"@
        } else {
            "Map"@
        },
        DataType::Union(_, mode) => "Union("@ + union_mode_text(mode) + ")"@,
        DataType::RunEndEncoded(_, _) => "RunEndEncoded"@,
        _ => f.type_text@,
    }
}

pub open spec fn nullable_text(nullable: bool) -> Seq<char> {
    if nullable {
        "yes"@
    } else {
        "no"@
    }
}

/// The line of one field at nesting depth `depth`.
pub open spec fn row_of(f: Field, depth: nat) -> RowView {
    RowView {
        name: indent(depth) + f.name@,
        data_type: type_label(f),
        nullable: nullable_text(f.nullable),
    }
}

/// The lines of a field and, below it, of its children.
pub open spec fn field_rows(f: Field, depth: nat) -> Seq<RowView>
    decreases f, 0nat,
{
    seq![row_of(f, depth)] + match f.data_type {
        DataType::List(c) => field_rows(*c, depth + 1),
        DataType::LargeList(c) => field_rows(*c, depth + 1),
        DataType::ListView(c) => field_rows(*c, depth + 1),
        DataType::LargeListView(c) => field_rows(*c, depth + 1),
        DataType::FixedSizeList(c, _) => field_rows(*c, depth + 1),
        DataType::Struct(fs) => fields_rows(fs@, depth + 1, fs@.len() as int),
        DataType::MapOf(c, _) => field_rows(*c, depth + 1),
        DataType::Union(fs, _) => fields_rows(fs@, depth + 1, fs@.len() as int),
        DataType::RunEndEncoded(a, b) => field_rows(*a, depth + 1) + field_rows(*b, depth + 1),
        _ => Seq::empty(),
    }
}

/// The lines of the first `n` fields.
pub open spec fn fields_rows(fs: Seq<Field>, depth: nat, n: int) -> Seq<RowView>
    decreases fs, n,
{
    if n <= 0 || n > fs.len() {
        Seq::empty()
    } else {
        fields_rows(fs, depth, n - 1) + field_rows(fs[n - 1], depth)
    }
}

/// The lines of a schema.
pub open spec fn schema_rows(schema: Seq<Field>) -> Seq<RowView> {
    fields_rows(schema, 0, schema.len() as int)
}

pub open spec fn cell_len(r: RowView, column: int) -> nat {
    if column == 0 {
        r.name.len()
    } else if column == 1 {
        r.data_type.len()
    } else {
        r.nullable.len()
    }
}

/// The longest cell of a column among the first `n` lines.
pub open spec fn widest(rows: Seq<RowView>, column: int, n: int) -> nat
    decreases n,
{
    if n <= 0 || n > rows.len() {
        0
    } else {
        max_nat(widest(rows, column, n - 1), cell_len(rows[n - 1], column))
    }
}

/// A column is as wide as its header and its longest cell.
pub open spec fn column_span(rows: Seq<RowView>, column: int, header: Seq<char>) -> nat {
    max_nat(header.len(), widest(rows, column, rows.len() as int))
}

/// One line: the name and type columns padded, then the nullable column.
pub open spec fn schema_line(
    name: Seq<char>,
    data_type: Seq<char>,
    nullable: Seq<char>,
    name_width: nat,
    type_width: nat,
) -> Seq<char> {
    padded(name, name_width) + seq![' ', ' '] + padded(data_type, type_width) + seq![' ', ' ']
        + nullable + seq!['\n']
}

/// The lines of the first `n` rows.
pub open spec fn row_lines(rows: Seq<RowView>, name_width: nat, type_width: nat, n: int) -> Seq<
    char,
>
    decreases n,
{
    if n <= 0 || n > rows.len() {
        Seq::empty()
    } else {
        row_lines(rows, name_width, type_width, n - 1) + schema_line(
            rows[n - 1].name,
            rows[n - 1].data_type,
            rows[n - 1].nullable,
            name_width,
            type_width,
        )
    }
}

/// The whole schema output: header, dashes and one line per field.
pub open spec fn schema_text(schema: Seq<Field>) -> Seq<char> {
    let rows = schema_rows(schema);
    let nw = column_span(rows, 0, "name"@);
    let tw = column_span(rows, 1, "type"@);
    let xw = column_span(rows, 2, "nullable"@);
    schema_line("name"@, "type"@, "nullable"@, nw, tw) + schema_line(
        repeat('-', nw),
        repeat('-', tw),
        repeat('-', xw),
        nw,
        tw,
    ) + row_lines(rows, nw, tw, rows.len() as int)
}

// ---------------------------------------------------------------------------
// Exec
// ---------------------------------------------------------------------------

fn union_mode_label(out: &mut String, mode: UnionMode)
    ensures
        final(out)@ == old(out)@ + union_mode_text(mode),
{
    match mode {
        UnionMode::Sparse => push_str(out, "Sparse"),
        UnionMode::Dense => push_str(out, "Dense"),
    }
}

/// The type column of `field`.
pub fn schema_type_label(field: &Field) -> (s: String)
    ensures
        s@ == type_label(*field),
{
    match &field.data_type {
        DataType::List(_) => String::from_str("List"),
        DataType::LargeList(_) => String::from_str("LargeList"),
        DataType::ListView(_) => String::from_str("ListView"),
        DataType::LargeListView(_) => String::from_str("LargeListView"),
        DataType::FixedSizeList(_, size) => {
            let mut s = String::from_str("FixedSizeList(");
            push_signed_decimal(&mut s, *size as i64);
            push_str(&mut s, ")");
            s
        },
        DataType::Struct(_) => String::from_str("Struct"),
        DataType::MapOf(_, sorted) => {
            if *sorted {
                String::from_str("Map(sorted)")
            } else {
                String::from_str("Map")
            }
        },
        DataType::Union(_, mode) => {
            let mut s = String::from_str("Union(");
            union_mode_label(&mut s, *mode);
            push_str(&mut s, ")");
            s
        },
        DataType::RunEndEncoded(_, _) => String::from_str("RunEndEncoded"),
        _ => field.type_text.clone(),
    }
}

pub open spec fn rows_view(rows: Seq<SchemaRow>) -> Seq<RowView> {
    rows.map_values(|r: SchemaRow| r@)
}

/// Appends the lines of `field` (indented by `prefix`, which is `depth`
/// levels deep) and of its children.
fn collect_schema_field(
    rows: &mut Vec<SchemaRow>,
    field: &Field,
    prefix: &String,
    Ghost(depth): Ghost<nat>,
)
    requires
        prefix@ == indent(depth),
    ensures
        rows_view(final(rows)@) == rows_view(old(rows)@) + field_rows(*field, depth),
    decreases field, 0nat,
{
    let ghost start = rows_view(rows@);
    let mut name = prefix.clone();
    push_str(&mut name, field.name.as_str());
    let nullable = if field.nullable {
        String::from_str("yes")
    } else {
        String::from_str("no")
    };
    rows.push(SchemaRow { name, data_type: schema_type_label(field), nullable });
    assert(rows_view(rows@) =~= start + seq![row_of(*field, depth)]);
    let mut deeper = prefix.clone();
    push_str(&mut deeper, "  ");
    proof {
        reveal_strlit("  ");
        assert(deeper@ =~= indent(depth + 1)) by {
            lemma_repeat_len(' ', 2 * depth);
            lemma_repeat_len(' ', 2 * (depth + 1));
            assert(repeat(' ', 2 * depth + 1) == repeat(' ', 2 * depth).push(' '));
            assert(repeat(' ', 2 * depth + 2) == repeat(' ', 2 * depth + 1).push(' '));
            assert("  "@ =~= seq![' ', ' ']);
            assert(repeat(' ', 2 * depth + 2) =~= repeat(' ', 2 * depth) + "  "@);
        }
    }
    let ghost mid = rows_view(rows@);
    match &field.data_type {
        DataType::List(c) | DataType::LargeList(c) | DataType::ListView(c) | DataType::LargeListView(
            c,
        ) | DataType::FixedSizeList(c, _) | DataType::MapOf(c, _) => {
            collect_schema_field(rows, c, &deeper, Ghost(depth + 1));
        },
        DataType::Struct(fs) | DataType::Union(fs, _) => {
            collect_schema_fields(rows, fs, &deeper, Ghost(depth + 1));
        },
        DataType::RunEndEncoded(a, b) => {
            collect_schema_field(rows, a, &deeper, Ghost(depth + 1));
            collect_schema_field(rows, b, &deeper, Ghost(depth + 1));
        },
        _ => {},
    }
    assert(rows_view(rows@) =~= start + field_rows(*field, depth));
}

/// Appends the lines of every field in `fields`.
fn collect_schema_fields(
    rows: &mut Vec<SchemaRow>,
    fields: &Vec<Field>,
    prefix: &String,
    Ghost(depth): Ghost<nat>,
)
    requires
        prefix@ == indent(depth),
    ensures
        rows_view(final(rows)@) == rows_view(old(rows)@) + fields_rows(
            fields@,
            depth,
            fields@.len() as int,
        ),
    decreases fields, 1nat,
{
    let ghost start = rows_view(rows@);
    let n = fields.len();
    let mut i: usize = 0;
    while i < n
        invariant
            n == fields@.len(),
            i <= n,
            prefix@ == indent(depth),
            rows_view(rows@) == start + fields_rows(fields@, depth, i as int),
        decreases n - i,
    {
        assert(decreases_to!(fields => fields@[i as int]));
        collect_schema_field(rows, &fields[i], prefix, Ghost(depth));
        assert(rows_view(rows@) =~= start + fields_rows(fields@, depth, i + 1));
        i = i + 1;
    }
}

/// Appends `cell` and spaces up to `width` characters.
pub fn write_padded(out: &mut String, cell: &str, width: usize)
    ensures
        final(out)@ == old(out)@ + padded(cell@, width as nat),
{
    push_str(out, cell);
    let n = char_count(cell);
    let pad = if width > n {
        width - n
    } else {
        0
    };
    push_repeat(out, ' ', pad);
}

/// Appends one schema line.
pub fn write_schema_row(
    out: &mut String,
    name: &str,
    data_type: &str,
    nullable: &str,
    name_width: usize,
    type_width: usize,
)
    ensures
        final(out)@ == old(out)@ + schema_line(
            name@,
            data_type@,
            nullable@,
            name_width as nat,
            type_width as nat,
        ),
{
    let ghost start = out@;
    write_padded(out, name, name_width);
    push_char(out, ' ');
    push_char(out, ' ');
    write_padded(out, data_type, type_width);
    push_char(out, ' ');
    push_char(out, ' ');
    push_str(out, nullable);
    push_char(out, '\n');
    assert(out@ =~= start + schema_line(
        name@,
        data_type@,
        nullable@,
        name_width as nat,
        type_width as nat,
    ));
}

/// The width of one column of the schema output.
fn schema_column_width(rows: &Vec<SchemaRow>, column: usize, header: &str) -> (w: usize)
    requires
        column < 3,
    ensures
        w == column_span(rows_view(rows@), column as int, header@),
{
    let ghost rv = rows_view(rows@);
    let mut w: usize = 0;
    let mut i: usize = 0;
    while i < rows.len()
        invariant
            rv == rows_view(rows@),
            column < 3,
            i <= rows@.len(),
            w == widest(rv, column as int, i as int),
        decreases rows@.len() - i,
    {
        let n = if column == 0 {
            char_count(rows[i].name.as_str())
        } else if column == 1 {
            char_count(rows[i].data_type.as_str())
        } else {
            char_count(rows[i].nullable.as_str())
        };
        assert(rv[i as int] == rows@[i as int]@);
        if n > w {
            w = n;
        }
        i = i + 1;
    }
    let h = char_count(header);
    if h >= w {
        h
    } else {
        w
    }
}

/// Appends the schema output for the fields of `schema`.
pub fn write_schema(schema: &Vec<Field>, out: &mut String)
    ensures
        final(out)@ == old(out)@ + schema_text(schema@),
{
    let ghost start = out@;
    let mut rows: Vec<SchemaRow> = Vec::new();
    let top = String::new();
    proof {
        assert(top@ =~= indent(0));
    }
    collect_schema_fields(&mut rows, schema, &top, Ghost(0));
    let ghost rv = rows_view(rows@);
    assert(rv =~= schema_rows(schema@));
    let name_width = schema_column_width(&rows, 0, "name");
    let type_width = schema_column_width(&rows, 1, "type");
    let nullable_width = schema_column_width(&rows, 2, "nullable");
    write_schema_row(out, "name", "type", "nullable", name_width, type_width);
    let mut d1 = String::new();
    push_repeat(&mut d1, '-', name_width);
    let mut d2 = String::new();
    push_repeat(&mut d2, '-', type_width);
    let mut d3 = String::new();
    push_repeat(&mut d3, '-', nullable_width);
    write_schema_row(out, d1.as_str(), d2.as_str(), d3.as_str(), name_width, type_width);
    let ghost body = out@;
    let mut i: usize = 0;
    while i < rows.len()
        invariant
            rv == rows_view(rows@),
            i <= rows@.len(),
            out@ == body + row_lines(rv, name_width as nat, type_width as nat, i as int),
        decreases rows@.len() - i,
    {
        write_schema_row(
            out,
            rows[i].name.as_str(),
            rows[i].data_type.as_str(),
            rows[i].nullable.as_str(),
            name_width,
            type_width,
        );
        assert(rv[i as int] == rows@[i as int]@);
        assert(out@ =~= body + row_lines(rv, name_width as nat, type_width as nat, i + 1));
        i = i + 1;
    }
    assert(out@ =~= start + schema_text(schema@));
}

// ---------------------------------------------------------------------------
// Laws
// ---------------------------------------------------------------------------

proof fn lemma_widest_covers(rows: Seq<RowView>, column: int, n: int, k: int)
    requires
        0 <= k < n <= rows.len(),
    ensures
        cell_len(rows[k], column) <= widest(rows, column, n),
    decreases n,
{
    if k < n - 1 {
        lemma_widest_covers(rows, column, n - 1, k);
    }
}

proof fn lemma_padded_len(s: Seq<char>, width: nat)
    requires
        s.len() <= width,
    ensures
        padded(s, width).len() == width,
{
    lemma_repeat_len(' ', (width - s.len()) as nat);
}

/// The schema output lines up: on every line, the name and type cells are
/// padded to exactly their column's width, which is at least as wide as the
/// header and every cell below it.
pub proof fn law_schema_columns_line_up(schema: Seq<Field>, k: int)
    requires
        0 <= k < schema_rows(schema).len(),
    ensures
        ({
            let rows = schema_rows(schema);
            let nw = column_span(rows, 0, "name"@);
            let tw = column_span(rows, 1, "type"@);
            &&& padded(rows[k].name, nw).len() == nw
            &&& padded(rows[k].data_type, tw).len() == tw
            &&& padded("name"@, nw).len() == nw
            &&& padded("type"@, tw).len() == tw
        }),
{
    let rows = schema_rows(schema);
    let nw = column_span(rows, 0, "name"@);
    let tw = column_span(rows, 1, "type"@);
    lemma_widest_covers(rows, 0, rows.len() as int, k);
    lemma_widest_covers(rows, 1, rows.len() as int, k);
    lemma_padded_len(rows[k].name, nw);
    lemma_padded_len(rows[k].data_type, tw);
    lemma_padded_len("name"@, nw);
    lemma_padded_len("type"@, tw);
}

/// The number of fields in `f`'s tree: `f` itself and every field nested
/// in its type, at any depth.
pub open spec fn field_count(f: Field) -> nat
    decreases f, 0nat,
{
    1 + match f.data_type {
        DataType::List(c) => field_count(*c),
        DataType::LargeList(c) => field_count(*c),
        DataType::ListView(c) => field_count(*c),
        DataType::LargeListView(c) => field_count(*c),
        DataType::FixedSizeList(c, _) => field_count(*c),
        DataType::Struct(fs) => fields_count(fs@, fs@.len() as int),
        DataType::MapOf(c, _) => field_count(*c),
        DataType::Union(fs, _) => fields_count(fs@, fs@.len() as int),
        DataType::RunEndEncoded(a, b) => field_count(*a) + field_count(*b),
        _ => 0,
    }
}

/// The number of fields in the trees of the first `n` fields.
pub open spec fn fields_count(fs: Seq<Field>, n: int) -> nat
    decreases fs, n,
{
    if n <= 0 || n > fs.len() {
        0
    } else {
        fields_count(fs, n - 1) + field_count(fs[n - 1])
    }
}

/// The single child of a list-like or map field.
pub open spec fn only_child(f: Field) -> Option<Field> {
    match f.data_type {
        DataType::List(c) => Some(*c),
        DataType::LargeList(c) => Some(*c),
        DataType::ListView(c) => Some(*c),
        DataType::LargeListView(c) => Some(*c),
        DataType::FixedSizeList(c, _) => Some(*c),
        DataType::MapOf(c, _) => Some(*c),
        _ => None,
    }
}

proof fn lemma_field_rows_count(f: Field, depth: nat)
    ensures
        field_rows(f, depth).len() == field_count(f),
    decreases f, 0nat,
{
    match f.data_type {
        DataType::List(c) => lemma_field_rows_count(*c, depth + 1),
        DataType::LargeList(c) => lemma_field_rows_count(*c, depth + 1),
        DataType::ListView(c) => lemma_field_rows_count(*c, depth + 1),
        DataType::LargeListView(c) => lemma_field_rows_count(*c, depth + 1),
        DataType::FixedSizeList(c, _) => lemma_field_rows_count(*c, depth + 1),
        DataType::Struct(fs) => lemma_fields_rows_count(fs@, depth + 1, fs@.len() as int),
        DataType::MapOf(c, _) => lemma_field_rows_count(*c, depth + 1),
        DataType::Union(fs, _) => lemma_fields_rows_count(fs@, depth + 1, fs@.len() as int),
        DataType::RunEndEncoded(a, b) => {
            lemma_field_rows_count(*a, depth + 1);
            lemma_field_rows_count(*b, depth + 1);
        },
        _ => {},
    }
}

proof fn lemma_fields_rows_count(fs: Seq<Field>, depth: nat, n: int)
    ensures
        fields_rows(fs, depth, n).len() == fields_count(fs, n),
    decreases fs, n,
{
    if 0 < n <= fs.len() {
        lemma_fields_rows_count(fs, depth, n - 1);
        lemma_field_rows_count(fs[n - 1], depth);
    }
}

/// The schema output has one line per field of the schema tree: a field's
/// lines are its own line at its depth followed by the lines of every
/// field nested in its type (all of them, at any depth); the child of a
/// list-like or map field comes right after it, one level deeper.
pub proof fn law_schema_lists_every_field(f: Field, depth: nat, schema: Seq<Field>)
    ensures
        field_rows(f, depth).len() == field_count(f),
        field_rows(f, depth)[0] == row_of(f, depth),
        only_child(f) matches Some(c) ==> field_rows(f, depth)[1] == row_of(c, depth + 1),
        schema_rows(schema).len() == fields_count(schema, schema.len() as int),
{
    lemma_field_rows_count(f, depth);
    lemma_fields_rows_count(schema, 0, schema.len() as int);
    if let Some(c) = only_child(f) {
        lemma_field_rows_count(c, depth + 1);
        assert(field_rows(f, depth) == seq![row_of(f, depth)] + field_rows(c, depth + 1));
    }
}

} // verus!
