use std::io::Write;

use parqcat::cli::{parse, OsArg, OutputFormat};
use parqcat::entry::{failure_response, respond, run_command, Next};
use parqcat::error::RunError;
use parqcat::input::{decompress, outer_compression, Compression};
use parqcat::model::{Batch, DataType, Field, FloatValue, Member, TimeUnit, Value};
use parqcat::plan::{plan_read, reader_needed, ReadPlan, RowEmitter, BATCH_SIZE};
use parqcat::schema::write_schema;

// ---------------------------------------------------------------------------
// Fixtures: the same columns and values as the Parquet files of the original
// command-line tests, written in the library's own model.
// ---------------------------------------------------------------------------

fn field(name: &str, nullable: bool, data_type: DataType, type_text: &str) -> Field {
    Field {
        name: name.to_string(),
        nullable,
        data_type,
        type_text: type_text.to_string(),
    }
}

fn text(s: &str) -> Value {
    Value::Text(s.to_string())
}

fn finite(s: &str) -> Value {
    Value::Float(FloatValue::Finite(s.to_string()))
}

fn flat_fields() -> Vec<Field> {
    vec![
        field("id", false, DataType::Other, "Int32"),
        field("name", true, DataType::Other, "Utf8"),
        field("active", true, DataType::Other, "Boolean"),
        field("score", true, DataType::Other, "Float64"),
        field("payload", true, DataType::Other, "Binary"),
    ]
}

fn flat_rows() -> Vec<Vec<Value>> {
    vec![
        vec![
            Value::Int(1),
            text("alpha"),
            Value::Bool(true),
            finite("1.5"),
            Value::Binary(vec![0, 1, 2]),
        ],
        vec![
            Value::Int(2),
            text("beta"),
            Value::Bool(false),
            Value::Float(FloatValue::NaN),
            Value::Binary(b"hi".to_vec()),
        ],
        vec![
            Value::Int(3),
            Value::Null,
            Value::Bool(true),
            Value::Float(FloatValue::PosInf),
            Value::Binary(vec![0xff]),
        ],
        vec![
            Value::Int(4),
            text("delta"),
            Value::Null,
            Value::Float(FloatValue::NegInf),
            Value::Binary(Vec::new()),
        ],
        vec![
            Value::Int(5),
            text("epsilon"),
            Value::Bool(true),
            Value::Null,
            Value::Binary(vec![0, 0xff]),
        ],
    ]
}

fn list_field(name: &str, child: Field) -> Field {
    let type_text = format!("List({})", child.type_text);
    field(name, true, DataType::List(Box::new(child)), &type_text)
}

fn nested_fields() -> Vec<Field> {
    vec![
        field("id", false, DataType::Other, "Int32"),
        field("category", true, DataType::Other, "Dictionary(Int32, Utf8)"),
        list_field("tags", field("item", true, DataType::Other, "Int32")),
        field(
            "profile",
            true,
            DataType::Struct(vec![
                field("city", true, DataType::Other, "Utf8"),
                field("zip", true, DataType::Other, "Int32"),
            ]),
            "Struct(city Utf8, zip Int32)",
        ),
    ]
}

fn profile(city: Value, zip: Value) -> Value {
    Value::Struct(vec![
        Member {
            name: "city".to_string(),
            value: city,
        },
        Member {
            name: "zip".to_string(),
            value: zip,
        },
    ])
}

fn nested_rows() -> Vec<Vec<Value>> {
    vec![
        vec![
            Value::Int(1),
            text("alpha"),
            Value::List(vec![Value::Int(1), Value::Int(2)]),
            profile(text("NYC"), Value::Int(10001)),
        ],
        vec![
            Value::Int(2),
            text("beta"),
            Value::List(Vec::new()),
            profile(Value::Null, Value::Null),
        ],
        vec![
            Value::Int(3),
            text("alpha"),
            Value::Null,
            profile(text("LA"), Value::Int(90001)),
        ],
    ]
}

fn temporal_fields() -> Vec<Field> {
    vec![
        field("date", true, DataType::Date32, "Date32"),
        field(
            "time",
            true,
            DataType::Time64(TimeUnit::Microsecond),
            "Time64(µs)",
        ),
        field(
            "ts_utc",
            true,
            DataType::Timestamp(TimeUnit::Millisecond, true),
            "Timestamp(ms, \"+00:00\")",
        ),
        field(
            "ts_naive",
            true,
            DataType::Timestamp(TimeUnit::Millisecond, false),
            "Timestamp(ms)",
        ),
        field("amount", true, DataType::Other, "Decimal128(10, 2)"),
    ]
}

fn temporal_rows() -> Vec<Vec<Value>> {
    vec![
        vec![
            Value::Date32(1),
            Value::Time(45_296_789_000, TimeUnit::Microsecond),
            Value::Timestamp(1_000, TimeUnit::Millisecond, true),
            Value::Timestamp(1_000, TimeUnit::Millisecond, false),
            Value::Decimal(12_345, 10, 2),
        ],
        vec![
            Value::Null,
            Value::Null,
            Value::Null,
            Value::Null,
            Value::Decimal(-678, 10, 2),
        ],
    ]
}

/// Row groups of at most two rows, as the fixtures were written.
fn groups_of_two(rows: usize) -> Vec<i64> {
    let mut groups = Vec::new();
    let mut left = rows;
    while left > 0 {
        let n = left.min(2);
        groups.push(n as i64);
        left -= n;
    }
    groups
}

fn batch_of(fields: Vec<Field>, rows: Vec<Vec<Value>>) -> Batch {
    let mut columns: Vec<Vec<Value>> = fields.iter().map(|_| Vec::new()).collect();
    let num_rows = rows.len();
    for row in rows {
        for (c, value) in row.into_iter().enumerate() {
            columns[c].push(value);
        }
    }
    Batch {
        fields,
        columns,
        num_rows,
    }
}

fn args(list: &[&str]) -> Vec<OsArg> {
    list.iter().map(|a| OsArg::Text(a.to_string())).collect()
}

struct Output {
    stdout: String,
    stderr: String,
    code: u8,
}

/// Runs a command line against a file whose content is `fields` and `rows`
/// in row groups of two, doing the reader's part (choosing the rows that the
/// read plan selects) by hand.
fn run_cli(
    line: &[&str],
    fields: Vec<Field>,
    rows: Vec<Vec<Value>>,
    default_format: OutputFormat,
) -> Output {
    let command = match respond(parse(args(line))) {
        Next::Respond(r) => {
            return Output {
                stdout: r.stdout,
                stderr: r.stderr,
                code: r.exit_code,
            }
        }
        Next::Run(command) => command,
    };
    let failed = |e: RunError| {
        let r = failure_response(&e.message(), e.is_broken_pipe());
        Output {
            stdout: r.stdout,
            stderr: r.stderr,
            code: r.exit_code,
        }
    };
    let request = match run_command(&command, default_format) {
        Ok(request) => request,
        Err(e) => return failed(e),
    };
    let mut out = String::new();
    if reader_needed(request.mode) {
        let groups = groups_of_two(rows.len());
        match plan_read(request.mode, rows.len() as i64, &groups) {
            ReadPlan::Nothing => {}
            ReadPlan::Schema => write_schema(&fields, &mut out),
            ReadPlan::Rows(selection) => {
                assert_eq!(selection.batch_size, BATCH_SIZE);
                let mut in_groups = Vec::new();
                let mut start = 0usize;
                for (g, n) in groups.iter().enumerate() {
                    let n = *n as usize;
                    let wanted = match &selection.row_groups {
                        Some(list) => list.contains(&g),
                        None => true,
                    };
                    if wanted {
                        in_groups.extend(start..start + n);
                    }
                    start += n;
                }
                let skip = selection.offset.unwrap_or(0);
                let take = selection.limit.unwrap_or(usize::MAX);
                let chosen: Vec<usize> = in_groups.into_iter().skip(skip).take(take).collect();
                let picked: Vec<Vec<Value>> = rows
                    .into_iter()
                    .enumerate()
                    .filter(|(i, _)| chosen.contains(i))
                    .map(|(_, row)| row)
                    .collect();
                let batch = batch_of(fields, picked);
                let mut emitter = RowEmitter::new(request.format);
                assert!(emitter.fits(&batch));
                if let Err(e) = emitter.emit(&batch, &mut out) {
                    return failed(e);
                }
            }
        }
    }
    Output {
        stdout: out,
        stderr: String::new(),
        code: 0,
    }
}

fn assert_success(output: Output, expected_stdout: &str) {
    assert_eq!(output.code, 0, "stderr:\n{}", output.stderr);
    assert_eq!(output.stdout, expected_stdout);
    assert_eq!(output.stderr, "");
}

const FLAT_LINES: [&str; 5] = [
    r#"{"id":1,"name":"alpha","active":true,"score":1.5,"payload":"base64:AAEC"}"#,
    r#"{"id":2,"name":"beta","active":false,"score":"NaN","payload":"base64:aGk="}"#,
    r#"{"id":3,"name":null,"active":true,"score":"+Inf","payload":"base64:/w=="}"#,
    r#"{"id":4,"name":"delta","active":null,"score":"-Inf","payload":"base64:"}"#,
    r#"{"id":5,"name":"epsilon","active":true,"score":null,"payload":"base64:AP8="}"#,
];

fn lines(list: &[&str]) -> String {
    list.iter().map(|l| format!("{l}\n")).collect()
}

// ---------------------------------------------------------------------------
// The scenarios of the original command-line tests
// ---------------------------------------------------------------------------

#[test]
fn cat_head_and_tail_flat_jsonl() {
    let expected = lines(&FLAT_LINES);
    let jsonl = OutputFormat::Jsonl;

    assert_success(
        run_cli(&["cat", "flat.parquet"], flat_fields(), flat_rows(), jsonl),
        &expected,
    );
    assert_success(
        run_cli(&["cat", "-j", "flat.parquet"], flat_fields(), flat_rows(), jsonl),
        &expected,
    );
    assert_success(
        run_cli(&["head", "-n", "2", "flat.parquet"], flat_fields(), flat_rows(), jsonl),
        &lines(&FLAT_LINES[..2]),
    );
    assert_success(
        run_cli(&["tail", "--lines=2", "flat.parquet"], flat_fields(), flat_rows(), jsonl),
        &lines(&FLAT_LINES[3..]),
    );
    assert_success(
        run_cli(&["head", "-n", "0", "flat.parquet"], flat_fields(), flat_rows(), jsonl),
        "",
    );
    assert_success(
        run_cli(&["tail", "-n", "99", "flat.parquet"], flat_fields(), flat_rows(), jsonl),
        &expected,
    );
}

#[test]
fn table_output_is_available_for_quick_terminal_views() {
    let output = run_cli(
        &["head", "-t", "-n", "2", "flat.parquet"],
        flat_fields(),
        flat_rows(),
        OutputFormat::Jsonl,
    );
    assert_eq!(output.code, 0, "stderr:\n{}", output.stderr);
    assert_eq!(output.stderr, "");
    let stdout = output.stdout;
    assert!(stdout.starts_with("id        name      active    score     payload"));
    assert!(stdout.contains("--------  --------  --------  --------  --------"));
    assert!(stdout.contains("1         alpha     true      1.5       base6..."));
    assert!(stdout.contains("2         beta      false     NaN       base6..."));
    assert!(!stdout.starts_with('{'));
}

#[test]
fn schema_subcommand_shows_logical_schema() {
    let output = run_cli(
        &["schema", "flat.parquet"],
        flat_fields(),
        flat_rows(),
        OutputFormat::Jsonl,
    );
    assert_eq!(output.code, 0, "stderr:\n{}", output.stderr);
    assert_eq!(output.stderr, "");
    let rows = output
        .stdout
        .lines()
        .map(|line| line.split_whitespace().collect::<Vec<_>>())
        .collect::<Vec<_>>();
    assert_eq!(rows[0], ["name", "type", "nullable"]);
    assert_eq!(rows[2], ["id", "Int32", "no"]);
    assert_eq!(rows[3], ["name", "Utf8", "yes"]);
    assert_eq!(rows[4], ["active", "Boolean", "yes"]);
    assert_eq!(rows[5], ["score", "Float64", "yes"]);
    assert_eq!(rows[6], ["payload", "Binary", "yes"]);

    let nested = run_cli(
        &["schema", "nested.parquet"],
        nested_fields(),
        nested_rows(),
        OutputFormat::Jsonl,
    );
    assert_eq!(nested.code, 0, "stderr:\n{}", nested.stderr);
    assert_eq!(nested.stderr, "");
    let nested_stdout = nested.stdout;
    assert!(nested_stdout
        .lines()
        .any(|line| line.starts_with("tags") && line.contains("List")));
    assert!(nested_stdout
        .lines()
        .any(|line| line.starts_with("  item") && line.contains("Int32")));
    assert!(nested_stdout
        .lines()
        .any(|line| line.starts_with("profile") && line.contains("Struct")));
    assert!(nested_stdout
        .lines()
        .any(|line| line.starts_with("  city") && line.contains("Utf8")));
}

#[test]
fn nested_and_dictionary_jsonl() {
    let expected = lines(&[
        r#"{"id":1,"category":"alpha","tags":[1,2],"profile":{"city":"NYC","zip":10001}}"#,
        r#"{"id":2,"category":"beta","tags":[],"profile":{"city":null,"zip":null}}"#,
        r#"{"id":3,"category":"alpha","tags":null,"profile":{"city":"LA","zip":90001}}"#,
    ]);
    assert_success(
        run_cli(
            &["cat", "nested.parquet"],
            nested_fields(),
            nested_rows(),
            OutputFormat::Jsonl,
        ),
        &expected,
    );
}

fn gzip(bytes: &[u8]) -> Vec<u8> {
    let mut encoder =
        flate2::write::GzEncoder::new(Vec::new(), flate2::Compression::default());
    encoder.write_all(bytes).unwrap();
    encoder.finish().unwrap()
}

#[test]
fn gzip_and_zstd_outer_wrappers_are_read_transparently() {
    let parquet_bytes = b"PAR1\x15\x00\x15\x1c\x15\x1cPAR1".to_vec();

    let gz_path = OsArg::Text("flat.parquet.gz".to_string());
    let zst_path = OsArg::Text("flat.parquet.zst".to_string());
    assert_eq!(outer_compression(&gz_path), Compression::Gzip);
    assert_eq!(outer_compression(&zst_path), Compression::Zstd);

    let unpacked = decompress(Compression::Gzip, &gzip(&parquet_bytes)).unwrap();
    assert_eq!(unpacked, parquet_bytes);
    let packed = zstd::stream::encode_all(parquet_bytes.as_slice(), 3).unwrap();
    let unpacked = decompress(Compression::Zstd, &packed).unwrap();
    assert_eq!(unpacked, parquet_bytes);

    let expected = lines(&FLAT_LINES[4..]);
    assert_success(
        run_cli(&["tail", "-n", "1", "flat.parquet.gz"], flat_fields(), flat_rows(), OutputFormat::Jsonl),
        &expected,
    );
    assert_success(
        run_cli(&["tail", "-n", "1", "flat.parquet.zst"], flat_fields(), flat_rows(), OutputFormat::Jsonl),
        &expected,
    );
}

#[test]
fn temporal_and_decimal_values_have_stable_json_strings() {
    let expected = lines(&[
        r#"{"date":"1970-01-02","time":"12:34:56.789000","ts_utc":"1970-01-01T00:00:01.000Z","ts_naive":"1970-01-01T00:00:01.000","amount":"123.45"}"#,
        r#"{"date":null,"time":null,"ts_utc":null,"ts_naive":null,"amount":"-6.78"}"#,
    ]);
    assert_success(
        run_cli(
            &["cat", "temporal.parquet"],
            temporal_fields(),
            temporal_rows(),
            OutputFormat::Jsonl,
        ),
        &expected,
    );

    let table = run_cli(
        &["head", "-t", "-n", "1", "temporal.parquet"],
        temporal_fields(),
        temporal_rows(),
        OutputFormat::Jsonl,
    );
    assert_eq!(table.code, 0, "stderr:\n{}", table.stderr);
    assert_eq!(table.stderr, "");
    let stdout = table.stdout;
    assert!(stdout.contains("1970-01-02"));
    assert!(stdout.contains("12:34:56.789000"));
    assert!(stdout.contains("1970-01-01T00:00:01.000Z"));
    assert!(stdout.contains("1970-01-01T00:00:01.000"));
    assert!(!stdout.contains("..."));
}

#[test]
fn output_streams_cleanly_into_jq() {
    let producer = run_cli(&["cat", "flat.parquet"], flat_fields(), flat_rows(), OutputFormat::Jsonl);
    assert_eq!(producer.code, 0);
    assert_eq!(producer.stderr, "");

    // `jq -r '.name // "NULL"'` on each line.
    let mut names = String::new();
    for line in producer.stdout.lines() {
        let row: serde_json::Value = serde_json::from_str(line).unwrap();
        match row.get("name") {
            Some(serde_json::Value::String(name)) => names.push_str(name),
            _ => names.push_str("NULL"),
        }
        names.push('\n');
    }
    assert_eq!(names, "alpha\nbeta\nNULL\ndelta\nepsilon\n");
}

#[test]
fn usage_and_runtime_errors_have_expected_exit_codes() {
    let help = run_cli(&["--help"], flat_fields(), flat_rows(), OutputFormat::Jsonl);
    assert_eq!(help.code, 0);
    assert!(help.stdout.contains("Usage:"));
    assert!(help.stdout.contains("schema"));
    assert_eq!(help.stderr, "");

    let version = run_cli(&["--version"], flat_fields(), flat_rows(), OutputFormat::Jsonl);
    assert_eq!(version.code, 0);
    assert!(version.stdout.starts_with("parqcat "));
    assert_eq!(version.stderr, "");

    let no_args = run_cli(&[], flat_fields(), flat_rows(), OutputFormat::Jsonl);
    assert_eq!(no_args.code, 2);
    assert!(no_args.stderr.contains("missing subcommand"));

    let signed_count = run_cli(
        &["head", "-n", "-1", "file.parquet"],
        flat_fields(),
        flat_rows(),
        OutputFormat::Jsonl,
    );
    assert_eq!(signed_count.code, 2);
    assert!(signed_count.stderr.contains("non-negative integer"));

    let stdin = run_cli(&["cat", "-"], flat_fields(), flat_rows(), OutputFormat::Jsonl);
    assert_eq!(stdin.code, 1);
    assert!(stdin.stderr.contains("stdin is not supported"));

    let schema_format = run_cli(
        &["schema", "-j", "file.parquet"],
        flat_fields(),
        flat_rows(),
        OutputFormat::Jsonl,
    );
    assert_eq!(schema_format.code, 2);
    assert!(schema_format.stderr.contains("unsupported option `-j`"));

    let corrupt = parquet::arrow::arrow_reader::ParquetRecordBatchReaderBuilder::try_new(
        bytes_of(b"not parquet"),
    );
    let err = RunError::Parquet(corrupt.err().unwrap());
    let r = failure_response(&err.message(), err.is_broken_pipe());
    assert_eq!(r.exit_code, 1);
    assert!(r.stderr.starts_with("error: "));
}

fn bytes_of(b: &[u8]) -> bytes::Bytes {
    bytes::Bytes::from(b.to_vec())
}
