use std::io::Write;

use parqcat::cli::{
    cat_help, contains_help, counted_help, parse, schema_help, top_help, usage, version, Action,
    Command, Mode, OsArg, OutputFormat, UsageError,
};
use parqcat::entry::{failure_response, respond, run_command, Next};
use parqcat::error::{IoFailure, JsonFailure, RunError};
use parqcat::format::{
    format_binary, format_date32, format_date64, format_decimal, format_decimal256, format_time,
    format_timestamp,
};
use parqcat::input::{check_not_directory, check_path, decompress, outer_compression, Compression};
use parqcat::json::{map_has_unique_string_keys, write_json_batch, write_value};
use parqcat::model::{Batch, DataType, Entry, Field, FloatValue, Member, TimeUnit, UnionMode, Value};
use parqcat::plan::{count_rows, plan_read, reader_needed, tail_plan, ReadPlan, RowEmitter};
use parqcat::schema::{schema_type_label, write_schema};
use parqcat::table::{display_value, table_column_width, write_table_cell, TableWriter};

fn args(list: &[&str]) -> Vec<OsArg> {
    list.iter().map(|a| OsArg::Text(a.to_string())).collect()
}

fn run_of(list: &[&str]) -> Command {
    match parse(args(list)) {
        Ok(Action::Run(command)) => command,
        other => panic!("expected a command, got {other:?}"),
    }
}

fn error_of(list: &[&str]) -> UsageError {
    match parse(args(list)) {
        Err(e) => e,
        other => panic!("expected a usage error, got {other:?}"),
    }
}

fn help_of(list: &[&str]) -> String {
    match parse(args(list)) {
        Ok(Action::Help(h)) => h,
        other => panic!("expected help, got {other:?}"),
    }
}

fn file_text(command: &Command) -> String {
    match command.file() {
        OsArg::Text(t) => t.clone(),
        OsArg::Raw(_) => panic!("expected a text path"),
    }
}

fn field(name: &str, data_type: DataType, type_text: &str) -> Field {
    Field {
        name: name.to_string(),
        nullable: true,
        data_type,
        type_text: type_text.to_string(),
    }
}

fn json_of(v: &Value) -> Result<String, RunError> {
    let mut out = String::new();
    write_value(v, &mut out).map(|()| out)
}

fn unsupported_message(e: RunError) -> String {
    match e {
        RunError::Unsupported(m) => m,
        other => panic!("expected a refusal, got {other:?}"),
    }
}

// ---------------------------------------------------------------------------
// Command line
// ---------------------------------------------------------------------------

#[test]
fn parse_reads_each_subcommand() {
    let cat = run_of(&["cat", "a.parquet"]);
    assert_eq!(cat.mode(), Mode::Cat);
    assert_eq!(file_text(&cat), "a.parquet");
    assert_eq!(cat.output_format(OutputFormat::Table), OutputFormat::Table);

    assert_eq!(run_of(&["head", "f"]).mode(), Mode::Head { lines: 10 });
    assert_eq!(run_of(&["tail", "f"]).mode(), Mode::Tail { lines: 10 });
    assert_eq!(run_of(&["head", "-n=5", "f"]).mode(), Mode::Head { lines: 5 });
    assert_eq!(run_of(&["tail", "--lines", "7", "f"]).mode(), Mode::Tail { lines: 7 });
    assert_eq!(run_of(&["tail", "f", "-n", "0"]).mode(), Mode::Tail { lines: 0 });

    let schema = run_of(&["schema", "s.parquet"]);
    assert_eq!(schema.mode(), Mode::Schema);
    assert_eq!(schema.output_format(OutputFormat::Jsonl), OutputFormat::Jsonl);
}

#[test]
fn format_flags_select_the_output() {
    let table = run_of(&["cat", "-t", "f"]);
    assert_eq!(table.output_format(OutputFormat::Jsonl), OutputFormat::Table);
    let jsonl = run_of(&["head", "--jsonl", "-n", "3", "f"]);
    assert_eq!(jsonl.output_format(OutputFormat::Table), OutputFormat::Jsonl);
    let twice = run_of(&["cat", "-j", "--jsonl", "f"]);
    assert_eq!(twice.output_format(OutputFormat::Table), OutputFormat::Jsonl);
    let after_separator = run_of(&["cat", "--", "-t"]);
    assert_eq!(after_separator.output_format(OutputFormat::Jsonl), OutputFormat::Jsonl);
    assert_eq!(file_text(&after_separator), "-t");

    let both = error_of(&["cat", "-j", "-t", "f"]);
    assert_eq!(both.message, "choose either JSONL or table output, not both");
    assert_eq!(both.help, cat_help());
    let both = error_of(&["tail", "--table", "--jsonl", "f"]);
    assert_eq!(both.message, "choose either JSONL or table output, not both");
    assert_eq!(both.help, counted_help("tail"));
}

#[test]
fn help_flag_wins_over_everything_before_the_separator() {
    assert_eq!(help_of(&["cat", "-j", "-t", "--help"]), cat_help());
    assert_eq!(help_of(&["schema", "-x", "-h"]), schema_help());
    assert_eq!(help_of(&["head", "-n", "oops", "-h"]), counted_help("head"));
    assert_eq!(help_of(&["tail", "-h"]), counted_help("tail"));
    assert_eq!(help_of(&["-h"]), top_help());
    assert_eq!(help_of(&["--help", "anything"]), top_help());

    let after = run_of(&["tail", "--", "-h"]);
    assert_eq!(file_text(&after), "-h");
    assert!(contains_help(&args(&["a", "-h"])));
    assert!(!contains_help(&args(&["--", "-h"])));
}

#[test]
fn parse_refuses_bad_command_lines() {
    let cases: [(&[&str], &str); 12] = [
        (&[], "missing subcommand"),
        (&["frob"], "unknown subcommand `frob`"),
        (&["cat"], "`cat` requires exactly one file path"),
        (&["cat", "a", "b"], "`cat` accepts exactly one file path"),
        (&["schema"], "`schema` requires exactly one file path"),
        (&["schema", "-j", "f"], "unsupported option `-j`"),
        (&["cat", "--bogus", "f"], "unsupported option `--bogus`"),
        (&["head", "-x", "f"], "unsupported option `-x`"),
        (&["head", "-n"], "`-n` requires a value"),
        (&["tail", "f", "--lines"], "`--lines` requires a value"),
        (&["head", "-n", "+3", "f"], "line count must be a non-negative integer"),
        (
            &["head", "-n", "99999999999999999999999", "f"],
            "line count must be a non-negative integer",
        ),
    ];
    for (line, message) in cases {
        assert_eq!(error_of(line).message, message, "command line {line:?}");
    }
    assert_eq!(error_of(&["tail", "--lines=", "f"]).message, "line count must be a non-negative integer");
    assert_eq!(error_of(&["tail", "-n=1x", "f"]).message, "line count must be a non-negative integer");
    assert_eq!(error_of(&["head", "a", "b"]).help, counted_help("head"));
    assert_eq!(error_of(&["frob"]).help, top_help());
}

#[test]
fn parse_handles_arguments_that_are_not_utf8() {
    let raw = OsArg::Raw(vec![0x66, 0xff]);
    let raw_sub = parse(vec![OsArg::Raw(vec![0xff])]).unwrap_err();
    assert_eq!(raw_sub.message, "subcommand must be valid UTF-8");

    let count = parse(vec![
        OsArg::Text("head".to_string()),
        OsArg::Text("-n".to_string()),
        OsArg::Raw(vec![0xff]),
        OsArg::Text("f".to_string()),
    ])
    .unwrap_err();
    assert_eq!(count.message, "line count must be valid UTF-8");

    let command = match parse(vec![OsArg::Text("cat".to_string()), raw]) {
        Ok(Action::Run(c)) => c,
        other => panic!("expected a command, got {other:?}"),
    };
    match command.file() {
        OsArg::Raw(b) => assert_eq!(b, &vec![0x66, 0xff]),
        OsArg::Text(_) => panic!("expected raw bytes"),
    }
}

#[test]
fn help_and_version_texts() {
    assert_eq!(version(), "parqcat 0.1.0");
    assert!(top_help().starts_with("parqcat 0.1.0\n\nUsage:\n"));
    assert!(top_help().contains("  -V, --version    Show version\n"));
    assert!(counted_help("head").contains("  parqcat head -n <N> <FILE>\n"));
    assert!(counted_help("tail").contains("Number of rows to emit, default 10"));
    assert!(cat_help().contains("  -t, --table    Force tabular output\n"));
    assert!(schema_help().starts_with("Usage:\n  parqcat schema <FILE>\n"));
    let e = usage::<()>("boom".to_string(), "help".to_string()).unwrap_err();
    assert_eq!((e.message.as_str(), e.help.as_str()), ("boom", "help"));
}

// ---------------------------------------------------------------------------
// Answers and failures
// ---------------------------------------------------------------------------

#[test]
fn respond_routes_help_version_and_usage_errors() {
    match respond(parse(args(&["-V"]))) {
        Next::Respond(r) => {
            assert_eq!(r.stdout, "parqcat 0.1.0\n");
            assert_eq!(r.stderr, "");
            assert_eq!(r.exit_code, 0);
        }
        Next::Run(_) => panic!("expected an answer"),
    }
    match respond(parse(args(&["cat"]))) {
        Next::Respond(r) => {
            assert_eq!(r.stdout, "");
            assert_eq!(
                r.stderr,
                format!("error: `cat` requires exactly one file path\n\n{}", cat_help())
            );
            assert_eq!(r.exit_code, 2);
        }
        Next::Run(_) => panic!("expected an answer"),
    }
    assert!(matches!(respond(parse(args(&["cat", "f"]))), Next::Run(_)));
}

#[test]
fn failures_are_reported_unless_the_pipe_closed() {
    let r = failure_response("no such file", false);
    assert_eq!((r.stdout.as_str(), r.stderr.as_str(), r.exit_code), ("", "error: no such file\n", 1));
    let r = failure_response("no such file", true);
    assert_eq!((r.stdout.as_str(), r.stderr.as_str(), r.exit_code), ("", "", 0));

    let pipe = RunError::Io(IoFailure::new(std::io::Error::from(std::io::ErrorKind::BrokenPipe)));
    assert!(pipe.is_broken_pipe());
    let missing = RunError::Io(IoFailure::new(std::io::Error::from(std::io::ErrorKind::NotFound)));
    assert!(!missing.is_broken_pipe());
    assert!(!RunError::Unsupported("x".to_string()).is_broken_pipe());
    let json = RunError::Json(JsonFailure::new(serde_json::from_str::<String>("nope").unwrap_err()));
    assert!(!json.is_broken_pipe());
    assert_eq!(RunError::Unsupported("plain words".to_string()).message(), "plain words");
    assert!(!missing.message().is_empty());
}

#[test]
fn run_command_checks_the_path_and_picks_the_format() {
    let stdin = run_command(&run_of(&["cat", "-"]), OutputFormat::Jsonl).unwrap_err();
    assert_eq!(
        unsupported_message(stdin),
        "stdin is not supported in v1; provide a local Parquet file path"
    );
    let request = run_command(&run_of(&["tail", "-n", "3", "x.parquet.gz"]), OutputFormat::Table).unwrap();
    assert_eq!(request.mode, Mode::Tail { lines: 3 });
    assert_eq!(request.format, OutputFormat::Table);
    assert_eq!(request.compression, Compression::Gzip);
    let request = run_command(&run_of(&["cat", "-j", "x.parquet"]), OutputFormat::Table).unwrap();
    assert_eq!(request.format, OutputFormat::Jsonl);
    assert_eq!(request.compression, Compression::Plain);

    assert!(check_path(&OsArg::Text("./-".to_string())).is_ok());
    for stdin_path in ["-", "-/", "-//", "-/.", "-/./", "-/./."] {
        assert_eq!(
            unsupported_message(check_path(&OsArg::Text(stdin_path.to_string())).unwrap_err()),
            "stdin is not supported in v1; provide a local Parquet file path",
            "path {stdin_path:?}"
        );
        assert!(std::path::Path::new(stdin_path) == std::path::Path::new("-"));
    }
    for other in ["-.", "-/..", "-/.x", "/-", "--", "-a", "", "-/-"] {
        assert!(check_path(&OsArg::Text(other.to_string())).is_ok(), "path {other:?}");
        assert!(std::path::Path::new(other) != std::path::Path::new("-"));
    }
    assert!(check_path(&OsArg::Raw(b"-/.".to_vec())).is_err());
    assert!(check_path(&OsArg::Raw(vec![b'-', 0xff])).is_ok());
    assert_eq!(error_of(&["cat", "-/"]).message, "unsupported option `-/`");
    let trailing = run_command(&run_of(&["cat", "--", "-/"]), OutputFormat::Jsonl).unwrap_err();
    assert_eq!(
        unsupported_message(trailing),
        "stdin is not supported in v1; provide a local Parquet file path"
    );
    assert_eq!(
        unsupported_message(check_not_directory(true).unwrap_err()),
        "directories are not supported"
    );
    assert!(check_not_directory(false).is_ok());
}

// ---------------------------------------------------------------------------
// Outer wrappers
// ---------------------------------------------------------------------------

#[test]
fn wrappers_are_told_by_the_file_name() {
    let text = |s: &str| outer_compression(&OsArg::Text(s.to_string()));
    assert_eq!(text("a.parquet"), Compression::Plain);
    assert_eq!(text("a.parquet.gz"), Compression::Gzip);
    assert_eq!(text("a.parquet.zst"), Compression::Zstd);
    assert_eq!(text("a.parquet.zstd"), Compression::Zstd);
    assert_eq!(text("a.gzip"), Compression::Plain);
    assert_eq!(text("gz"), Compression::Plain);
    let raw = |b: &[u8]| outer_compression(&OsArg::Raw(b.to_vec()));
    assert_eq!(raw(b"\xff.gz"), Compression::Gzip);
    assert_eq!(raw(b"\xff.zstd"), Compression::Zstd);
    assert_eq!(raw(b"\xff.parquet"), Compression::Plain);
}

#[test]
fn decompress_unwraps_or_reports_io_errors() {
    let data = b"some parquet bytes".to_vec();
    assert_eq!(decompress(Compression::Plain, &data).unwrap(), data);

    let mut encoder = flate2::write::GzEncoder::new(Vec::new(), flate2::Compression::best());
    encoder.write_all(&data).unwrap();
    let gz = encoder.finish().unwrap();
    assert_ne!(gz, data);
    assert_eq!(decompress(Compression::Gzip, &gz).unwrap(), data);

    let zst = zstd::stream::encode_all(data.as_slice(), 1).unwrap();
    assert_ne!(zst, data);
    assert_eq!(decompress(Compression::Zstd, &zst).unwrap(), data);

    assert!(matches!(decompress(Compression::Gzip, b"not gzip"), Err(RunError::Io(_))));
    assert!(matches!(decompress(Compression::Zstd, b"not zstd"), Err(RunError::Io(_))));
}

// ---------------------------------------------------------------------------
// Value text
// ---------------------------------------------------------------------------

#[test]
fn base64_binary_text() {
    assert_eq!(format_binary(&[0, 1, 2]), "base64:AAEC");
    assert_eq!(format_binary(b"hi"), "base64:aGk=");
    assert_eq!(format_binary(&[0xff]), "base64:/w==");
    assert_eq!(format_binary(&[]), "base64:");
    assert_eq!(format_binary(&[0, 0xff]), "base64:AP8=");
    assert_eq!(format_binary(b"Man is"), "base64:TWFuIGlz");
    assert_eq!(format_binary(&[0xfb, 0xff, 0xbf]), "base64:+/+/");
}

#[test]
fn decimal_text_places_the_point() {
    assert_eq!(format_decimal(12_345, 10, 2), "123.45");
    assert_eq!(format_decimal(-678, 10, 2), "-6.78");
    assert_eq!(format_decimal(5, 10, 3), "0.005");
    assert_eq!(format_decimal(-5, 10, 3), "-0.005");
    assert_eq!(format_decimal(12, 10, -2), "1200");
    assert_eq!(format_decimal(0, 10, -2), "0");
    assert_eq!(format_decimal(42, 10, 0), "42");
    assert_eq!(format_decimal(100, 10, 2), "1.00");
    assert_eq!(format_decimal256(0, 12_345, 76, 2), "123.45");
    assert_eq!(format_decimal256(-1, u128::MAX - 677, 76, 2), "-6.78");
    assert_eq!(
        format_decimal256(1, 0, 76, 0),
        "340282366920938463463374607431768211456"
    );
}

#[test]
fn dates_and_out_of_range_dates() {
    assert_eq!(format_date32(0).unwrap(), "1970-01-01");
    assert_eq!(format_date32(1).unwrap(), "1970-01-02");
    assert_eq!(format_date32(-1).unwrap(), "1969-12-31");
    assert_eq!(format_date32(19_723).unwrap(), "2024-01-01");
    assert_eq!(format_date64(86_400_000).unwrap(), "1970-01-02");
    assert_eq!(format_date64(-1).unwrap(), "1969-12-31");
    assert_eq!(
        unsupported_message(format_date32(i32::MAX).unwrap_err()),
        "date value `2147483647` is out of range"
    );
    assert_eq!(
        unsupported_message(format_date64(i64::MIN).unwrap_err()),
        "date64 value `-9223372036854775808` is out of range"
    );
}

#[test]
fn times_of_day() {
    assert_eq!(format_time(45_296_789_000, TimeUnit::Microsecond), "12:34:56.789000");
    assert_eq!(format_time(3_661, TimeUnit::Second), "01:01:01");
    assert_eq!(format_time(1, TimeUnit::Millisecond), "00:00:00.001");
    assert_eq!(format_time(1, TimeUnit::Nanosecond), "00:00:00.000000001");
    assert_eq!(format_time(86_399_999_999_999, TimeUnit::Nanosecond), "23:59:59.999999999");
    assert_eq!(format_time(-1, TimeUnit::Second), "00:00:-1");
}

#[test]
fn timestamps_in_each_unit() {
    assert_eq!(
        format_timestamp(1_000, TimeUnit::Millisecond, true).unwrap(),
        "1970-01-01T00:00:01.000Z"
    );
    assert_eq!(
        format_timestamp(1_000, TimeUnit::Millisecond, false).unwrap(),
        "1970-01-01T00:00:01.000"
    );
    assert_eq!(format_timestamp(0, TimeUnit::Second, false).unwrap(), "1970-01-01T00:00:00");
    assert_eq!(format_timestamp(86_400, TimeUnit::Second, true).unwrap(), "1970-01-02T00:00:00Z");
    assert_eq!(
        format_timestamp(-1, TimeUnit::Millisecond, false).unwrap(),
        "1969-12-31T23:59:59.999"
    );
    assert_eq!(
        format_timestamp(1_500_000, TimeUnit::Microsecond, false).unwrap(),
        "1970-01-01T00:00:01.500000"
    );
    assert_eq!(
        format_timestamp(1, TimeUnit::Nanosecond, true).unwrap(),
        "1970-01-01T00:00:00.000000001Z"
    );
    assert_eq!(
        unsupported_message(format_timestamp(i64::MAX, TimeUnit::Second, false).unwrap_err()),
        "timestamp value `9223372036854775807` is out of range"
    );
}

// ---------------------------------------------------------------------------
// JSON
// ---------------------------------------------------------------------------

#[test]
fn json_scalars() {
    assert_eq!(json_of(&Value::Null).unwrap(), "null");
    assert_eq!(json_of(&Value::Bool(false)).unwrap(), "false");
    assert_eq!(json_of(&Value::Int(i64::MIN)).unwrap(), "-9223372036854775808");
    assert_eq!(json_of(&Value::UInt(u64::MAX)).unwrap(), "18446744073709551615");
    assert_eq!(json_of(&Value::Float(FloatValue::Finite("2.5e-7".to_string()))).unwrap(), "2.5e-7");
    assert_eq!(json_of(&Value::Float(FloatValue::NegInf)).unwrap(), "\"-Inf\"");
    assert_eq!(json_of(&Value::Decimal(-5, 5, 3)).unwrap(), "\"-0.005\"");
    assert_eq!(json_of(&Value::Date64(0)).unwrap(), "\"1970-01-01\"");
    assert_eq!(json_of(&Value::Time(1, TimeUnit::Second)).unwrap(), "\"00:00:01\"");
}

#[test]
fn json_strings_are_escaped() {
    let text = Value::Text("a\"b\\c\nd\u{1}\te\u{8}\u{c}\r/é".to_string());
    assert_eq!(
        json_of(&text).unwrap(),
        "\"a\\\"b\\\\c\\nd\\u0001\\te\\b\\f\\r/é\""
    );
    let mut s = String::new();
    serde_json::to_writer(string_writer(&mut s), "a\"b\\c\nd\u{1}\te\u{8}\u{c}\r/é").ok();
    assert_eq!(json_of(&text).unwrap(), s);
}

/// A writer that appends to a `String` (serde_json writes UTF-8).
fn string_writer(s: &mut String) -> StringWriter<'_> {
    StringWriter(s)
}

struct StringWriter<'a>(&'a mut String);

impl Write for StringWriter<'_> {
    fn write(&mut self, buf: &[u8]) -> std::io::Result<usize> {
        self.0.push_str(std::str::from_utf8(buf).unwrap());
        Ok(buf.len())
    }
    fn flush(&mut self) -> std::io::Result<()> {
        Ok(())
    }
}

fn entry(key: Value, value: Value) -> Entry {
    Entry { key, value }
}

fn text(s: &str) -> Value {
    Value::Text(s.to_string())
}

#[test]
fn maps_become_objects_only_with_unique_string_keys() {
    let unique = vec![entry(text("a"), Value::Int(1)), entry(text("b"), Value::Int(2))];
    assert!(map_has_unique_string_keys(&unique, true));
    assert!(!map_has_unique_string_keys(&unique, false));
    assert_eq!(json_of(&Value::MapOf(unique, true)).unwrap(), r#"{"a":1,"b":2}"#);

    let repeated = vec![entry(text("a"), Value::Int(1)), entry(text("a"), Value::Int(2))];
    assert!(!map_has_unique_string_keys(&repeated, true));
    assert_eq!(
        json_of(&Value::MapOf(repeated, true)).unwrap(),
        r#"[{"key":"a","value":1},{"key":"a","value":2}]"#
    );

    let null_key = vec![entry(Value::Null, Value::Int(1))];
    assert_eq!(
        json_of(&Value::MapOf(null_key, true)).unwrap(),
        r#"[{"key":null,"value":1}]"#
    );
    let numbers = vec![entry(Value::Int(7), text("x"))];
    assert_eq!(
        json_of(&Value::MapOf(numbers, false)).unwrap(),
        r#"[{"key":7,"value":"x"}]"#
    );
    assert_eq!(json_of(&Value::MapOf(Vec::new(), true)).unwrap(), "{}");
    assert!(map_has_unique_string_keys(&Vec::new(), false));
    assert_eq!(json_of(&Value::MapOf(Vec::new(), false)).unwrap(), "{}");
}

#[test]
fn nested_values() {
    let v = Value::Struct(vec![
        Member {
            name: "xs".to_string(),
            value: Value::List(vec![Value::Int(1), Value::Null, Value::List(Vec::new())]),
        },
        Member {
            name: "s\"q".to_string(),
            value: Value::Struct(Vec::new()),
        },
    ]);
    assert_eq!(json_of(&v).unwrap(), r#"{"xs":[1,null,[]],"s\"q":{}}"#);
}

#[test]
fn unrenderable_values_stop_the_output_with_their_message() {
    let e = json_of(&Value::Unsupported("Interval(DayTime)".to_string())).unwrap_err();
    assert_eq!(
        unsupported_message(e),
        "unsupported Parquet feature for v1: Arrow data type `Interval(DayTime)`"
    );
    let e = json_of(&Value::Mismatch("Int32".to_string())).unwrap_err();
    assert_eq!(unsupported_message(e), "unsupported Arrow array for data type `Int32`");

    let batch = Batch {
        fields: vec![
            field("a", DataType::Other, "Int64"),
            field("b", DataType::Other, "Interval(DayTime)"),
        ],
        columns: vec![
            vec![Value::Int(1)],
            vec![Value::Unsupported("Interval(DayTime)".to_string())],
        ],
        num_rows: 1,
    };
    let mut out = String::new();
    let r = write_json_batch(&batch, &mut out);
    assert!(matches!(r, Err(RunError::Unsupported(_))));
    assert_eq!(out, r#"{"a":1,"b":"#);

    let mut list_out = String::from(">");
    let r = write_value(
        &Value::List(vec![Value::Int(1), Value::Date32(i32::MIN)]),
        &mut list_out,
    );
    assert!(r.is_err());
    assert_eq!(list_out, ">[1,");
}

#[test]
fn jsonl_has_one_object_per_line() {
    let rows = 4;
    let batch = Batch {
        fields: vec![field("t", DataType::Other, "Utf8"), field("n", DataType::Other, "Int64")],
        columns: vec![
            (0..rows).map(|i| text(&format!("line\nbreak {i}"))).collect(),
            (0..rows).map(|i| Value::Int(i as i64)).collect(),
        ],
        num_rows: rows,
    };
    let mut out = String::new();
    write_json_batch(&batch, &mut out).unwrap();
    let lines: Vec<&str> = out.lines().collect();
    assert_eq!(lines.len(), rows);
    assert!(out.ends_with('\n'));
    assert_eq!(lines[2], r#"{"t":"line\nbreak 2","n":2}"#);
    for line in lines {
        let parsed: serde_json::Value = serde_json::from_str(line).unwrap();
        assert!(parsed.is_object());
    }
}

// ---------------------------------------------------------------------------
// Tables
// ---------------------------------------------------------------------------

#[test]
fn table_cells_fill_their_column() {
    let cell = |s: &str, width: usize| {
        let mut out = String::new();
        write_table_cell(&mut out, s, width);
        out
    };
    assert_eq!(cell("abc", 8), "abc     ");
    assert_eq!(cell("abcdefghijk", 8), "abcde...");
    assert_eq!(cell("abcdefgh", 8), "abcdefgh");
    assert_eq!(cell("abcdef", 3), "...");
    assert_eq!(cell("abcdef", 2), "..");
    assert_eq!(cell("a\nb\tc", 8), "a b c   ");
    assert_eq!(cell("ééééééééé", 8).chars().count(), 8);
    assert_eq!(cell("ééééééééé", 8), "ééééé...");
}

#[test]
fn column_widths_have_bounds() {
    let w = |name: &str, t: DataType| table_column_width(&field(name, t, "T"));
    assert_eq!(w("id", DataType::Other), 8);
    assert_eq!(w("abcdefghij", DataType::Other), 10);
    assert_eq!(w(&"x".repeat(40), DataType::Other), 32);
    assert_eq!(w("d", DataType::Date32), 10);
    assert_eq!(w("t", DataType::Time32(TimeUnit::Second)), 8);
    assert_eq!(w("t", DataType::Time64(TimeUnit::Nanosecond)), 18);
    assert_eq!(w("ts", DataType::Timestamp(TimeUnit::Millisecond, false)), 23);
    assert_eq!(w("ts", DataType::Timestamp(TimeUnit::Nanosecond, true)), 30);
}

#[test]
fn displayed_values_drop_json_quotes() {
    assert_eq!(display_value(&text("a\"b\nc")).unwrap(), "a\"b\nc");
    assert_eq!(display_value(&Value::Int(-3)).unwrap(), "-3");
    assert_eq!(display_value(&Value::Null).unwrap(), "null");
    assert_eq!(display_value(&Value::Float(FloatValue::NaN)).unwrap(), "NaN");
    assert_eq!(display_value(&Value::Binary(vec![1])).unwrap(), "base64:AQ==");
    assert_eq!(display_value(&Value::List(vec![text("x")])).unwrap(), r#"["x"]"#);
    assert!(display_value(&Value::Mismatch("X".to_string())).is_err());
}

#[test]
fn table_header_is_written_once() {
    let batch = || Batch {
        fields: vec![field("name", DataType::Other, "Utf8"), field("n", DataType::Other, "Int32")],
        columns: vec![vec![text("ab")], vec![Value::Int(7)]],
        num_rows: 1,
    };
    let mut writer = TableWriter::new(&batch());
    assert_eq!(writer.column_count(), 2);
    let mut out = String::new();
    writer.write_batch(&batch(), &mut out).unwrap();
    writer.write_batch(&batch(), &mut out).unwrap();
    assert_eq!(
        out,
        "name      n       \n--------  --------\nab        7       \nab        7       \n"
    );

    let lengths: Vec<usize> = out.lines().map(|l| l.chars().count()).collect();
    assert!(lengths.iter().all(|n| *n == 8 + 2 + 8));

    let mut emitter = RowEmitter::new(OutputFormat::Table);
    let mut via_emitter = String::new();
    emitter.emit(&batch(), &mut via_emitter).unwrap();
    assert!(emitter.fits(&batch()));
    emitter.emit(&batch(), &mut via_emitter).unwrap();
    assert_eq!(via_emitter, out);
}

// ---------------------------------------------------------------------------
// Schema
// ---------------------------------------------------------------------------

#[test]
fn schema_table_lines_up_and_indents_children() {
    let item = field("item", DataType::Other, "Int32");
    let entries = Field {
        name: "entries".to_string(),
        nullable: false,
        data_type: DataType::Struct(vec![
            field("key", DataType::Other, "Utf8"),
            field("value", DataType::Other, "Int64"),
        ]),
        type_text: "Struct".to_string(),
    };
    let schema = vec![
        Field {
            name: "id".to_string(),
            nullable: false,
            data_type: DataType::Other,
            type_text: "Int32".to_string(),
        },
        field("tags", DataType::FixedSizeList(Box::new(item), 3), "FixedSizeList(3 x Int32)"),
        field("attrs", DataType::MapOf(Box::new(entries), true), "Map(..)"),
        field("u", DataType::Union(Vec::new(), UnionMode::Sparse), "Union(..)"),
    ];
    let mut out = String::new();
    write_schema(&schema, &mut out);
    let expected = "\
name       type              nullable
---------  ----------------  --------
id         Int32             no
tags       FixedSizeList(3)  yes
  item     Int32             yes
attrs      Map(sorted)       yes
  entries  Struct            no
    key    Utf8              yes
    value  Int64             yes
u          Union(Sparse)     yes
";
    assert_eq!(out, expected);
    assert_eq!(schema_type_label(&schema[3]), "Union(Sparse)");
    assert_eq!(
        schema_type_label(&field("m", DataType::MapOf(Box::new(field("e", DataType::Other, "S")), false), "M")),
        "Map"
    );
}

#[test]
fn schema_output_has_the_documented_layout() {
    let column = |name: &str, nullable: bool, type_text: &str| Field {
        name: name.to_string(),
        nullable,
        data_type: DataType::Other,
        type_text: type_text.to_string(),
    };
    let schema = vec![
        column("id", false, "Int32"),
        column("name", true, "Utf8"),
        column("category", true, "Utf8"),
        column("active", true, "Boolean"),
    ];
    let mut out = String::new();
    write_schema(&schema, &mut out);
    let documented = "\
name      type     nullable
--------  -------  --------
id        Int32    no
name      Utf8     yes
";
    assert!(out.starts_with(documented), "{out}");
    assert!(out.ends_with("category  Utf8     yes\nactive    Boolean  yes\n"));
}

#[test]
fn empty_schema_has_only_the_header() {
    let mut out = String::new();
    write_schema(&Vec::new(), &mut out);
    assert_eq!(out, "name  type  nullable\n----  ----  --------\n");
}

// ---------------------------------------------------------------------------
// Read plans
// ---------------------------------------------------------------------------

#[test]
fn tail_plans_take_the_fewest_trailing_groups() {
    let plan = tail_plan(&vec![2, 2, 1], 2);
    assert_eq!((plan.row_groups, plan.offset), (vec![1, 2], 1));
    let plan = tail_plan(&vec![2, 2, 1], 1);
    assert_eq!((plan.row_groups, plan.offset), (vec![2], 0));
    let plan = tail_plan(&vec![2, 2, 1], 5);
    assert_eq!((plan.row_groups, plan.offset), (vec![0, 1, 2], 0));
    let plan = tail_plan(&vec![2, 2, 1], 9);
    assert_eq!((plan.row_groups, plan.offset), (vec![0, 1, 2], 0));
    let plan = tail_plan(&vec![10, -4, 3], 4);
    assert_eq!((plan.row_groups, plan.offset), (vec![0, 1, 2], 9));
    let plan = tail_plan(&Vec::new(), 3);
    assert_eq!((plan.row_groups, plan.offset), (Vec::<usize>::new(), 0));
    let plan = tail_plan(&vec![5], 0);
    assert_eq!((plan.row_groups, plan.offset), (Vec::<usize>::new(), 0));
}

#[test]
fn read_plans_per_mode() {
    assert_eq!(count_rows(-5), 0);
    assert_eq!(count_rows(12), 12);
    assert!(!reader_needed(Mode::Head { lines: 0 }));
    assert!(!reader_needed(Mode::Tail { lines: 0 }));
    assert!(reader_needed(Mode::Cat));
    assert!(reader_needed(Mode::Schema));

    assert!(matches!(plan_read(Mode::Cat, 0, &Vec::new()), ReadPlan::Nothing));
    assert!(matches!(plan_read(Mode::Schema, 0, &Vec::new()), ReadPlan::Schema));
    match plan_read(Mode::Head { lines: 3 }, 5, &vec![2, 2, 1]) {
        ReadPlan::Rows(s) => {
            assert_eq!((s.row_groups, s.offset, s.limit), (None, None, Some(3)));
        }
        _ => panic!("expected rows"),
    }
    match plan_read(Mode::Tail { lines: 99 }, 5, &vec![2, 2, 1]) {
        ReadPlan::Rows(s) => {
            assert_eq!((s.row_groups, s.offset, s.limit), (Some(vec![0, 1, 2]), Some(0), Some(99)));
        }
        _ => panic!("expected rows"),
    }
    match plan_read(Mode::Tail { lines: 3 }, 5, &vec![2, 2, 1]) {
        ReadPlan::Rows(s) => {
            assert_eq!((s.row_groups, s.offset, s.limit), (Some(vec![1, 2]), Some(0), Some(3)));
        }
        _ => panic!("expected rows"),
    }
    match plan_read(Mode::Cat, 5, &vec![5]) {
        ReadPlan::Rows(s) => {
            assert_eq!((s.batch_size, s.row_groups, s.offset, s.limit), (8192, None, None, None));
        }
        _ => panic!("expected rows"),
    }
}
