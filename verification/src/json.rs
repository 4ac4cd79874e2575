//! Compact JSON text of values and rows (the JSONL output).

use vstd::prelude::*;

use crate::error::RunError;
use crate::format::{
    binary_text, date32_text, date64_text, decimal_text, format_binary, format_date32,
    format_date64, format_decimal, format_decimal256, format_time, format_timestamp,
    is_unsupported, out_of_range_text, time_text, timestamp_text, wide_value,
};
use crate::model::{Batch, Entry, FloatValue, Member, Value};
use crate::text::{
    decimal, json_quote, push_char, push_decimal, push_json_str, push_signed_decimal, push_str,
    signed_decimal,
};

verus! {

/// Why writing stopped: a value that cannot be rendered (with the message),
/// or JSON text that could not be read back.
pub enum Failure {
    Unsupported(Seq<char>),
    Json,
}

/// Text written so far, and the failure that stopped the writing, if any.
pub struct Emitted {
    pub text: Seq<char>,
    pub failure: Option<Failure>,
}

pub open spec fn emit(text: Seq<char>) -> Emitted {
    Emitted { text, failure: None }
}

pub open spec fn fail(message: Seq<char>) -> Emitted {
    Emitted { text: Seq::empty(), failure: Some(Failure::Unsupported(message)) }
}

/// `a`, followed by `b` unless `a` failed.
pub open spec fn then(a: Emitted, b: Emitted) -> Emitted {
    if a.failure is Some {
        a
    } else {
        Emitted { text: a.text + b.text, failure: b.failure }
    }
}

/// The outcome of a write that produced `e`.
pub open spec fn outcome_matches(r: Result<(), RunError>, e: Emitted) -> bool {
    match e.failure {
        None => r is Ok,
        Some(Failure::Unsupported(m)) => r matches Err(err) && is_unsupported(err, m),
        Some(Failure::Json) => r matches Err(err) && err is Json,
    }
}

pub open spec fn unsupported_type_text(t: Seq<char>) -> Seq<char> {
    "unsupported Parquet feature for v1: Arrow data type `"@ + t + "`"@
}

pub open spec fn mismatch_text(t: Seq<char>) -> Seq<char> {
    "unsupported Arrow array for data type `"@ + t + "`"@
}

/// JSON text of a floating-point value: non-finite values become strings.
pub open spec fn float_json(f: FloatValue) -> Seq<char> {
    match f {
        FloatValue::NaN => json_quote("NaN"@),
        FloatValue::PosInf => json_quote("+Inf"@),
        FloatValue::NegInf => json_quote("-Inf"@),
        FloatValue::Finite(t) => t@,
    }
}

/// A JSON string of `t` when there is one, or the out-of-range failure.
pub open spec fn quoted_or_fail(t: Option<Seq<char>>, what: Seq<char>, value: int) -> Emitted {
    match t {
        Some(s) => emit(json_quote(s)),
        None => fail(out_of_range_text(what, value)),
    }
}

pub open spec fn separator(i: int) -> Seq<char> {
    if i > 0 {
        seq![',']
    } else {
        Seq::empty()
    }
}

/// The map is written as an object: it has no entries, or its keys have a
/// string type, none is null, and no two are equal.
pub open spec fn map_as_object(entries: Seq<Entry>, string_keys: bool) -> bool {
    ||| entries.len() == 0
    ||| {
        &&& string_keys
        &&& forall|i: int| 0 <= i < entries.len() ==> (#[trigger] entries[i]).key is Text
        &&& forall|i: int, j: int|
            0 <= i < j < entries.len() ==> (#[trigger] entries[i]).key->Text_0@ != (
            #[trigger] entries[j]).key->Text_0@
    }
}

/// JSON text of one value.
pub open spec fn json_value(v: Value) -> Emitted
    decreases v, 0nat,
{
    match v {
        Value::Null => emit("null"@),
        Value::Bool(b) => emit(
            if b {
                "true"@
            } else {
                "false"@
            },
        ),
        Value::Int(n) => emit(signed_decimal(n as int)),
        Value::UInt(n) => emit(decimal(n as nat)),
        Value::Float(f) => emit(float_json(f)),
        Value::Text(s) => emit(json_quote(s@)),
        Value::Binary(b) => emit(json_quote(binary_text(b@))),
        Value::Decimal(x, _, scale) => emit(json_quote(decimal_text(x as int, scale as int))),
        Value::Decimal256(high, low, _, scale) => emit(
            json_quote(decimal_text(wide_value(high, low), scale as int)),
        ),
        Value::Date32(d) => quoted_or_fail(date32_text(d), "date"@, d as int),
        Value::Date64(ms) => quoted_or_fail(date64_text(ms), "date64"@, ms as int),
        Value::Time(x, unit) => emit(json_quote(time_text(x, unit))),
        Value::Timestamp(x, unit, utc) => quoted_or_fail(
            timestamp_text(x, unit, utc),
            "timestamp"@,
            x as int,
        ),
        Value::List(items) => then(
            emit(seq!['[']),
            then(json_items(items@, items@.len() as int), emit(seq![']'])),
        ),
        Value::Struct(members) => then(
            emit(seq!['{']),
            then(json_members(members@, members@.len() as int), emit(seq!['}'])),
        ),
        Value::MapOf(entries, string_keys) => if map_as_object(entries@, string_keys) {
            then(
                emit(seq!['{']),
                then(json_object_entries(entries@, entries@.len() as int), emit(seq!['}'])),
            )
        } else {
            then(
                emit(seq!['[']),
                then(json_pair_entries(entries@, entries@.len() as int), emit(seq![']'])),
            )
        },
        Value::Unsupported(t) => fail(unsupported_type_text(t@)),
        Value::Mismatch(t) => fail(mismatch_text(t@)),
    }
}

/// The first `n` items of a list, separated by commas.
pub open spec fn json_items(items: Seq<Value>, n: int) -> Emitted
    decreases items, n,
{
    if n <= 0 || n > items.len() {
        emit(Seq::empty())
    } else {
        then(json_items(items, n - 1), then(emit(separator(n - 1)), json_value(items[n - 1])))
    }
}

/// The first `n` members of a struct as `"name":value`, separated by commas.
pub open spec fn json_members(members: Seq<Member>, n: int) -> Emitted
    decreases members, n,
{
    if n <= 0 || n > members.len() {
        emit(Seq::empty())
    } else {
        then(
            json_members(members, n - 1),
            then(
                emit(separator(n - 1) + json_quote(members[n - 1].name@) + seq![':']),
                json_value(members[n - 1].value),
            ),
        )
    }
}

/// The first `n` entries of a map with distinct string keys, as `"key":value`.
pub open spec fn json_object_entries(entries: Seq<Entry>, n: int) -> Emitted
    decreases entries, n,
{
    if n <= 0 || n > entries.len() {
        emit(Seq::empty())
    } else {
        then(
            json_object_entries(entries, n - 1),
            then(
                emit(separator(n - 1) + json_quote(entries[n - 1].key->Text_0@) + seq![':']),
                json_value(entries[n - 1].value),
            ),
        )
    }
}

/// The first `n` entries of a map as `{"key":k,"value":v}` objects.
pub open spec fn json_pair_entries(entries: Seq<Entry>, n: int) -> Emitted
    decreases entries, n,
{
    if n <= 0 || n > entries.len() {
        emit(Seq::empty())
    } else {
        then(
            json_pair_entries(entries, n - 1),
            then(
                emit(separator(n - 1) + "{\"key\":"@),
                then(
                    json_value(entries[n - 1].key),
                    then(emit(",\"value\":"@), then(json_value(entries[n - 1].value), emit(seq!['}']))),
                ),
            ),
        )
    }
}

/// Row `row` of the batch, as its first `n` columns in `"name":value` form.
pub open spec fn json_row_fields(batch: Batch, row: int, n: int) -> Emitted
    decreases n,
{
    if n <= 0 || n > batch.fields@.len() {
        emit(Seq::empty())
    } else {
        then(
            json_row_fields(batch, row, n - 1),
            then(
                emit(separator(n - 1) + json_quote(batch.fields@[n - 1].name@) + seq![':']),
                json_value(batch.columns@[n - 1]@[row]),
            ),
        )
    }
}

/// Row `row` as one JSON object on its own line.
pub open spec fn json_line(batch: Batch, row: int) -> Emitted {
    then(
        emit(seq!['{']),
        then(json_row_fields(batch, row, batch.fields@.len() as int), emit(seq!['}', '\n'])),
    )
}

/// The first `n` rows of the batch as JSON lines.
pub open spec fn json_lines(batch: Batch, n: int) -> Emitted
    decreases n,
{
    if n <= 0 {
        emit(Seq::empty())
    } else {
        then(json_lines(batch, n - 1), json_line(batch, n - 1))
    }
}

// ---------------------------------------------------------------------------
// Failures stay
// ---------------------------------------------------------------------------

proof fn lemma_items_stuck(items: Seq<Value>, k: int, n: int)
    requires
        0 <= k <= n <= items.len(),
        json_items(items, k).failure is Some,
    ensures
        json_items(items, n) == json_items(items, k),
    decreases n - k,
{
    if n > k {
        lemma_items_stuck(items, k, n - 1);
    }
}

proof fn lemma_members_stuck(members: Seq<Member>, k: int, n: int)
    requires
        0 <= k <= n <= members.len(),
        json_members(members, k).failure is Some,
    ensures
        json_members(members, n) == json_members(members, k),
    decreases n - k,
{
    if n > k {
        lemma_members_stuck(members, k, n - 1);
    }
}

proof fn lemma_object_entries_stuck(entries: Seq<Entry>, k: int, n: int)
    requires
        0 <= k <= n <= entries.len(),
        json_object_entries(entries, k).failure is Some,
    ensures
        json_object_entries(entries, n) == json_object_entries(entries, k),
    decreases n - k,
{
    if n > k {
        lemma_object_entries_stuck(entries, k, n - 1);
    }
}

proof fn lemma_pair_entries_stuck(entries: Seq<Entry>, k: int, n: int)
    requires
        0 <= k <= n <= entries.len(),
        json_pair_entries(entries, k).failure is Some,
    ensures
        json_pair_entries(entries, n) == json_pair_entries(entries, k),
    decreases n - k,
{
    if n > k {
        lemma_pair_entries_stuck(entries, k, n - 1);
    }
}

proof fn lemma_row_stuck(batch: Batch, row: int, k: int, n: int)
    requires
        0 <= k <= n <= batch.fields@.len(),
        json_row_fields(batch, row, k).failure is Some,
    ensures
        json_row_fields(batch, row, n) == json_row_fields(batch, row, k),
    decreases n - k,
{
    if n > k {
        lemma_row_stuck(batch, row, k, n - 1);
    }
}

proof fn lemma_lines_stuck(batch: Batch, k: int, n: int)
    requires
        0 <= k <= n,
        json_lines(batch, k).failure is Some,
    ensures
        json_lines(batch, n) == json_lines(batch, k),
    decreases n - k,
{
    if n > k {
        lemma_lines_stuck(batch, k, n - 1);
    }
}

// ---------------------------------------------------------------------------
// Writers
// ---------------------------------------------------------------------------

/// Whether a map has no entries, or its keys have a string type, are all
/// non-null and are pairwise distinct (then the map is written as a JSON
/// object).
pub fn map_has_unique_string_keys(entries: &Vec<Entry>, string_keys: bool) -> (b: bool)
    ensures
        b == map_as_object(entries@, string_keys),
{
    let n = entries.len();
    if n == 0 {
        return true;
    }
    if !string_keys {
        return false;
    }
    let mut i: usize = 0;
    while i < n
        invariant
            n == entries@.len(),
            i <= n,
            forall|k: int| 0 <= k < i ==> (#[trigger] entries@[k]).key is Text,
        decreases n - i,
    {
        match &entries[i].key {
            Value::Text(_) => {},
            _ => {
                return false;
            },
        }
        i = i + 1;
    }
    let mut i: usize = 0;
    while i < n
        invariant
            n == entries@.len(),
            i <= n,
            forall|k: int| 0 <= k < n ==> (#[trigger] entries@[k]).key is Text,
            forall|a: int, c: int|
                0 <= a < c < n && a < i ==> (#[trigger] entries@[a]).key->Text_0@ != (
                #[trigger] entries@[c]).key->Text_0@,
        decreases n - i,
    {
        let mut j: usize = i + 1;
        while j < n
            invariant
                n == entries@.len(),
                i < n,
                i < j <= n,
                forall|k: int| 0 <= k < n ==> (#[trigger] entries@[k]).key is Text,
                forall|a: int, c: int|
                    0 <= a < c < n && a < i ==> (#[trigger] entries@[a]).key->Text_0@ != (
                    #[trigger] entries@[c]).key->Text_0@,
                forall|c: int| i < c < j ==> entries@[i as int].key->Text_0@ != (
                #[trigger] entries@[c]).key->Text_0@,
            decreases n - j,
        {
            let same = match (&entries[i].key, &entries[j].key) {
                (Value::Text(a), Value::Text(c)) => a.eq(c),
                _ => false,
            };
            assert(entries@[i as int].key is Text && entries@[j as int].key is Text);
            if same {
                return false;
            }
            j = j + 1;
        }
        i = i + 1;
    }
    true
}

fn write_float(out: &mut String, f: &FloatValue)
    ensures
        final(out)@ == old(out)@ + float_json(*f),
{
    match f {
        FloatValue::NaN => push_json_str(out, "NaN"),
        FloatValue::PosInf => push_json_str(out, "+Inf"),
        FloatValue::NegInf => push_json_str(out, "-Inf"),
        FloatValue::Finite(t) => push_str(out, t.as_str()),
    }
}

fn write_list(items: &Vec<Value>, out: &mut String) -> (r: Result<(), RunError>)
    ensures
        final(out)@ == old(out)@ + json_items(items@, items@.len() as int).text,
        outcome_matches(r, json_items(items@, items@.len() as int)),
    decreases items, 1nat,
{
    let ghost start = out@;
    let n = items.len();
    let mut i: usize = 0;
    while i < n
        invariant
            n == items@.len(),
            i <= n,
            start == old(out)@,
            out@ == start + json_items(items@, i as int).text,
            json_items(items@, i as int).failure is None,
        decreases n - i,
    {
        if i > 0 {
            push_char(out, ',');
        }
        assert(decreases_to!(items => items@[i as int]));
        let ghost before = out@;
        let r = write_value(&items[i], out);
        assert(out@ =~= start + json_items(items@, i + 1).text);
        assert(json_items(items@, i + 1).failure == json_value(items@[i as int]).failure);
        if r.is_err() {
            proof {
                lemma_items_stuck(items@, i + 1, n as int);
            }
            return r;
        }
        i = i + 1;
    }
    Ok(())
}

fn write_members(members: &Vec<Member>, out: &mut String) -> (r: Result<(), RunError>)
    ensures
        final(out)@ == old(out)@ + json_members(members@, members@.len() as int).text,
        outcome_matches(r, json_members(members@, members@.len() as int)),
    decreases members, 1nat,
{
    let ghost start = out@;
    let n = members.len();
    let mut i: usize = 0;
    while i < n
        invariant
            n == members@.len(),
            i <= n,
            start == old(out)@,
            out@ == start + json_members(members@, i as int).text,
            json_members(members@, i as int).failure is None,
        decreases n - i,
    {
        let ghost before = out@;
        if i > 0 {
            push_char(out, ',');
        }
        push_json_str(out, members[i].name.as_str());
        push_char(out, ':');
        let ghost head = separator(i as int) + json_quote(members@[i as int].name@) + seq![':'];
        assert(out@ =~= before + head);
        assert(decreases_to!(members => members@[i as int].value));
        let r = write_value(&members[i].value, out);
        assert(out@ =~= before + head + json_value(members@[i as int].value).text);
        assert(out@ =~= start + json_members(members@, i + 1).text);
        assert(json_members(members@, i + 1).failure == json_value(members@[i as int].value).failure);
        if r.is_err() {
            proof {
                lemma_members_stuck(members@, i + 1, n as int);
            }
            return r;
        }
        i = i + 1;
    }
    Ok(())
}

fn write_object_entries(entries: &Vec<Entry>, out: &mut String) -> (r: Result<(), RunError>)
    requires
        forall|k: int| 0 <= k < entries@.len() ==> (#[trigger] entries@[k]).key is Text,
    ensures
        final(out)@ == old(out)@ + json_object_entries(entries@, entries@.len() as int).text,
        outcome_matches(r, json_object_entries(entries@, entries@.len() as int)),
    decreases entries, 1nat,
{
    let ghost start = out@;
    let n = entries.len();
    let mut i: usize = 0;
    while i < n
        invariant
            n == entries@.len(),
            i <= n,
            forall|k: int| 0 <= k < entries@.len() ==> (#[trigger] entries@[k]).key is Text,
            start == old(out)@,
            out@ == start + json_object_entries(entries@, i as int).text,
            json_object_entries(entries@, i as int).failure is None,
        decreases n - i,
    {
        let ghost before = out@;
        if i > 0 {
            push_char(out, ',');
        }
        assert(entries@[i as int].key is Text);
        match &entries[i].key {
            Value::Text(k) => push_json_str(out, k.as_str()),
            _ => {},
        }
        push_char(out, ':');
        let ghost head = separator(i as int) + json_quote(entries@[i as int].key->Text_0@) + seq![':'];
        assert(out@ =~= before + head);
        assert(decreases_to!(entries => entries@[i as int].value));
        let r = write_value(&entries[i].value, out);
        assert(out@ =~= before + head + json_value(entries@[i as int].value).text);
        assert(out@ =~= start + json_object_entries(entries@, i + 1).text);
        assert(json_object_entries(entries@, i + 1).failure == json_value(entries@[i as int].value).failure);
        if r.is_err() {
            proof {
                lemma_object_entries_stuck(entries@, i + 1, n as int);
            }
            return r;
        }
        i = i + 1;
    }
    Ok(())
}

#[verifier::rlimit(40)]
fn write_pair_entries(entries: &Vec<Entry>, out: &mut String) -> (r: Result<(), RunError>)
    ensures
        final(out)@ == old(out)@ + json_pair_entries(entries@, entries@.len() as int).text,
        outcome_matches(r, json_pair_entries(entries@, entries@.len() as int)),
    decreases entries, 1nat,
{
    let ghost start = out@;
    let n = entries.len();
    let mut i: usize = 0;
    while i < n
        invariant
            n == entries@.len(),
            i <= n,
            start == old(out)@,
            out@ == start + json_pair_entries(entries@, i as int).text,
            json_pair_entries(entries@, i as int).failure is None,
        decreases n - i,
    {
        let ghost before = out@;
        if i > 0 {
            push_char(out, ',');
        }
        push_str(out, "{\"key\":");
        let ghost head = separator(i as int) + "{\"key\":"@;
        assert(out@ =~= before + head);
        assert(decreases_to!(entries => entries@[i as int].key));
        let r = write_value(&entries[i].key, out);
        let ghost kt = json_value(entries@[i as int].key).text;
        assert(out@ =~= before + head + kt);
        if r.is_err() {
            assert(out@ =~= start + json_pair_entries(entries@, i + 1).text);
            proof {
                lemma_pair_entries_stuck(entries@, i + 1, n as int);
            }
            return r;
        }
        push_str(out, ",\"value\":");
        assert(decreases_to!(entries => entries@[i as int].value));
        let r = write_value(&entries[i].value, out);
        let ghost vt = json_value(entries@[i as int].value).text;
        assert(out@ =~= before + head + kt + ",\"value\":"@ + vt);
        if r.is_err() {
            assert(out@ =~= start + json_pair_entries(entries@, i + 1).text);
            proof {
                lemma_pair_entries_stuck(entries@, i + 1, n as int);
            }
            return r;
        }
        push_char(out, '}');
        assert(out@ =~= start + json_pair_entries(entries@, i + 1).text);
        i = i + 1;
    }
    Ok(())
}

/// Appends the JSON text of `v`; on failure, what was written before the
/// failing part stays written.
pub fn write_value(v: &Value, out: &mut String) -> (r: Result<(), RunError>)
    ensures
        final(out)@ == old(out)@ + json_value(*v).text,
        outcome_matches(r, json_value(*v)),
    decreases v, 0nat,
{
    reveal(json_value);
    let ghost start = out@;
    match v {
        Value::Null => {
            push_str(out, "null");
            Ok(())
        },
        Value::Bool(b) => {
            if *b {
                push_str(out, "true");
            } else {
                push_str(out, "false");
            }
            Ok(())
        },
        Value::Int(n) => {
            push_signed_decimal(out, *n);
            Ok(())
        },
        Value::UInt(n) => {
            push_decimal(out, *n);
            Ok(())
        },
        Value::Float(f) => {
            write_float(out, f);
            Ok(())
        },
        Value::Text(s) => {
            push_json_str(out, s.as_str());
            Ok(())
        },
        Value::Binary(b) => {
            let t = format_binary(b.as_slice());
            push_json_str(out, t.as_str());
            Ok(())
        },
        Value::Decimal(x, precision, scale) => {
            let t = format_decimal(*x, *precision, *scale);
            push_json_str(out, t.as_str());
            Ok(())
        },
        Value::Decimal256(high, low, precision, scale) => {
            let t = format_decimal256(*high, *low, *precision, *scale);
            push_json_str(out, t.as_str());
            Ok(())
        },
        Value::Date32(d) => {
            let t = format_date32(*d)?;
            push_json_str(out, t.as_str());
            Ok(())
        },
        Value::Date64(ms) => {
            let t = format_date64(*ms)?;
            push_json_str(out, t.as_str());
            Ok(())
        },
        Value::Time(x, unit) => {
            let t = format_time(*x, *unit);
            push_json_str(out, t.as_str());
            Ok(())
        },
        Value::Timestamp(x, unit, utc) => {
            let t = format_timestamp(*x, *unit, *utc)?;
            push_json_str(out, t.as_str());
            Ok(())
        },
        Value::List(items) => {
            push_char(out, '[');
            let r = write_list(items, out);
            if r.is_ok() {
                push_char(out, ']');
            }
            assert(out@ =~= start + json_value(*v).text);
            r
        },
        Value::Struct(members) => {
            push_char(out, '{');
            let r = write_members(members, out);
            if r.is_ok() {
                push_char(out, '}');
            }
            assert(out@ =~= start + json_value(*v).text);
            r
        },
        Value::MapOf(entries, string_keys) => {
            if map_has_unique_string_keys(entries, *string_keys) {
                push_char(out, '{');
                let r = write_object_entries(entries, out);
                if r.is_ok() {
                    push_char(out, '}');
                }
                assert(out@ =~= start + json_value(*v).text);
                r
            } else {
                push_char(out, '[');
                let r = write_pair_entries(entries, out);
                if r.is_ok() {
                    push_char(out, ']');
                }
                assert(out@ =~= start + json_value(*v).text);
                r
            }
        },
        Value::Unsupported(t) => {
            let mut m = String::from_str("unsupported Parquet feature for v1: Arrow data type `");
            push_str(&mut m, t.as_str());
            push_str(&mut m, "`");
            Err(RunError::Unsupported(m))
        },
        Value::Mismatch(t) => {
            let mut m = String::from_str("unsupported Arrow array for data type `");
            push_str(&mut m, t.as_str());
            push_str(&mut m, "`");
            Err(RunError::Unsupported(m))
        },
    }
}

/// Appends every row of the batch as a JSON object on a line of its own.
#[verifier::rlimit(30)]
pub fn write_json_batch(batch: &Batch, out: &mut String) -> (r: Result<(), RunError>)
    requires
        batch.wf(),
    ensures
        final(out)@ == old(out)@ + json_lines(*batch, batch.num_rows as int).text,
        outcome_matches(r, json_lines(*batch, batch.num_rows as int)),
{
    let ghost start = out@;
    let nfields = batch.fields.len();
    let mut row: usize = 0;
    while row < batch.num_rows
        invariant
            batch.wf(),
            nfields == batch.fields@.len(),
            row <= batch.num_rows,
            start == old(out)@,
            out@ == start + json_lines(*batch, row as int).text,
            json_lines(*batch, row as int).failure is None,
        decreases batch.num_rows - row,
    {
        let ghost line_start = out@;
        push_char(out, '{');
        let mut c: usize = 0;
        while c < nfields
            invariant
                batch.wf(),
                nfields == batch.fields@.len(),
                row < batch.num_rows,
                c <= nfields,
                start == old(out)@,
                out@ == line_start + seq!['{'] + json_row_fields(*batch, row as int, c as int).text,
                json_row_fields(*batch, row as int, c as int).failure is None,
                line_start == start + json_lines(*batch, row as int).text,
                json_lines(*batch, row as int).failure is None,
            decreases nfields - c,
        {
            if c > 0 {
                push_char(out, ',');
            }
            push_json_str(out, batch.fields[c].name.as_str());
            push_char(out, ':');
            assert(batch.columns@[c as int]@.len() == batch.num_rows);
            let r = write_value(&batch.columns[c][row], out);
            assert(out@ =~= line_start + seq!['{'] + json_row_fields(*batch, row as int, c + 1).text);
            if r.is_err() {
                proof {
                    lemma_row_stuck(*batch, row as int, c + 1, nfields as int);
                    assert(out@ =~= start + json_lines(*batch, row + 1).text);
                    lemma_lines_stuck(*batch, row + 1, batch.num_rows as int);
                }
                return r;
            }
            c = c + 1;
        }
        push_char(out, '}');
        push_char(out, '\n');
        assert(out@ =~= start + json_lines(*batch, row + 1).text);
        row = row + 1;
    }
    Ok(())
}

// ---------------------------------------------------------------------------
// One object per line
// ---------------------------------------------------------------------------

/// Whether `t` holds no line break.
pub open spec fn one_line(t: Seq<char>) -> bool {
    forall|i: int| 0 <= i < t.len() ==> #[trigger] t[i] != '\n'
}

/// How many line breaks `t` holds.
pub open spec fn line_breaks(t: Seq<char>) -> nat
    decreases t.len(),
{
    if t.len() == 0 {
        0
    } else {
        line_breaks(t.drop_last()) + if t.last() == '\n' {
            1nat
        } else {
            0nat
        }
    }
}

/// The finite floating-point texts in `v` hold no line break (they come from
/// outside the library).
pub open spec fn floats_one_line(v: Value) -> bool
    decreases v,
{
    match v {
        Value::Float(FloatValue::Finite(t)) => one_line(t@),
        Value::List(items) => forall|i: int|
            0 <= i < items@.len() ==> floats_one_line(#[trigger] items@[i]),
        Value::Struct(members) => forall|i: int|
            0 <= i < members@.len() ==> floats_one_line(#[trigger] members@[i].value),
        Value::MapOf(entries, _) => forall|i: int|
            0 <= i < entries@.len() ==> floats_one_line(#[trigger] entries@[i].key)
                && floats_one_line(entries@[i].value),
        _ => true,
    }
}

/// Every value of the batch has finite floating-point texts without line breaks.
pub open spec fn batch_floats_one_line(batch: Batch) -> bool {
    forall|c: int, r: int|
        0 <= c < batch.columns@.len() && 0 <= r < batch.columns@[c]@.len() ==> floats_one_line(
            #[trigger] batch.columns@[c]@[r],
        )
}

proof fn lemma_one_line_concat(a: Seq<char>, b: Seq<char>)
    requires
        one_line(a),
        one_line(b),
    ensures
        one_line(a + b),
{
    assert forall|i: int| 0 <= i < (a + b).len() implies #[trigger] (a + b)[i] != '\n' by {
        if i < a.len() {
            assert((a + b)[i] == a[i]);
        } else {
            assert((a + b)[i] == b[i - a.len()]);
        }
    }
}

proof fn lemma_then_one_line(a: Emitted, b: Emitted)
    requires
        one_line(a.text),
        one_line(b.text),
    ensures
        one_line(then(a, b).text),
{
    lemma_one_line_concat(a.text, b.text);
}

proof fn lemma_line_breaks_concat(a: Seq<char>, b: Seq<char>)
    ensures
        line_breaks(a + b) == line_breaks(a) + line_breaks(b),
    decreases b.len(),
{
    if b.len() == 0 {
        assert(a + b =~= a);
    } else {
        assert((a + b).drop_last() =~= a + b.drop_last());
        lemma_line_breaks_concat(a, b.drop_last());
    }
}

proof fn lemma_one_line_no_breaks(t: Seq<char>)
    requires
        one_line(t),
    ensures
        line_breaks(t) == 0,
    decreases t.len(),
{
    if t.len() > 0 {
        assert(t[t.len() - 1] != '\n');
        assert forall|i: int| 0 <= i < t.drop_last().len() implies #[trigger] t.drop_last()[i]
            != '\n' by {
            assert(t.drop_last()[i] == t[i]);
        }
        lemma_one_line_no_breaks(t.drop_last());
    }
}

proof fn lemma_decimal_one_line(n: nat)
    ensures
        one_line(decimal(n)),
    decreases n,
{
    if n >= 10 {
        lemma_decimal_one_line(n / 10);
        let d = (n % 10) as nat;
        assert(decimal(n) == decimal(n / 10).push(crate::text::digit_char(d)));
        assert(crate::text::digit_char(d) as int == 48 + d);
        assert forall|i: int| 0 <= i < decimal(n).len() implies #[trigger] decimal(n)[i] != '\n' by {
            if i < decimal(n / 10).len() {
                assert(decimal(n)[i] == decimal(n / 10)[i]);
            }
        }
    } else {
        assert(crate::text::digit_char(n) as int == 48 + n);
    }
}

proof fn lemma_signed_decimal_one_line(n: int)
    ensures
        one_line(signed_decimal(n)),
{
    if n < 0 {
        lemma_decimal_one_line((-n) as nat);
        lemma_one_line_concat(seq!['-'], decimal((-n) as nat));
    } else {
        lemma_decimal_one_line(n as nat);
    }
}

proof fn lemma_quote_one_line(s: Seq<char>)
    ensures
        one_line(json_quote(s)),
{
    crate::text::law_json_string_is_one_line(s);
    assert forall|i: int| 0 <= i < json_quote(s).len() implies #[trigger] json_quote(s)[i]
        != '\n' by {
        assert((json_quote(s)[i] as u32) >= 32);
    }
}

proof fn lemma_quoted_or_fail_one_line(t: Option<Seq<char>>, what: Seq<char>, value: int)
    ensures
        one_line(quoted_or_fail(t, what, value).text),
{
    if let Some(s) = t {
        lemma_quote_one_line(s);
    }
}

proof fn lemma_literal_one_line()
    ensures
        one_line("null"@),
        one_line("true"@),
        one_line("false"@),
        one_line("{\"key\":"@),
        one_line(",\"value\":"@),
{
    reveal_strlit("null");
    reveal_strlit("true");
    reveal_strlit("false");
    reveal_strlit("{\"key\":");
    reveal_strlit(",\"value\":");
}

proof fn lemma_value_one_line(v: Value)
    requires
        floats_one_line(v),
    ensures
        one_line(json_value(v).text),
    decreases v, 0nat,
{
    lemma_literal_one_line();
    match v {
        Value::Int(n) => lemma_signed_decimal_one_line(n as int),
        Value::UInt(n) => lemma_decimal_one_line(n as nat),
        Value::Float(f) => match f {
            FloatValue::NaN => lemma_quote_one_line("NaN"@),
            FloatValue::PosInf => lemma_quote_one_line("+Inf"@),
            FloatValue::NegInf => lemma_quote_one_line("-Inf"@),
            FloatValue::Finite(_) => {},
        },
        Value::Text(s) => lemma_quote_one_line(s@),
        Value::Binary(b) => lemma_quote_one_line(binary_text(b@)),
        Value::Decimal(x, _, scale) => lemma_quote_one_line(decimal_text(x as int, scale as int)),
        Value::Decimal256(high, low, _, scale) => lemma_quote_one_line(
            decimal_text(wide_value(high, low), scale as int),
        ),
        Value::Date32(d) => lemma_quoted_or_fail_one_line(date32_text(d), "date"@, d as int),
        Value::Date64(ms) => lemma_quoted_or_fail_one_line(date64_text(ms), "date64"@, ms as int),
        Value::Time(x, unit) => lemma_quote_one_line(time_text(x, unit)),
        Value::Timestamp(x, unit, utc) => lemma_quoted_or_fail_one_line(
            timestamp_text(x, unit, utc),
            "timestamp"@,
            x as int,
        ),
        Value::List(items) => {
            lemma_items_one_line(items@, items@.len() as int);
            lemma_then_one_line(json_items(items@, items@.len() as int), emit(seq![']']));
            lemma_then_one_line(
                emit(seq!['[']),
                then(json_items(items@, items@.len() as int), emit(seq![']'])),
            );
        },
        Value::Struct(members) => {
            lemma_members_one_line(members@, members@.len() as int);
            lemma_then_one_line(json_members(members@, members@.len() as int), emit(seq!['}']));
            lemma_then_one_line(
                emit(seq!['{']),
                then(json_members(members@, members@.len() as int), emit(seq!['}'])),
            );
        },
        Value::MapOf(entries, string_keys) => {
            if map_as_object(entries@, string_keys) {
                lemma_object_entries_one_line(entries@, entries@.len() as int);
                lemma_then_one_line(
                    json_object_entries(entries@, entries@.len() as int),
                    emit(seq!['}']),
                );
                lemma_then_one_line(
                    emit(seq!['{']),
                    then(json_object_entries(entries@, entries@.len() as int), emit(seq!['}'])),
                );
            } else {
                lemma_pair_entries_one_line(entries@, entries@.len() as int);
                lemma_then_one_line(
                    json_pair_entries(entries@, entries@.len() as int),
                    emit(seq![']']),
                );
                lemma_then_one_line(
                    emit(seq!['[']),
                    then(json_pair_entries(entries@, entries@.len() as int), emit(seq![']'])),
                );
            }
        },
        _ => {},
    }
}

proof fn lemma_items_one_line(items: Seq<Value>, n: int)
    requires
        forall|i: int| 0 <= i < items.len() ==> floats_one_line(#[trigger] items[i]),
    ensures
        one_line(json_items(items, n).text),
    decreases items, n,
{
    if 0 < n <= items.len() {
        lemma_items_one_line(items, n - 1);
        lemma_value_one_line(items[n - 1]);
        lemma_then_one_line(emit(separator(n - 1)), json_value(items[n - 1]));
        lemma_then_one_line(
            json_items(items, n - 1),
            then(emit(separator(n - 1)), json_value(items[n - 1])),
        );
    }
}

proof fn lemma_members_one_line(members: Seq<Member>, n: int)
    requires
        forall|i: int| 0 <= i < members.len() ==> floats_one_line(#[trigger] members[i].value),
    ensures
        one_line(json_members(members, n).text),
    decreases members, n,
{
    if 0 < n <= members.len() {
        lemma_members_one_line(members, n - 1);
        lemma_value_one_line(members[n - 1].value);
        let head = separator(n - 1) + json_quote(members[n - 1].name@) + seq![':'];
        lemma_quote_one_line(members[n - 1].name@);
        lemma_one_line_concat(separator(n - 1), json_quote(members[n - 1].name@));
        lemma_one_line_concat(separator(n - 1) + json_quote(members[n - 1].name@), seq![':']);
        lemma_then_one_line(emit(head), json_value(members[n - 1].value));
        lemma_then_one_line(
            json_members(members, n - 1),
            then(emit(head), json_value(members[n - 1].value)),
        );
    }
}

proof fn lemma_object_entries_one_line(entries: Seq<Entry>, n: int)
    requires
        forall|i: int| 0 <= i < entries.len() ==> floats_one_line(#[trigger] entries[i].value),
    ensures
        one_line(json_object_entries(entries, n).text),
    decreases entries, n,
{
    if 0 < n <= entries.len() {
        lemma_object_entries_one_line(entries, n - 1);
        lemma_value_one_line(entries[n - 1].value);
        let head = separator(n - 1) + json_quote(entries[n - 1].key->Text_0@) + seq![':'];
        lemma_quote_one_line(entries[n - 1].key->Text_0@);
        lemma_one_line_concat(separator(n - 1), json_quote(entries[n - 1].key->Text_0@));
        lemma_one_line_concat(
            separator(n - 1) + json_quote(entries[n - 1].key->Text_0@),
            seq![':'],
        );
        lemma_then_one_line(emit(head), json_value(entries[n - 1].value));
        lemma_then_one_line(
            json_object_entries(entries, n - 1),
            then(emit(head), json_value(entries[n - 1].value)),
        );
    }
}

proof fn lemma_pair_entries_one_line(entries: Seq<Entry>, n: int)
    requires
        forall|i: int|
            0 <= i < entries.len() ==> floats_one_line(#[trigger] entries[i].key) && floats_one_line(
                entries[i].value,
            ),
    ensures
        one_line(json_pair_entries(entries, n).text),
    decreases entries, n,
{
    lemma_literal_one_line();
    if 0 < n <= entries.len() {
        let e = entries[n - 1];
        lemma_pair_entries_one_line(entries, n - 1);
        lemma_value_one_line(e.key);
        lemma_value_one_line(e.value);
        lemma_one_line_concat(separator(n - 1), "{\"key\":"@);
        lemma_then_one_line(json_value(e.value), emit(seq!['}']));
        lemma_then_one_line(emit(",\"value\":"@), then(json_value(e.value), emit(seq!['}'])));
        lemma_then_one_line(
            json_value(e.key),
            then(emit(",\"value\":"@), then(json_value(e.value), emit(seq!['}']))),
        );
        lemma_then_one_line(
            emit(separator(n - 1) + "{\"key\":"@),
            then(
                json_value(e.key),
                then(emit(",\"value\":"@), then(json_value(e.value), emit(seq!['}']))),
            ),
        );
        lemma_then_one_line(
            json_pair_entries(entries, n - 1),
            then(
                emit(separator(n - 1) + "{\"key\":"@),
                then(
                    json_value(e.key),
                    then(emit(",\"value\":"@), then(json_value(e.value), emit(seq!['}']))),
                ),
            ),
        );
    }
}

proof fn lemma_row_fields_one_line(batch: Batch, row: int, n: int)
    requires
        batch.wf(),
        0 <= row < batch.num_rows,
        batch_floats_one_line(batch),
    ensures
        one_line(json_row_fields(batch, row, n).text),
    decreases n,
{
    if 0 < n <= batch.fields@.len() {
        lemma_row_fields_one_line(batch, row, n - 1);
        assert(batch.columns@[n - 1]@.len() == batch.num_rows);
        let v = batch.columns@[n - 1]@[row];
        assert(floats_one_line(v));
        lemma_value_one_line(v);
        let head = separator(n - 1) + json_quote(batch.fields@[n - 1].name@) + seq![':'];
        lemma_quote_one_line(batch.fields@[n - 1].name@);
        lemma_one_line_concat(separator(n - 1), json_quote(batch.fields@[n - 1].name@));
        lemma_one_line_concat(separator(n - 1) + json_quote(batch.fields@[n - 1].name@), seq![':']);
        lemma_then_one_line(emit(head), json_value(v));
        lemma_then_one_line(json_row_fields(batch, row, n - 1), then(emit(head), json_value(v)));
    }
}

proof fn lemma_line_shape(batch: Batch, r: int)
    requires
        batch.wf(),
        0 <= r < batch.num_rows,
        batch_floats_one_line(batch),
        json_line(batch, r).failure is None,
    ensures
        json_line(batch, r).text == seq!['{'] + json_row_fields(
            batch,
            r,
            batch.fields@.len() as int,
        ).text + seq!['}', '\n'],
        one_line(json_row_fields(batch, r, batch.fields@.len() as int).text),
        line_breaks(json_line(batch, r).text) == 1,
{
    let body = json_row_fields(batch, r, batch.fields@.len() as int).text;
    lemma_row_fields_one_line(batch, r, batch.fields@.len() as int);
    assert(json_line(batch, r).text =~= seq!['{'] + body + seq!['}', '\n']);
    lemma_one_line_no_breaks(body);
    lemma_line_breaks_concat(seq!['{'], body);
    lemma_line_breaks_concat(seq!['{'] + body, seq!['}', '\n']);
    assert(line_breaks(seq!['{']) == 0) by {
        reveal_with_fuel(line_breaks, 2);
        assert(seq!['{'].drop_last() =~= Seq::<char>::empty());
    }
    assert(line_breaks(seq!['}', '\n']) == 1) by {
        reveal_with_fuel(line_breaks, 3);
        assert(seq!['}', '\n'].drop_last() =~= seq!['}']);
        assert(seq!['}'].drop_last() =~= Seq::<char>::empty());
    }
}

/// JSONL output is one JSON object per row, each on a line of its own: when
/// the first `n` rows of a batch are written without failure, the text holds
/// exactly `n` line breaks and ends with one, and each row's line is `{`, the
/// row's `"name":value` members (which hold no line break), `}` and the break.
pub proof fn law_one_object_per_line(batch: Batch, n: int)
    requires
        batch.wf(),
        0 <= n <= batch.num_rows,
        batch_floats_one_line(batch),
        json_lines(batch, n).failure is None,
    ensures
        line_breaks(json_lines(batch, n).text) == n,
        n > 0 ==> json_lines(batch, n).text.last() == '\n',
        forall|r: int|
            0 <= r < n ==> {
                &&& (#[trigger] json_line(batch, r)).failure is None
                &&& json_line(batch, r).text == seq!['{'] + json_row_fields(
                    batch,
                    r,
                    batch.fields@.len() as int,
                ).text + seq!['}', '\n']
                &&& one_line(json_row_fields(batch, r, batch.fields@.len() as int).text)
            },
    decreases n,
{
    if n > 0 {
        let prev = json_lines(batch, n - 1);
        let line = json_line(batch, n - 1);
        assert(json_lines(batch, n) == then(prev, line));
        assert(prev.failure is None);
        assert(line.failure is None);
        law_one_object_per_line(batch, n - 1);
        lemma_line_shape(batch, n - 1);
        assert(json_lines(batch, n).text == prev.text + line.text);
        lemma_line_breaks_concat(prev.text, line.text);
        assert(line.text.last() == '\n');
        assert(json_lines(batch, n).text.last() == line.text.last());
    }
}

// ---------------------------------------------------------------------------
// 256-bit decimals
// ---------------------------------------------------------------------------

proof fn lemma_decimal_digits(n: nat)
    ensures
        decimal(n).len() >= 1,
        forall|i: int| 0 <= i < decimal(n).len() ==> '0' <= #[trigger] decimal(n)[i] <= '9',
    decreases n,
{
    if n >= 10 {
        lemma_decimal_digits(n / 10);
        let d = (n % 10) as nat;
        assert(decimal(n) == decimal(n / 10).push(crate::text::digit_char(d)));
        assert(crate::text::digit_char(d) as int == 48 + d);
        assert forall|i: int| 0 <= i < decimal(n).len() implies '0' <= #[trigger] decimal(n)[i]
            <= '9' by {
            if i < decimal(n / 10).len() {
                assert(decimal(n)[i] == decimal(n / 10)[i]);
            }
        }
    } else {
        assert(crate::text::digit_char(n) as int == 48 + n);
    }
}

/// A decimal's text starts with `-` exactly when its value is negative.
proof fn lemma_decimal_text_sign(value: int, scale: int)
    ensures
        decimal_text(value, scale).len() >= 1,
        (decimal_text(value, scale)[0] == '-') == (value < 0),
{
    reveal(decimal_text);
    let magnitude: nat = if value < 0 {
        (-value) as nat
    } else {
        value as nat
    };
    lemma_decimal_digits(magnitude);
    let digits = decimal(magnitude);
    assert(digits[0] != '-');
    let text = signed_decimal(value);
    if value < 0 {
        assert(text == seq!['-'] + digits);
        assert(text[0] == '-');
    } else {
        assert(text == digits);
    }
    if scale > 0 && digits.len() > scale {
        assert((text.take(text.len() - scale) + seq!['.'] + text.skip(text.len() - scale))[0]
            == text[0]);
    }
    if scale < 0 && digits != seq!['0'] {
        crate::text::lemma_repeat_len('0', (-scale) as nat);
        assert((text + crate::text::repeat('0', (-scale) as nat))[0] == text[0]);
    }
}

/// The JSON text of a 256-bit decimal is its decimal text, quoted, of the
/// full signed value `high * 2^128 + low`: the high half is signed, the low
/// half unsigned, so the value is negative exactly when the high half is, and
/// then the text begins with `"-`.
pub proof fn law_decimal256_is_signed(high: i128, low: u128, precision: u8, scale: i8)
    ensures
        json_value(Value::Decimal256(high, low, precision, scale)) == emit(
            json_quote(
                decimal_text(high * 0x1_0000_0000_0000_0000_0000_0000_0000_0000int + low, scale as int),
            ),
        ),
        (json_value(Value::Decimal256(high, low, precision, scale)).text[1] == '-') == (high < 0),
{
    let v = high * 0x1_0000_0000_0000_0000_0000_0000_0000_0000int + low;
    assert(wide_value(high, low) == v);
    assert((high < 0) == (v < 0)) by (nonlinear_arith)
        requires
            v == high * 0x1_0000_0000_0000_0000_0000_0000_0000_0000int + low,
            0 <= low < 0x1_0000_0000_0000_0000_0000_0000_0000_0000int,
    ;
    lemma_decimal_text_sign(v, scale as int);
    crate::text::lemma_json_escaped_first(decimal_text(v, scale as int));
}

/// The JSON text of a decimal of up to 128 bits is its decimal text,
/// quoted, and begins with `"-` exactly when the value is negative.
pub proof fn law_decimal_is_signed(value: i128, precision: u8, scale: i8)
    ensures
        json_value(Value::Decimal(value, precision, scale)) == emit(
            json_quote(decimal_text(value as int, scale as int)),
        ),
        (json_value(Value::Decimal(value, precision, scale)).text[1] == '-') == (value < 0),
{
    lemma_decimal_text_sign(value as int, scale as int);
    crate::text::lemma_json_escaped_first(decimal_text(value as int, scale as int));
}

} // verus!
