//! Encoding the finished result as JSON text, and the conversion from lines
//! to text as a whole.
use vstd::prelude::*;
use crate::driver::{
    accumulate, all_anomalies, columns_of, data_of, header_of, lemma_anomalies_iff_irregular, result_wf,
    rows_of,
};
use crate::error::{Anomaly, CsvError};
use crate::shape::{columns_view, records_view, Column, CsvResult, Record};
use crate::tokenize::push_char;

verus! {

#[verifier::external_type_specification]
#[verifier::external_body]
pub struct ExJsonError(serde_json::Error);

/// The compact JSON object of the columns: each name mapped to the array of
/// its values.
pub uninterp spec fn columns_json(cols: Seq<(Seq<char>, Seq<Seq<char>>)>) -> Seq<char>;

/// The pretty-printed JSON object of the columns.
pub uninterp spec fn columns_json_pretty(cols: Seq<(Seq<char>, Seq<Seq<char>>)>) -> Seq<char>;

/// The compact JSON array of the records, each an object from name to value.
pub uninterp spec fn rows_json(rows: Seq<Seq<(Seq<char>, Seq<char>)>>) -> Seq<char>;

/// The pretty-printed JSON array of the records.
pub uninterp spec fn rows_json_pretty(rows: Seq<Seq<(Seq<char>, Seq<char>)>>) -> Seq<char>;

/// Relies on serde_json::to_string, on a BTreeMap from each column's name
/// to its values: the text depends on the columns alone, and with string
/// keys and values, written into a Vec, it cannot fail.
#[verifier::external_body]
fn encode_columns(cols: &Vec<Column>) -> (r: Result<String, serde_json::Error>)
    ensures
        r is Ok,
        r->Ok_0@ == columns_json(columns_view(cols@)),
{
    let map: std::collections::BTreeMap<&str, &Vec<String>> =
        cols.iter().map(|c| (c.name.as_str(), &c.values)).collect();
    serde_json::to_string(&map)
}

/// Relies on serde_json::to_string_pretty, on a BTreeMap from each column's
/// name to its values: the text depends on the columns alone, and with
/// string keys and values, written into a Vec, it cannot fail.
#[verifier::external_body]
fn encode_columns_pretty(cols: &Vec<Column>) -> (r: Result<String, serde_json::Error>)
    ensures
        r is Ok,
        r->Ok_0@ == columns_json_pretty(columns_view(cols@)),
{
    let map: std::collections::BTreeMap<&str, &Vec<String>> =
        cols.iter().map(|c| (c.name.as_str(), &c.values)).collect();
    serde_json::to_string_pretty(&map)
}

/// Relies on serde_json::to_string, on a Vec of one BTreeMap from name to
/// value for each record: the text depends on the records alone, and with
/// string keys and values, written into a Vec, it cannot fail.
#[verifier::external_body]
fn encode_rows(recs: &Vec<Record>) -> (r: Result<String, serde_json::Error>)
    ensures
        r is Ok,
        r->Ok_0@ == rows_json(records_view(recs@)),
{
    let rows: Vec<std::collections::BTreeMap<&str, &str>> = recs.iter().map(
        |r| r.fields.iter().map(|f| (f.name.as_str(), f.value.as_str())).collect(),
    ).collect();
    serde_json::to_string(&rows)
}

/// Relies on serde_json::to_string_pretty, on a Vec of one BTreeMap from
/// name to value for each record: the text depends on the records alone,
/// and with string keys and values, written into a Vec, it cannot fail.
#[verifier::external_body]
fn encode_rows_pretty(recs: &Vec<Record>) -> (r: Result<String, serde_json::Error>)
    ensures
        r is Ok,
        r->Ok_0@ == rows_json_pretty(records_view(recs@)),
{
    let rows: Vec<std::collections::BTreeMap<&str, &str>> = recs.iter().map(
        |r| r.fields.iter().map(|f| (f.name.as_str(), f.value.as_str())).collect(),
    ).collect();
    serde_json::to_string_pretty(&rows)
}

/// The output text: pretty output ends with a line feed, compact output
/// with nothing added.
pub open spec fn finished(text: Seq<char>, pretty: bool) -> Seq<char> {
    if pretty {
        text.push('\n')
    } else {
        text
    }
}

/// The text of a result whose columns or records are given by their views.
pub open spec fn columns_text(cols: Seq<(Seq<char>, Seq<Seq<char>>)>, pretty: bool) -> Seq<char> {
    finished(if pretty { columns_json_pretty(cols) } else { columns_json(cols) }, pretty)
}

pub open spec fn rows_text(rows: Seq<Seq<(Seq<char>, Seq<char>)>>, pretty: bool) -> Seq<char> {
    finished(if pretty { rows_json_pretty(rows) } else { rows_json(rows) }, pretty)
}

/// The text of `result`.
pub open spec fn result_text(result: CsvResult, pretty: bool) -> Seq<char> {
    match result {
        CsvResult::MapOfLists(cols) => columns_text(columns_view(cols@), pretty),
        CsvResult::ListOfMaps(recs) => rows_text(records_view(recs@), pretty),
    }
}

/// Turns what the serializer returned into the output: a line feed is added
/// in pretty mode, and a refusal becomes `SerializationFailure`.
pub fn finish_json(encoded: Result<String, serde_json::Error>, pretty: bool) -> (r: Result<
    String,
    CsvError,
>)
    ensures
        encoded is Ok ==> r is Ok && r->Ok_0@ == finished(encoded->Ok_0@, pretty),
        encoded is Err ==> r is Err && r->Err_0 is SerializationFailure,
{
    match encoded {
        Ok(text) => {
            let mut text = text;
            if pretty {
                push_char(&mut text, '\n');
            }
            Ok(text)
        },
        Err(_) => Err(CsvError::SerializationFailure),
    }
}

/// Encodes `result` as JSON, pretty-printed or compact. A result of
/// string names and values always encodes.
pub fn to_json_str(result: &CsvResult, pretty: bool) -> (r: Result<String, CsvError>)
    ensures
        r is Ok,
        r->Ok_0@ == result_text(*result, pretty),
{
    match result {
        CsvResult::MapOfLists(cols) => {
            if pretty {
                finish_json(encode_columns_pretty(cols), pretty)
            } else {
                finish_json(encode_columns(cols), pretty)
            }
        },
        CsvResult::ListOfMaps(recs) => {
            if pretty {
                finish_json(encode_rows_pretty(recs), pretty)
            } else {
                finish_json(encode_rows(recs), pretty)
            }
        },
    }
}

/// The output of a conversion: the JSON text and the anomalies that tolerant
/// mode let pass, in order.
pub struct Conversion {
    pub json: String,
    pub warnings: Vec<Anomaly>,
}

/// The text that converting `lines` into `result` gives.
pub open spec fn converted_text(lines: Seq<Seq<char>>, result: CsvResult, pretty: bool) -> Seq<char> {
    let header = header_of(lines);
    let data = data_of(lines);
    match result {
        CsvResult::MapOfLists(cols) => columns_text(columns_of(columns_view(cols@), header, data), pretty),
        CsvResult::ListOfMaps(recs) => rows_text(records_view(recs@) + rows_of(header, data), pretty),
    }
}

/// Converts `lines` (the first one the header) into JSON text of the shape
/// of `result`, which the lines are added to. Strict mode fails on the first
/// anomaly; tolerant mode returns every anomaly beside the text.
pub fn process_input(
    lines: &Vec<String>,
    result: CsvResult,
    allow_anomalies: bool,
    pretty: bool,
    capacity: usize,
) -> (r: Result<Conversion, CsvError>)
    requires
        result_wf(result),
    ensures
        ({
            let header = header_of(lines.deep_view());
            let data = data_of(lines.deep_view());
            let anomalies = all_anomalies(header.len(), data);
            &&& !allow_anomalies && anomalies.len() > 0 ==> r is Err && r->Err_0 == CsvError::Anomaly(
                anomalies[0],
            )
            &&& allow_anomalies || anomalies.len() == 0 ==> {
                &&& r is Ok
                &&& r->Ok_0.json@ == converted_text(lines.deep_view(), result, pretty)
                &&& r->Ok_0.warnings@ == anomalies
            }
            &&& !allow_anomalies ==> (r is Err <==> exists|k: int|
                0 <= k < data.len() && #[trigger] data[k].len() != header.len())
        }),
{
    proof {
        lemma_anomalies_iff_irregular(header_of(lines.deep_view()).len(), data_of(lines.deep_view()));
    }
    let (accumulated, warnings) = match accumulate(lines, result, allow_anomalies, capacity) {
        Ok(done) => done,
        Err(e) => {
            return Err(e);
        },
    };
    match to_json_str(&accumulated, pretty) {
        Ok(json) => Ok(Conversion { json, warnings }),
        Err(e) => Err(e),
    }
}

} // verus!
