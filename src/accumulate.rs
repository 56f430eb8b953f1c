//! Binding the header and accumulating data lines into either shape.
use vstd::prelude::*;
use crate::error::{Anomaly, CsvError};
use crate::shape::{
    append_value, columns_view, columns_wf, fields_view, keys_unique, push_to_column, put, put_field, record_wf,
    records_view, Column, Field, Record,
};
use crate::tokenize::{cleaned, strip_newlines};

verus! {

/// The anomalies of a line with `found` tokens under a header of `expected`
/// columns: one overflow for each token past the last column, in order, or
/// one underflow, or none.
pub open spec fn line_anomalies(expected: nat, found: nat) -> Seq<Anomaly> {
    if found > expected {
        Seq::new((found - expected) as nat, |i: int| Anomaly::Overflow { index: (expected + i) as usize })
    } else if found < expected {
        seq![Anomaly::Underflow { found: found as usize, expected: expected as usize }]
    } else {
        seq![]
    }
}

/// How many tokens of a line have a column.
pub open spec fn aligned(header: Seq<Seq<char>>, tokens: Seq<Seq<char>>) -> nat {
    if tokens.len() < header.len() { tokens.len() } else { header.len() }
}

/// The record made of the first `n` tokens, each under its column's name.
pub open spec fn record_prefix(header: Seq<Seq<char>>, tokens: Seq<Seq<char>>, n: nat) -> Seq<
    (Seq<char>, Seq<char>),
>
    decreases n,
{
    if n == 0 {
        seq![]
    } else {
        put(record_prefix(header, tokens, (n - 1) as nat), header[n - 1], tokens[n - 1])
    }
}

/// The record of one data line's (cleaned) tokens.
pub open spec fn record_of(header: Seq<Seq<char>>, tokens: Seq<Seq<char>>) -> Seq<
    (Seq<char>, Seq<char>),
> {
    record_prefix(header, tokens, aligned(header, tokens))
}

/// The columns after the first `n` tokens are appended, each to its
/// column.
pub open spec fn columns_prefix(
    cols: Seq<(Seq<char>, Seq<Seq<char>>)>,
    header: Seq<Seq<char>>,
    tokens: Seq<Seq<char>>,
    n: nat,
) -> Seq<(Seq<char>, Seq<Seq<char>>)>
    decreases n,
{
    if n == 0 {
        cols
    } else {
        append_value(columns_prefix(cols, header, tokens, (n - 1) as nat), header[n - 1], tokens[n - 1])
    }
}

/// The columns after one data line's (cleaned) tokens are appended.
pub open spec fn add_line(
    cols: Seq<(Seq<char>, Seq<Seq<char>>)>,
    header: Seq<Seq<char>>,
    tokens: Seq<Seq<char>>,
) -> Seq<(Seq<char>, Seq<Seq<char>>)> {
    columns_prefix(cols, header, tokens, aligned(header, tokens))
}

/// Binds the header: column `i` is named by token `i`, line feeds taken out.
pub fn process_headers(tokens: &Vec<String>) -> (headers: Vec<String>)
    ensures
        headers.deep_view() == cleaned(tokens.deep_view()),
{
    let mut headers: Vec<String> = Vec::new();
    let mut i: usize = 0;
    while i < tokens.len()
        invariant
            i <= tokens.len(),
            headers.deep_view() == cleaned(tokens.deep_view()).take(i as int),
        decreases tokens.len() - i,
    {
        let name = strip_newlines(tokens[i].as_str());
        let ghost before = headers.deep_view();
        headers.push(name);
        assert(headers.deep_view() =~= before.push(name@));
        i = i + 1;
        assert(headers.deep_view() =~= cleaned(tokens.deep_view()).take(i as int));
    }
    assert(cleaned(tokens.deep_view()).take(i as int) =~= cleaned(tokens.deep_view()));
    headers
}

/// Appends the anomalies of a line with `found` tokens under `expected`
/// columns to `warnings`.
fn report_anomalies(warnings: &mut Vec<Anomaly>, expected: usize, found: usize)
    ensures
        final(warnings)@ == old(warnings)@ + line_anomalies(expected as nat, found as nat),
{
    if found > expected {
        let mut i: usize = expected;
        while i < found
            invariant
                expected <= i <= found,
                warnings@ == old(warnings)@ + line_anomalies(expected as nat, i as nat),
            decreases found - i,
        {
            warnings.push(Anomaly::Overflow { index: i });
            i = i + 1;
            assert(warnings@ =~= old(warnings)@ + line_anomalies(expected as nat, i as nat));
        }
    } else if found < expected {
        warnings.push(Anomaly::Underflow { found, expected });
        assert(warnings@ =~= old(warnings)@ + line_anomalies(expected as nat, found as nat));
    } else {
        assert(warnings@ =~= old(warnings)@ + line_anomalies(expected as nat, found as nat));
    }
}

/// The error of strict mode for a line, where it has an anomaly.
fn strict_check(expected: usize, found: usize) -> (r: Result<(), CsvError>)
    ensures
        line_anomalies(expected as nat, found as nat).len() == 0 ==> r is Ok,
        line_anomalies(expected as nat, found as nat).len() > 0 ==> r == Err::<(), CsvError>(
            CsvError::Anomaly(line_anomalies(expected as nat, found as nat)[0]),
        ),
{
    if found > expected {
        Err(CsvError::Anomaly(Anomaly::Overflow { index: expected }))
    } else if found < expected {
        Err(CsvError::Anomaly(Anomaly::Underflow { found, expected }))
    } else {
        Ok(())
    }
}

/// Adds one data line to a row-major result: its record, with each token
/// under its column's name, comes last. In strict mode a line with an
/// anomaly fails and changes nothing; in tolerant mode its anomalies are
/// appended to `warnings` and the record of its aligned tokens is still
/// added.
pub fn process_line_for_list_of_maps(
    tokens: &Vec<String>,
    headers: &Vec<String>,
    list_of_maps: &mut Vec<Record>,
    allow_anomalies: bool,
    warnings: &mut Vec<Anomaly>,
) -> (r: Result<(), CsvError>)
    ensures
        ({
            let anomalies = line_anomalies(headers.len() as nat, tokens.len() as nat);
            &&& !allow_anomalies && anomalies.len() > 0 ==> {
                &&& r == Err::<(), CsvError>(CsvError::Anomaly(anomalies[0]))
                &&& *final(list_of_maps) == *old(list_of_maps)
                &&& *final(warnings) == *old(warnings)
            }
            &&& allow_anomalies || anomalies.len() == 0 ==> {
                &&& r is Ok
                &&& records_view(final(list_of_maps)@) == records_view(old(list_of_maps)@).push(
                    record_of(headers.deep_view(), cleaned(tokens.deep_view())),
                )
                &&& final(warnings)@ == old(warnings)@ + anomalies
            }
        }),
        (forall|k: int| 0 <= k < old(list_of_maps)@.len() ==> record_wf(#[trigger] old(list_of_maps)@[k]))
            ==> (forall|k: int| 0 <= k < final(list_of_maps)@.len() ==> record_wf(#[trigger] final(list_of_maps)@[k])),
{
    let n_tokens = tokens.len();
    let n_headers = headers.len();
    if !allow_anomalies {
        let checked = strict_check(n_headers, n_tokens);
        if checked.is_err() {
            return checked;
        }
    }
    let ghost header = headers.deep_view();
    let ghost toks = cleaned(tokens.deep_view());
    let mut fields: Vec<Field> = Vec::new();
    let mut i: usize = 0;
    while i < n_tokens && i < n_headers
        invariant
            n_tokens == tokens.len(),
            n_headers == headers.len(),
            i <= n_tokens,
            i <= n_headers,
            header == headers.deep_view(),
            toks == cleaned(tokens.deep_view()),
            fields_view(fields@) == record_prefix(header, toks, i as nat),
            keys_unique(fields_view(fields@)),
        decreases n_tokens - i,
    {
        let value = strip_newlines(tokens[i].as_str());
        put_field(&mut fields, &headers[i], value);
        i = i + 1;
    }
    report_anomalies(warnings, n_headers, n_tokens);
    let record = Record { fields };
    assert(record@ =~= record_of(header, toks));
    let ghost before = list_of_maps@;
    list_of_maps.push(record);
    assert(records_view(list_of_maps@) =~= records_view(before).push(record_of(header, toks)));
    Ok(())
}

/// Adds one data line to a column-major result: each token is appended to
/// its column's values, the column being created (with room for
/// `capacity` values) on its first value. In strict mode a line with an
/// anomaly fails and changes nothing; in tolerant mode its anomalies are
/// appended to `warnings` and its aligned tokens are still added.
pub fn process_line_for_map_of_lists(
    tokens: &Vec<String>,
    headers: &Vec<String>,
    map_of_lists: &mut Vec<Column>,
    allow_anomalies: bool,
    warnings: &mut Vec<Anomaly>,
    capacity: usize,
) -> (r: Result<(), CsvError>)
    requires
        columns_wf(old(map_of_lists)@),
    ensures
        ({
            let anomalies = line_anomalies(headers.len() as nat, tokens.len() as nat);
            &&& !allow_anomalies && anomalies.len() > 0 ==> {
                &&& r == Err::<(), CsvError>(CsvError::Anomaly(anomalies[0]))
                &&& *final(map_of_lists) == *old(map_of_lists)
                &&& *final(warnings) == *old(warnings)
            }
            &&& allow_anomalies || anomalies.len() == 0 ==> {
                &&& r is Ok
                &&& columns_view(final(map_of_lists)@) == add_line(
                    columns_view(old(map_of_lists)@),
                    headers.deep_view(),
                    cleaned(tokens.deep_view()),
                )
                &&& final(warnings)@ == old(warnings)@ + anomalies
            }
        }),
        columns_wf(final(map_of_lists)@),
{
    let n_tokens = tokens.len();
    let n_headers = headers.len();
    if !allow_anomalies {
        let checked = strict_check(n_headers, n_tokens);
        if checked.is_err() {
            return checked;
        }
    }
    let ghost header = headers.deep_view();
    let ghost toks = cleaned(tokens.deep_view());
    let ghost start = columns_view(map_of_lists@);
    let mut i: usize = 0;
    while i < n_tokens && i < n_headers
        invariant
            n_tokens == tokens.len(),
            n_headers == headers.len(),
            i <= n_tokens,
            i <= n_headers,
            header == headers.deep_view(),
            toks == cleaned(tokens.deep_view()),
            columns_view(map_of_lists@) == columns_prefix(start, header, toks, i as nat),
            columns_wf(map_of_lists@),
        decreases n_tokens - i,
    {
        let value = strip_newlines(tokens[i].as_str());
        push_to_column(map_of_lists, &headers[i], value, capacity);
        i = i + 1;
    }
    report_anomalies(warnings, n_headers, n_tokens);
    Ok(())
}

} // verus!
