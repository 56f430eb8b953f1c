use csv2json::accumulate::{process_headers, process_line_for_list_of_maps, process_line_for_map_of_lists};
use csv2json::driver::{accumulate, Converter};
use csv2json::error::{Anomaly, CsvError};
use csv2json::json::{finish_json, process_input, to_json_str};
use csv2json::shape::{Column, CsvResult, Field, Record};
use csv2json::tokenize::{split_line, strip_newlines};

fn lines(text: &[&str]) -> Vec<String> {
    text.iter().map(|l| l.to_string()).collect()
}

fn convert(text: &[&str], format: &str, allow: bool, pretty: bool) -> Result<String, CsvError> {
    let result = CsvResult::from_format_str(format)?;
    process_input(&lines(text), result, allow, pretty, 1024).map(|c| c.json)
}

fn parsed(text: &str) -> serde_json::Value {
    serde_json::from_str(text).unwrap()
}

fn record_pairs(r: &Record) -> Vec<(String, String)> {
    r.fields.iter().map(|f: &Field| (f.name.clone(), f.value.clone())).collect()
}

#[test]
fn split_line_cuts_at_every_comma() {
    assert_eq!(split_line("a,b,,c"), vec!["a", "b", "", "c"]);
}

#[test]
fn split_line_of_empty_text_is_one_empty_token() {
    assert_eq!(split_line(""), vec![""]);
}

#[test]
fn split_line_keeps_spaces_and_line_feed() {
    assert_eq!(split_line(" x , y\n"), vec![" x ", " y\n"]);
}

#[test]
fn strip_newlines_removes_line_feeds_only() {
    assert_eq!(strip_newlines("ab\r\n"), "ab\r");
    assert_eq!(strip_newlines("a\nb\n"), "ab");
    assert_eq!(strip_newlines(""), "");
}

#[test]
fn headers_are_bound_by_position_without_line_feed() {
    let tokens = split_line("id,name\n");
    assert_eq!(process_headers(&tokens), vec!["id", "name"]);
}

#[test]
fn format_names_select_list_of_maps() {
    for name in ["list-of-maps", "lom", "l"] {
        assert!(matches!(CsvResult::from_format_str(name), Ok(CsvResult::ListOfMaps(v)) if v.is_empty()));
    }
}

#[test]
fn format_names_select_map_of_lists() {
    for name in ["map-of-lists", "mol", "m"] {
        assert!(matches!(CsvResult::from_format_str(name), Ok(CsvResult::MapOfLists(v)) if v.is_empty()));
    }
}

#[test]
fn unknown_format_names_fail() {
    for name in ["x", "L", "M", "", "list", "maps-of-lists"] {
        match CsvResult::from_format_str(name) {
            Err(CsvError::UnknownFormat(s)) => assert_eq!(s, name),
            _ => panic!("{} should be unknown", name),
        }
    }
}

#[test]
fn format_table_lists_six_names() {
    let names: Vec<&str> = CsvResult::_get_str_map().iter().map(|e| e.0).collect();
    assert_eq!(names, vec!["list-of-maps", "lom", "l", "map-of-lists", "mol", "m"]);
}

#[test]
fn short_line_list_of_maps_tolerant() {
    let out = convert(&["a,b,c\n", "1,2,3\n", "4,5\n"], "list-of-maps", true, false).unwrap();
    assert_eq!(out, r#"[{"a":"1","b":"2","c":"3"},{"a":"4","b":"5"}]"#);
}

#[test]
fn short_line_map_of_lists_tolerant() {
    let out = convert(&["a,b,c\n", "1,2,3\n", "4,5\n"], "map-of-lists", true, false).unwrap();
    assert_eq!(out, r#"{"a":["1","4"],"b":["2","5"],"c":["3"]}"#);
}

#[test]
fn short_line_warning_in_tolerant_mode() {
    let result = CsvResult::from_format_str("lom").unwrap();
    let c = process_input(&lines(&["a,b,c\n", "1,2,3\n", "4,5\n"]), result, true, false, 8).unwrap();
    assert_eq!(c.warnings, vec![Anomaly::Underflow { found: 2, expected: 3 }]);
}

#[test]
fn overflow_fails_in_strict_mode() {
    for format in ["lom", "mol"] {
        match convert(&["a,b\n", "1,2,3\n"], format, false, false) {
            Err(CsvError::Anomaly(Anomaly::Overflow { index: 2 })) => {},
            other => panic!("unexpected {:?}", other),
        }
    }
}

#[test]
fn overflow_dropped_in_tolerant_mode() {
    let result = CsvResult::from_format_str("l").unwrap();
    let c = process_input(&lines(&["a,b\n", "1,2,3\n"]), result, true, false, 8).unwrap();
    assert_eq!(c.json, r#"[{"a":"1","b":"2"}]"#);
    assert_eq!(c.warnings, vec![Anomaly::Overflow { index: 2 }]);
    let result = CsvResult::from_format_str("m").unwrap();
    let c = process_input(&lines(&["a,b\n", "1,2,3\n"]), result, true, false, 8).unwrap();
    assert_eq!(c.json, r#"{"a":["1"],"b":["2"]}"#);
    assert_eq!(c.warnings, vec![Anomaly::Overflow { index: 2 }]);
}

#[test]
fn every_overflow_token_is_reported() {
    let (_, warnings) = accumulate(&lines(&["a\n", "1,2,3\n"]), CsvResult::ListOfMaps(Vec::new()), true, 4).unwrap();
    assert_eq!(warnings, vec![Anomaly::Overflow { index: 1 }, Anomaly::Overflow { index: 2 }]);
}

#[test]
fn underflow_fails_in_strict_mode() {
    for format in ["list-of-maps", "map-of-lists"] {
        match convert(&["a,b,c\n", "1,2,3\n", "4,5\n"], format, false, false) {
            Err(CsvError::Anomaly(Anomaly::Underflow { found: 2, expected: 3 })) => {},
            other => panic!("unexpected {:?}", other),
        }
    }
}

#[test]
fn empty_input_gives_empty_shapes() {
    assert_eq!(convert(&[], "mol", false, false).unwrap(), "{}");
    assert_eq!(convert(&[], "lom", false, false).unwrap(), "[]");
}

#[test]
fn header_only_gives_empty_shapes() {
    assert_eq!(convert(&["a,b\n"], "mol", false, false).unwrap(), "{}");
    assert_eq!(convert(&["a,b\n"], "lom", false, false).unwrap(), "[]");
}

#[test]
fn record_count_equals_data_lines() {
    let input = lines(&["a,b\n", "1\n", "1,2,3\n", "\n", "5,6\n"]);
    let (result, warnings) = accumulate(&input, CsvResult::ListOfMaps(Vec::new()), true, 4).unwrap();
    match result {
        CsvResult::ListOfMaps(recs) => {
            assert_eq!(recs.len(), 4);
            assert_eq!(record_pairs(&recs[2]), vec![("a".to_string(), "".to_string())]);
        },
        _ => panic!("wrong shape"),
    }
    assert_eq!(warnings.len(), 3);
}

#[test]
fn column_lengths_count_supplying_lines() {
    let input = lines(&["a,b,c\n", "1\n", "2,3\n", "4,5,6\n"]);
    let (result, _) = accumulate(&input, CsvResult::MapOfLists(Vec::new()), true, 4).unwrap();
    match result {
        CsvResult::MapOfLists(cols) => {
            let lens: Vec<(String, usize)> = cols.iter().map(|c: &Column| (c.name.clone(), c.values.len())).collect();
            assert_eq!(lens, vec![("a".to_string(), 3), ("b".to_string(), 2), ("c".to_string(), 1)]);
        },
        _ => panic!("wrong shape"),
    }
}

#[test]
fn duplicate_header_names_collide() {
    assert_eq!(convert(&["a,a\n", "1,2\n"], "lom", false, false).unwrap(), r#"[{"a":"2"}]"#);
    assert_eq!(convert(&["a,a\n", "1,2\n"], "mol", false, false).unwrap(), r#"{"a":["1","2"]}"#);
}

#[test]
fn well_formed_shapes_are_transposes() {
    let input = ["x,y\n", "1,2\n", "3,4\n", "5,6\n"];
    let rows = parsed(&convert(&input, "lom", false, false).unwrap());
    let cols = parsed(&convert(&input, "mol", false, false).unwrap());
    for name in ["x", "y"] {
        let column = cols[name].as_array().unwrap();
        assert_eq!(column.len(), 3);
        for (r, row) in rows.as_array().unwrap().iter().enumerate() {
            assert_eq!(row[name], column[r]);
        }
    }
}

#[test]
fn output_parses_back_to_accumulated_values() {
    let input = lines(&["k,v\n", "\"q\",a\\b\n", "é,\t\n"]);
    let (result, _) = accumulate(&input, CsvResult::MapOfLists(Vec::new()), false, 4).unwrap();
    let text = to_json_str(&result, false).unwrap();
    let value = parsed(&text);
    match result {
        CsvResult::MapOfLists(cols) => {
            assert_eq!(value.as_object().unwrap().len(), cols.len());
            for c in cols.iter() {
                let got: Vec<&str> = value[c.name.as_str()].as_array().unwrap().iter().map(|v| v.as_str().unwrap()).collect();
                assert_eq!(got, c.values.iter().map(|s| s.as_str()).collect::<Vec<&str>>());
            }
        },
        _ => panic!("wrong shape"),
    }
}

#[test]
fn pretty_output_ends_with_line_feed() {
    let out = convert(&["a\n", "1\n"], "mol", false, true).unwrap();
    assert_eq!(out, "{\n  \"a\": [\n    \"1\"\n  ]\n}\n");
    let out = convert(&["a\n", "1\n"], "lom", false, true).unwrap();
    assert_eq!(out, "[\n  {\n    \"a\": \"1\"\n  }\n]\n");
}

#[test]
fn compact_output_has_no_line_feed() {
    let out = convert(&["a\n", "1\n"], "lom", false, false).unwrap();
    assert_eq!(out, r#"[{"a":"1"}]"#);
}

#[test]
fn finish_json_adds_line_feed_when_pretty() {
    assert_eq!(finish_json(Ok("[]".to_string()), true).unwrap(), "[]\n");
    assert_eq!(finish_json(Ok("[]".to_string()), false).unwrap(), "[]");
    let refused = serde_json::from_str::<serde_json::Value>("{").unwrap_err();
    assert!(matches!(finish_json(Err(refused), false), Err(CsvError::SerializationFailure)));
}

#[test]
fn line_for_list_of_maps_appends_record() {
    let headers = vec!["a".to_string(), "b".to_string()];
    let mut list: Vec<Record> = Vec::new();
    let mut warnings = Vec::new();
    process_line_for_list_of_maps(&split_line("1,2\n"), &headers, &mut list, false, &mut warnings).unwrap();
    assert_eq!(record_pairs(&list[0]), vec![("a".to_string(), "1".to_string()), ("b".to_string(), "2".to_string())]);
    assert!(process_line_for_list_of_maps(&split_line("1\n"), &headers, &mut list, false, &mut warnings).is_err());
    assert_eq!(list.len(), 1);
    assert!(warnings.is_empty());
}

#[test]
fn line_for_map_of_lists_appends_values() {
    let headers = vec!["a".to_string(), "b".to_string()];
    let mut cols: Vec<Column> = Vec::new();
    let mut warnings = Vec::new();
    process_line_for_map_of_lists(&split_line("1\n"), &headers, &mut cols, true, &mut warnings, 16).unwrap();
    process_line_for_map_of_lists(&split_line("3,4\n"), &headers, &mut cols, true, &mut warnings, 16).unwrap();
    assert_eq!(cols.len(), 2);
    assert_eq!(cols[0].values, vec!["1", "3"]);
    assert_eq!(cols[1].values, vec!["4"]);
    assert_eq!(warnings, vec![Anomaly::Underflow { found: 1, expected: 2 }]);
}

#[test]
fn converter_binds_header_then_adds_rows() {
    let mut c = Converter::new(CsvResult::ListOfMaps(Vec::new()), true, 4);
    for line in ["a,b,c\n", "1,2,3\n", "4,5\n"] {
        c.feed(line).unwrap();
    }
    assert_eq!(c.warnings().len(), 1);
    let (result, warnings) = c.into_parts();
    assert_eq!(to_json_str(&result, false).unwrap(), r#"[{"a":"1","b":"2","c":"3"},{"a":"4","b":"5"}]"#);
    assert_eq!(warnings, vec![Anomaly::Underflow { found: 2, expected: 3 }]);
}

#[test]
fn converter_strict_failure_changes_nothing() {
    let mut c = Converter::new(CsvResult::MapOfLists(Vec::new()), false, 4);
    c.feed("a,b\n").unwrap();
    c.feed("1,2\n").unwrap();
    assert!(matches!(c.feed("3\n"), Err(CsvError::Anomaly(Anomaly::Underflow { found: 1, expected: 2 }))));
    c.feed("5,6\n").unwrap();
    assert!(c.warnings().is_empty());
    let (result, warnings) = c.into_parts();
    assert_eq!(to_json_str(&result, false).unwrap(), r#"{"a":["1","5"],"b":["2","6"]}"#);
    assert!(warnings.is_empty());
}

#[test]
fn converter_with_no_lines_is_empty() {
    let c = Converter::new(CsvResult::MapOfLists(Vec::new()), false, 4);
    let (result, _) = c.into_parts();
    assert_eq!(to_json_str(&result, true).unwrap(), "{}\n");
}

#[test]
fn column_values_are_supplied_tokens_in_line_order() {
    let input = lines(&["a,b,c\n", "1\n", "2,3\n", "4,5,6\n"]);
    let (result, _) = accumulate(&input, CsvResult::MapOfLists(Vec::new()), true, 4).unwrap();
    match result {
        CsvResult::MapOfLists(cols) => {
            assert_eq!(cols[0].values, vec!["1", "2", "4"]);
            assert_eq!(cols[1].values, vec!["3", "5"]);
            assert_eq!(cols[2].values, vec!["6"]);
        },
        _ => panic!("wrong shape"),
    }
}

#[test]
fn empty_results_encode_in_both_modes() {
    assert_eq!(to_json_str(&CsvResult::ListOfMaps(Vec::new()), false).unwrap(), "[]");
    assert_eq!(to_json_str(&CsvResult::ListOfMaps(Vec::new()), true).unwrap(), "[]\n");
    assert_eq!(to_json_str(&CsvResult::MapOfLists(Vec::new()), false).unwrap(), "{}");
    assert_eq!(to_json_str(&CsvResult::MapOfLists(Vec::new()), true).unwrap(), "{}\n");
}

#[test]
fn first_line_is_always_the_header() {
    assert_eq!(convert(&["1,2\n", "3,4\n"], "lom", false, false).unwrap(), r#"[{"1":"3","2":"4"}]"#);
}
