use json2csv::driver::convert;
use json2csv::options::Options;

#[test]
fn convert_test() {
    let mut result: Vec<String> = Vec::new();
    // Two records, default options
    let _ = convert(
        r#"{"a": 3, "b": 4, "c": 5} {"a": 6, "b": 7, "c": 8}"#.as_bytes(),
        Options { include_keys: None, exclude_keys: None, separator: ",".to_string() },
        &mut result,
    );
    assert_eq!(result, &["a,b,c", "3,4,5", "6,7,8"]);
    // Another separator
    result.clear();
    let _ = convert(
        r#"{"a": 3, "b": 4, "c": 5} {"a": 6, "b": 7, "c": 8}"#.as_bytes(),
        Options { include_keys: None, exclude_keys: None, separator: "@".to_string() },
        &mut result,
    );
    assert_eq!(result, &["a@b@c", "3@4@5", "6@7@8"]);
    // Chosen keys, one of them missing from the last record
    result.clear();
    let _ = convert(
        r#"{"a": 3, "b": 4, "c": 5} {"a": 6, "b": 7, "c": 8} {"b": 9, "c": 0}"#.as_bytes(),
        Options {
            include_keys: Some(vec!["a".to_string(), "c".to_string()]),
            exclude_keys: None,
            separator: ",".to_string(),
        },
        &mut result,
    );
    assert_eq!(result, &["a,c", "3,5", "6,8", ",0"]);
    // One key left out of the keys of the first record
    result.clear();
    let _ = convert(
        r#"{"a": 3, "b": 4, "c": 5} {"a": 6, "b": 7, "c": 8} {"b": 9, "c": 0}"#.as_bytes(),
        Options {
            include_keys: None,
            exclude_keys: Some(vec!["b".to_string()]),
            separator: ",".to_string(),
        },
        &mut result,
    );
    assert_eq!(result, &["a,c", "3,5", "6,8", ",0"]);
}
