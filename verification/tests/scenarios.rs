use json2csv::{convert, ConvertError, Options, Outcome};

fn options(include_keys: Option<Vec<&str>>, exclude_keys: Option<Vec<&str>>, separator: &str) -> Options {
    Options {
        include_keys: include_keys.map(|keys| keys.into_iter().map(String::from).collect()),
        exclude_keys: exclude_keys.map(|keys| keys.into_iter().map(String::from).collect()),
        separator: separator.to_string(),
    }
}

fn run(input: &str, options: Options) -> (Vec<String>, Result<Outcome, ConvertError>) {
    let mut lines: Vec<String> = Vec::new();
    let result = convert(input.as_bytes(), options, &mut lines);
    (lines, result)
}

const TWO: &str = r#"{"a":3,"b":4,"c":5} {"a":6,"b":7,"c":8}"#;
const THREE: &str = r#"{"a":3,"b":4,"c":5} {"a":6,"b":7,"c":8} {"b":9,"c":0}"#;

#[test]
fn two_records_with_default_options() {
    let (lines, result) = run(TWO, options(None, None, ","));
    assert_eq!(lines, vec!["a,b,c", "3,4,5", "6,7,8"]);
    assert_eq!(result, Ok(Outcome::Converted));
}

#[test]
fn chosen_keys_and_a_record_without_one_of_them() {
    let (lines, result) = run(THREE, options(Some(vec!["a", "c"]), None, ","));
    assert_eq!(lines, vec!["a,c", "3,5", "6,8", ",0"]);
    assert_eq!(result, Ok(Outcome::Converted));
}

#[test]
fn one_excluded_key() {
    let (lines, result) = run(THREE, options(None, Some(vec!["b"]), ","));
    assert_eq!(lines, vec!["a,c", "3,5", "6,8", ",0"]);
    assert_eq!(result, Ok(Outcome::Converted));
}

#[test]
fn n_records_give_n_plus_one_lines() {
    let mut input = String::new();
    for i in 0..25 {
        input.push_str(&format!("{{\"x\":{},\"y\":\"v{}\"}}\n", i, i));
    }
    let (lines, result) = run(&input, options(None, None, ","));
    assert_eq!(result, Ok(Outcome::Converted));
    assert_eq!(lines.len(), 26);
    assert_eq!(lines[0], "x,y");
    for i in 0..25 {
        assert_eq!(lines[i + 1], format!("{},\"v{}\"", i, i));
    }
}

#[test]
fn a_missing_field_leaves_its_place_empty() {
    let input = r#"{"a":1,"b":2,"c":3} {"a":4,"c":6} {"b":8} {}"#;
    let (lines, _) = run(input, options(None, None, ","));
    assert_eq!(lines, vec!["a,b,c", "1,2,3", "4,,6", ",8,", ",,"]);
}

#[test]
fn several_excluded_keys_all_leave() {
    let input = r#"{"a":1,"b":2,"c":3,"d":4} {"a":5,"b":6,"c":7,"d":8}"#;
    let (lines, _) = run(input, options(None, Some(vec!["b", "d"]), ","));
    assert_eq!(lines, vec!["a,c", "1,3", "5,7"]);
    let (lines, _) = run(input, options(None, Some(vec!["d", "a", "b"]), ","));
    assert_eq!(lines, vec!["c", "3", "7"]);
    let (lines, _) = run(input, options(None, Some(vec!["a", "b", "c", "d"]), ","));
    assert_eq!(lines, vec!["", "", ""]);
}

#[test]
fn excluded_keys_that_the_header_lacks_change_nothing() {
    let (lines, _) = run(TWO, options(None, Some(vec!["x", "y"]), ","));
    assert_eq!(lines, vec!["a,b,c", "3,4,5", "6,7,8"]);
    let (lines, _) = run(TWO, options(None, Some(vec![]), ","));
    assert_eq!(lines, vec!["a,b,c", "3,4,5", "6,7,8"]);
}

#[test]
fn exclusion_applies_to_chosen_keys_too() {
    let (lines, _) = run(THREE, options(Some(vec!["c", "b", "a", "b"]), Some(vec!["b", "z"]), ","));
    assert_eq!(lines, vec!["c,a", "5,3", "8,6", "0,"]);
}

#[test]
fn a_separator_of_several_characters() {
    let (lines, _) = run(THREE, options(None, None, " | "));
    assert_eq!(lines, vec!["a | b | c", "3 | 4 | 5", "6 | 7 | 8", " | 9 | 0"]);
    let (lines, _) = run(TWO, options(None, None, "::"));
    assert_eq!(lines, vec!["a::b::c", "3::4::5", "6::7::8"]);
    let (lines, _) = run(TWO, options(None, None, ""));
    assert_eq!(lines, vec!["abc", "345", "678"]);
}

#[test]
fn a_separator_inside_a_value_is_not_escaped() {
    let (lines, _) = run(r#"{"a":"x,y","b":[1,2]}"#, options(None, None, ","));
    assert_eq!(lines, vec!["a,b", "\"x,y\",[1,2]"]);
}

#[test]
fn empty_input_gives_no_line() {
    let (lines, result) = run("", options(None, None, ","));
    assert!(lines.is_empty());
    assert_eq!(result, Ok(Outcome::Empty));
    let (lines, result) = run(" \n\t \r\n", options(Some(vec!["a"]), None, ","));
    assert!(lines.is_empty());
    assert_eq!(result, Ok(Outcome::Empty));
}

#[test]
fn an_undecodable_first_value_gives_no_line() {
    let (lines, result) = run(r#"{"a": } {"a":1}"#, options(None, None, ","));
    assert!(lines.is_empty());
    assert_eq!(result, Ok(Outcome::Unreadable));
    let (lines, result) = run("nonsense", options(Some(vec!["a"]), None, ","));
    assert!(lines.is_empty());
    assert_eq!(result, Ok(Outcome::Unreadable));
}

#[test]
fn a_first_value_that_is_no_mapping_fails_before_any_line() {
    for input in ["[1,2] {\"a\":1}", "3", "\"text\"", "null {\"a\":1}", "true"] {
        let (lines, result) = run(input, options(None, None, ","));
        assert!(lines.is_empty());
        assert_eq!(result, Err(ConvertError::NotAMapping));
    }
}

#[test]
fn chosen_keys_need_no_mapping() {
    let (lines, result) = run(r#"3 {"a":1} [true]"#, options(Some(vec!["a", "b"]), None, ","));
    assert_eq!(lines, vec!["a,b", ",", "1,", ","]);
    assert_eq!(result, Ok(Outcome::Converted));
}

#[test]
fn an_undecodable_later_value_fails_and_keeps_the_lines() {
    let (lines, result) = run(r#"{"a":1} {"a":2} {"a" {"a":4}"#, options(None, None, ","));
    assert_eq!(lines, vec!["a", "1", "2"]);
    assert_eq!(result, Err(ConvertError::InvalidRecord));
    let (lines, result) = run(r#"{"a":1} {"a":2"#, options(None, None, ","));
    assert_eq!(lines, vec!["a", "1"]);
    assert_eq!(result, Err(ConvertError::InvalidRecord));
}

#[test]
fn values_keep_their_canonical_text() {
    let input = r#"{"s":"hello","n":null,"t":true,"f":false,"i":-12,"x":1.5,"l":[1, "two", [3]],"o":{"k": {"z": 0}}}"#;
    let (lines, _) = run(input, options(None, None, ";"));
    assert_eq!(lines[0], "s;n;t;f;i;x;l;o");
    assert_eq!(lines[1], "\"hello\";null;true;false;-12;1.5;[1,\"two\",[3]];{\"k\":{\"z\":0}}");
}

#[test]
fn strings_keep_quotes_and_escapes() {
    let input = r#"{"a":"he said \"hi\"","b":"line\nbreak","c":"back\\slash","d":"é"}"#;
    let (lines, _) = run(input, options(None, None, ","));
    assert_eq!(lines[1], "\"he said \\\"hi\\\"\",\"line\\nbreak\",\"back\\\\slash\",\"\u{e9}\"");
}

#[test]
fn numbers_read_in_their_shortest_form() {
    let (lines, _) = run(r#"{"a":1.0,"b":1e2,"c":0.10,"d":18446744073709551615,"e":-0}"#, options(None, None, ","));
    assert_eq!(lines[1], "1.0,100.0,0.1,18446744073709551615,-0.0");
}

#[test]
fn the_header_keeps_the_order_of_the_first_record() {
    let (lines, _) = run(r#"{"zeta":1,"alpha":2,"mid":3} {"alpha":5,"mid":6,"zeta":4}"#, options(None, None, ","));
    assert_eq!(lines, vec!["zeta,alpha,mid", "1,2,3", "4,5,6"]);
}

#[test]
fn fields_that_the_header_lacks_are_not_shown() {
    let (lines, _) = run(r#"{"a":1} {"a":2,"b":3} {"b":4}"#, options(None, None, ","));
    assert_eq!(lines, vec!["a", "1", "2", ""]);
}

#[test]
fn values_may_stand_side_by_side() {
    let (lines, result) = run("{\"a\":1}{\"a\":2}\n\n{\"a\":3}", options(None, None, ","));
    assert_eq!(lines, vec!["a", "1", "2", "3"]);
    assert_eq!(result, Ok(Outcome::Converted));
}

#[test]
fn a_repeated_key_counts_once() {
    let (lines, _) = run(r#"{"a":1,"b":2,"a":3}"#, options(None, None, ","));
    assert_eq!(lines, vec!["a,b", "3,2"]);
}

#[test]
fn no_chosen_keys_at_all() {
    let (lines, result) = run(TWO, options(Some(vec![]), None, ","));
    assert_eq!(lines, vec!["", "", ""]);
    assert_eq!(result, Ok(Outcome::Converted));
}

#[test]
fn lines_are_appended_to_what_the_sink_holds() {
    let mut lines = vec!["kept".to_string()];
    let result = convert(TWO.as_bytes(), options(None, None, ","), &mut lines);
    assert_eq!(result, Ok(Outcome::Converted));
    assert_eq!(lines, vec!["kept", "a,b,c", "3,4,5", "6,7,8"]);
    let result = convert(b"", options(None, None, ","), &mut lines);
    assert_eq!(result, Ok(Outcome::Empty));
    assert_eq!(lines.len(), 4);
}

#[test]
fn text_that_is_no_utf8_cannot_be_decoded() {
    let mut lines: Vec<String> = Vec::new();
    let bytes: [u8; 9] = [b'{', b'"', b'a', b'"', b':', b'"', 0xff, b'"', b'}'];
    let result = convert(&bytes, options(None, None, ","), &mut lines);
    assert_eq!(result, Ok(Outcome::Unreadable));
    assert!(lines.is_empty());
}
