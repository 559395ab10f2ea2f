use gmusic::storage::{decode_values, encode_values};

#[test]
fn list_columns_are_json_arrays_of_strings() {
    assert_eq!(decode_values("[\"Jazz\",\"Post Rock\"]"), vec!["Jazz".to_string(), "Post Rock".to_string()]);
    assert_eq!(decode_values("[]"), Vec::<String>::new());
    assert_eq!(encode_values(&vec!["Jazz".to_string(), "Post Rock".to_string()]), "[\"Jazz\",\"Post Rock\"]");
    assert_eq!(encode_values(&Vec::new()), "[]");
}

#[test]
fn unreadable_list_columns_read_as_no_values() {
    assert!(decode_values("not json").is_empty());
    assert!(decode_values("{\"genre\":\"Jazz\"}").is_empty());
    assert!(decode_values("[1, 2]").is_empty());
    assert!(decode_values("").is_empty());
}

#[test]
fn written_lists_read_back_unchanged() {
    let values = vec![
        "Quote \" and backslash \\".to_string(),
        "Ünïcödé ☃".to_string(),
        "line\nbreak".to_string(),
        String::new(),
    ];
    assert_eq!(decode_values(&encode_values(&values)), values);
}
