//! The per-type formatting of resolved values into their string-encoded
//! record form.

use constellation::records::{
    format_mx_value, format_mx_values, format_txt_value, format_txt_values, format_u16, MxRecord,
    RecordType, TxtRecord,
};

#[test]
fn decimal_formatting_of_preferences() {
    assert_eq!(format_u16(0), "0");
    assert_eq!(format_u16(7), "7");
    assert_eq!(format_u16(10), "10");
    assert_eq!(format_u16(105), "105");
    assert_eq!(format_u16(65535), "65535");
}

#[test]
fn mx_value_is_preference_then_exchange() {
    let record = MxRecord {
        preference: 10,
        exchange: String::from("mail.example.com"),
    };
    assert_eq!(format_mx_value(&record), "10 mail.example.com");
    let zero = MxRecord {
        preference: 0,
        exchange: String::from("fallback.example.com"),
    };
    assert_eq!(format_mx_value(&zero), "0 fallback.example.com");
}

#[test]
fn mx_values_preserve_resolver_order() {
    let records = vec![
        MxRecord {
            preference: 20,
            exchange: String::from("backup.example.com"),
        },
        MxRecord {
            preference: 10,
            exchange: String::from("mail.example.com"),
        },
    ];
    assert_eq!(
        format_mx_values(&records),
        vec![
            String::from("20 backup.example.com"),
            String::from("10 mail.example.com"),
        ]
    );
}

#[test]
fn txt_value_joins_segments_with_no_separator() {
    let record = TxtRecord {
        segments: vec![String::from("hello"), String::from("world")],
    };
    assert_eq!(format_txt_value(&record), "helloworld");
    let empty = TxtRecord { segments: Vec::new() };
    assert_eq!(format_txt_value(&empty), "");
}

#[test]
fn txt_values_keep_one_value_per_record() {
    let records = vec![
        TxtRecord {
            segments: vec![String::from("a"), String::from("b"), String::from("c")],
        },
        TxtRecord {
            segments: vec![String::from("v=spf1 -all")],
        },
    ];
    assert_eq!(
        format_txt_values(&records),
        vec![String::from("abc"), String::from("v=spf1 -all")]
    );
}

#[test]
fn pass_through_types_skip_upstream() {
    assert!(RecordType::A.needs_upstream());
    assert!(RecordType::AAAA.needs_upstream());
    assert!(RecordType::MX.needs_upstream());
    assert!(RecordType::TXT.needs_upstream());
    assert!(!RecordType::PTR.needs_upstream());
    assert!(!RecordType::CNAME.needs_upstream());
}
