use protobuf::base64::decode;
use protobuf::descriptor::FileDescriptor;
use protobuf::index::ElemType;
use protobuf::json::{
    merge_wk_duration, parse_bool, parse_enum, parse_key, parse_signed, parse_unsigned,
    ParseErrorKind, ParseOptions,
};
use protobuf::schema::{EnumProto, EnumValueProto, FileProto};
use protobuf::value::ReflectValueBox;
use protobuf::well_known::Duration;

fn duration(s: &str) -> Option<(i64, i32)> {
    let mut d = Duration { seconds: 77, nanos: 77 };
    match merge_wk_duration(s, &mut d) {
        Ok(()) => Some((d.seconds, d.nanos)),
        Err(e) => {
            assert!(matches!(e, ParseErrorKind::IncorrectDuration));
            assert_eq!(Duration { seconds: 77, nanos: 77 }, d);
            None
        }
    }
}

#[test]
fn durations_in_json_form() {
    assert_eq!(Some((1, 0)), duration("1s"));
    assert_eq!(Some((-1, -500_000_000)), duration("-1.5s"));
    assert_eq!(Some((1, 1)), duration("1.000000001s"));
    assert_eq!(Some((3, 0)), duration("3.s"));
    assert_eq!(Some((1, 0)), duration("01s"));
    assert_eq!(Some((i64::MAX, 0)), duration("9223372036854775807s"));
    assert_eq!(None, duration("9223372036854775808s"));
    assert_eq!(None, duration("1.0000000001s"));
    assert_eq!(None, duration("s"));
    assert_eq!(None, duration("-s"));
    assert_eq!(None, duration("1"));
    assert_eq!(None, duration("+1s"));
    assert_eq!(None, duration("1sx"));
    assert_eq!(None, duration(""));
}

#[test]
fn booleans_are_spelled_out() {
    assert!(matches!(parse_bool("true"), Ok(true)));
    assert!(matches!(parse_bool("false"), Ok(false)));
    assert!(matches!(parse_bool("True"), Err(ParseErrorKind::ExpectingBool)));
}

#[test]
fn integers_in_range() {
    assert_eq!(Some(-128), parse_signed("-128", -128, 127));
    assert_eq!(None, parse_signed("-129", -128, 127));
    assert_eq!(Some(i64::MIN), parse_signed("-9223372036854775808", i64::MIN, i64::MAX));
    assert_eq!(Some(7), parse_signed("+7", 0, 10));
    assert_eq!(None, parse_signed("", 0, 10));
    assert_eq!(None, parse_signed("-", 0, 10));
    assert_eq!(None, parse_signed("1a", 0, 10));
    assert_eq!(Some(u64::MAX), parse_unsigned("18446744073709551615", u64::MAX));
    assert_eq!(None, parse_unsigned("18446744073709551616", u64::MAX));
    assert_eq!(None, parse_unsigned("-0", u64::MAX));
}

#[test]
fn map_keys_by_type() {
    assert!(matches!(parse_key("-5", ElemType::I32), Ok(ReflectValueBox::I32(-5))));
    assert!(matches!(parse_key("2147483648", ElemType::I32), Err(ParseErrorKind::IncorrectNumber)));
    assert!(matches!(parse_key("5000000000", ElemType::I64), Ok(ReflectValueBox::I64(5_000_000_000))));
    assert!(matches!(parse_key("4294967295", ElemType::U32), Ok(ReflectValueBox::U32(u32::MAX))));
    assert!(matches!(parse_key("-1", ElemType::U64), Err(ParseErrorKind::IncorrectNumber)));
    assert!(matches!(parse_key("true", ElemType::Bool), Ok(ReflectValueBox::Bool(true))));
    match parse_key("any text", ElemType::String) {
        Ok(ReflectValueBox::String(s)) => assert_eq!("any text", s),
        _ => panic!("expected a string key"),
    }
}

#[test]
fn enum_names_resolve() {
    let fd = FileDescriptor::new_dynamic(FileProto {
        name: "e.proto".to_string(),
        package: "e".to_string(),
        messages: Vec::new(),
        enums: vec![EnumProto {
            name: "Shade".to_string(),
            values: vec![
                EnumValueProto { name: "LIGHT".to_string(), number: 1 },
                EnumValueProto { name: "DARK".to_string(), number: 2 },
            ],
        }],
    })
    .unwrap();
    let d = protobuf::descriptor::EnumDescriptor { file: fd.share(), index: 0 };
    assert!(matches!(parse_enum("DARK", &d), Ok(2)));
    match parse_enum("DIM", &d) {
        Err(ParseErrorKind::UnknownEnumVariantName(n)) => assert_eq!("DIM", n),
        _ => panic!("expected an unknown name"),
    }
    assert!(!ParseOptions::default().ignore_unknown_fields);
}

#[test]
fn base64_text() {
    assert_eq!(Some(Vec::new()), decode(""));
    assert_eq!(Some(b"hi".to_vec()), decode("aGk="));
    assert_eq!(Some(b"h".to_vec()), decode("aA=="));
    assert_eq!(Some(b"abc".to_vec()), decode("YWJj"));
    assert_eq!(Some(vec![0xfb, 0xff]), decode("+/8="));
    assert_eq!(None, decode("aGk"));
    assert_eq!(None, decode("aG=k"));
    assert_eq!(None, decode("aA==YWJj"));
}
