use protobuf::descriptor::{FileDescriptor, MessageDescriptor};
use protobuf::json::{ParseErrorKind, ParseOptions};
use protobuf::json_merge::{merge_object, JsonValue};
use protobuf::schema::{FieldProto, FieldProtoType, FileProto, Label, MessageProto};
use protobuf::value::{ReflectEqMode, ReflectValueBox, ReflectValueRef};

fn field(name: &str, number: i32, label: Label, typ: FieldProtoType, type_ref: &str) -> FieldProto {
    FieldProto {
        name: name.to_string(),
        json_name: None,
        number,
        label,
        typ,
        type_ref: type_ref.to_string(),
        oneof_index: None,
    }
}

fn message(name: &str, fields: Vec<FieldProto>) -> MessageProto {
    MessageProto {
        name: name.to_string(),
        fields,
        nested_types: Vec::new(),
        enum_types: Vec::new(),
        oneof_decl: Vec::new(),
        extension_count: 0,
        map_entry: false,
    }
}

fn schema() -> FileDescriptor {
    let mut entry = message(
        "TagsEntry",
        vec![
            field("key", 1, Label::Optional, FieldProtoType::String, ""),
            field("value", 2, Label::Optional, FieldProtoType::Int64, ""),
        ],
    );
    entry.map_entry = true;
    let mut item = message(
        "Item",
        vec![
            field("item_id", 1, Label::Optional, FieldProtoType::Int32, ""),
            field("name", 2, Label::Optional, FieldProtoType::String, ""),
            field("ratio", 3, Label::Optional, FieldProtoType::Double, ""),
            field("scores", 4, Label::Repeated, FieldProtoType::Uint32, ""),
            field("child", 5, Label::Optional, FieldProtoType::Message, ".j.Item"),
            field("tags", 6, Label::Repeated, FieldProtoType::Message, ".j.Item.TagsEntry"),
            field("ok", 7, Label::Optional, FieldProtoType::Bool, ""),
        ],
    );
    item.nested_types.push(entry);
    FileDescriptor::new_dynamic(FileProto {
        name: "j.proto".to_string(),
        package: "j".to_string(),
        messages: vec![item],
        enums: Vec::new(),
    })
    .unwrap()
}

fn s(x: &str) -> JsonValue {
    JsonValue::String(x.to_string())
}

fn num(text: &str, v: f64) -> JsonValue {
    JsonValue::Number { text: text.to_string(), f64_bits: v.to_bits(), f32_bits: (v as f32).to_bits() }
}

fn item(fd: &FileDescriptor) -> MessageDescriptor {
    fd.message_by_package_relative_name("Item").unwrap()
}

#[test]
fn merges_fields_by_name_and_json_name() {
    let fd = schema();
    let d = item(&fd);
    let mut m = d.new_instance();
    let entries = vec![
        ("itemId".to_string(), num("42", 42.0)),
        ("name".to_string(), s("box")),
        ("ratio".to_string(), num("0.5", 0.5)),
        ("scores".to_string(), JsonValue::Array(vec![num("1", 1.0), s("2")])),
        ("child".to_string(), JsonValue::Object(vec![("item_id".to_string(), num("7", 7.0))])),
        ("tags".to_string(), JsonValue::Object(vec![("a".to_string(), s("-3")), ("b".to_string(), num("4", 4.0))])),
        ("ok".to_string(), JsonValue::Bool(true)),
    ];
    assert!(merge_object(&mut m, &entries, &ParseOptions::default()).is_ok());
    let f = |n: &str| d.get_field_by_name(n).unwrap();
    assert!(matches!(f("item_id").get_singular(&m), Some(ReflectValueRef::I32(42))));
    assert!(matches!(f("name").get_singular(&m), Some(ReflectValueRef::String("box"))));
    match f("ratio").get_singular(&m) {
        Some(ReflectValueRef::F64(bits)) => assert_eq!(0.5, f64::from_bits(bits)),
        _ => panic!("ratio not set"),
    }
    assert_eq!(2, f("scores").get_repeated(&m).len());
    assert!(matches!(f("scores").get_repeated(&m).get(1), ReflectValueRef::U32(2)));
    match f("child").get_singular(&m) {
        Some(ReflectValueRef::Message(c)) => {
            assert!(matches!(f("item_id").get_singular(c), Some(ReflectValueRef::I32(7))))
        }
        _ => panic!("child not set"),
    }
    let tags = f("tags").get_map(&m);
    assert_eq!(2, tags.len());
    assert!(matches!(tags.get(ReflectValueRef::String("a")), Some(ReflectValueRef::I64(-3))));
    assert!(matches!(f("ok").get_singular(&m), Some(ReflectValueRef::Bool(true))));
}

#[test]
fn unknown_keys_fail_unless_ignored() {
    let fd = schema();
    let d = item(&fd);
    let entries = vec![("nope".to_string(), num("1", 1.0)), ("name".to_string(), s("x"))];
    let mut m = d.new_instance();
    match merge_object(&mut m, &entries, &ParseOptions::default()) {
        Err(ParseErrorKind::UnknownFieldName(k)) => assert_eq!("nope", k),
        _ => panic!("expected an unknown field"),
    }
    let mut m = d.new_instance();
    assert!(merge_object(&mut m, &entries, &ParseOptions { ignore_unknown_fields: true }).is_ok());
    assert!(matches!(d.get_field_by_name("name").unwrap().get_singular(&m), Some(ReflectValueRef::String("x"))));
    let nested = vec![("child".to_string(), JsonValue::Object(vec![("zzz".to_string(), JsonValue::Null)]))];
    let mut m = d.new_instance();
    assert!(matches!(
        merge_object(&mut m, &nested, &ParseOptions::default()),
        Err(ParseErrorKind::UnknownFieldName(_))
    ));
    let mut m = d.new_instance();
    assert!(merge_object(&mut m, &nested, &ParseOptions { ignore_unknown_fields: true }).is_ok());
}

#[test]
fn bad_values_are_errors() {
    let fd = schema();
    let d = item(&fd);
    let mut m = d.new_instance();
    let too_big = vec![("item_id".to_string(), num("2147483648", 2147483648.0))];
    assert!(matches!(merge_object(&mut m, &too_big, &ParseOptions::default()), Err(ParseErrorKind::IncorrectNumber)));
    let not_bool = vec![("ok".to_string(), s("true"))];
    assert!(matches!(merge_object(&mut m, &not_bool, &ParseOptions::default()), Err(ParseErrorKind::ExpectingBool)));
    let later_wins = vec![("name".to_string(), s("a")), ("name".to_string(), s("b"))];
    let mut m2 = d.new_instance();
    merge_object(&mut m2, &later_wins, &ParseOptions::default()).unwrap();
    let mut m3 = d.new_instance();
    d.get_field_by_name("name").unwrap().set_singular_field(&mut m3, ReflectValueBox::String("b".to_string()));
    assert!(m2.reflect_eq(&m3, &ReflectEqMode { nan_equal: false }));
    let nulls = vec![("scores".to_string(), JsonValue::Null)];
    assert!(merge_object(&mut m2, &nulls, &ParseOptions::default()).is_ok());
}

#[test]
fn first_unknown_key_is_reported() {
    let fd = schema();
    let d = item(&fd);
    let entries = vec![
        ("name".to_string(), s("x")),
        ("first".to_string(), JsonValue::Null),
        ("second".to_string(), JsonValue::Null),
    ];
    let mut m = d.new_instance();
    match merge_object(&mut m, &entries, &ParseOptions::default()) {
        Err(ParseErrorKind::UnknownFieldName(k)) => assert_eq!("first", k),
        _ => panic!("expected the first unknown key"),
    }
}

#[test]
fn name_and_json_name_merge_alike() {
    let fd = schema();
    let d = item(&fd);
    let mut a = d.new_instance();
    let mut b = d.new_instance();
    merge_object(&mut a, &vec![("item_id".to_string(), num("5", 5.0))], &ParseOptions::default()).unwrap();
    merge_object(&mut b, &vec![("itemId".to_string(), num("5", 5.0))], &ParseOptions::default()).unwrap();
    assert!(a.reflect_eq(&b, &ReflectEqMode { nan_equal: false }));
}

fn bytes_schema() -> FileDescriptor {
    let mut dur = message(
        "Duration",
        vec![
            field("seconds", 1, Label::Optional, FieldProtoType::Int64, ""),
            field("nanos", 2, Label::Optional, FieldProtoType::Int32, ""),
        ],
    );
    dur.nested_types = Vec::new();
    let holder = message(
        "Holder",
        vec![
            field("data", 1, Label::Optional, FieldProtoType::Bytes, ""),
            field("wait", 2, Label::Optional, FieldProtoType::Message, ".google.protobuf.Duration"),
        ],
    );
    FileDescriptor::new_dynamic(FileProto {
        name: "h.proto".to_string(),
        package: "google.protobuf".to_string(),
        messages: vec![dur, holder],
        enums: Vec::new(),
    })
    .unwrap()
}

#[test]
fn bytes_fields_read_base64() {
    let fd = bytes_schema();
    let d = fd.message_by_package_relative_name("Holder").unwrap();
    let data = d.get_field_by_name("data").unwrap();
    let mut m = d.new_instance();
    merge_object(&mut m, &vec![("data".to_string(), s("aGk="))], &ParseOptions::default()).unwrap();
    assert!(matches!(data.get_singular(&m), Some(ReflectValueRef::Bytes(b"hi"))));
    merge_object(&mut m, &vec![("data".to_string(), s("AAEC/w=="))], &ParseOptions::default()).unwrap();
    assert!(matches!(data.get_singular(&m), Some(ReflectValueRef::Bytes(&[0, 1, 2, 255]))));
    let mut m2 = d.new_instance();
    assert!(matches!(
        merge_object(&mut m2, &vec![("data".to_string(), s("a*=="))], &ParseOptions::default()),
        Err(ParseErrorKind::IncorrectBase64)
    ));
}

#[test]
fn durations_are_read_from_text() {
    let fd = bytes_schema();
    let d = fd.message_by_package_relative_name("Holder").unwrap();
    let dur = fd.message_by_package_relative_name("Duration").unwrap();
    let wait = d.get_field_by_name("wait").unwrap();
    let mut m = d.new_instance();
    merge_object(&mut m, &vec![("wait".to_string(), s("-1.5s"))], &ParseOptions::default()).unwrap();
    match wait.get_singular(&m) {
        Some(ReflectValueRef::Message(w)) => {
            assert!(matches!(dur.get_field_by_name("seconds").unwrap().get_singular(w), Some(ReflectValueRef::I64(-1))));
            assert!(matches!(
                dur.get_field_by_name("nanos").unwrap().get_singular(w),
                Some(ReflectValueRef::I32(-500_000_000))
            ));
        }
        _ => panic!("duration not set"),
    }
    let mut m2 = d.new_instance();
    assert!(matches!(
        merge_object(&mut m2, &vec![("wait".to_string(), s("1.5"))], &ParseOptions::default()),
        Err(ParseErrorKind::IncorrectDuration)
    ));
    let mut m3 = d.new_instance();
    merge_object(
        &mut m3,
        &vec![("wait".to_string(), JsonValue::Object(vec![("seconds".to_string(), num("2", 2.0))]))],
        &ParseOptions::default(),
    )
    .unwrap();
}

#[test]
fn oneof_members_in_one_object() {
    let mut a = field("a", 1, Label::Optional, FieldProtoType::Int32, "");
    a.oneof_index = Some(0);
    let mut b = field("b", 2, Label::Optional, FieldProtoType::String, "");
    b.oneof_index = Some(0);
    let mut msg = message("Choice", vec![a, b]);
    msg.oneof_decl.push("which".to_string());
    let fd = FileDescriptor::new_dynamic(FileProto {
        name: "c.proto".to_string(),
        package: String::new(),
        messages: vec![msg],
        enums: Vec::new(),
    })
    .unwrap();
    let d = fd.message_by_package_relative_name("Choice").unwrap();
    let mut m = d.new_instance();
    merge_object(&mut m, &vec![("a".to_string(), num("1", 1.0)), ("b".to_string(), s("z"))], &ParseOptions::default())
        .unwrap();
    assert!(!d.get_field_by_name("a").unwrap().has_field(&m));
    assert!(matches!(d.get_field_by_name("b").unwrap().get_singular(&m), Some(ReflectValueRef::String("z"))));
}

#[test]
fn wrappers_are_read_from_bare_values() {
    let holder = message(
        "Box",
        vec![
            field("count", 1, Label::Optional, FieldProtoType::Message, ".google.protobuf.Int32Value"),
            field("blob", 2, Label::Optional, FieldProtoType::Message, ".google.protobuf.BytesValue"),
        ],
    );
    let fd = FileDescriptor::new_dynamic(FileProto {
        name: "w.proto".to_string(),
        package: "google.protobuf".to_string(),
        messages: vec![
            message("Int32Value", vec![field("value", 1, Label::Optional, FieldProtoType::Int32, "")]),
            message("BytesValue", vec![field("value", 1, Label::Optional, FieldProtoType::Bytes, "")]),
            holder,
        ],
        enums: Vec::new(),
    })
    .unwrap();
    let d = fd.message_by_package_relative_name("Box").unwrap();
    let int_d = fd.message_by_package_relative_name("Int32Value").unwrap();
    let mut m = d.new_instance();
    merge_object(
        &mut m,
        &vec![("count".to_string(), num("12", 12.0)), ("blob".to_string(), s("AQI="))],
        &ParseOptions::default(),
    )
    .unwrap();
    match d.get_field_by_name("count").unwrap().get_singular(&m) {
        Some(ReflectValueRef::Message(w)) => {
            assert!(matches!(int_d.get_field_by_name("value").unwrap().get_singular(w), Some(ReflectValueRef::I32(12))))
        }
        _ => panic!("wrapper not set"),
    }
    let mut m2 = d.new_instance();
    merge_object(
        &mut m2,
        &vec![("count".to_string(), JsonValue::Object(vec![("value".to_string(), num("12", 12.0))]))],
        &ParseOptions::default(),
    )
    .unwrap();
    let mut m3 = d.new_instance();
    merge_object(&mut m3, &vec![("count".to_string(), num("12", 12.0))], &ParseOptions::default()).unwrap();
    assert!(m2.reflect_eq(&m3, &ReflectEqMode { nan_equal: false }));
}
