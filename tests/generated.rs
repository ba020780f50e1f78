use protobuf::descriptor::{Backing, FileDescriptor, GeneratedMessageData};
use protobuf::index::SchemaError;
use protobuf::schema::{FieldProto, FieldProtoType, FileProto, Label, MessageProto};
use protobuf::well_known::FieldMask;
use protobuf::generated::{merge_from_dynamic, reflect_eq_generated, to_dynamic, GeneratedMessage};
use protobuf::value::{ReflectEqMode, ReflectValueBox, ReflectValueRef};
use protobuf::well_known::{BoolValue, Duration, Int32Value, StringValue, Timestamp};

#[test]
fn generated_set_get_round_trip() {
    let mut d = <Duration as GeneratedMessage>::new();
    assert!(!d.has_field(0));
    d.set_field(0, ReflectValueBox::I64(-5));
    d.set_field(1, ReflectValueBox::I32(7));
    assert_eq!(Duration { seconds: -5, nanos: 7 }, d);
    assert!(matches!(d.get_field(0), ReflectValueBox::I64(-5)));
    assert!(matches!(d.get_field(1), ReflectValueBox::I32(7)));
    let mut s = <StringValue as GeneratedMessage>::new();
    s.set_field(0, ReflectValueBox::String("hi".to_string()));
    assert_eq!("hi", s.value);
    assert!(s.has_field(0));
}

#[test]
fn generated_descriptor_names_fields() {
    let d = Duration::descriptor_static();
    assert_eq!("google.protobuf.Duration", d.full_name());
    assert_eq!(1, d.get_field_by_name("seconds").unwrap().number());
    assert_eq!(2, d.get_field_by_name("nanos").unwrap().number());
    assert_eq!("google.protobuf.Timestamp", Timestamp::descriptor_static().full_name());
    assert_eq!("value", Int32Value::descriptor_static().get_field_by_number(1).unwrap().name());
}

#[test]
fn generated_and_dynamic_compare_equal() {
    let g = Duration { seconds: 3, nanos: 0 };
    let d = Duration::descriptor_static();
    let mut m = d.new_instance();
    d.get_field_by_name("seconds").unwrap().set_singular_field(&mut m, ReflectValueBox::I64(3));
    let mode = ReflectEqMode { nan_equal: true };
    assert!(reflect_eq_generated(&g, &m, &mode));
    let other = Duration { seconds: 3, nanos: 1 };
    assert!(!reflect_eq_generated(&other, &m, &mode));
    let copy = to_dynamic(&other);
    let nanos = d.get_field_by_name("nanos").unwrap();
    assert!(matches!(nanos.get_singular(&copy), Some(ReflectValueRef::I32(1))));
    let mut back = <Duration as GeneratedMessage>::new();
    merge_from_dynamic(&mut back, &copy);
    assert_eq!(other, back);
}

#[test]
fn wrapper_defaults_read_as_unset() {
    let b = <BoolValue as GeneratedMessage>::new();
    let m = to_dynamic(&b);
    let f = BoolValue::descriptor_static().get_field_by_name("value").unwrap();
    assert!(f.get_singular(&m).is_none());
    assert!(matches!(f.get_singular_field_or_default(&m), Some(ReflectValueRef::Bool(false))));
    let i = Int32Value { value: 42 };
    let mi = to_dynamic(&i);
    let fi = Int32Value::descriptor_static().get_field_by_name("value").unwrap();
    assert!(matches!(fi.get_singular(&mi), Some(ReflectValueRef::I32(42))));
}

#[test]
fn generated_repeated_field_mask() {
    let mut fm = <FieldMask as GeneratedMessage>::new();
    assert_eq!(0, fm.repeated_len(0));
    fm.repeated_push(0, ReflectValueBox::String("a.b".to_string()));
    fm.repeated_push(0, ReflectValueBox::String("c".to_string()));
    assert_eq!(2, fm.repeated_len(0));
    match fm.repeated_get(0, 1) {
        ReflectValueBox::String(s) => assert_eq!("c", s),
        _ => panic!("expected a string"),
    }
    let d = FieldMask::descriptor_static();
    let paths = d.get_field_by_name("paths").unwrap();
    assert!(paths.is_repeated());
    let m = to_dynamic(&fm);
    assert_eq!(2, paths.get_repeated(&m).len());
    assert!(matches!(paths.get_repeated(&m).get(0), ReflectValueRef::String("a.b")));
    let mode = ReflectEqMode { nan_equal: false };
    assert!(reflect_eq_generated(&fm, &m, &mode));
    let mut back = <FieldMask as GeneratedMessage>::new();
    back.repeated_push(0, ReflectValueBox::String("z".to_string()));
    merge_from_dynamic(&mut back, &m);
    assert_eq!(vec!["z".to_string(), "a.b".to_string(), "c".to_string()], back.paths);
    assert!(!reflect_eq_generated(&back, &m, &mode));
}

#[test]
fn generated_file_needs_data_for_every_message() {
    let proto = || FileProto {
        name: "g.proto".to_string(),
        package: "g".to_string(),
        messages: vec![MessageProto {
            name: "A".to_string(),
            fields: vec![FieldProto {
                name: "x".to_string(),
                json_name: None,
                number: 1,
                label: Label::Optional,
                typ: FieldProtoType::Int32,
                type_ref: String::new(),
                oneof_index: None,
            }],
            nested_types: Vec::new(),
            enum_types: Vec::new(),
            oneof_decl: Vec::new(),
            extension_count: 0,
            map_entry: false,
        }],
        enums: Vec::new(),
    };
    let fd = FileDescriptor::new_generated(&proto(), vec![GeneratedMessageData { full_name: "g.A".to_string() }]).unwrap();
    assert_eq!(Backing::Generated, fd.backing);
    assert_eq!("g.A", fd.message_by_package_relative_name("A").unwrap().full_name());
    assert!(matches!(
        FileDescriptor::new_generated(&proto(), vec![GeneratedMessageData { full_name: "g.B".to_string() }]),
        Err(SchemaError::MissingGeneratedData { message: 0 })
    ));
    assert_eq!(Backing::Dynamic, FileDescriptor::new_dynamic(proto()).unwrap().backing);
}
