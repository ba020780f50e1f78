use protobuf::descriptor::{FileDescriptor, MessageDescriptor};
use protobuf::dynamic::DynamicMessage;
use protobuf::index::SchemaError;
use protobuf::schema::{
    EnumProto, EnumValueProto, FieldProto, FieldProtoType, FileProto, Label, MessageProto,
};
use protobuf::generated::GeneratedMessage;
use protobuf::well_known::{BoolValue, Int32Value};
use protobuf::value::{ReflectEqMode, ReflectValueBox, ReflectValueRef, RuntimeFieldType, RuntimeTypeBox};

fn field(name: &str, number: i32, label: Label, typ: FieldProtoType) -> FieldProto {
    FieldProto {
        name: name.to_string(),
        json_name: None,
        number,
        label,
        typ,
        type_ref: String::new(),
        oneof_index: None,
    }
}

fn typed_field(name: &str, number: i32, label: Label, typ: FieldProtoType, type_ref: &str) -> FieldProto {
    let mut f = field(name, number, label, typ);
    f.type_ref = type_ref.to_string();
    f
}

fn message(name: &str, fields: Vec<FieldProto>) -> MessageProto {
    MessageProto {
        name: name.to_string(),
        fields,
        nested_types: Vec::new(),
        enum_types: Vec::new(),
        oneof_decl: Vec::new(),
        extension_count: 0,
        map_entry: false,
    }
}

fn file(package: &str, messages: Vec<MessageProto>) -> FileProto {
    FileProto {
        name: "test.proto".to_string(),
        package: package.to_string(),
        messages,
        enums: Vec::new(),
    }
}

fn load(proto: FileProto) -> FileDescriptor {
    FileDescriptor::new_dynamic(proto).unwrap()
}

fn msg(fd: &FileDescriptor, name: &str) -> MessageDescriptor {
    fd.message_by_package_relative_name(name).unwrap()
}

fn do_test_repeated(fd: &FileDescriptor) {
    let m = msg(fd, "ForDynamicRepeatedTest");
    let f = m.get_field_by_name("ii").unwrap();
    let mut m = m.new_instance();
    assert!(f.get_repeated(&m).is_empty());
    assert!(f.mut_repeated(&mut m).is_empty());
    f.mut_repeated(&mut m).push(ReflectValueBox::U32(19));
    f.mut_repeated(&mut m).push(ReflectValueBox::U32(17));
    assert_eq!(2, f.get_repeated(&m).len());
    assert!(matches!(f.get_repeated(&m).get(1), ReflectValueRef::U32(17)));
    assert!(matches!(f.get_repeated(&m).get(0), ReflectValueRef::U32(19)));
}

fn repeated_schema(package: &str) -> FileProto {
    file(
        package,
        vec![message("ForDynamicRepeatedTest", vec![field("ii", 1, Label::Repeated, FieldProtoType::Uint32)])],
    )
}

#[test]
fn generated_repeated() {
    do_test_repeated(&load(repeated_schema("")));
}

#[test]
fn dynamic_repeated() {
    do_test_repeated(&load(repeated_schema("test.dynamic")));
}

#[test]
fn get_returns_default_value() {
    let fd = load(file(
        "",
        vec![message(
            "MessageForTestGetter",
            vec![
                field("i", 1, Label::Optional, FieldProtoType::Int32),
                field("b", 2, Label::Optional, FieldProtoType::Bool),
            ],
        )],
    ));
    let d = msg(&fd, "MessageForTestGetter");
    let m = d.new_instance();
    let i = d.get_field_by_name("i").unwrap();
    let b = d.get_field_by_name("b").unwrap();
    assert!(matches!(i.get_singular_field_or_default(&m), Some(ReflectValueRef::I32(0))));
    assert!(matches!(b.get_singular_field_or_default(&m), Some(ReflectValueRef::Bool(false))));
    assert!(i.get_singular(&m).is_none());
    let gi = <Int32Value as GeneratedMessage>::new();
    let gb = <BoolValue as GeneratedMessage>::new();
    assert!(matches!(gi.get_field(0), ReflectValueBox::I32(0)));
    assert!(matches!(gb.get_field(0), ReflectValueBox::Bool(false)));
}

fn point_path_schema() -> FileDescriptor {
    load(file(
        "geo",
        vec![
            message(
                "Point",
                vec![
                    field("x", 1, Label::Optional, FieldProtoType::Int32),
                    field("y", 2, Label::Optional, FieldProtoType::Int32),
                ],
            ),
            message(
                "Path",
                vec![typed_field("points", 1, Label::Repeated, FieldProtoType::Message, ".geo.Point")],
            ),
        ],
    ))
}

fn point(d: &MessageDescriptor, x: i32, y: i32) -> DynamicMessage {
    let mut p = d.new_instance();
    d.get_field_by_name("x").unwrap().set_singular_field(&mut p, ReflectValueBox::I32(x));
    d.get_field_by_name("y").unwrap().set_singular_field(&mut p, ReflectValueBox::I32(y));
    p
}

#[test]
fn end_to_end_path_of_points() {
    let fd = point_path_schema();
    let point_d = msg(&fd, "Point");
    let path_d = msg(&fd, "Path");
    let points = path_d.get_field_by_name("points").unwrap();
    let mut path = path_d.new_instance();
    points.mut_repeated(&mut path).push(ReflectValueBox::Message(Box::new(point(&point_d, 1, 2))));
    points.mut_repeated(&mut path).push(ReflectValueBox::Message(Box::new(point(&point_d, 3, 4))));
    let r = points.get_repeated(&path);
    assert_eq!(2, r.len());
    let mode = ReflectEqMode { nan_equal: true };
    match r.get(0) {
        ReflectValueRef::Message(m) => {
            assert!(m.reflect_eq(&point(&point_d, 1, 2), &mode));
            assert!(!m.reflect_eq(&point(&point_d, 3, 4), &mode));
        }
        _ => panic!("not a message"),
    }
    match r.get(1) {
        ReflectValueRef::Message(m) => assert!(m.reflect_eq(&point(&point_d, 3, 4), &mode)),
        _ => panic!("not a message"),
    }
}

fn same_box(a: &ReflectValueBox, b: &ReflectValueBox) -> bool {
    a.reflect_eq(b, &ReflectEqMode { nan_equal: false })
}

fn copy_box(v: &ReflectValueBox) -> ReflectValueBox {
    v.clone_value()
}

#[test]
fn singular_round_trip_all_scalar_kinds() {
    let kinds = vec![
        (FieldProtoType::Int32, ReflectValueBox::I32(-7)),
        (FieldProtoType::Sint64, ReflectValueBox::I64(-1 << 40)),
        (FieldProtoType::Fixed32, ReflectValueBox::U32(u32::MAX)),
        (FieldProtoType::Uint64, ReflectValueBox::U64(u64::MAX)),
        (FieldProtoType::Float, ReflectValueBox::F32(1.5f32.to_bits())),
        (FieldProtoType::Double, ReflectValueBox::F64((-0.25f64).to_bits())),
        (FieldProtoType::Bool, ReflectValueBox::Bool(true)),
        (FieldProtoType::String, ReflectValueBox::String("héllo".to_string())),
        (FieldProtoType::Bytes, ReflectValueBox::Bytes(vec![0, 255, 7])),
    ];
    for (typ, value) in kinds {
        let fd = load(file("", vec![message("M", vec![field("f", 1, Label::Optional, typ)])]));
        let d = msg(&fd, "M");
        let f = d.get_field_by_name("f").unwrap();
        let mut m = d.new_instance();
        assert!(!f.has_field(&m));
        let expected = copy_box(&value);
        assert!(same_box(&expected, &value));
        f.set_singular_field(&mut m, value);
        assert!(f.has_field(&m));
        match (f.get_singular(&m).unwrap(), &expected) {
            (ReflectValueRef::I32(a), ReflectValueBox::I32(b)) => assert_eq!(a, *b),
            (ReflectValueRef::I64(a), ReflectValueBox::I64(b)) => assert_eq!(a, *b),
            (ReflectValueRef::U32(a), ReflectValueBox::U32(b)) => assert_eq!(a, *b),
            (ReflectValueRef::U64(a), ReflectValueBox::U64(b)) => assert_eq!(a, *b),
            (ReflectValueRef::F32(a), ReflectValueBox::F32(b)) => assert_eq!(a, *b),
            (ReflectValueRef::F64(a), ReflectValueBox::F64(b)) => assert_eq!(a, *b),
            (ReflectValueRef::Bool(a), ReflectValueBox::Bool(b)) => assert_eq!(a, *b),
            (ReflectValueRef::String(a), ReflectValueBox::String(b)) => assert_eq!(a, b.as_str()),
            (ReflectValueRef::Bytes(a), ReflectValueBox::Bytes(b)) => assert_eq!(a, b.as_slice()),
            _ => panic!("kind changed"),
        }
        let mode = ReflectEqMode { nan_equal: false };
        let mut other = d.new_instance();
        f.set_singular_field(&mut other, expected);
        assert!(m.reflect_eq(&other, &mode));
        f.clear_field(&mut m);
        assert!(!f.has_field(&m));
        assert!(!m.reflect_eq(&other, &mode));
    }
}

#[test]
fn clone_copies_every_field() {
    let fd = point_path_schema();
    let point_d = msg(&fd, "Point");
    let path_d = msg(&fd, "Path");
    let points = path_d.get_field_by_name("points").unwrap();
    let mut path = path_d.new_instance();
    points.mut_repeated(&mut path).push(ReflectValueBox::Message(Box::new(point(&point_d, 5, 6))));
    path.add_unknown_field(9, vec![0x48, 0x01]);
    let copy = path.clone_message();
    let mode = ReflectEqMode { nan_equal: false };
    assert!(copy.reflect_eq(&path, &mode));
    let mut out = Vec::new();
    copy.write_unknown_fields(&mut out);
    assert_eq!(vec![0x48u8, 0x01], out);
    points.mut_repeated(&mut path).clear();
    assert!(!copy.reflect_eq(&path, &mode));
    assert_eq!(1, points.get_repeated(&copy).len());
}

#[test]
fn enum_field_defaults_to_first_value() {
    let mut proto = file(
        "p",
        vec![message("M", vec![typed_field("e", 1, Label::Optional, FieldProtoType::Enum, ".p.Color")])],
    );
    proto.enums.push(EnumProto {
        name: "Color".to_string(),
        values: vec![
            EnumValueProto { name: "RED".to_string(), number: 3 },
            EnumValueProto { name: "BLUE".to_string(), number: 5 },
        ],
    });
    let fd = load(proto);
    let d = msg(&fd, "M");
    let m = d.new_instance();
    let e = d.get_field_by_name("e").unwrap();
    match e.get_singular_field_or_default(&m) {
        Some(ReflectValueRef::Enum(ed, n)) => {
            assert_eq!(3, n);
            assert_eq!("p.Color", ed.full_name());
            assert_eq!(Some(5), ed.get_value_by_name("BLUE"));
            assert_eq!(Some("RED"), ed.get_value_by_number(3));
            assert_eq!(None, ed.get_value_by_number(4));
        }
        _ => panic!("expected an enum default"),
    }
}

#[test]
fn message_field_unset_reads_as_absent() {
    let fd2 = load(file(
        "geo",
        vec![
            message("Point", vec![field("x", 1, Label::Optional, FieldProtoType::Int32)]),
            message("Holder", vec![typed_field("p", 1, Label::Optional, FieldProtoType::Message, ".geo.Point")]),
        ],
    ));
    let d = msg(&fd2, "Holder");
    let m = d.new_instance();
    let p = d.get_field_by_name("p").unwrap();
    assert!(p.get_singular_field_or_default(&m).is_none());
    assert!(matches!(p.runtime_field_type(), RuntimeFieldType::Singular(RuntimeTypeBox::Message(_))));
}

fn oneof_schema() -> FileDescriptor {
    let mut a = field("a", 1, Label::Optional, FieldProtoType::Int32);
    a.oneof_index = Some(0);
    let mut b = field("b", 2, Label::Optional, FieldProtoType::String);
    b.oneof_index = Some(0);
    let c = field("c", 3, Label::Optional, FieldProtoType::Bool);
    let mut m = message("Choice", vec![a, b, c]);
    m.oneof_decl.push("which".to_string());
    load(file("", vec![m]))
}

#[test]
fn oneof_setting_second_clears_first() {
    let fd = oneof_schema();
    let d = msg(&fd, "Choice");
    let a = d.get_field_by_name("a").unwrap();
    let b = d.get_field_by_name("b").unwrap();
    let c = d.get_field_by_name("c").unwrap();
    let mut m = d.new_instance();
    c.set_singular_field(&mut m, ReflectValueBox::Bool(true));
    a.set_singular_field(&mut m, ReflectValueBox::I32(5));
    assert!(a.has_field(&m));
    b.set_singular_field(&mut m, ReflectValueBox::String("x".to_string()));
    assert!(!a.has_field(&m));
    assert!(b.has_field(&m));
    assert!(c.has_field(&m));
    let o = a.containing_oneof().unwrap();
    assert_eq!("which", o.name());
    assert_eq!(2, o.fields().len());
    assert!(c.containing_oneof().is_none());
}

#[test]
fn nan_equality_modes() {
    let fd = load(file("", vec![message("F", vec![field("d", 1, Label::Optional, FieldProtoType::Double)])]));
    let d = msg(&fd, "F");
    let f = d.get_field_by_name("d").unwrap();
    let mut m = d.new_instance();
    f.set_singular_field(&mut m, ReflectValueBox::F64(f64::NAN.to_bits()));
    assert!(m.reflect_eq(&m, &ReflectEqMode { nan_equal: true }));
    assert!(!m.reflect_eq(&m, &ReflectEqMode { nan_equal: false }));
    let zero = ReflectValueBox::F32(0.0f32.to_bits());
    let neg_zero = ReflectValueBox::F32((-0.0f32).to_bits());
    assert!(zero.reflect_eq(&neg_zero, &ReflectEqMode { nan_equal: false }));
}

fn map_schema() -> FileDescriptor {
    let mut entry = message(
        "CountsEntry",
        vec![
            field("key", 1, Label::Optional, FieldProtoType::String),
            field("value", 2, Label::Optional, FieldProtoType::Int32),
        ],
    );
    entry.map_entry = true;
    let mut m = message(
        "Counter",
        vec![typed_field("counts", 1, Label::Repeated, FieldProtoType::Message, ".c.Counter.CountsEntry")],
    );
    m.nested_types.push(entry);
    load(file("c", vec![m]))
}

#[test]
fn map_equality_ignores_insertion_order() {
    let fd = map_schema();
    let d = msg(&fd, "Counter");
    let f = d.get_field_by_name("counts").unwrap();
    assert!(f.is_map());
    let mut a = d.new_instance();
    let mut b = d.new_instance();
    {
        let mut ma = f.mut_map(&mut a);
        ma.insert(ReflectValueBox::String("a".to_string()), ReflectValueBox::I32(1));
        ma.insert(ReflectValueBox::String("b".to_string()), ReflectValueBox::I32(2));
    }
    {
        let mut mb = f.mut_map(&mut b);
        mb.insert(ReflectValueBox::String("b".to_string()), ReflectValueBox::I32(2));
        mb.insert(ReflectValueBox::String("a".to_string()), ReflectValueBox::I32(1));
    }
    let mode = ReflectEqMode { nan_equal: true };
    assert!(a.reflect_eq(&b, &mode));
    assert!(a.reflect_eq(&b, &ReflectEqMode { nan_equal: false }));
    assert!(f.get_map(&a).reflect_eq(&f.get_map(&b), &mode));
    {
        let mut mb = f.mut_map(&mut b);
        mb.insert(ReflectValueBox::String("a".to_string()), ReflectValueBox::I32(9));
        assert_eq!(2, mb.len());
    }
    assert!(!a.reflect_eq(&b, &mode));
    let r = f.get_map(&a);
    assert_eq!(2, r.len());
    assert!(matches!(r.get(ReflectValueRef::String("b")), Some(ReflectValueRef::I32(2))));
    assert!(r.get(ReflectValueRef::String("z")).is_none());
    assert!(matches!(r.key_type(), RuntimeTypeBox::String));
    assert!(matches!(r.value_type(), RuntimeTypeBox::I32));
    let mut it = r.iter();
    let mut n = 0;
    while let Some(_) = it.next() {
        n += 1;
    }
    assert_eq!(2, n);
    f.mut_map(&mut a).clear();
    assert!(f.get_map(&a).is_empty());
}

#[test]
fn map_entry_detection() {
    let fd = map_schema();
    let entry = fd.message_by_full_name("c.Counter.CountsEntry").unwrap();
    assert!(entry.is_map_entry());
    assert!(!msg(&fd, "Counter").is_map_entry());
    assert_eq!(1, msg(&fd, "Counter").get_nested_messages().len());
    let not_entry = load(file(
        "",
        vec![message(
            "Pair",
            vec![
                field("key", 1, Label::Optional, FieldProtoType::String),
                field("value", 3, Label::Optional, FieldProtoType::Int32),
            ],
        )],
    ));
    assert!(!msg(&not_entry, "Pair").is_map_entry());
    let shaped = load(file(
        "",
        vec![message(
            "Pair",
            vec![
                field("key", 1, Label::Optional, FieldProtoType::String),
                field("value", 2, Label::Optional, FieldProtoType::Int32),
            ],
        )],
    ));
    assert!(msg(&shaped, "Pair").is_map_entry());
}

#[test]
fn lookups_agree_on_every_field() {
    let fd = load(file(
        "",
        vec![message(
            "Person",
            vec![
                field("first_name", 1, Label::Optional, FieldProtoType::String),
                field("age_in_years", 7, Label::Optional, FieldProtoType::Uint32),
            ],
        )],
    ));
    let d = msg(&fd, "Person");
    for f in d.fields() {
        let by_number = d.get_field_by_number(f.number()).unwrap();
        let by_name = d.get_field_by_name(f.name()).unwrap();
        let by_json = d.get_field_by_json_name(f.json_name()).unwrap();
        assert_eq!(f.index, by_number.index);
        assert_eq!(f.index, by_name.index);
        assert_eq!(f.index, by_json.index);
    }
    assert_eq!("firstName", d.get_field_by_number(1).unwrap().json_name());
    assert_eq!(1, d.get_field_by_name_or_json_name("ageInYears").unwrap().index);
    assert!(d.get_field_by_number(2).is_none());
    assert!(d.get_field_by_name("nope").is_none());
}

#[test]
fn schema_errors_are_reported() {
    let dup = file(
        "",
        vec![message(
            "M",
            vec![
                field("a", 1, Label::Optional, FieldProtoType::Int32),
                field("b", 1, Label::Optional, FieldProtoType::Int32),
            ],
        )],
    );
    assert_eq!(
        Err(SchemaError::DuplicateFieldNumber { message: 0, field: 1 }),
        FileDescriptor::new_dynamic(dup).map(|_| ())
    );
    let unresolved = file(
        "",
        vec![message("M", vec![typed_field("a", 1, Label::Optional, FieldProtoType::Message, ".Nope")])],
    );
    assert_eq!(
        Err(SchemaError::UnresolvedType { message: 0, field: 0 }),
        FileDescriptor::new_dynamic(unresolved).map(|_| ())
    );
    let range = file("", vec![message("M", vec![field("a", 0, Label::Optional, FieldProtoType::Int32)])]);
    assert_eq!(
        Err(SchemaError::FieldNumberOutOfRange { message: 0, field: 0 }),
        FileDescriptor::new_dynamic(range).map(|_| ())
    );
    let mut bad_entry = message("BadEntry", vec![field("key", 1, Label::Optional, FieldProtoType::Int32)]);
    bad_entry.map_entry = true;
    assert_eq!(
        Err(SchemaError::MalformedMapEntry { message: 0 }),
        FileDescriptor::new_dynamic(file("", vec![bad_entry])).map(|_| ())
    );
    let mut o = field("a", 1, Label::Optional, FieldProtoType::Int32);
    o.oneof_index = Some(2);
    assert_eq!(
        Err(SchemaError::OneofIndexOutOfRange { message: 0, field: 0 }),
        FileDescriptor::new_dynamic(file("", vec![message("M", vec![o])])).map(|_| ())
    );
    let mut r = field("a", 1, Label::Repeated, FieldProtoType::Int32);
    r.oneof_index = Some(0);
    let mut rm = message("M", vec![r]);
    rm.oneof_decl.push("o".to_string());
    assert_eq!(
        Err(SchemaError::RepeatedFieldInOneof { message: 0, field: 0 }),
        FileDescriptor::new_dynamic(file("", vec![rm])).map(|_| ())
    );
    let names = file(
        "",
        vec![message(
            "M",
            vec![
                field("a", 1, Label::Optional, FieldProtoType::Int32),
                field("a", 2, Label::Optional, FieldProtoType::Int32),
            ],
        )],
    );
    assert_eq!(
        Err(SchemaError::DuplicateFieldName { message: 0, field: 1 }),
        FileDescriptor::new_dynamic(names).map(|_| ())
    );
    let jsons = file(
        "",
        vec![message(
            "M",
            vec![
                field("a_b", 1, Label::Optional, FieldProtoType::Int32),
                field("aB", 2, Label::Optional, FieldProtoType::Int32),
            ],
        )],
    );
    assert_eq!(
        Err(SchemaError::DuplicateJsonName { message: 0, field: 1 }),
        FileDescriptor::new_dynamic(jsons).map(|_| ())
    );
    let mut x = field("x", 1, Label::Optional, FieldProtoType::Int32);
    x.json_name = Some("y".to_string());
    let crossed = file("", vec![message("M", vec![x, field("y", 2, Label::Optional, FieldProtoType::Int32)])]);
    assert_eq!(
        Err(SchemaError::DuplicateJsonName { message: 0, field: 1 }),
        FileDescriptor::new_dynamic(crossed).map(|_| ())
    );
    let mut entry = message(
        "FEntry",
        vec![
            field("key", 1, Label::Optional, FieldProtoType::Double),
            field("value", 2, Label::Optional, FieldProtoType::Int32),
        ],
    );
    entry.map_entry = true;
    let mut holder = message("H", vec![typed_field("f", 1, Label::Repeated, FieldProtoType::Message, ".H.FEntry")]);
    holder.nested_types.push(entry);
    assert_eq!(
        Err(SchemaError::InvalidMapKey { message: 0, field: 0 }),
        FileDescriptor::new_dynamic(file("", vec![holder])).map(|_| ())
    );
}

#[test]
fn nested_messages_flatten_depth_first() {
    let mut outer = message("Outer", vec![]);
    let mut inner = message("Inner", vec![]);
    inner.nested_types.push(message("Deep", vec![]));
    outer.nested_types.push(inner);
    outer.nested_types.push(message("Second", vec![]));
    let fd = load(file("pkg", vec![outer, message("Next", vec![])]));
    let names: Vec<String> = (0..5)
        .map(|i| MessageDescriptor { file: fd.share(), index: i }.full_name().to_string())
        .collect();
    assert_eq!(
        vec!["pkg.Outer", "pkg.Outer.Inner", "pkg.Outer.Inner.Deep", "pkg.Outer.Second", "pkg.Next"],
        names
    );
    assert_eq!(2, fd.messages().len());
    assert_eq!("Deep", msg(&fd, "Outer.Inner.Deep").name());
}

#[test]
fn unknown_fields_survive_mutation() {
    let fd = point_path_schema();
    let d = msg(&fd, "Point");
    let mut m = d.new_instance();
    let record = vec![0x98u8, 0x06, 0x2a];
    m.add_unknown_field(99, record.clone());
    m.add_unknown_field(100, vec![0xa2, 0x06, 0x01, 0x7f]);
    m.set_cached_size(12);
    assert_eq!(Some(12), m.get_cached_size());
    d.get_field_by_name("x").unwrap().set_singular_field(&mut m, ReflectValueBox::I32(1));
    assert_eq!(None, m.get_cached_size());
    d.get_field_by_name("x").unwrap().clear_field(&mut m);
    let mut out = vec![0x08u8, 0x01];
    m.write_unknown_fields(&mut out);
    assert_eq!(vec![0x08u8, 0x01, 0x98, 0x06, 0x2a, 0xa2, 0x06, 0x01, 0x7f], out);
    let empty = d.new_instance();
    let mode = ReflectEqMode { nan_equal: false };
    assert!(m.reflect_eq(&empty, &mode));
}

#[test]
fn required_fields_are_checked() {
    let fd = load(file(
        "r",
        vec![
            message("Inner", vec![field("need", 1, Label::Required, FieldProtoType::Int32)]),
            message(
                "Outer",
                vec![
                    field("id", 1, Label::Required, FieldProtoType::Uint64),
                    typed_field("inner", 2, Label::Optional, FieldProtoType::Message, ".r.Inner"),
                ],
            ),
        ],
    ));
    let outer_d = msg(&fd, "Outer");
    let inner_d = msg(&fd, "Inner");
    let mut m = outer_d.new_instance();
    match m.check_initialized() {
        Err(e) => assert_eq!("Outer", e.message),
        Ok(()) => panic!("id is not set"),
    }
    outer_d.get_field_by_name("id").unwrap().set_singular_field(&mut m, ReflectValueBox::U64(1));
    assert!(m.is_initialized());
    let inner = inner_d.new_instance();
    outer_d
        .get_field_by_name("inner")
        .unwrap()
        .set_singular_field(&mut m, ReflectValueBox::Message(Box::new(inner)));
    assert!(!m.is_initialized());
    let mut inner = inner_d.new_instance();
    inner_d.get_field_by_name("need").unwrap().set_singular_field(&mut inner, ReflectValueBox::I32(0));
    outer_d
        .get_field_by_name("inner")
        .unwrap()
        .set_singular_field(&mut m, ReflectValueBox::Message(Box::new(inner)));
    assert!(m.check_initialized().is_ok());
}

#[test]
fn unset_field_equals_its_default() {
    let fd = point_path_schema();
    let d = msg(&fd, "Point");
    let x = d.get_field_by_name("x").unwrap();
    let unset = d.new_instance();
    let mut zero = d.new_instance();
    x.set_singular_field(&mut zero, ReflectValueBox::I32(0));
    let mode = ReflectEqMode { nan_equal: false };
    assert!(unset.reflect_eq(&zero, &mode));
    assert!(zero.reflect_eq(&unset, &mode));
    let mut one = d.new_instance();
    x.set_singular_field(&mut one, ReflectValueBox::I32(1));
    assert!(!unset.reflect_eq(&one, &mode));
}
