use protobuf::model::{
    FieldNumberRange, Import, ImportVis, Loc, ProtobufOptionName, ProtobufOptionNameComponent,
    Syntax, WithLoc,
};

#[test]
fn option_name_simple() {
    let n = ProtobufOptionName::simple("deprecated");
    assert_eq!(Some(&"deprecated".to_string()), n.get_simple());
    assert_eq!("deprecated", n.full_name());
}

#[test]
fn option_name_with_extension() {
    let n = ProtobufOptionName {
        components: vec![
            ProtobufOptionNameComponent::Ext("foo.bar".to_string()),
            ProtobufOptionNameComponent::Direct("baz".to_string()),
        ],
    };
    assert_eq!(None, n.get_simple());
    assert_eq!("(foo.bar).baz", n.full_name());
    let single_ext = ProtobufOptionName {
        components: vec![ProtobufOptionNameComponent::Ext("x".to_string())],
    };
    assert_eq!(None, single_ext.get_simple());
    assert_eq!("(x)", single_ext.full_name());
    assert_eq!("", ProtobufOptionName { components: Vec::new() }.full_name());
}

#[test]
fn defaults_and_locations() {
    assert_eq!(Syntax::Proto2, Syntax::default());
    assert_eq!(ImportVis::Default, Import::default().vis);
    assert_eq!("", Import::default().path);
    assert_eq!(FieldNumberRange { from: 0, to: 0 }, FieldNumberRange::default());
    let w = WithLoc::with_loc(Loc { line: 3, col: 9 }, "x");
    assert_eq!(3, w.loc.line);
    assert_eq!(9, w.loc.col);
    assert_eq!("x", w.t);
}
