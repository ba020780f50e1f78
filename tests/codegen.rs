use protobuf::codegen::{
    is_well_known_type_full, proto_name_to_rs, proto_path_to_rust_mod, RustTypeMessage,
};

#[test]
fn test_mod_path_proto_ext() {
    assert_eq!("proto", proto_path_to_rust_mod("proto.proto"));
}

#[test]
fn test_mod_path_unknown_ext() {
    assert_eq!("proto_proto3", proto_path_to_rust_mod("proto.proto3"));
}

#[test]
fn test_mod_path_empty_ext() {
    assert_eq!("proto", proto_path_to_rust_mod("proto"));
}

#[test]
fn test_mod_path_dir() {
    assert_eq!("baz", proto_path_to_rust_mod("foo/bar/baz.proto"));
}

#[test]
fn test_mod_path_dir_backslashes() {
    assert_eq!("baz", proto_path_to_rust_mod("foo\\bar\\baz.proto"));
}

#[test]
fn test_is_well_known_type_full() {
    assert_eq!(
        Some("BoolValue".to_string()),
        is_well_known_type_full(".google.protobuf.BoolValue")
    );
    assert_eq!(None, is_well_known_type_full(".google.protobuf.Fgfg"));
}

#[test]
fn mod_path_of_keyword_gets_suffix() {
    assert_eq!("type_pb", proto_path_to_rust_mod("dir/type.proto"));
    assert_eq!("mod_pb.rs", proto_name_to_rs("mod.proto"));
}

#[test]
fn mod_path_replaces_invalid_chars() {
    assert_eq!("_st_file_v2", proto_path_to_rust_mod("a/1st-file.v2.proto"));
    assert_eq!("", proto_path_to_rust_mod("a/.proto"));
}

#[test]
fn name_to_rs_appends_extension() {
    assert_eq!("baz.rs", proto_name_to_rs("foo/bar/baz.proto"));
}

#[test]
fn well_known_type_needs_package_prefix() {
    assert_eq!(None, is_well_known_type_full("google.protobuf.BoolValue"));
    assert_eq!(None, is_well_known_type_full(".google.protobuf."));
    assert_eq!(
        Some("Field.Kind".to_string()),
        is_well_known_type_full(".google.protobuf.Field.Kind")
    );
}

#[test]
fn default_instance_code() {
    let t = RustTypeMessage("Foo".to_string());
    assert_eq!(
        "<Foo as ::protobuf::Message>::default_instance()",
        t.default_instance("::protobuf")
    );
}
