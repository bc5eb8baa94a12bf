use difix::sanitize::sanitize_type_name;

#[test]
fn test_strip_generics() {
    let name = "MyStruct<u64>".to_owned();
    assert_eq!(sanitize_type_name(name), "MyStruct_3C_u64_3E_");

    let name = "MyStruct<u64, u64>".to_owned();
    assert_eq!(sanitize_type_name(name), "MyStruct_3C_u64_2C__20_u64_3E_");

    let name = "my_function<aya_bpf::BpfContext>".to_owned();
    assert_eq!(
        sanitize_type_name(name),
        "my_function_3C_aya_bpf_3A__3A_BpfContext_3E_"
    );

    let name = "my_function<aya_bpf::BpfContext, aya_log_ebpf::WriteToBuf>".to_owned();
    assert_eq!(
        sanitize_type_name(name),
        "my_function_3C_aya_bpf_3A__3A_BpfContext_2C__20_aya_log_ebpf_3A__3A_WriteToBuf_3E_"
    );

    let name = "PerfEventArray<[u8; 32]>".to_owned();
    assert_eq!(
        sanitize_type_name(name),
        "PerfEventArray_3C__5B_u8_3B__20_32_5D__3E_"
    )
}

#[test]
fn sanitized_names_are_identifiers() {
    let inputs = [
        "",
        "plain_name_42",
        "Vec<T>",
        "&'a mut [u8]",
        "core::option::Option<alloc::string::String>",
        "tab\there",
        "nul\0byte",
        "preis_€",
        "smile_😀",
    ];
    for input in inputs {
        let out = sanitize_type_name(input.to_owned());
        assert!(
            out.chars().all(|c| c.is_ascii_alphanumeric() || c == '_'),
            "{:?} became {:?}",
            input,
            out
        );
    }
}

#[test]
fn identifiers_are_kept() {
    for input in ["", "a", "_", "Z9", "snake_case_name", "CamelCase123", "__0__"] {
        assert_eq!(sanitize_type_name(input.to_owned()), input);
    }
}

#[test]
fn code_points_are_written_in_upper_case_hex_without_padding() {
    assert_eq!(sanitize_type_name("\0".to_owned()), "_0_");
    assert_eq!(sanitize_type_name("\t".to_owned()), "_9_");
    assert_eq!(sanitize_type_name("\n".to_owned()), "_A_");
    assert_eq!(sanitize_type_name(" ".to_owned()), "_20_");
    assert_eq!(sanitize_type_name("/".to_owned()), "_2F_");
    assert_eq!(sanitize_type_name(":".to_owned()), "_3A_");
    assert_eq!(sanitize_type_name("@".to_owned()), "_40_");
    assert_eq!(sanitize_type_name("[".to_owned()), "_5B_");
    assert_eq!(sanitize_type_name("`".to_owned()), "_60_");
    assert_eq!(sanitize_type_name("{".to_owned()), "_7B_");
    assert_eq!(sanitize_type_name("\u{7f}".to_owned()), "_7F_");
    assert_eq!(sanitize_type_name("é".to_owned()), "_E9_");
    assert_eq!(sanitize_type_name("€".to_owned()), "_20AC_");
    assert_eq!(sanitize_type_name("😀".to_owned()), "_1F600_");
    assert_eq!(sanitize_type_name("\u{10FFFF}".to_owned()), "_10FFFF_");
}

#[test]
fn each_character_is_replaced_on_its_own() {
    assert_eq!(sanitize_type_name("a b".to_owned()), "a_20_b");
    assert_eq!(sanitize_type_name("<>".to_owned()), "_3C__3E_");
    assert_eq!(sanitize_type_name("_<_".to_owned()), "__3C__");
}

#[test]
fn sanitizing_twice_changes_nothing_more() {
    let once = sanitize_type_name("HashMap<K, V>".to_owned());
    assert_eq!(sanitize_type_name(once.clone()), once);
}
