use metaparse::pickle::{
    content_hint, extract_pickle_metadata, header_protocol, is_builtin_type,
    is_valid_global_reference, pickle_encoding, scan_pickle_ops, PickleStack, StackSlot,
};

#[test]
fn scan_finds_stack_global_reference() {
    // PROTO 4 + FRAME + SHORT_BINUNICODE __main__ + SHORT_BINUNICODE Dummy + STACK_GLOBAL + STOP
    let data = [
        0x80, 0x04, 0x95, 0x13, 0, 0, 0, 0, 0, 0, 0, 0x8c, 0x08, b'_', b'_', b'm', b'a', b'i',
        b'n', b'_', b'_', 0x8c, 0x05, b'D', b'u', b'm', b'm', b'y', 0x93, 0x2e,
    ];
    let scan = scan_pickle_ops(&data);
    assert!(scan
        .referenced_globals
        .contains(&"__main__.Dummy".to_string()));
    assert_eq!(scan.protocols_seen, vec![4]);
    assert_eq!(scan.frame_count, 1);
}

#[test]
fn scan_stack_global_after_memoize() {
    // Real pickles memoize module/name without popping before STACK_GLOBAL.
    let data = [
        0x80, 0x05, 0x95, 0x17, 0, 0, 0, 0, 0, 0, 0, 0x8c, 0x06, b'p', b'a', b'n', b'd', b'a',
        b's', 0x94, 0x8c, 0x09, b'D', b'a', b't', b'a', b'F', b'r', b'a', b'm', b'e', 0x94,
        0x93, 0x2e,
    ];
    let scan = scan_pickle_ops(&data);
    assert!(scan
        .referenced_globals
        .contains(&"pandas.DataFrame".to_string()));
}

#[test]
fn scan_global_opcode_protocol0() {
    let data = b"cnumpy.core.multiarray\n_reconstruct\nq\x00.";
    let scan = scan_pickle_ops(data);
    assert_eq!(
        scan.referenced_globals,
        vec!["numpy.core.multiarray._reconstruct".to_string()]
    );
    assert!(!scan.scan_truncated);
    assert_eq!(scan.scan_error, None);
}

#[test]
fn scan_rejects_dtype_fragment_pair() {
    // "|" + "Index" is not an import reference.
    let data = [0x8c, 0x01, b'|', 0x8c, 0x05, b'I', b'n', b'd', b'e', b'x', 0x93, 0x2e];
    let scan = scan_pickle_ops(&data);
    assert!(scan.referenced_globals.is_empty());
}

#[test]
fn scan_reports_unsupported_opcode() {
    let data = [0x80, 0x02, 0xff];
    let scan = scan_pickle_ops(&data);
    assert!(scan.scan_truncated);
    assert_eq!(
        scan.scan_error,
        Some("unsupported opcode 0xff at offset 2".to_string())
    );
}

#[test]
fn scan_reports_truncated_frame() {
    let data = [0x80, 0x04, 0x95, 0x01, 0x00];
    let scan = scan_pickle_ops(&data);
    assert!(scan.scan_truncated);
    assert_eq!(scan.scan_error, Some("truncated FRAME operand".to_string()));
    assert_eq!(scan.frame_count, 0);
}

#[test]
fn scan_skips_payload_past_end() {
    // BINBYTES with length 100 but only 2 payload bytes.
    let data = [b'B', 100, 0, 0, 0, 1, 2];
    let scan = scan_pickle_ops(&data);
    assert!(scan.scan_truncated);
    assert_eq!(
        scan.scan_error,
        Some("truncated BINBYTES/BINSTRING operand".to_string())
    );
}

#[test]
fn scan_records_each_global_once() {
    let data = b"cos\nsystem\ncos\nsystem\n.";
    let scan = scan_pickle_ops(data);
    assert_eq!(scan.referenced_globals, vec!["os.system".to_string()]);
}

#[test]
fn scan_frame_bytes_total_adds_frames() {
    let data = [0x95, 5, 0, 0, 0, 0, 0, 0, 0, 0x95, 7, 0, 0, 0, 0, 0, 0, 0, 0x2e];
    let scan = scan_pickle_ops(&data);
    assert_eq!(scan.frame_count, 2);
    assert_eq!(scan.frame_bytes_total, 12);
}

#[test]
fn scan_empty_containers_are_noted() {
    let data = [0x80, 0x04, b'}', 0x2e];
    let scan = scan_pickle_ops(&data);
    assert!(scan.saw_builtin_container);
    let meta = extract_pickle_metadata(&data, data.len());
    assert_eq!(meta.content_hint, Some("builtin_containers".to_string()));
}

#[test]
fn header_protocol_reads_binary_header() {
    assert_eq!(header_protocol(&[0x80, 0x04, 0x2e]), Some(4));
    assert_eq!(header_protocol(&[0x80, 0x06]), None);
    assert_eq!(header_protocol(b"(lp0\n."), None);
}

#[test]
fn pickle_encoding_labels() {
    assert_eq!(pickle_encoding(&[0x80, 0x02, 0x2e]), "binary");
    assert_eq!(pickle_encoding(b"(lp0\n."), "text");
    assert_eq!(pickle_encoding(&[0xff, 0xfe]), "binary");
}

#[test]
fn builtin_type_prefixes() {
    assert!(is_builtin_type("builtins.dict"));
    assert!(is_builtin_type("collections.OrderedDict"));
    assert!(is_builtin_type("__builtin__.set"));
    assert!(!is_builtin_type("numpy.dtype"));
}

#[test]
fn valid_global_references() {
    assert!(is_valid_global_reference("numpy.core", "ndarray"));
    assert!(!is_valid_global_reference("numpy..core", "ndarray"));
    assert!(!is_valid_global_reference("numpy.", "ndarray"));
    assert!(!is_valid_global_reference("|", "Index"));
    assert!(!is_valid_global_reference("os", "1abc"));
}

#[test]
fn content_hint_labels() {
    let g = |v: &[&str]| v.iter().map(|s| s.to_string()).collect::<Vec<String>>();
    assert_eq!(
        content_hint(&g(&["pandas.core.frame.DataFrame"]), &[], false),
        Some("tabular".to_string())
    );
    assert_eq!(
        content_hint(&g(&["sklearn.linear_model.Ridge"]), &[], false),
        Some("ml_model".to_string())
    );
    assert_eq!(
        content_hint(&g(&["numpy.dtype"]), &[], false),
        Some("numeric_array".to_string())
    );
    assert_eq!(
        content_hint(&[], &g(&["builtins.set"]), false),
        Some("builtin_containers".to_string())
    );
    assert_eq!(content_hint(&[], &g(&["collections.OrderedDict"]), false), None);
    assert_eq!(content_hint(&[], &[], false), None);
}

#[test]
fn metadata_splits_builtin_types() {
    let data = b"cbuiltins\nset\ncmymod\nThing\n.";
    let meta = extract_pickle_metadata(data, 99);
    assert_eq!(meta.byte_count, 99);
    assert_eq!(meta.builtin_types, vec!["builtins.set".to_string()]);
    assert_eq!(meta.referenced_globals, vec!["mymod.Thing".to_string()]);
    assert_eq!(meta.encoding, "text");
    assert_eq!(meta.protocol, None);
}

#[test]
fn memoize_keeps_stack_top() {
    let mut st = PickleStack::new();
    st.push_string("a".to_string());
    st.memoize_top();
    assert_eq!(st.stack.len(), 1);
    assert_eq!(st.memo.len(), 1);
    st.memo_get(0);
    assert_eq!(st.stack.len(), 2);
    match &st.stack[1] {
        StackSlot::String(s) => assert_eq!(s, "a"),
        _ => panic!("expected text"),
    }
}
