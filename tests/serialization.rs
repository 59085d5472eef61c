use miden_assembly::{
    AstSerdeOptions, ByteReader, DeserializationError, Export, Ident, InvocationTarget, Invoke,
    InvokeKind, LibraryPath, Procedure, ProcedureAlias, ProcedureName, QualifiedProcedureName,
    RpoDigest, SourceSpan, Span, Visibility,
};

fn name_at(text: &str, start: u32, end: u32) -> ProcedureName {
    ProcedureName::new_with_span(SourceSpan::new(start, end), text).unwrap()
}

fn digest() -> RpoDigest {
    RpoDigest::new([1, 2, 0xFFFF_FFFF_0000_0000, 42]).unwrap()
}

fn targets() -> Vec<InvocationTarget> {
    vec![
        InvocationTarget::MastRoot(Span { span: SourceSpan::new(3, 9), inner: digest() }),
        InvocationTarget::ProcedureName(name_at("foo", 1, 4)),
        InvocationTarget::ProcedurePath {
            name: name_at("hash", 10, 14),
            module: Ident::new("crypto").unwrap(),
        },
        InvocationTarget::AbsoluteProcedurePath {
            name: name_at("checked_add", 20, 31),
            path: LibraryPath::new("std::math::u64").unwrap(),
        },
    ]
}

fn stripped(t: &InvocationTarget) -> InvocationTarget {
    let none = SourceSpan::unknown();
    match t {
        InvocationTarget::MastRoot(root) => {
            InvocationTarget::MastRoot(Span { span: none, inner: root.inner })
        },
        InvocationTarget::ProcedureName(n) => {
            InvocationTarget::ProcedureName(ProcedureName::new(n.as_str()).unwrap())
        },
        InvocationTarget::ProcedurePath { name, module } => InvocationTarget::ProcedurePath {
            name: ProcedureName::new(name.as_str()).unwrap(),
            module: module.clone(),
        },
        InvocationTarget::AbsoluteProcedurePath { name, path } => {
            InvocationTarget::AbsoluteProcedurePath {
                name: ProcedureName::new(name.as_str()).unwrap(),
                path: path.clone(),
            }
        },
    }
}

fn encode_target(t: &InvocationTarget, debug: bool) -> Vec<u8> {
    let mut out = Vec::new();
    t.write_into_with_options(&mut out, AstSerdeOptions::new(false, debug));
    out
}

#[test]
fn invocation_target_round_trip_with_debug_info() {
    for t in targets() {
        let bytes = encode_target(&t, true);
        let mut reader = ByteReader::new(bytes);
        let back = InvocationTarget::read_from_with_options(&mut reader, AstSerdeOptions::new(false, true));
        assert_eq!(back, Ok(t.clone()));
        assert_eq!(reader.remaining_len(), 0);
    }
}

#[test]
fn invocation_target_round_trip_without_debug_info_drops_spans() {
    for t in targets() {
        let bytes = encode_target(&t, false);
        let mut reader = ByteReader::new(bytes);
        let back = InvocationTarget::read_from_with_options(&mut reader, AstSerdeOptions::new(false, false));
        assert_eq!(back, Ok(stripped(&t)));
        assert_eq!(reader.remaining_len(), 0);
    }
}

#[test]
fn invocation_target_exact_bytes() {
    let t = InvocationTarget::ProcedureName(name_at("foo", 1, 4));
    assert_eq!(encode_target(&t, false), vec![1, 3, b'f', b'o', b'o']);
    assert_eq!(
        encode_target(&t, true),
        vec![1, 1, 0, 0, 0, 4, 0, 0, 0, 3, b'f', b'o', b'o']
    );
    let p = InvocationTarget::ProcedurePath {
        name: name_at("h", 0, 0),
        module: Ident::new("c").unwrap(),
    };
    assert_eq!(encode_target(&p, false), vec![2, 1, b'h', 1, b'c']);
    let a = InvocationTarget::AbsoluteProcedurePath {
        name: name_at("x", 0, 0),
        path: LibraryPath::new("a::b").unwrap(),
    };
    assert_eq!(encode_target(&a, false), vec![3, 1, b'x', 2, 1, b'a', 1, b'b']);
    let r = InvocationTarget::MastRoot(Span { span: SourceSpan::unknown(), inner: digest() });
    let bytes = encode_target(&r, false);
    assert_eq!(bytes.len(), 33);
    assert_eq!(bytes[0], 0);
    assert_eq!(&bytes[1..9], &[1, 0, 0, 0, 0, 0, 0, 0]);
    assert_eq!(&bytes[17..25], &[0, 0, 0, 0, 0xFF, 0xFF, 0xFF, 0xFF]);
}

#[test]
fn invocation_target_invalid_tag_is_named() {
    let mut reader = ByteReader::new(vec![7, 1, b'a']);
    let r = InvocationTarget::read_from_with_options(&mut reader, AstSerdeOptions::new(false, false));
    assert_eq!(r, Err(DeserializationError::InvalidTag(7)));
}

#[test]
fn invocation_target_truncated_input_fails() {
    let mut reader = ByteReader::new(vec![1, 3, b'f']);
    let r = InvocationTarget::read_from_with_options(&mut reader, AstSerdeOptions::new(false, false));
    assert_eq!(r, Err(DeserializationError::UnexpectedEof));
    let mut empty = ByteReader::new(vec![]);
    let r = InvocationTarget::read_from_with_options(&mut empty, AstSerdeOptions::new(false, false));
    assert_eq!(r, Err(DeserializationError::UnexpectedEof));
}

#[test]
fn invocation_target_bad_name_is_invalid_value() {
    let mut reader = ByteReader::new(vec![1, 3, b'9', b'o', b'o']);
    let r = InvocationTarget::read_from_with_options(&mut reader, AstSerdeOptions::new(false, false));
    assert_eq!(r, Err(DeserializationError::InvalidValue));
}

#[test]
fn digest_element_out_of_field_is_rejected() {
    assert!(RpoDigest::new([0xFFFF_FFFF_0000_0001, 0, 0, 0]).is_none());
    let mut bytes = vec![0u8];
    bytes.extend_from_slice(&[0xFF; 8]);
    bytes.extend_from_slice(&[0; 24]);
    let mut reader = ByteReader::new(bytes);
    let r = InvocationTarget::read_from_with_options(&mut reader, AstSerdeOptions::new(false, false));
    assert_eq!(r, Err(DeserializationError::InvalidValue));
}

fn sample_procedure() -> Procedure {
    let calls = vec![
        Invoke::new(InvokeKind::Exec, InvocationTarget::ProcedureName(name_at("helper", 5, 11))),
        Invoke::new(
            InvokeKind::Call,
            InvocationTarget::AbsoluteProcedurePath {
                name: name_at("checked_add", 12, 23),
                path: LibraryPath::new("std::math::u64").unwrap(),
            },
        ),
        Invoke::new(
            InvokeKind::SysCall,
            InvocationTarget::MastRoot(Span { span: SourceSpan::new(1, 2), inner: digest() }),
        ),
        Invoke::new(InvokeKind::ProcRef, InvocationTarget::ProcedureName(name_at("helper", 0, 0))),
    ];
    Procedure::new(SourceSpan::new(0, 100), Visibility::Public, name_at("run", 4, 7), 3, calls)
        .with_docs(Some(Span { span: SourceSpan::new(0, 3), inner: String::from("Runs it. ✓") }))
}

fn sample_alias() -> ProcedureAlias {
    ProcedureAlias::new(
        name_at("add", 2, 5),
        QualifiedProcedureName::new(
            LibraryPath::new("std::math::u64").unwrap(),
            name_at("checked_add", 8, 19),
        ),
    )
}

fn encode_export(e: &Export, debug: bool) -> Vec<u8> {
    let mut out = Vec::new();
    e.write_into_with_options(&mut out, AstSerdeOptions::new(false, debug));
    out
}

#[test]
fn export_round_trip_with_debug_info() {
    for e in [Export::Procedure(sample_procedure()), Export::Alias(sample_alias())] {
        let mut bytes = encode_export(&e, true);
        bytes.push(0xAA);
        let mut reader = ByteReader::new(bytes);
        let back = Export::read_from_with_options(&mut reader, AstSerdeOptions::new(false, true));
        assert_eq!(back, Ok(e.clone()));
        assert_eq!(reader.remaining_len(), 1);
    }
}

#[test]
fn export_round_trip_without_debug_info() {
    let e = Export::Alias(sample_alias());
    let bytes = encode_export(&e, false);
    let mut reader = ByteReader::new(bytes);
    let back = Export::read_from_with_options(&mut reader, AstSerdeOptions::new(false, false)).unwrap();
    let expected = Export::Alias(ProcedureAlias::new(
        ProcedureName::new("add").unwrap(),
        QualifiedProcedureName::new(
            LibraryPath::new("std::math::u64").unwrap(),
            ProcedureName::new("checked_add").unwrap(),
        ),
    ));
    assert_eq!(back, expected);

    let p = Export::Procedure(sample_procedure());
    let bytes = encode_export(&p, false);
    let mut reader = ByteReader::new(bytes);
    let back = Export::read_from_with_options(&mut reader, AstSerdeOptions::new(false, false)).unwrap();
    assert_eq!(back.name().as_str(), "run");
    assert_eq!(back.name().span(), SourceSpan::unknown());
    assert_eq!(back.docs(), Some("Runs it. ✓"));
    assert_eq!(back.num_locals(), 3);
    assert_eq!(back.invoked().len(), 4);
    assert_eq!(back.invoked()[1].kind, InvokeKind::Call);
    assert_eq!(back.span(), SourceSpan::unknown());
}

#[test]
fn export_invalid_tag_is_named() {
    let mut reader = ByteReader::new(vec![2, 0, 0]);
    let r = Export::read_from_with_options(&mut reader, AstSerdeOptions::new(false, true));
    assert_eq!(r, Err(DeserializationError::InvalidTag(2)));
}

#[test]
fn export_invalid_docs_flag_is_named() {
    // an alias whose docs presence byte is neither 0 nor 1
    let mut reader = ByteReader::new(vec![1, 5]);
    let r = Export::read_from_with_options(&mut reader, AstSerdeOptions::new(false, false));
    assert_eq!(r, Err(DeserializationError::InvalidTag(5)));
}

#[test]
fn export_exact_bytes_of_alias() {
    let e = Export::Alias(ProcedureAlias::new(
        ProcedureName::new("a").unwrap(),
        QualifiedProcedureName::new(LibraryPath::new("m").unwrap(), ProcedureName::new("b").unwrap()),
    ));
    assert_eq!(encode_export(&e, false), vec![1, 0, 1, b'a', 1, 1, b'm', 1, b'b']);
}

#[test]
fn default_options_leave_spans_out() {
    for t in targets() {
        let mut out = Vec::new();
        t.write_into(&mut out);
        assert_eq!(out, encode_target(&t, false));
        let mut reader = ByteReader::new(out);
        assert_eq!(InvocationTarget::read_from(&mut reader), Ok(stripped(&t)));
    }
}

#[test]
fn targets_render_as_written() {
    let rendered: Vec<String> = targets().iter().map(|t| t.render()).collect();
    assert_eq!(
        rendered[0],
        "0x01000000000000000200000000000000\
         00000000ffffffff2a00000000000000"
    );
    assert_eq!(rendered[1], "foo");
    assert_eq!(rendered[2], "crypto::hash");
    assert_eq!(rendered[3], "::std::math::u64::checked_add");
}
