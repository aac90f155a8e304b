use edgedb_protocol::descriptors::{
    Cardinality, Descriptor, InputTypedesc, OutputTypedesc, TupleTypeDescriptor, TypePos, Uuid,
};
use edgedb_protocol::encoding::Input;
use edgedb_protocol::errors::{CodecError, DecodeError};
use edgedb_protocol::features::ProtocolVersion;

fn push_uuid(out: &mut Vec<u8>, x: u128) {
    for i in (0..16).rev() {
        out.push((x >> (8 * i)) as u8);
    }
}

fn push_u16(out: &mut Vec<u8>, x: u16) {
    out.push((x >> 8) as u8);
    out.push(x as u8);
}

fn push_u32(out: &mut Vec<u8>, x: u32) {
    for i in (0..4).rev() {
        out.push((x >> (8 * i)) as u8);
    }
}

fn push_str(out: &mut Vec<u8>, s: &str) {
    push_u32(out, s.len() as u32);
    out.extend_from_slice(s.as_bytes());
}

fn decode(root: u128, bytes: Vec<u8>) -> Result<OutputTypedesc, DecodeError> {
    let mut buf = Input::new(ProtocolVersion::new(1, 0), bytes);
    OutputTypedesc::decode_with_id(Uuid::from_u128(root), &mut buf)
}

#[test]
fn empty_buffer_zero_root_succeeds() {
    let desc = decode(0, Vec::new()).unwrap();
    assert!(desc.descriptors().is_empty());
    assert_eq!(desc.root_pos(), None);
}

#[test]
fn empty_buffer_nonzero_root_fails() {
    let err = decode(7, Vec::new()).unwrap_err();
    assert_eq!(err, DecodeError::UuidNotFound { uuid: Uuid(7) });
}

#[test]
fn single_base_scalar() {
    let u = 0x0102_0304_0506_0708_090a_0b0c_0d0e_0f10u128;
    let mut bytes = Vec::new();
    bytes.push(2);
    push_uuid(&mut bytes, u);
    let desc = decode(u, bytes).unwrap();
    assert_eq!(desc.descriptors().len(), 1);
    match &desc.descriptors()[0] {
        Descriptor::BaseScalar(d) => assert_eq!(d.id, Uuid(u)),
        other => panic!("unexpected descriptor: {:?}", other),
    }
    assert_eq!(desc.root_pos(), Some(TypePos(0)));
}

#[test]
fn tuple_of_two_scalars() {
    let (u1, u2, u3) = (11u128, 22u128, 33u128);
    let mut bytes = Vec::new();
    bytes.push(2);
    push_uuid(&mut bytes, u1);
    bytes.push(2);
    push_uuid(&mut bytes, u2);
    bytes.push(4);
    push_uuid(&mut bytes, u3);
    push_u16(&mut bytes, 2);
    push_u16(&mut bytes, 0);
    push_u16(&mut bytes, 1);
    let desc = decode(u3, bytes).unwrap();
    assert_eq!(desc.descriptors().len(), 3);
    assert_eq!(desc.root_pos(), Some(TypePos(2)));
    match &desc.descriptors()[2] {
        Descriptor::Tuple(t) => {
            assert_eq!(t.id, Uuid(u3));
            assert_eq!(t.element_types, vec![TypePos(0), TypePos(1)]);
        }
        other => panic!("unexpected descriptor: {:?}", other),
    }
}

#[test]
fn annotation_consumed_but_dropped() {
    let (u1, u2, u3) = (11u128, 22u128, 33u128);
    let mut bytes = Vec::new();
    bytes.push(2);
    push_uuid(&mut bytes, u1);
    bytes.push(0x7F);
    push_uuid(&mut bytes, u2);
    push_str(&mut bytes, "foo");
    bytes.push(2);
    push_uuid(&mut bytes, u3);
    let desc = decode(u3, bytes).unwrap();
    assert_eq!(desc.descriptors().len(), 2);
    assert_eq!(desc.root_pos(), Some(TypePos(1)));
    assert_eq!(*desc.descriptors()[0].id(), Uuid(u1));
    assert_eq!(*desc.descriptors()[1].id(), Uuid(u3));
}

#[test]
fn annotation_tag_0x7f_is_valid() {
    let mut bytes = Vec::new();
    bytes.push(0x7F);
    push_uuid(&mut bytes, 5);
    push_str(&mut bytes, "foo");
    let mut buf = Input::new(ProtocolVersion::new(1, 0), bytes);
    match Descriptor::decode(&mut buf).unwrap() {
        Descriptor::TypeAnnotation(a) => {
            assert_eq!(a.annotated_type, 0x7F);
            assert_eq!(a.id, Uuid(5));
            assert_eq!(a.annotation, "foo");
        }
        other => panic!("unexpected descriptor: {:?}", other),
    }
}

#[test]
fn tag_0x7e_is_invalid() {
    let err = decode(0, vec![0x7E]).unwrap_err();
    assert_eq!(err, DecodeError::InvalidTypeDescriptor { descriptor: 0x7E });
}

#[test]
fn tag_10_is_invalid() {
    let err = decode(0, vec![10]).unwrap_err();
    assert_eq!(err, DecodeError::InvalidTypeDescriptor { descriptor: 10 });
}

#[test]
fn truncated_record_underflows() {
    let err = decode(0, vec![2, 1, 2]).unwrap_err();
    assert_eq!(err, DecodeError::Underflow);
}

fn shape_bytes_old() -> Vec<u8> {
    // One object shape with a single element, pre-(0,11) layout:
    // flags are one byte and no cardinality follows.
    let mut bytes = Vec::new();
    bytes.push(1);
    push_uuid(&mut bytes, 42);
    push_u16(&mut bytes, 1);
    bytes.push(0x03);
    push_str(&mut bytes, "name");
    push_u16(&mut bytes, 0);
    bytes
}

#[test]
fn shape_element_at_0_10_has_one_flag_byte() {
    let mut buf = Input::new(ProtocolVersion::new(0, 10), shape_bytes_old());
    let desc = OutputTypedesc::decode_with_id(Uuid::from_u128(42), &mut buf).unwrap();
    match &desc.descriptors()[0] {
        Descriptor::ObjectShape(s) => {
            assert_eq!(s.elements.len(), 1);
            let e = &s.elements[0];
            assert!(e.flag_implicit);
            assert!(e.flag_link_property);
            assert!(!e.flag_link);
            assert_eq!(e.cardinality, None);
            assert_eq!(e.name, "name");
            assert_eq!(e.type_pos, TypePos(0));
        }
        other => panic!("unexpected descriptor: {:?}", other),
    }
}

#[test]
fn shape_element_at_0_11_has_flag_word_and_cardinality() {
    // The same element in the (0,11) layout: a 32-bit flag word and a
    // cardinality byte.
    let mut bytes = Vec::new();
    bytes.push(1);
    push_uuid(&mut bytes, 42);
    push_u16(&mut bytes, 1);
    push_u32(&mut bytes, 0x0000_0003);
    bytes.push(0x6d);
    push_str(&mut bytes, "name");
    push_u16(&mut bytes, 0);
    let mut buf = Input::new(ProtocolVersion::new(0, 11), bytes);
    let desc = OutputTypedesc::decode_with_id(Uuid::from_u128(42), &mut buf).unwrap();
    match &desc.descriptors()[0] {
        Descriptor::ObjectShape(s) => {
            let e = &s.elements[0];
            assert!(e.flag_implicit);
            assert!(e.flag_link_property);
            assert!(!e.flag_link);
            assert_eq!(e.cardinality, Some(Cardinality::Many));
            assert_eq!(e.name, "name");
        }
        other => panic!("unexpected descriptor: {:?}", other),
    }
}

#[test]
fn old_layout_rejects_new_layout_bytes() {
    // The (0,11) bytes parsed at (0,10) consume only one flag byte, so the
    // stream no longer lines up and decoding fails.
    let mut bytes = Vec::new();
    bytes.push(1);
    push_uuid(&mut bytes, 42);
    push_u16(&mut bytes, 1);
    push_u32(&mut bytes, 0x0000_0003);
    bytes.push(0x6d);
    push_str(&mut bytes, "name");
    push_u16(&mut bytes, 0);
    let mut buf = Input::new(ProtocolVersion::new(0, 10), bytes);
    assert!(OutputTypedesc::decode_with_id(Uuid::from_u128(42), &mut buf).is_err());
}

#[test]
fn invalid_cardinality_byte_rejected() {
    let mut bytes = Vec::new();
    bytes.push(1);
    push_uuid(&mut bytes, 42);
    push_u16(&mut bytes, 1);
    push_u32(&mut bytes, 0);
    bytes.push(0x00);
    push_str(&mut bytes, "name");
    push_u16(&mut bytes, 0);
    let mut buf = Input::new(ProtocolVersion::new(0, 11), bytes);
    let err = OutputTypedesc::decode_with_id(Uuid::from_u128(42), &mut buf).unwrap_err();
    assert_eq!(err, DecodeError::InvalidCardinality { cardinality: 0 });
}

fn array_bytes(dim: u32) -> Vec<u8> {
    let mut bytes = Vec::new();
    bytes.push(6);
    push_uuid(&mut bytes, 9);
    push_u16(&mut bytes, 0);
    push_u16(&mut bytes, 1);
    push_u32(&mut bytes, dim);
    bytes
}

#[test]
fn array_dimension_minus_one_is_unbounded() {
    let desc = decode(9, array_bytes(0xFFFF_FFFF)).unwrap();
    match &desc.descriptors()[0] {
        Descriptor::Array(a) => {
            assert_eq!(a.dimensions, vec![None]);
            assert_eq!(a.type_pos, TypePos(0));
        }
        other => panic!("unexpected descriptor: {:?}", other),
    }
}

#[test]
fn array_dimension_positive_is_kept() {
    let desc = decode(9, array_bytes(5)).unwrap();
    match &desc.descriptors()[0] {
        Descriptor::Array(a) => assert_eq!(a.dimensions, vec![Some(5)]),
        other => panic!("unexpected descriptor: {:?}", other),
    }
}

#[test]
fn array_dimension_zero_rejected() {
    let err = decode(9, array_bytes(0)).unwrap_err();
    assert_eq!(err, DecodeError::InvalidArrayShape);
}

#[test]
fn array_dimension_int32_min_rejected() {
    let err = decode(9, array_bytes(0x8000_0000)).unwrap_err();
    assert_eq!(err, DecodeError::InvalidArrayShape);
}

#[test]
fn enumeration_members_decoded() {
    let mut bytes = Vec::new();
    bytes.push(7);
    push_uuid(&mut bytes, 3);
    push_u16(&mut bytes, 2);
    push_str(&mut bytes, "r\u{e9}d");
    push_str(&mut bytes, "green");
    let desc = decode(3, bytes).unwrap();
    match &desc.descriptors()[0] {
        Descriptor::Enumeration(e) => {
            assert_eq!(e.members, vec!["r\u{e9}d".to_string(), "green".to_string()]);
        }
        other => panic!("unexpected descriptor: {:?}", other),
    }
}

#[test]
fn ill_formed_utf8_rejected() {
    let mut bytes = Vec::new();
    bytes.push(7);
    push_uuid(&mut bytes, 3);
    push_u16(&mut bytes, 1);
    push_u32(&mut bytes, 1);
    bytes.push(0xFF);
    let err = decode(3, bytes).unwrap_err();
    assert_eq!(err, DecodeError::InvalidUtf8);
}

#[test]
fn named_tuple_and_scalar_and_set_and_range() {
    let mut bytes = Vec::new();
    bytes.push(2);
    push_uuid(&mut bytes, 1);
    bytes.push(3);
    push_uuid(&mut bytes, 2);
    push_u16(&mut bytes, 0);
    bytes.push(0);
    push_uuid(&mut bytes, 3);
    push_u16(&mut bytes, 1);
    bytes.push(9);
    push_uuid(&mut bytes, 4);
    push_u16(&mut bytes, 1);
    bytes.push(5);
    push_uuid(&mut bytes, 5);
    push_u16(&mut bytes, 1);
    push_str(&mut bytes, "x");
    push_u16(&mut bytes, 1);
    let desc = decode(5, bytes).unwrap();
    assert_eq!(desc.descriptors().len(), 5);
    match &desc.descriptors()[1] {
        Descriptor::Scalar(s) => assert_eq!(s.base_type_pos, TypePos(0)),
        other => panic!("unexpected descriptor: {:?}", other),
    }
    match &desc.descriptors()[2] {
        Descriptor::SetType(s) => assert_eq!(s.type_pos, TypePos(1)),
        other => panic!("unexpected descriptor: {:?}", other),
    }
    match &desc.descriptors()[3] {
        Descriptor::Range(r) => assert_eq!(r.type_pos, TypePos(1)),
        other => panic!("unexpected descriptor: {:?}", other),
    }
    match &desc.descriptors()[4] {
        Descriptor::NamedTuple(t) => {
            assert_eq!(t.elements.len(), 1);
            assert_eq!(t.elements[0].name, "x");
            assert_eq!(t.elements[0].type_pos, TypePos(1));
        }
        other => panic!("unexpected descriptor: {:?}", other),
    }
    assert_eq!(desc.root_pos(), Some(TypePos(4)));
}

#[test]
fn root_is_first_match() {
    let u = 77u128;
    let mut bytes = Vec::new();
    bytes.push(2);
    push_uuid(&mut bytes, u);
    bytes.push(2);
    push_uuid(&mut bytes, u);
    let desc = decode(u, bytes).unwrap();
    assert_eq!(desc.root_pos(), Some(TypePos(0)));
}

#[test]
fn queryable_context_flags() {
    let mut buf = Input::new(ProtocolVersion::new(0, 8), Vec::new());
    let desc = OutputTypedesc::decode_with_id(Uuid::from_u128(0), &mut buf).unwrap();
    let ctx = desc.as_queryable_context();
    assert!(ctx.has_implicit_tid);
    assert_eq!(ctx.root_pos, None);
    assert!(ctx.descriptors.is_empty());

    let mut buf9 = Input::new(ProtocolVersion::new(0, 9), Vec::new());
    let desc9 = OutputTypedesc::decode_with_id(Uuid::from_u128(0), &mut buf9).unwrap();
    assert!(!desc9.as_queryable_context().has_implicit_tid);
}

fn empty_tuple_typedesc(id: u128, elements: Vec<TypePos>) -> InputTypedesc {
    let tuple = Descriptor::Tuple(TupleTypeDescriptor {
        id: Uuid::from_u128(id),
        element_types: elements,
    });
    InputTypedesc::new(
        ProtocolVersion::new(1, 0),
        vec![tuple],
        Uuid::from_u128(id),
        Some(TypePos(0)),
    )
}

#[test]
fn empty_tuple_root_detected() {
    let desc = empty_tuple_typedesc(0xFF, Vec::new());
    assert!(desc.is_empty_tuple());
    assert_eq!(desc.proto().version_tuple(), (1, 0));
    assert!(desc.root().is_some());
    let ctx = desc.as_query_arg_context();
    assert_eq!(ctx.root_pos, Some(TypePos(0)));
}

#[test]
fn nonempty_tuple_is_not_empty_tuple() {
    assert!(!empty_tuple_typedesc(0xFF, vec![TypePos(0)]).is_empty_tuple());
    assert!(!empty_tuple_typedesc(0xFE, Vec::new()).is_empty_tuple());
}

#[test]
fn get_checks_bounds() {
    let desc = empty_tuple_typedesc(0xFF, Vec::new());
    assert!(desc.get(TypePos(0)).is_ok());
    assert_eq!(
        desc.get(TypePos(1)).unwrap_err(),
        CodecError::UnexpectedTypePos { position: 1 }
    );
}

#[test]
fn root_absent_when_pos_absent() {
    let desc = InputTypedesc::new(
        ProtocolVersion::new(1, 0),
        Vec::new(),
        Uuid::from_u128(0),
        None,
    );
    assert!(desc.root().is_none());
    assert!(!desc.is_empty_tuple());
    assert!(desc.descriptors().is_empty());
}

#[test]
fn input_shape_decoded() {
    let mut bytes = Vec::new();
    bytes.push(8);
    push_uuid(&mut bytes, 42);
    push_u16(&mut bytes, 1);
    push_u32(&mut bytes, 0x0000_0004);
    bytes.push(0x6f);
    push_str(&mut bytes, "arg");
    push_u16(&mut bytes, 3);
    let mut buf = Input::new(ProtocolVersion::new(1, 0), bytes);
    let desc = OutputTypedesc::decode_with_id(Uuid::from_u128(42), &mut buf).unwrap();
    match &desc.descriptors()[0] {
        Descriptor::InputShape(s) => {
            let e = &s.elements[0];
            assert!(!e.flag_implicit);
            assert!(!e.flag_link_property);
            assert!(e.flag_link);
            assert_eq!(e.cardinality, Some(Cardinality::AtMostOne));
            assert_eq!(e.name, "arg");
            assert_eq!(e.type_pos, TypePos(3));
        }
        other => panic!("unexpected descriptor: {:?}", other),
    }
}

#[test]
fn root_index_must_fit_sixteen_bits() {
    // 65537 base scalars; the root id only matches the last one, whose index
    // does not fit a 16-bit position.
    let n: u32 = 65537;
    let mut bytes = Vec::with_capacity(17 * n as usize);
    for i in 0..n {
        bytes.push(2);
        push_uuid(&mut bytes, (i + 1) as u128);
    }
    let err = decode(n as u128, bytes).unwrap_err();
    assert_eq!(err, DecodeError::TooManyDescriptors { index: 65536 });
}

#[test]
fn annotations_are_not_searched_for_the_root() {
    let u = 55u128;
    let mut bytes = Vec::new();
    bytes.push(0x80);
    push_uuid(&mut bytes, u);
    push_str(&mut bytes, "note");
    let err = decode(u, bytes).unwrap_err();
    assert_eq!(err, DecodeError::UuidNotFound { uuid: Uuid(u) });
}
