use edgedb_protocol::features::ProtocolVersion;

#[test]
fn current_is_one_zero() {
    let v = ProtocolVersion::current();
    assert_eq!(v.version_tuple(), (1, 0));
    assert!(v.is_1());
}

#[test]
fn new_keeps_parts() {
    let v = ProtocolVersion::new(0, 13);
    assert_eq!(v.version_tuple(), (0, 13));
    assert!(!v.is_1());
}

#[test]
fn at_least_is_lexicographic() {
    let v = ProtocolVersion::new(0, 11);
    assert!(v.is_at_least(0, 11));
    assert!(v.is_at_least(0, 10));
    assert!(!v.is_at_least(0, 12));
    assert!(!v.is_at_least(1, 0));
    assert!(ProtocolVersion::new(1, 0).is_at_least(0, 99));
}

#[test]
fn at_most_is_lexicographic() {
    let v = ProtocolVersion::new(0, 8);
    assert!(v.is_at_most(0, 8));
    assert!(v.is_at_most(1, 0));
    assert!(!v.is_at_most(0, 7));
    assert!(!ProtocolVersion::new(1, 0).is_at_most(0, 99));
}

#[test]
fn inline_typenames_from_zero_nine() {
    assert!(!ProtocolVersion::new(0, 8).supports_inline_typenames());
    assert!(ProtocolVersion::new(0, 9).supports_inline_typenames());
    assert!(ProtocolVersion::new(1, 0).supports_inline_typenames());
}

#[test]
fn implicit_tid_up_to_zero_eight() {
    assert!(ProtocolVersion::new(0, 8).has_implicit_tid());
    assert!(!ProtocolVersion::new(0, 9).has_implicit_tid());
    assert!(!ProtocolVersion::new(1, 0).has_implicit_tid());
}
