use edgedb_protocol::credentials::{
    default_port, Credentials, CredentialsCompat, CredentialsError, TlsSecurity,
};

fn empty_compat() -> CredentialsCompat {
    CredentialsCompat {
        host: None,
        port: None,
        user: None,
        password: None,
        database: None,
        tls_cert_data: None,
        tls_ca: None,
        tls_verify_hostname: None,
        tls_security: None,
        cloud_instance_id: None,
        cloud_original_dsn: None,
    }
}

#[test]
fn defaults() {
    let c = Credentials::default();
    assert_eq!(c.host, None);
    assert_eq!(c.port, 5656);
    assert_eq!(c.user, "edgedb");
    assert_eq!(c.password, None);
    assert_eq!(c.database, None);
    assert_eq!(c.tls_ca, None);
    assert_eq!(c.tls_security, TlsSecurity::Default);
    assert_eq!(c.cloud_instance_id, None);
    assert_eq!(c.cloud_original_dsn, None);
    assert!(!c.file_outdated);
    assert_eq!(default_port(), 5656);
}

#[test]
fn legacy_verify_hostname_only() {
    let mut doc = empty_compat();
    doc.user = Some("alice".to_string());
    doc.tls_verify_hostname = Some(true);
    let c = Credentials::from_compat(doc).unwrap();
    assert_eq!(c.user, "alice");
    assert_eq!(c.tls_security, TlsSecurity::Strict);
    assert!(c.file_outdated);
    assert_eq!(c.port, 5656);
}

#[test]
fn legacy_verify_hostname_false_only() {
    let mut doc = empty_compat();
    doc.user = Some("alice".to_string());
    doc.tls_verify_hostname = Some(false);
    let c = Credentials::from_compat(doc).unwrap();
    assert_eq!(c.tls_security, TlsSecurity::NoHostVerification);
    assert!(c.file_outdated);
}

#[test]
fn conflicting_cas() {
    let mut doc = empty_compat();
    doc.user = Some("alice".to_string());
    doc.tls_ca = Some("A".to_string());
    doc.tls_cert_data = Some("B".to_string());
    let err = Credentials::from_compat(doc).unwrap_err();
    match &err {
        CredentialsError::TlsCaConflict { tls_ca, tls_cert_data } => {
            assert_eq!(tls_ca.as_str(), "A");
            assert_eq!(tls_cert_data.as_str(), "B");
        }
        other => panic!("unexpected error: {:?}", other),
    }
    let msg = err.message();
    assert!(msg.contains("\"A\""));
    assert!(msg.contains("\"B\""));
    assert!(msg.contains("detected conflicting settings"));
}

#[test]
fn agreeing_cas_accepted() {
    let mut doc = empty_compat();
    doc.user = Some("alice".to_string());
    doc.tls_ca = Some("A".to_string());
    doc.tls_cert_data = Some("A".to_string());
    let c = Credentials::from_compat(doc).unwrap();
    assert_eq!(c.tls_ca, Some("A".to_string()));
}

#[test]
fn cert_data_alone_feeds_tls_ca() {
    let mut doc = empty_compat();
    doc.user = Some("alice".to_string());
    doc.tls_cert_data = Some("PEM".to_string());
    let c = Credentials::from_compat(doc).unwrap();
    assert_eq!(c.tls_ca, Some("PEM".to_string()));
    assert!(!c.file_outdated);
}

#[test]
fn missing_user_rejected() {
    let err = Credentials::from_compat(empty_compat()).unwrap_err();
    assert_eq!(err, CredentialsError::MissingUser);
    assert!(err.message().contains("user"));
}

#[test]
fn verify_agreeing_with_security_conflicts() {
    let mut doc = empty_compat();
    doc.user = Some("alice".to_string());
    doc.tls_security = Some(TlsSecurity::Strict);
    doc.tls_verify_hostname = Some(true);
    let err = Credentials::from_compat(doc).unwrap_err();
    match &err {
        CredentialsError::TlsSecurityConflict { tls_security, tls_verify_hostname } => {
            assert_eq!(*tls_security, TlsSecurity::Strict);
            assert!(*tls_verify_hostname);
        }
        other => panic!("unexpected error: {:?}", other),
    }
    let msg = err.message();
    assert!(msg.contains("\"strict\""));
    assert!(msg.contains("true"));
}

#[test]
fn verify_disagreeing_with_security_accepted() {
    let mut doc = empty_compat();
    doc.user = Some("alice".to_string());
    doc.tls_security = Some(TlsSecurity::Strict);
    doc.tls_verify_hostname = Some(false);
    let c = Credentials::from_compat(doc).unwrap();
    assert_eq!(c.tls_security, TlsSecurity::Strict);
    assert!(!c.file_outdated);
}

#[test]
fn insecure_with_verify_accepted() {
    // Insecure implies no expected flag, so no agreement is possible.
    let mut doc = empty_compat();
    doc.user = Some("alice".to_string());
    doc.tls_security = Some(TlsSecurity::Insecure);
    doc.tls_verify_hostname = Some(true);
    let c = Credentials::from_compat(doc).unwrap();
    assert_eq!(c.tls_security, TlsSecurity::Insecure);
}

#[test]
fn explicit_port_kept() {
    let mut doc = empty_compat();
    doc.user = Some("alice".to_string());
    doc.port = Some(10700);
    let c = Credentials::from_compat(doc).unwrap();
    assert_eq!(c.port, 10700);
}

#[test]
fn serializer_emits_both_cas_and_mirror() {
    let mut c = Credentials::default();
    c.user = "bob".to_string();
    c.tls_ca = Some("PEM".to_string());
    c.tls_security = TlsSecurity::NoHostVerification;
    let doc = c.to_compat();
    assert_eq!(doc.tls_ca, Some("PEM".to_string()));
    assert_eq!(doc.tls_cert_data, Some("PEM".to_string()));
    assert_eq!(doc.tls_security, Some(TlsSecurity::NoHostVerification));
    assert_eq!(doc.tls_verify_hostname, Some(false));
    assert_eq!(doc.user, Some("bob".to_string()));
    assert_eq!(doc.port, Some(5656));
}

#[test]
fn serializer_omits_mirror_for_default() {
    let c = Credentials::default();
    let doc = c.to_compat();
    assert_eq!(doc.tls_verify_hostname, None);
    assert_eq!(doc.tls_security, Some(TlsSecurity::Default));
}

#[test]
fn round_trip_default_mode() {
    let mut c = Credentials::default();
    c.host = Some("db.example.org".to_string());
    c.port = 5659;
    c.user = "carol".to_string();
    c.password = Some("pw".to_string());
    c.database = Some("main".to_string());
    c.tls_ca = Some("PEM".to_string());
    c.cloud_instance_id = Some("org/inst".to_string());
    c.cloud_original_dsn = Some("edgedb://db.example.org".to_string());
    let back = Credentials::from_compat(c.to_compat()).unwrap();
    assert_eq!(back, c);
}

#[test]
fn round_trip_insecure_mode() {
    let mut c = Credentials::default();
    c.user = "dave".to_string();
    c.tls_security = TlsSecurity::Insecure;
    let back = Credentials::from_compat(c.to_compat()).unwrap();
    assert_eq!(back, c);
}

#[test]
fn round_trip_resets_file_outdated() {
    let mut doc = empty_compat();
    doc.user = Some("alice".to_string());
    let mut c = Credentials::from_compat(doc).unwrap();
    c.file_outdated = true;
    let back = Credentials::from_compat(c.to_compat()).unwrap();
    assert!(!back.file_outdated);
    c.file_outdated = false;
    assert_eq!(back, c);
}
