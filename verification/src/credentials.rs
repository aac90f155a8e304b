//! Credentials records and the compatibility policy that reconciles documents
//! written by several historical generations of sibling tools.
//!
//! Parsing happens in two phases: a document is first read into the
//! all-optional [`CredentialsCompat`] shape (a wire concern), and
//! [`Credentials::from_compat`] then applies the reconciliation rules to
//! produce the normalised record (an API concern).
use vstd::prelude::*;
use vstd::string::StringExecFns;

verus! {

/// TLS client security mode.
#[derive(Debug, Clone, Copy, PartialEq, Eq, Structural)]
pub enum TlsSecurity {
    /// Allow any certificate for the TLS connection.
    Insecure,
    /// Verify the certificate against the trusted chain but allow any host name.
    NoHostVerification,
    /// Normal TLS certificate check (trusted chain and host name).
    Strict,
    /// Strict, unless a specific certificate is pinned in the credentials.
    Default,
}

/// The normalised contents of a credentials document.
#[derive(Debug, Clone, PartialEq)]
#[non_exhaustive]
pub struct Credentials {
    pub host: Option<String>,
    pub port: u16,
    pub user: String,
    pub password: Option<String>,
    pub database: Option<String>,
    pub tls_ca: Option<String>,
    pub tls_security: TlsSecurity,
    pub cloud_instance_id: Option<String>,
    pub cloud_original_dsn: Option<String>,
    /// True iff the source document used the deprecated `tls_verify_hostname`
    /// field and did not also carry the current `tls_security` field.
    pub file_outdated: bool,
}

/// The compatibility shape of a credentials document: every recognised key,
/// each optional, before any reconciliation. Unknown keys of the document are
/// ignored by the reader that fills this in.
#[derive(Debug, Clone, PartialEq)]
pub struct CredentialsCompat {
    pub host: Option<String>,
    pub port: Option<u16>,
    pub user: Option<String>,
    pub password: Option<String>,
    pub database: Option<String>,
    /// Deprecated alias for `tls_ca`.
    pub tls_cert_data: Option<String>,
    pub tls_ca: Option<String>,
    /// Deprecated; superseded by `tls_security`.
    pub tls_verify_hostname: Option<bool>,
    pub tls_security: Option<TlsSecurity>,
    pub cloud_instance_id: Option<String>,
    pub cloud_original_dsn: Option<String>,
}

/// Why a credentials document was rejected.
#[derive(Debug, Clone, PartialEq, Eq)]
pub enum CredentialsError {
    /// The document carries no `user` key.
    MissingUser,
    /// Both `tls_security` and the deprecated `tls_verify_hostname` are
    /// present, and the observed verify flag equals the one `tls_security`
    /// implies.
    TlsSecurityConflict { tls_security: TlsSecurity, tls_verify_hostname: bool },
    /// Both `tls_ca` and the deprecated `tls_cert_data` are present and differ.
    TlsCaConflict { tls_ca: String, tls_cert_data: String },
}

/// The port used when a document carries no `port` key.
pub fn default_port() -> (r: u16)
    ensures
        r == 5656,
{
    5656
}

/// The verify-hostname flag that a `tls_security` setting implies:
/// `Strict` implies true, `NoHostVerification` implies false, anything
/// else implies nothing.
pub open spec fn spec_expected_verify(s: Option<TlsSecurity>) -> Option<bool> {
    match s {
        Some(TlsSecurity::Strict) => Some(true),
        Some(TlsSecurity::NoHostVerification) => Some(false),
        _ => None,
    }
}

/// Conflict between the current and deprecated TLS verification fields: both
/// are present and the observed flag equals the expected one.
pub open spec fn spec_tls_conflict(c: CredentialsCompat) -> bool {
    &&& c.tls_verify_hostname is Some
    &&& c.tls_security is Some
    &&& match spec_expected_verify(c.tls_security) {
        Some(expected) => expected == c.tls_verify_hostname->0,
        None => false,
    }
}

/// Conflict between the current and deprecated certificate fields: both are
/// present and hold different text.
pub open spec fn spec_ca_conflict(c: CredentialsCompat) -> bool {
    &&& c.tls_ca is Some
    &&& c.tls_cert_data is Some
    &&& c.tls_ca->0@ != c.tls_cert_data->0@
}

/// The record that a conflict-free document with a `user` key materialises:
/// `tls_ca` falls back to `tls_cert_data`, `tls_security` falls back to the
/// mode `tls_verify_hostname` implies and then to `Default`, and the port
/// defaults to 5656.
pub open spec fn spec_reconcile(c: CredentialsCompat) -> Credentials
    recommends
        c.user is Some,
{
    Credentials {
        host: c.host,
        port: match c.port {
            Some(p) => p,
            None => 5656,
        },
        user: c.user->0,
        password: c.password,
        database: c.database,
        tls_ca: if c.tls_ca is Some {
            c.tls_ca
        } else {
            c.tls_cert_data
        },
        tls_security: match c.tls_security {
            Some(s) => s,
            None => match c.tls_verify_hostname {
                None => TlsSecurity::Default,
                Some(true) => TlsSecurity::Strict,
                Some(false) => TlsSecurity::NoHostVerification,
            },
        },
        cloud_instance_id: c.cloud_instance_id,
        cloud_original_dsn: c.cloud_original_dsn,
        file_outdated: c.tls_verify_hostname is Some && c.tls_security is None,
    }
}

/// The whole reconciliation policy: the errors in their order of precedence,
/// otherwise the materialised record.
pub open spec fn spec_parse_compat(c: CredentialsCompat) -> Result<Credentials, CredentialsError> {
    if c.user is None {
        Err(CredentialsError::MissingUser)
    } else if spec_tls_conflict(c) {
        Err(CredentialsError::TlsSecurityConflict {
            tls_security: c.tls_security->0,
            tls_verify_hostname: c.tls_verify_hostname->0,
        })
    } else if spec_ca_conflict(c) {
        Err(CredentialsError::TlsCaConflict {
            tls_ca: c.tls_ca->0,
            tls_cert_data: c.tls_cert_data->0,
        })
    } else {
        Ok(spec_reconcile(c))
    }
}

/// The compatibility shape that serialising a record emits: `tls_ca` and
/// `tls_cert_data` both carry the certificate, `tls_security` is always
/// present, and `tls_verify_hostname` mirrors it (`Strict` as true,
/// `NoHostVerification` and `Insecure` as false, `Default` omitted).
pub open spec fn spec_serialize_compat(r: Credentials) -> CredentialsCompat {
    CredentialsCompat {
        host: r.host,
        port: Some(r.port),
        user: Some(r.user),
        password: r.password,
        database: r.database,
        tls_cert_data: r.tls_ca,
        tls_ca: r.tls_ca,
        tls_verify_hostname: match r.tls_security {
            TlsSecurity::Default => None,
            TlsSecurity::Strict => Some(true),
            TlsSecurity::NoHostVerification => Some(false),
            TlsSecurity::Insecure => Some(false),
        },
        tls_security: Some(r.tls_security),
        cloud_instance_id: r.cloud_instance_id,
        cloud_original_dsn: r.cloud_original_dsn,
    }
}

fn clone_opt_string(s: &Option<String>) -> (r: Option<String>)
    ensures
        r == *s,
{
    match s {
        Some(x) => Some(x.clone()),
        None => None,
    }
}

impl Credentials {
    /// Apply the reconciliation policy to a document read into the
    /// compatibility shape.
    pub fn from_compat(c: CredentialsCompat) -> (r: Result<Credentials, CredentialsError>)
        ensures
            r == spec_parse_compat(c),
    {
        let CredentialsCompat {
            host,
            port,
            user,
            password,
            database,
            tls_cert_data,
            tls_ca,
            tls_verify_hostname,
            tls_security,
            cloud_instance_id,
            cloud_original_dsn,
        } = c;
        let user = match user {
            Some(u) => u,
            None => {
                return Err(CredentialsError::MissingUser);
            },
        };
        let expected_verify: Option<bool> = match tls_security {
            Some(TlsSecurity::Strict) => Some(true),
            Some(TlsSecurity::NoHostVerification) => Some(false),
            _ => None,
        };
        match (expected_verify, tls_verify_hostname, tls_security) {
            (Some(expected), Some(observed), Some(sec)) => {
                if expected == observed {
                    return Err(CredentialsError::TlsSecurityConflict {
                        tls_security: sec,
                        tls_verify_hostname: observed,
                    });
                }
            },
            _ => {},
        }
        let reconciled_ca: Option<String> = match (tls_ca, tls_cert_data) {
            (Some(a), Some(b)) => {
                if a != b {
                    return Err(CredentialsError::TlsCaConflict { tls_ca: a, tls_cert_data: b });
                }
                Some(a)
            },
            (Some(a), None) => Some(a),
            (None, Some(b)) => Some(b),
            (None, None) => None,
        };
        Ok(
            Credentials {
                host,
                port: match port {
                    Some(p) => p,
                    None => 5656,
                },
                user,
                password,
                database,
                tls_ca: reconciled_ca,
                tls_security: match tls_security {
                    Some(s) => s,
                    None => match tls_verify_hostname {
                        None => TlsSecurity::Default,
                        Some(true) => TlsSecurity::Strict,
                        Some(false) => TlsSecurity::NoHostVerification,
                    },
                },
                cloud_instance_id,
                cloud_original_dsn,
                file_outdated: tls_verify_hostname.is_some() && tls_security.is_none(),
            },
        )
    }

    /// Serialise the record into the compatibility shape that both current
    /// and legacy readers accept.
    pub fn to_compat(&self) -> (r: CredentialsCompat)
        ensures
            r == spec_serialize_compat(*self),
    {
        CredentialsCompat {
            host: clone_opt_string(&self.host),
            port: Some(self.port),
            user: Some(self.user.clone()),
            password: clone_opt_string(&self.password),
            database: clone_opt_string(&self.database),
            tls_cert_data: clone_opt_string(&self.tls_ca),
            tls_ca: clone_opt_string(&self.tls_ca),
            tls_verify_hostname: match self.tls_security {
                TlsSecurity::Default => None,
                TlsSecurity::Strict => Some(true),
                TlsSecurity::NoHostVerification => Some(false),
                TlsSecurity::Insecure => Some(false),
            },
            tls_security: Some(self.tls_security),
            cloud_instance_id: clone_opt_string(&self.cloud_instance_id),
            cloud_original_dsn: clone_opt_string(&self.cloud_original_dsn),
        }
    }
}

impl Default for Credentials {
    /// The record that defaulting (no document at all) produces.
    fn default() -> (r: Credentials)
        ensures
            r.host is None,
            r.port == 5656,
            r.user@ == "edgedb"@,
            r.password is None,
            r.database is None,
            r.tls_ca is None,
            r.tls_security == TlsSecurity::Default,
            r.cloud_instance_id is None,
            r.cloud_original_dsn is None,
            !r.file_outdated,
    {
        Credentials {
            host: None,
            port: 5656,
            user: "edgedb".to_owned(),
            password: None,
            database: None,
            tls_ca: None,
            tls_security: TlsSecurity::Default,
            cloud_instance_id: None,
            cloud_original_dsn: None,
            file_outdated: false,
        }
    }
}

/// Law: parsing a serialised record restores the record, with `file_outdated`
/// reset to false.
///
/// The serialiser mirrors `Strict` and `NoHostVerification` into the
/// deprecated `tls_verify_hostname` field, and the parser's conflict rule
/// rejects a document in which that mirror agrees with `tls_security`; a
/// record carrying one of those two modes therefore does not survive the
/// round trip, and the law is stated for the other two.
pub proof fn lemma_credentials_round_trip(r: Credentials)
    requires
        r.tls_security == TlsSecurity::Insecure || r.tls_security == TlsSecurity::Default,
    ensures
        spec_parse_compat(spec_serialize_compat(r)) == Ok::<Credentials, CredentialsError>(
            Credentials { file_outdated: false, ..r },
        ),
{
}

impl CredentialsError {
    /// The spelling of a `tls_security` mode in a document.
    pub open spec fn spec_security_json(s: TlsSecurity) -> Seq<char> {
        match s {
            TlsSecurity::Insecure => "\"insecure\""@,
            TlsSecurity::NoHostVerification => "\"no_host_verification\""@,
            TlsSecurity::Strict => "\"strict\""@,
            TlsSecurity::Default => "\"default\""@,
        }
    }

    /// The report for each rejection, naming both offending values where two
    /// fields conflict.
    pub open spec fn spec_message(&self) -> Seq<char> {
        match self {
            CredentialsError::MissingUser => "missing field `user`"@,
            CredentialsError::TlsSecurityConflict { tls_security, tls_verify_hostname } => {
                "detected conflicting settings: tls_security="@
                    + Self::spec_security_json(*tls_security) + " but tls_verify_hostname="@ + (
                if *tls_verify_hostname {
                    "true"@
                } else {
                    "false"@
                })
            },
            CredentialsError::TlsCaConflict { tls_ca, tls_cert_data } => {
                "detected conflicting settings: tls_ca=\""@ + tls_ca@
                    + "\" but tls_cert_data=\""@ + tls_cert_data@ + "\""@
            },
        }
    }

    pub fn message(&self) -> (r: String)
        ensures
            r@ == self.spec_message(),
    {
        match self {
            CredentialsError::MissingUser => "missing field `user`".to_owned(),
            CredentialsError::TlsSecurityConflict { tls_security, tls_verify_hostname } => {
                let mut m = "detected conflicting settings: tls_security=".to_owned();
                m.append(security_json(*tls_security));
                m.append(" but tls_verify_hostname=");
                m.append(
                    if *tls_verify_hostname {
                        "true"
                    } else {
                        "false"
                    },
                );
                m
            },
            CredentialsError::TlsCaConflict { tls_ca, tls_cert_data } => {
                let mut m = "detected conflicting settings: tls_ca=\"".to_owned();
                m.append(tls_ca.as_str());
                m.append("\" but tls_cert_data=\"");
                m.append(tls_cert_data.as_str());
                m.append("\"");
                m
            },
        }
    }
}

fn security_json(s: TlsSecurity) -> (r: &'static str)
    ensures
        r@ == CredentialsError::spec_security_json(s),
{
    match s {
        TlsSecurity::Insecure => "\"insecure\"",
        TlsSecurity::NoHostVerification => "\"no_host_verification\"",
        TlsSecurity::Strict => "\"strict\"",
        TlsSecurity::Default => "\"default\"",
    }
}

} // verus!

