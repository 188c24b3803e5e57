//! Connection parameters and plugin settings as the host sends them.
use vstd::prelude::*;
use crate::schema_infer::opt_view;
use crate::text::owned;

verus! {

/// The connection parameters the host sends; every field may be blank.
#[derive(Debug, Clone)]
pub struct ConnectionParams {
    pub driver: Option<String>,
    pub host: Option<String>,
    pub port: Option<u16>,
    pub database: Option<String>,
    pub username: Option<String>,
    pub password: Option<String>,
    pub ssl_mode: Option<String>,
}

/// The entries of the host's connection object: each text entry when it is
/// a string, the port when it is a non-negative integer.
pub struct ConnectionFields {
    pub driver: Option<String>,
    pub host: Option<String>,
    pub port: Option<u64>,
    pub database: Option<String>,
    pub username: Option<String>,
    pub password: Option<String>,
    pub ssl_mode: Option<String>,
}

fn copy_opt(o: &Option<String>) -> (r: Option<String>)
    ensures
        opt_view(r) == opt_view(*o),
{
    match o {
        Some(s) => Some(s.clone()),
        None => None,
    }
}

impl ConnectionParams {
    /// The parameters from the host's object; a port that does not fit
    /// in 16 bits is dropped.
    pub fn from_value(v: &ConnectionFields) -> (r: ConnectionParams)
        ensures
            opt_view(r.driver) == opt_view(v.driver),
            opt_view(r.host) == opt_view(v.host),
            r.port == match v.port {
                Some(p) => if p <= 65535 {
                    Some(p as u16)
                } else {
                    None
                },
                None => None,
            },
            opt_view(r.database) == opt_view(v.database),
            opt_view(r.username) == opt_view(v.username),
            opt_view(r.password) == opt_view(v.password),
            opt_view(r.ssl_mode) == opt_view(v.ssl_mode),
    {
        let port = match v.port {
            Some(p) => if p <= 65535 {
                Some(p as u16)
            } else {
                None
            },
            None => None,
        };
        ConnectionParams {
            driver: copy_opt(&v.driver),
            host: copy_opt(&v.host),
            port,
            database: copy_opt(&v.database),
            username: copy_opt(&v.username),
            password: copy_opt(&v.password),
            ssl_mode: copy_opt(&v.ssl_mode),
        }
    }
}

/// Plugin-wide settings as delivered by the host's `initialize` call.
#[derive(Debug, Clone)]
pub struct Settings {
    pub project_id: String,
    pub database_id: String,
    pub service_account_path: Option<String>,
    pub emulator_host: Option<String>,
    pub sample_size: u32,
}

/// The entries of the host's settings object: each text entry when it is
/// a string, the sample size when it is a non-negative integer.
pub struct SettingsFields {
    pub project_id: Option<String>,
    pub database_id: Option<String>,
    pub service_account_path: Option<String>,
    pub emulator_host: Option<String>,
    pub sample_size: Option<u64>,
}

impl Default for Settings {
    fn default() -> (r: Settings)
        ensures
            r.project_id@ == Seq::<char>::empty(),
            r.database_id@ == "(default)"@,
            r.service_account_path is None,
            r.emulator_host is None,
            r.sample_size == 50,
    {
        let r = Settings {
            project_id: String::new(),
            database_id: owned("(default)"),
            service_account_path: None,
            emulator_host: None,
            sample_size: 50,
        };
        r
    }
}

/// A text entry that is present and not empty.
pub open spec fn non_empty(o: Option<Seq<char>>) -> Option<Seq<char>> {
    match o {
        Some(s) => if s.len() > 0 {
            Some(s)
        } else {
            None
        },
        None => None,
    }
}

/// The sample size for a requested one: 50 when absent or beyond `u32`,
/// at least 1.
pub open spec fn sample_size_for(n: Option<u64>) -> u32 {
    match n {
        Some(k) => if k > u32::MAX {
            50
        } else if k == 0 {
            1
        } else {
            k as u32
        },
        None => 50,
    }
}

fn non_empty_copy(o: &Option<String>) -> (r: Option<String>)
    ensures
        opt_view(r) == non_empty(opt_view(*o)),
{
    match o {
        Some(s) => if s.unicode_len() > 0 {
            Some(s.clone())
        } else {
            None
        },
        None => None,
    }
}

impl Settings {
    /// Settings from the host's object: the project ID as given (empty when
    /// absent), the database `(default)` unless a non-empty one is given,
    /// empty paths and hosts treated as unset, and the sample size 50
    /// unless given, raised to at least 1.
    pub fn from_value(v: &SettingsFields) -> (r: Settings)
        ensures
            r.project_id@ == match v.project_id {
                Some(p) => p@,
                None => Seq::<char>::empty(),
            },
            r.database_id@ == match non_empty(opt_view(v.database_id)) {
                Some(d) => d,
                None => "(default)"@,
            },
            opt_view(r.service_account_path) == non_empty(opt_view(v.service_account_path)),
            opt_view(r.emulator_host) == non_empty(opt_view(v.emulator_host)),
            r.sample_size == sample_size_for(v.sample_size),
    {
        let mut s = Settings::default();
        match &v.project_id {
            Some(p) => {
                s.project_id = p.clone();
            },
            None => {},
        }
        match non_empty_copy(&v.database_id) {
            Some(d) => {
                s.database_id = d;
            },
            None => {},
        }
        s.service_account_path = non_empty_copy(&v.service_account_path);
        s.emulator_host = non_empty_copy(&v.emulator_host);
        match v.sample_size {
            Some(n) => {
                let k: u32 = if n > 4294967295 {
                    50
                } else {
                    n as u32
                };
                s.sample_size = if k < 1 {
                    1
                } else {
                    k
                };
            },
            None => {},
        }
        s
    }
}

} // verus!
