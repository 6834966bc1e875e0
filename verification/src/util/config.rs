//! Configuration loading support, environment-driven variant: the file
//! formats a configuration can be read from, and the etcd connection
//! settings assembled from prefixed environment values.

use crate::util::text::str_eq;
use vstd::prelude::*;

verus! {

/// A configuration file format.
#[derive(Clone, Copy)]
pub enum Format {
    Json,
    Yaml,
    Toml,
}

/// Why configuration loading failed, for the parts decided here.
#[derive(Debug)]
pub enum Error {
    /// The file path carries no usable extension.
    UnknownFormat,
    /// The file extension names no supported format.
    UnsupportedFormat(String),
    /// A required environment value is missing.
    MissingValue(String),
}

/// The format a file extension stands for: `json`, `yaml` or `toml`, and an
/// error naming any other extension.
pub fn format_from_extension(ext: &str) -> (r: Result<Format, Error>)
    ensures
        match r {
            Ok(f) => (ext@ == "json"@ && f is Json) || (ext@ == "yaml"@ && f is Yaml) || (ext@
                == "toml"@ && f is Toml),
            Err(e) => !(ext@ == "json"@ || ext@ == "yaml"@ || ext@ == "toml"@) && match e {
                Error::UnsupportedFormat(s) => s@ == ext@,
                _ => false,
            },
        },
{
    if str_eq(ext, "json") {
        Ok(Format::Json)
    } else if str_eq(ext, "yaml") {
        Ok(Format::Yaml)
    } else if str_eq(ext, "toml") {
        Ok(Format::Toml)
    } else {
        Err(Error::UnsupportedFormat(ext.to_owned()))
    }
}

/// Whether an `ETCD_ENABLE_AUTH` value turns authentication on: any present
/// value other than the usual spellings of "no".
pub open spec fn auth_flag_spec(v: Option<Seq<char>>) -> bool {
    match v {
        None => false,
        Some(s) => !(s == "false"@ || s == "FALSE"@ || s == "False"@ || s == "no"@ || s == "No"@
            || s == "NO"@ || s == "0"@),
    }
}

fn auth_flag(v: &Option<String>) -> (r: bool)
    ensures
        r == auth_flag_spec(
            match v {
                Some(s) => Some(s@),
                None => None,
            },
        ),
{
    match v {
        None => false,
        Some(s) => !(str_eq(s.as_str(), "false") || str_eq(s.as_str(), "FALSE") || str_eq(
            s.as_str(),
            "False",
        ) || str_eq(s.as_str(), "no") || str_eq(s.as_str(), "No") || str_eq(s.as_str(), "NO")
            || str_eq(s.as_str(), "0")),
    }
}

/// How to reach an etcd cluster: one endpoint, and credentials when
/// authentication is enabled.
pub struct EtcdConfig {
    pub endpoint: String,
    pub enable_auth: bool,
    pub user: Option<String>,
    pub password: Option<String>,
}

impl EtcdConfig {
    /// The settings' invariant: credentials are present whenever
    /// authentication is enabled.
    pub open spec fn wf(&self) -> bool {
        self.enable_auth ==> self.user is Some && self.password is Some
    }

    /// Assembles the settings from raw environment values: the endpoint is
    /// taken as given, the authentication flag is read from its usual
    /// spellings, and enabling authentication without a user or password is
    /// an error naming the missing variable.
    pub fn from_raw(
        endpoint: String,
        enable_auth: Option<String>,
        user: Option<String>,
        password: Option<String>,
    ) -> (r: Result<EtcdConfig, Error>)
        ensures
            ({
                let auth = auth_flag_spec(
                    match enable_auth {
                        Some(s) => Some(s@),
                        None => None,
                    },
                );
                match r {
                    Ok(c) => {
                        &&& c.wf()
                        &&& c.endpoint@ == endpoint@
                        &&& c.enable_auth == auth
                        &&& (auth ==> user is Some && password is Some && c.user == user
                            && c.password == password)
                        &&& (!auth ==> c.user is None && c.password is None)
                    },
                    Err(e) => auth && (user is None || password is None) && (e matches
                    Error::MissingValue(_)),
                }
            }),
    {
        let auth = auth_flag(&enable_auth);
        if auth {
            if user.is_none() {
                return Err(Error::MissingValue(String::from_str("ETCD_USER")));
            }
            if password.is_none() {
                return Err(Error::MissingValue(String::from_str("ETCD_PASSWORD")));
            }
            Ok(EtcdConfig { endpoint, enable_auth: true, user, password })
        } else {
            Ok(EtcdConfig { endpoint, enable_auth: false, user: None, password: None })
        }
    }

    /// The configured endpoint.
    pub fn endpoint(&self) -> (r: &String)
        ensures
            r@ == self.endpoint@,
    {
        &self.endpoint
    }

    /// Whether authentication is enabled.
    pub fn enable_auth(&self) -> (r: bool)
        ensures
            r == self.enable_auth,
    {
        self.enable_auth
    }

    /// The configured user, present whenever authentication is enabled.
    pub fn user(&self) -> (r: Option<&String>)
        ensures
            self.wf() && self.enable_auth ==> r is Some,
            match r {
                Some(u) => self.user == Some(*u),
                None => self.user is None,
            },
    {
        self.user.as_ref()
    }

    /// The configured password, present whenever authentication is enabled.
    pub fn password(&self) -> (r: Option<&String>)
        ensures
            self.wf() && self.enable_auth ==> r is Some,
            match r {
                Some(p) => self.password == Some(*p),
                None => self.password is None,
            },
    {
        self.password.as_ref()
    }
}

} // verus!
