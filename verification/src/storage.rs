//! Storage configuration: which database backend a configuration selects.
//!
//! An embedded store needs a path, the configured one or else the default
//! one; a remote store needs a URL whose scheme picks the transport, a
//! WebSocket for `ws`/`wss` and HTTP for `http`/`https`.

use vstd::prelude::*;
use crate::context::opt_view;
use crate::text::str_eq;

verus! {

/// Where the database lives.
#[derive(Debug, Clone, Copy, PartialEq, Eq, Structural)]
pub enum StorageMode {
    /// An embedded database on local disk.
    Embedded,
    /// A remote database server.
    Remote,
}

/// A parsed remote URL: its text and its scheme.
#[derive(Debug)]
pub struct RemoteUrl {
    /// The URL as text.
    pub text: String,
    /// The URL's scheme, such as `wss`.
    pub scheme: String,
}

/// The storage section of the configuration.
#[derive(Debug)]
pub struct StorageConfig {
    /// Embedded or remote.
    pub mode: StorageMode,
    /// The embedded database's directory, when configured.
    pub path: Option<String>,
    /// The database namespace.
    pub namespace: String,
    /// The database name.
    pub database: String,
    /// The remote server's URL, when configured.
    pub url: Option<RemoteUrl>,
    /// The remote user, when any.
    pub username: Option<String>,
    /// The remote password, when any.
    pub password: Option<String>,
}

/// How to reach a remote server.
#[derive(Debug)]
pub struct RemoteOptions {
    /// The server's URL.
    pub url: String,
    /// The user, when any.
    pub username: Option<String>,
    /// The password, when any.
    pub password: Option<String>,
}

/// The database backend a configuration selects.
#[derive(Debug)]
pub enum StorageBackend {
    /// An embedded database in `db_dir`.
    Embedded {
        /// The database directory.
        db_dir: String,
    },
    /// A remote server over a WebSocket.
    WebSocket(RemoteOptions),
    /// A remote server over HTTP.
    Http(RemoteOptions),
}

/// The options the database is opened with.
#[derive(Debug)]
pub struct StorageOptions {
    /// The namespace.
    pub namespace: String,
    /// The database name.
    pub db: String,
    /// The backend.
    pub backend: StorageBackend,
}

/// A storage configuration that selects no usable backend.
#[derive(Debug)]
pub enum StorageError {
    /// A required setting is missing.
    ConfigInvalid(&'static str),
    /// The remote URL's scheme is not one the database speaks.
    InvalidScheme(String),
}

/// Whether `options` reach the server at `url` with the configured user and
/// password.
pub open spec fn is_remote_of(options: RemoteOptions, url: RemoteUrl, config: StorageConfig) -> bool {
    &&& options.url@ == url.text@
    &&& opt_view(options.username) == opt_view(config.username)
    &&& opt_view(options.password) == opt_view(config.password)
}

/// Whether `r` is what `config` selects, given the default embedded path.
///
/// An embedded store opens the configured path, else the default one, and
/// fails without either. A remote store fails without a URL; a `ws` or `wss`
/// URL is reached over a WebSocket, an `http` or `https` one over HTTP, and
/// any other scheme is refused.
pub open spec fn is_storage_outcome(r: Result<StorageOptions, StorageError>, config: StorageConfig, default_path: Option<String>) -> bool {
    match r {
        Ok(options) => {
            &&& options.namespace@ == config.namespace@
            &&& options.db@ == config.database@
            &&& match config.mode {
                StorageMode::Embedded => (options.backend matches StorageBackend::Embedded { db_dir }
                    && Some(db_dir@) == match config.path {
                        Some(p) => Some(p@),
                        None => opt_view(default_path),
                    }),
                StorageMode::Remote => (config.url matches Some(url) && {
                    let s = url.scheme@;
                    ||| (s == "ws"@ || s == "wss"@) && (options.backend matches StorageBackend::WebSocket(o) && is_remote_of(o, url, config))
                    ||| (s == "http"@ || s == "https"@) && (options.backend matches StorageBackend::Http(o) && is_remote_of(o, url, config))
                }),
            }
        },
        Err(StorageError::ConfigInvalid(message)) => match config.mode {
            StorageMode::Embedded => config.path is None && default_path is None
                && message@ == "path must be specified for `Embedded` engine"@,
            StorageMode::Remote => config.url is None && message@ == "url must be specified for `Remote` engine"@,
        },
        Err(StorageError::InvalidScheme(message)) => {
            &&& config.mode == StorageMode::Remote
            &&& config.url matches Some(url)
            &&& url.scheme@ != "ws"@ && url.scheme@ != "wss"@ && url.scheme@ != "http"@ && url.scheme@ != "https"@
            &&& message@ == "unsupported URL scheme "@ + url.scheme@ + " for SurrealDB remote storage"@
        },
    }
}

/// A copy of an optional string.
fn copy_opt(s: &Option<String>) -> (r: Option<String>)
    ensures
        opt_view(r) == opt_view(*s),
{
    match s {
        Some(x) => Some(x.clone()),
        None => None,
    }
}

/// The options the configured database is opened with; `default_path` is
/// the default embedded directory, when there is one.
pub fn storage_options(config: &StorageConfig, default_path: Option<String>) -> (r: Result<StorageOptions, StorageError>)
    ensures
        is_storage_outcome(r, *config, default_path),
{
    let namespace = config.namespace.clone();
    let db = config.database.clone();
    match config.mode {
        StorageMode::Embedded => {
            let path = match &config.path {
                Some(p) => p.clone(),
                None => match default_path {
                    Some(p) => p,
                    None => {
                        return Err(StorageError::ConfigInvalid("path must be specified for `Embedded` engine"));
                    },
                },
            };
            Ok(StorageOptions { namespace, db, backend: StorageBackend::Embedded { db_dir: path } })
        },
        StorageMode::Remote => {
            let url = match &config.url {
                Some(u) => u,
                None => {
                    return Err(StorageError::ConfigInvalid("url must be specified for `Remote` engine"));
                },
            };
            let remote = RemoteOptions {
                url: url.text.clone(),
                username: copy_opt(&config.username),
                password: copy_opt(&config.password),
            };
            let scheme = url.scheme.as_str();
            if str_eq(scheme, "ws") || str_eq(scheme, "wss") {
                Ok(StorageOptions { namespace, db, backend: StorageBackend::WebSocket(remote) })
            } else if str_eq(scheme, "http") || str_eq(scheme, "https") {
                Ok(StorageOptions { namespace, db, backend: StorageBackend::Http(remote) })
            } else {
                let mut message = String::from_str("unsupported URL scheme ");
                message.append(scheme);
                message.append(" for SurrealDB remote storage");
                Err(StorageError::InvalidScheme(message))
            }
        },
    }
}

} // verus!
