//! Process-wide configuration: immutable values constructed once at startup
//! and passed by reference into the components that need them.

use vstd::prelude::*;

verus! {

/// Database connection settings.
#[derive(Clone, Debug)]
pub struct DatabaseConfig {
    pub url: String,
    pub max_connections: u32,
    pub timeout_seconds: u64,
    pub enable_logging: bool,
}

impl DatabaseConfig {
    /// The out-of-the-box value: an in-memory database, ten connections, a
    /// thirty-second timeout, logging on.
    pub open spec fn is_default(self) -> bool {
        &&& self.url@ == "sqlite::memory:"@
        &&& self.max_connections == 10
        &&& self.timeout_seconds == 30
        &&& self.enable_logging == true
    }
}

impl Default for DatabaseConfig {
    fn default() -> (r: Self)
        ensures
            r.is_default(),
    {
        Self {
            url: "sqlite::memory:".to_owned(),
            max_connections: 10,
            timeout_seconds: 30,
            enable_logging: true,
        }
    }
}

/// HTTP server settings.
#[derive(Clone, Debug)]
pub struct ServerConfig {
    pub host: String,
    pub port: u16,
    pub max_body_size_mb: usize,
    pub enable_compression: bool,
    pub enable_cors: bool,
}

impl ServerConfig {
    /// The out-of-the-box value: loopback on port 8080, bodies up to 100 MB.
    pub open spec fn is_default(self) -> bool {
        &&& self.host@ == "127.0.0.1"@
        &&& self.port == 8080
        &&& self.max_body_size_mb == 100
        &&& self.enable_compression == true
        &&& self.enable_cors == true
    }
}

impl Default for ServerConfig {
    fn default() -> (r: Self)
        ensures
            r.is_default(),
    {
        Self {
            host: "127.0.0.1".to_owned(),
            port: 8080,
            max_body_size_mb: 100,
            enable_compression: true,
            enable_cors: true,
        }
    }
}

/// Credential subsystem settings: the signing secret and the two token
/// lifetimes. The refresh lifetime is expected, not enforced, to exceed the
/// access lifetime; that ordering is the operator's responsibility.
#[derive(Clone, Debug)]
pub struct AuthConfig {
    pub jwt_secret: String,
    pub token_expiry_seconds: i64,
    pub refresh_token_expiry_seconds: i64,
    pub bcrypt_cost: u32,
}

impl AuthConfig {
    /// The out-of-the-box value: a placeholder secret, one-hour access
    /// tokens, one-day refresh tokens.
    pub open spec fn is_default(self) -> bool {
        &&& self.jwt_secret@ == "super-secret-jwt-key-change-in-production"@
        &&& self.token_expiry_seconds == 3600
        &&& self.refresh_token_expiry_seconds == 86400
        &&& self.bcrypt_cost == 10
    }
}

impl Default for AuthConfig {
    fn default() -> (r: Self)
        ensures
            r.is_default(),
    {
        Self {
            jwt_secret: "super-secret-jwt-key-change-in-production".to_owned(),
            token_expiry_seconds: 3600,
            refresh_token_expiry_seconds: 86400,
            bcrypt_cost: 10,
        }
    }
}

/// Cache sizing and lifetime settings.
#[derive(Clone, Copy, Debug, PartialEq, Eq, Structural)]
pub struct CacheConfig {
    pub max_capacity: u64,
    pub ttl_seconds: u64,
    pub enable_metrics: bool,
}

impl CacheConfig {
    /// The out-of-the-box value: ten thousand entries, five minutes to live.
    pub open spec fn is_default(self) -> bool {
        &&& self.max_capacity == 10000
        &&& self.ttl_seconds == 300
        &&& self.enable_metrics == true
    }
}

impl Default for CacheConfig {
    fn default() -> (r: Self)
        ensures
            r.is_default(),
    {
        Self { max_capacity: 10000, ttl_seconds: 300, enable_metrics: true }
    }
}

/// Settings for calls out to third-party services.
#[derive(Clone, Debug)]
pub struct ExternalServices {
    pub api_base_url: String,
    pub api_key: String,
    pub timeout_seconds: u64,
    pub retry_attempts: u32,
}

impl ExternalServices {
    /// The out-of-the-box value: an example endpoint, no key, three retries.
    pub open spec fn is_default(self) -> bool {
        &&& self.api_base_url@ == "https://api.example.com"@
        &&& self.api_key@ == ""@
        &&& self.timeout_seconds == 30
        &&& self.retry_attempts == 3
    }
}

impl Default for ExternalServices {
    fn default() -> (r: Self)
        ensures
            r.is_default(),
    {
        Self {
            api_base_url: "https://api.example.com".to_owned(),
            api_key: "".to_owned(),
            timeout_seconds: 30,
            retry_attempts: 3,
        }
    }
}

/// Top-level application configuration.
#[derive(Clone, Debug)]
pub struct AppConfig {
    pub database: DatabaseConfig,
    pub server: ServerConfig,
    pub auth: AuthConfig,
    pub cache: CacheConfig,
    pub external: ExternalServices,
}

impl AppConfig {
    /// Every section at its default.
    pub open spec fn is_default(self) -> bool {
        &&& self.database.is_default()
        &&& self.server.is_default()
        &&& self.auth.is_default()
        &&& self.cache.is_default()
        &&& self.external.is_default()
    }
}

impl Default for AppConfig {
    fn default() -> (r: Self)
        ensures
            r.is_default(),
    {
        Self {
            database: DatabaseConfig::default(),
            server: ServerConfig::default(),
            auth: AuthConfig::default(),
            cache: CacheConfig::default(),
            external: ExternalServices::default(),
        }
    }
}

} // verus!
