//! The settings of an HTTP client.

use vstd::prelude::*;
use vstd::string::StringExecFns;

verus! {

/// The settings from which an HTTP client is built. Times are in
/// milliseconds.
#[derive(Debug, Clone)]
pub struct HttpClientBuilder {
    timeout_ms: u64,
    pool_max_idle_per_host: usize,
    pool_idle_timeout_ms: u64,
    user_agent: String,
    danger_accept_invalid_certs: bool,
}

/// The settings as the contracts read them.
pub struct ClientSettings {
    pub timeout_ms: u64,
    pub pool_max_idle_per_host: usize,
    pub pool_idle_timeout_ms: u64,
    pub user_agent: Seq<char>,
    pub danger_accept_invalid_certs: bool,
}

/// The settings of a client where nothing was asked for: 30 s for a
/// request, 10 idle connections per host kept for 90 s, certificates
/// checked.
pub open spec fn default_settings() -> ClientSettings {
    ClientSettings {
        timeout_ms: 30_000,
        pool_max_idle_per_host: 10,
        pool_idle_timeout_ms: 90_000,
        user_agent: "rmeter/0.1.0"@,
        danger_accept_invalid_certs: false,
    }
}

impl View for HttpClientBuilder {
    type V = ClientSettings;

    closed spec fn view(&self) -> ClientSettings {
        ClientSettings {
            timeout_ms: self.timeout_ms,
            pool_max_idle_per_host: self.pool_max_idle_per_host,
            pool_idle_timeout_ms: self.pool_idle_timeout_ms,
            user_agent: self.user_agent@,
            danger_accept_invalid_certs: self.danger_accept_invalid_certs,
        }
    }
}

impl Default for HttpClientBuilder {
    fn default() -> (builder: Self)
        ensures
            builder@ == default_settings(),
    {
        HttpClientBuilder {
            timeout_ms: 30_000,
            pool_max_idle_per_host: 10,
            pool_idle_timeout_ms: 90_000,
            user_agent: String::from_str("rmeter/0.1.0"),
            danger_accept_invalid_certs: false,
        }
    }
}

impl HttpClientBuilder {
    /// The default settings.
    pub fn new() -> (builder: Self)
        ensures
            builder@ == default_settings(),
    {
        HttpClientBuilder {
            timeout_ms: 30_000,
            pool_max_idle_per_host: 10,
            pool_idle_timeout_ms: 90_000,
            user_agent: String::from_str("rmeter/0.1.0"),
            danger_accept_invalid_certs: false,
        }
    }

    /// Sets the time allowed for a whole request.
    pub fn timeout(self, timeout_ms: u64) -> (builder: Self)
        ensures
            builder@ == (ClientSettings { timeout_ms, ..self@ }),
    {
        let mut builder = self;
        builder.timeout_ms = timeout_ms;
        builder
    }

    /// Sets how many idle connections are kept per host.
    pub fn pool_max_idle_per_host(self, n: usize) -> (builder: Self)
        ensures
            builder@ == (ClientSettings { pool_max_idle_per_host: n, ..self@ }),
    {
        let mut builder = self;
        builder.pool_max_idle_per_host = n;
        builder
    }

    /// Sets how long an idle connection is kept.
    pub fn pool_idle_timeout(self, timeout_ms: u64) -> (builder: Self)
        ensures
            builder@ == (ClientSettings { pool_idle_timeout_ms: timeout_ms, ..self@ }),
    {
        let mut builder = self;
        builder.pool_idle_timeout_ms = timeout_ms;
        builder
    }

    /// Sets the `User-Agent` that the client sends.
    pub fn user_agent(self, ua: String) -> (builder: Self)
        ensures
            builder@ == (ClientSettings { user_agent: ua@, ..self@ }),
    {
        let mut builder = self;
        builder.user_agent = ua;
        builder
    }

    /// Sets whether certificates that cannot be checked are accepted.
    pub fn danger_accept_invalid_certs(self, accept: bool) -> (builder: Self)
        ensures
            builder@ == (ClientSettings { danger_accept_invalid_certs: accept, ..self@ }),
    {
        let mut builder = self;
        builder.danger_accept_invalid_certs = accept;
        builder
    }

    /// The time allowed for a whole request, in milliseconds.
    pub fn timeout_ms(&self) -> (ms: u64)
        ensures
            ms == self@.timeout_ms,
    {
        self.timeout_ms
    }

    /// How many idle connections are kept per host.
    pub fn max_idle_per_host(&self) -> (n: usize)
        ensures
            n == self@.pool_max_idle_per_host,
    {
        self.pool_max_idle_per_host
    }

    /// How long an idle connection is kept, in milliseconds.
    pub fn pool_idle_timeout_ms(&self) -> (ms: u64)
        ensures
            ms == self@.pool_idle_timeout_ms,
    {
        self.pool_idle_timeout_ms
    }

    /// The `User-Agent` that the client sends.
    pub fn agent(&self) -> (ua: &str)
        ensures
            ua@ == self@.user_agent,
    {
        self.user_agent.as_str()
    }

    /// Whether certificates that cannot be checked are accepted.
    pub fn accepts_invalid_certs(&self) -> (accept: bool)
        ensures
            accept == self@.danger_accept_invalid_certs,
    {
        self.danger_accept_invalid_certs
    }
}

} // verus!
