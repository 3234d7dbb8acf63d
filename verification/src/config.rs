//! Configuration for WebSocket infrastructure.
//!
//! [`WsConfig`] holds the heartbeat cadence, the broadcast buffering, the
//! connection limit, and the origin allow-list for the upgrade handshake.
use std::time::Duration;
use vstd::prelude::*;

verus! {

/// The duration of a number of seconds.
pub uninterp spec fn seconds(secs: u64) -> Duration;

/// `Duration::from_secs` makes the duration of that many whole seconds.
pub assume_specification[ Duration::from_secs ](secs: u64) -> (r: Duration)
    ensures
        r == seconds(secs),
;

/// Configuration for WebSocket connections and broadcast channels.
#[derive(Debug, PartialEq, Eq)]
pub struct WsConfig {
    /// Interval between heartbeat pings.
    pub heartbeat_interval: Duration,
    /// Capacity of each broadcast channel.
    pub broadcast_capacity: usize,
    /// Maximum concurrent connections allowed (0 = unlimited).
    pub max_connections: usize,
    /// Origin allow-list for the WebSocket upgrade handshake.
    ///
    /// **An empty list (the default) accepts upgrades from any origin.** When it
    /// is not empty, an upgrade whose `Origin` header is missing or not in this
    /// list must be rejected; see [`crate::origin::origin_allowed`].
    pub allowed_origins: Vec<String>,
}

impl WsConfig {
    /// Whether the settings are the default ones.
    pub open spec fn is_default(self) -> bool {
        &&& self.heartbeat_interval == seconds(30)
        &&& self.broadcast_capacity == 1024
        &&& self.max_connections == 1000
        &&& self.allowed_origins@.len() == 0
    }

    /// The most connections at a time, if there is a limit.
    pub open spec fn limit(self) -> Option<usize> {
        if self.max_connections == 0 {
            None
        } else {
            Some(self.max_connections)
        }
    }

    /// Create a new config with defaults.
    pub fn new() -> (r: Self)
        ensures
            r.is_default(),
    {
        Self::default()
    }

    /// Create a builder for [`WsConfig`].
    pub fn builder() -> (r: WsConfigBuilder)
        ensures
            r@.is_default(),
    {
        WsConfigBuilder::default()
    }

    /// The most connections at a time; `None` where `max_connections` is zero.
    pub fn connection_limit(&self) -> (r: Option<usize>)
        ensures
            r == self.limit(),
    {
        if self.max_connections == 0 {
            None
        } else {
            Some(self.max_connections)
        }
    }
}

impl Clone for WsConfig {
    fn clone(&self) -> (r: Self)
        ensures
            r.heartbeat_interval == self.heartbeat_interval,
            r.broadcast_capacity == self.broadcast_capacity,
            r.max_connections == self.max_connections,
            r.allowed_origins@ == self.allowed_origins@,
    {
        WsConfig {
            heartbeat_interval: self.heartbeat_interval,
            broadcast_capacity: self.broadcast_capacity,
            max_connections: self.max_connections,
            allowed_origins: self.allowed_origins.clone(),
        }
    }
}

impl Default for WsConfig {
    fn default() -> (r: Self)
        ensures
            r.is_default(),
    {
        WsConfig {
            heartbeat_interval: Duration::from_secs(30),
            broadcast_capacity: 1024,
            max_connections: 1000,
            allowed_origins: Vec::new(),
        }
    }
}

/// Builder for [`WsConfig`].
#[derive(Debug)]
pub struct WsConfigBuilder {
    config: WsConfig,
}

impl Clone for WsConfigBuilder {
    fn clone(&self) -> (r: Self)
        ensures
            r@.heartbeat_interval == self@.heartbeat_interval,
            r@.broadcast_capacity == self@.broadcast_capacity,
            r@.max_connections == self@.max_connections,
            r@.allowed_origins@ == self@.allowed_origins@,
    {
        WsConfigBuilder { config: self.config.clone() }
    }
}

impl View for WsConfigBuilder {
    type V = WsConfig;

    closed spec fn view(&self) -> WsConfig {
        self.config
    }
}

impl Default for WsConfigBuilder {
    fn default() -> (r: Self)
        ensures
            r@.is_default(),
    {
        WsConfigBuilder { config: WsConfig::default() }
    }
}

impl WsConfigBuilder {
    /// Set heartbeat interval.
    pub fn heartbeat_interval(self, v: Duration) -> (r: Self)
        ensures
            r@ == (WsConfig { heartbeat_interval: v, ..self@ }),
    {
        WsConfigBuilder { config: WsConfig { heartbeat_interval: v, ..self.config } }
    }

    /// Set broadcast channel capacity.
    pub fn broadcast_capacity(self, v: usize) -> (r: Self)
        ensures
            r@ == (WsConfig { broadcast_capacity: v, ..self@ }),
    {
        WsConfigBuilder { config: WsConfig { broadcast_capacity: v, ..self.config } }
    }

    /// Set maximum connection limit.
    pub fn max_connections(self, v: usize) -> (r: Self)
        ensures
            r@ == (WsConfig { max_connections: v, ..self@ }),
    {
        WsConfigBuilder { config: WsConfig { max_connections: v, ..self.config } }
    }

    /// Replace the origin allow-list. An empty one allows all origins.
    pub fn allowed_origins(self, origins: Vec<String>) -> (r: Self)
        ensures
            r@ == (WsConfig { allowed_origins: origins, ..self@ }),
    {
        WsConfigBuilder { config: WsConfig { allowed_origins: origins, ..self.config } }
    }

    /// Add one origin to the allow-list, e.g.
    /// `.allow_origin("https://app.example.com")`.
    pub fn allow_origin<T: Into<String>>(self, origin: T) -> (r: Self)
        ensures
            r@ == (WsConfig { allowed_origins: r@.allowed_origins, ..self@ }),
            r@.allowed_origins@.len() == self@.allowed_origins@.len() + 1,
            r@.allowed_origins@.drop_last() == self@.allowed_origins@,
            call_ensures(T::into, (origin,), r@.allowed_origins@.last()),
    {
        let mut config = self.config;
        config.allowed_origins.push(origin.into());
        WsConfigBuilder { config }
    }

    /// Finish the configuration.
    pub fn build(self) -> (r: WsConfig)
        ensures
            r == self@,
    {
        self.config
    }
}

/// By default a heartbeat is due every 30 seconds, a channel holds 1024 messages, 1000
/// connections are allowed at a time, and any origin is.
pub proof fn law_defaults(
    made: WsConfig,
    unset: WsConfig,
    builder: WsConfigBuilder,
    built: WsConfig,
    interval: Duration,
)
    requires
        call_ensures(WsConfig::new, (), made),
        call_ensures(<WsConfig as Default>::default, (), unset),
        call_ensures(WsConfig::builder, (), builder),
        call_ensures(WsConfigBuilder::build, (builder,), built),
        call_ensures(Duration::from_secs, (30,), interval),
    ensures
        made.heartbeat_interval == interval && unset.heartbeat_interval == interval
            && built.heartbeat_interval == interval,
        made.broadcast_capacity == 1024 && unset.broadcast_capacity == 1024
            && built.broadcast_capacity == 1024,
        made.max_connections == 1000 && unset.max_connections == 1000 && built.max_connections
            == 1000,
        made.allowed_origins@.len() == 0 && unset.allowed_origins@.len() == 0
            && built.allowed_origins@.len() == 0,
{
}

/// What is set on a builder is what is built, and all else is built as it was.
pub proof fn law_settings_are_built(
    builder: WsConfigBuilder,
    was: WsConfig,
    interval: Duration,
    capacity: usize,
    limit: usize,
    origins: Vec<String>,
    with_interval: WsConfigBuilder,
    with_capacity: WsConfigBuilder,
    with_limit: WsConfigBuilder,
    with_origins: WsConfigBuilder,
    a: WsConfig,
    b: WsConfig,
    c: WsConfig,
    d: WsConfig,
)
    requires
        call_ensures(WsConfigBuilder::build, (builder,), was),
        call_ensures(WsConfigBuilder::heartbeat_interval, (builder, interval), with_interval),
        call_ensures(WsConfigBuilder::broadcast_capacity, (builder, capacity), with_capacity),
        call_ensures(WsConfigBuilder::max_connections, (builder, limit), with_limit),
        call_ensures(WsConfigBuilder::allowed_origins, (builder, origins), with_origins),
        call_ensures(WsConfigBuilder::build, (with_interval,), a),
        call_ensures(WsConfigBuilder::build, (with_capacity,), b),
        call_ensures(WsConfigBuilder::build, (with_limit,), c),
        call_ensures(WsConfigBuilder::build, (with_origins,), d),
    ensures
        a.heartbeat_interval == interval && a.broadcast_capacity == was.broadcast_capacity
            && a.max_connections == was.max_connections && a.allowed_origins
            == was.allowed_origins,
        b.heartbeat_interval == was.heartbeat_interval && b.broadcast_capacity == capacity
            && b.max_connections == was.max_connections && b.allowed_origins
            == was.allowed_origins,
        c.heartbeat_interval == was.heartbeat_interval && c.broadcast_capacity
            == was.broadcast_capacity && c.max_connections == limit && c.allowed_origins
            == was.allowed_origins,
        d.heartbeat_interval == was.heartbeat_interval && d.broadcast_capacity
            == was.broadcast_capacity && d.max_connections == was.max_connections
            && d.allowed_origins == origins,
{
}

/// An origin that is allowed comes behind those that were, and all else is built as it
/// was.
pub proof fn law_origins_are_added<T: Into<String>>(
    builder: WsConfigBuilder,
    was: WsConfig,
    origin: T,
    with_origin: WsConfigBuilder,
    built: WsConfig,
)
    requires
        call_ensures(WsConfigBuilder::build, (builder,), was),
        call_ensures(WsConfigBuilder::allow_origin::<T>, (builder, origin), with_origin),
        call_ensures(WsConfigBuilder::build, (with_origin,), built),
    ensures
        exists|text: String| #[trigger]
            call_ensures(T::into, (origin,), text) && built.allowed_origins@
                == was.allowed_origins@.push(text),
        built.heartbeat_interval == was.heartbeat_interval,
        built.broadcast_capacity == was.broadcast_capacity,
        built.max_connections == was.max_connections,
{
    let text = built.allowed_origins@.last();
    assert(call_ensures(T::into, (origin,), text));
    assert(built.allowed_origins@ == built.allowed_origins@.drop_last().push(text));
}

/// A limit of zero connections is no limit; any other is the limit.
pub proof fn law_connection_limit(config: WsConfig, limit: Option<usize>)
    requires
        call_ensures(WsConfig::connection_limit, (&config,), limit),
    ensures
        limit is None <==> config.max_connections == 0,
        limit matches Some(n) ==> n == config.max_connections,
{
}

/// Copies of a configuration, or of a builder, have its settings.
pub proof fn law_copies_of_settings(
    config: WsConfig,
    copy: WsConfig,
    builder: WsConfigBuilder,
    twin: WsConfigBuilder,
    one: WsConfig,
    other: WsConfig,
)
    requires
        call_ensures(<WsConfig as Clone>::clone, (&config,), copy),
        call_ensures(<WsConfigBuilder as Clone>::clone, (&builder,), twin),
        call_ensures(WsConfigBuilder::build, (builder,), one),
        call_ensures(WsConfigBuilder::build, (twin,), other),
    ensures
        copy.heartbeat_interval == config.heartbeat_interval && other.heartbeat_interval
            == one.heartbeat_interval,
        copy.broadcast_capacity == config.broadcast_capacity && other.broadcast_capacity
            == one.broadcast_capacity,
        copy.max_connections == config.max_connections && other.max_connections
            == one.max_connections,
        copy.allowed_origins@ == config.allowed_origins@ && other.allowed_origins@
            == one.allowed_origins@,
{
}

} // verus!
