use std::time::Duration;
use vstd::prelude::*;

verus! {

/// Default path of the control-channel socket.
pub const DEFAULT_GRPC_SOCK_PATH: &'static str = "/tmp/grpc.sock";

/// Default path of the socket that hands over the shared-memory descriptor.
pub const DEFAULT_FDPASS_SOCK_PATH: &'static str = "/tmp/fdpass.sock";

/// Default path of the backing file where no anonymous memory facility exists.
pub const DEFAULT_BACKED_FILE_PATH: &'static str = "/tmp/shm.sock";

/// Default minimum ring capacity in bytes (1 MiB).
pub const DEFAULT_RINGBUF_LEN: usize = 1048576;

/// Default heartbeat probe period, in seconds.
pub const DEFAULT_HEARTBEAT_SECS: u64 = 5;

/// Default delay between reconnection attempts, in seconds.
pub const DEFAULT_RECONNECT_SECS: u64 = 3;

/// Default period of the subscription expiry check, in seconds.
pub const DEFAULT_EXPIRED_CHECK_SECS: u64 = 1;

/// Default time to live of a result subscription, in seconds.
pub const DEFAULT_SUBSCRIPTION_TTL_SECS: u64 = 3;

/// The duration that `Duration::from_secs(secs)` builds.
pub uninterp spec fn duration_of_secs(secs: u64) -> Duration;

/// Relies on `Duration::from_secs`: the result depends on `secs` alone.
pub assume_specification[ core::time::Duration::from_secs ](secs: u64) -> (r: Duration)
    ensures
        r == duration_of_secs(secs),
;

/// Relies on `Duration`'s `Clone`: `Duration` is `Copy`, and its clone is
/// the same value.
pub assume_specification[ <core::time::Duration as core::clone::Clone>::clone ](
    d: &Duration,
) -> (r: Duration)
    ensures
        r == *d,
;

/// Producer-side configuration, as produced by [`ProducerSettingsBuilder::build`].
#[derive(Debug, Clone)]
pub struct ProducerSettings {
    pub grpc_sock_path: String,
    pub fdpass_sock_path: String,
    pub ringbuf_len: usize,
    pub heartbeat_interval: Duration,
    pub enable_result_fetch: bool,
    pub reconnect_interval: Duration,
    pub expired_check_interval: Duration,
    pub subscription_ttl: Duration,
    pub enable_checksum: bool,
    pub backed_file_path: String,
}

/// Collects optional settings; `build` fills every unset one with its default.
#[derive(Debug)]
pub struct ProducerSettingsBuilder {
    pub grpc_sock_path: Option<String>,
    pub fdpass_sock_path: Option<String>,
    pub ringbuf_len: Option<usize>,
    pub heartbeat_interval: Option<Duration>,
    pub enable_result_fetch: Option<bool>,
    pub reconnect_interval: Option<Duration>,
    pub expired_check_interval: Option<Duration>,
    pub subscription_ttl: Option<Duration>,
    pub enable_checksum: Option<bool>,
    pub backed_file_path: Option<String>,
}

/// The string an optional path setting resolves to.
pub open spec fn path_or(p: Option<String>, default: Seq<char>) -> Seq<char> {
    match p {
        Some(s) => s@,
        None => default,
    }
}

/// The duration an optional interval setting resolves to.
pub open spec fn interval_or(d: Option<Duration>, default_secs: u64) -> Duration {
    match d {
        Some(v) => v,
        None => duration_of_secs(default_secs),
    }
}

impl Default for ProducerSettingsBuilder {
    fn default() -> (r: Self)
        ensures
            r.is_empty(),
    {
        ProducerSettingsBuilder::new()
    }
}

impl ProducerSettingsBuilder {
    /// A builder with no setting chosen.
    pub open spec fn is_empty(&self) -> bool {
        &&& self.grpc_sock_path is None
        &&& self.fdpass_sock_path is None
        &&& self.ringbuf_len is None
        &&& self.heartbeat_interval is None
        &&& self.enable_result_fetch is None
        &&& self.reconnect_interval is None
        &&& self.expired_check_interval is None
        &&& self.subscription_ttl is None
        &&& self.enable_checksum is None
        &&& self.backed_file_path is None
    }

    pub fn new() -> (r: Self)
        ensures
            r.is_empty(),
    {
        ProducerSettingsBuilder {
            grpc_sock_path: None,
            fdpass_sock_path: None,
            ringbuf_len: None,
            heartbeat_interval: None,
            enable_result_fetch: None,
            reconnect_interval: None,
            expired_check_interval: None,
            subscription_ttl: None,
            enable_checksum: None,
            backed_file_path: None,
        }
    }

    /// Set the path of the unix socket for gRPC communication.
    pub fn grpc_sock_path(self, path: &str) -> (r: Self)
        ensures
            r == (Self { grpc_sock_path: r.grpc_sock_path, ..self }),
            r.grpc_sock_path matches Some(p) && p@ == path@,
    {
        let mut b = self;
        b.grpc_sock_path = Some(path.to_owned());
        b
    }

    /// Set the path of the unix socket for passing the file descriptor and
    /// the ring geometry.
    pub fn fdpass_sock_path(self, path: &str) -> (r: Self)
        ensures
            r == (Self { fdpass_sock_path: r.fdpass_sock_path, ..self }),
            r.fdpass_sock_path matches Some(p) && p@ == path@,
    {
        let mut b = self;
        b.fdpass_sock_path = Some(path.to_owned());
        b
    }

    /// Set the ringbuf length. The actual length of the ringbuf may be larger
    /// than the setting.
    pub fn ringbuf_len(self, len: usize) -> (r: Self)
        ensures
            r == (Self { ringbuf_len: Some(len), ..self }),
    {
        let mut b = self;
        b.ringbuf_len = Some(len);
        b
    }

    /// Set the heartbeat interval.
    pub fn heartbeat_interval(self, interval: Duration) -> (r: Self)
        ensures
            r == (Self { heartbeat_interval: Some(interval), ..self }),
    {
        let mut b = self;
        b.heartbeat_interval = Some(interval);
        b
    }

    /// Enable fetching the result of consumer processing data.
    pub fn enable_result_fetch(self, enable: bool) -> (r: Self)
        ensures
            r == (Self { enable_result_fetch: Some(enable), ..self }),
    {
        let mut b = self;
        b.enable_result_fetch = Some(enable);
        b
    }

    /// Set the interval between reconnection attempts.
    pub fn reconnect_interval(self, interval: Duration) -> (r: Self)
        ensures
            r == (Self { reconnect_interval: Some(interval), ..self }),
    {
        let mut b = self;
        b.reconnect_interval = Some(interval);
        b
    }

    /// Set the interval for checking the expired result fetch subscriptions.
    pub fn expired_check_interval(self, interval: Duration) -> (r: Self)
        ensures
            r == (Self { expired_check_interval: Some(interval), ..self }),
    {
        let mut b = self;
        b.expired_check_interval = Some(interval);
        b
    }

    /// Set the ttl (time to live) for the subscription.
    pub fn subscription_ttl(self, timeout: Duration) -> (r: Self)
        ensures
            r == (Self { subscription_ttl: Some(timeout), ..self }),
    {
        let mut b = self;
        b.subscription_ttl = Some(timeout);
        b
    }

    /// Enable verifying data consistency by checksum.
    pub fn enable_checksum(self, enable: bool) -> (r: Self)
        ensures
            r == (Self { enable_checksum: Some(enable), ..self }),
    {
        let mut b = self;
        b.enable_checksum = Some(enable);
        b
    }

    /// Set the path of the backed file.
    pub fn backed_file_path(self, path: &str) -> (r: Self)
        ensures
            r == (Self { backed_file_path: r.backed_file_path, ..self }),
            r.backed_file_path matches Some(p) && p@ == path@,
    {
        let mut b = self;
        b.backed_file_path = Some(path.to_owned());
        b
    }

    /// Resolves every setting, using the default where none was chosen.
    pub fn build(self) -> (r: ProducerSettings)
        ensures
            r.grpc_sock_path@ == path_or(self.grpc_sock_path, DEFAULT_GRPC_SOCK_PATH@),
            r.fdpass_sock_path@ == path_or(self.fdpass_sock_path, DEFAULT_FDPASS_SOCK_PATH@),
            r.ringbuf_len == (match self.ringbuf_len {
                Some(n) => n,
                None => DEFAULT_RINGBUF_LEN,
            }),
            r.heartbeat_interval == interval_or(self.heartbeat_interval, DEFAULT_HEARTBEAT_SECS),
            r.enable_result_fetch == (match self.enable_result_fetch {
                Some(e) => e,
                None => true,
            }),
            r.reconnect_interval == interval_or(self.reconnect_interval, DEFAULT_RECONNECT_SECS),
            r.expired_check_interval == interval_or(
                self.expired_check_interval,
                DEFAULT_EXPIRED_CHECK_SECS,
            ),
            r.subscription_ttl == interval_or(self.subscription_ttl, DEFAULT_SUBSCRIPTION_TTL_SECS),
            r.enable_checksum == (match self.enable_checksum {
                Some(e) => e,
                None => false,
            }),
            r.backed_file_path@ == path_or(self.backed_file_path, DEFAULT_BACKED_FILE_PATH@),
    {
        let grpc_sock_path = match self.grpc_sock_path {
            Some(p) => p,
            None => DEFAULT_GRPC_SOCK_PATH.to_owned(),
        };
        let fdpass_sock_path = match self.fdpass_sock_path {
            Some(p) => p,
            None => DEFAULT_FDPASS_SOCK_PATH.to_owned(),
        };
        let ringbuf_len = match self.ringbuf_len {
            Some(n) => n,
            None => DEFAULT_RINGBUF_LEN,
        };
        let heartbeat_interval = match self.heartbeat_interval {
            Some(d) => d,
            None => Duration::from_secs(DEFAULT_HEARTBEAT_SECS),
        };
        let enable_result_fetch = match self.enable_result_fetch {
            Some(e) => e,
            None => true,
        };
        let reconnect_interval = match self.reconnect_interval {
            Some(d) => d,
            None => Duration::from_secs(DEFAULT_RECONNECT_SECS),
        };
        let expired_check_interval = match self.expired_check_interval {
            Some(d) => d,
            None => Duration::from_secs(DEFAULT_EXPIRED_CHECK_SECS),
        };
        let subscription_ttl = match self.subscription_ttl {
            Some(d) => d,
            None => Duration::from_secs(DEFAULT_SUBSCRIPTION_TTL_SECS),
        };
        let enable_checksum = match self.enable_checksum {
            Some(e) => e,
            None => false,
        };
        let backed_file_path = match self.backed_file_path {
            Some(p) => p,
            None => DEFAULT_BACKED_FILE_PATH.to_owned(),
        };
        ProducerSettings {
            grpc_sock_path,
            fdpass_sock_path,
            ringbuf_len,
            heartbeat_interval,
            enable_result_fetch,
            reconnect_interval,
            expired_check_interval,
            subscription_ttl,
            enable_checksum,
            backed_file_path,
        }
    }
}

} // verus!
