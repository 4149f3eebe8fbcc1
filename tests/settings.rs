use std::path::PathBuf;
use std::time::Duration;

use shm_ringbuf::settings::{
    DEFAULT_BACKED_FILE_PATH, DEFAULT_FDPASS_SOCK_PATH, DEFAULT_GRPC_SOCK_PATH,
    DEFAULT_HEARTBEAT_SECS, DEFAULT_RINGBUF_LEN,
};
use shm_ringbuf::ProducerSettingsBuilder;

#[test]
fn test_default_settings() {
    let settings = ProducerSettingsBuilder::new().build();

    assert_eq!(
        PathBuf::from(&settings.grpc_sock_path),
        PathBuf::from(DEFAULT_GRPC_SOCK_PATH)
    );
    assert_eq!(
        PathBuf::from(&settings.fdpass_sock_path),
        PathBuf::from(DEFAULT_FDPASS_SOCK_PATH)
    );
    assert_eq!(settings.ringbuf_len, DEFAULT_RINGBUF_LEN);
    assert_eq!(
        settings.heartbeat_interval,
        Duration::from_secs(DEFAULT_HEARTBEAT_SECS)
    );
}

#[test]
fn test_settings() {
    let settings = ProducerSettingsBuilder::new()
        .grpc_sock_path("/tmp/grpc.sock")
        .fdpass_sock_path("/tmp/fdpass.sock")
        .ringbuf_len(1024 * 1024)
        .heartbeat_interval(std::time::Duration::from_secs(5))
        .build();

    assert_eq!(
        PathBuf::from(&settings.grpc_sock_path),
        PathBuf::from("/tmp/grpc.sock")
    );
    assert_eq!(
        PathBuf::from(&settings.fdpass_sock_path),
        PathBuf::from("/tmp/fdpass.sock")
    );
    assert_eq!(settings.ringbuf_len, 1024 * 1024);
    assert_eq!(
        settings.heartbeat_interval,
        std::time::Duration::from_secs(5)
    );
}

#[test]
fn remaining_defaults_are_documented_values() {
    let s = ProducerSettingsBuilder::new().build();
    assert!(s.enable_result_fetch);
    assert!(!s.enable_checksum);
    assert_eq!(s.reconnect_interval, Duration::from_secs(3));
    assert_eq!(s.expired_check_interval, Duration::from_secs(1));
    assert_eq!(s.subscription_ttl, Duration::from_secs(3));
    assert_eq!(s.backed_file_path, DEFAULT_BACKED_FILE_PATH);
    assert_eq!(s.backed_file_path, "/tmp/shm.sock");
}

#[test]
fn every_setter_overrides_its_default() {
    let s = ProducerSettingsBuilder::new()
        .enable_result_fetch(false)
        .reconnect_interval(Duration::from_millis(10))
        .expired_check_interval(Duration::from_millis(20))
        .subscription_ttl(Duration::from_millis(30))
        .enable_checksum(true)
        .backed_file_path("/dev/shm/x")
        .ringbuf_len(4096)
        .build();
    assert!(!s.enable_result_fetch);
    assert_eq!(s.reconnect_interval, Duration::from_millis(10));
    assert_eq!(s.expired_check_interval, Duration::from_millis(20));
    assert_eq!(s.subscription_ttl, Duration::from_millis(30));
    assert!(s.enable_checksum);
    assert_eq!(s.backed_file_path, "/dev/shm/x");
    assert_eq!(s.ringbuf_len, 4096);
    assert_eq!(s.grpc_sock_path, "/tmp/grpc.sock");
}

#[test]
fn default_builder_and_cloned_settings() {
    let s = ProducerSettingsBuilder::default().subscription_ttl(Duration::from_millis(100)).build();
    let c = s.clone();
    assert_eq!(c.subscription_ttl, Duration::from_millis(100));
    assert_eq!(c.grpc_sock_path, s.grpc_sock_path);
    assert_eq!(c.ringbuf_len, DEFAULT_RINGBUF_LEN);
}
