//! Timestamps, profiles, configuration and texts.

use chirps::backend::{admit_profile, BackendCapabilities, BackendProfile, EnvelopeMetadata};
use chirps::bytes::bytes_equal;
use chirps::clock::{Duration, Instant, WallTime};
use chirps::config::{ConfigError, NodeConfig};
use chirps::error::{GossipError, TransportError};
use chirps::time::{HybridTimestamp, TimestampError, TimestampRange};

#[test]
fn timestamp_order_and_range_cross_logical_overflow() {
    let start = HybridTimestamp::new(9, u32::MAX);
    let range = TimestampRange::from_start(start, 2).unwrap();
    assert_eq!(range.end, HybridTimestamp::new(10, 0));
    assert!(range.start < range.end);
}

#[test]
fn timestamp_rejects_physical_overflow() {
    assert_eq!(
        HybridTimestamp::new(u64::MAX, u32::MAX).checked_next(),
        Err(TimestampError::Overflow)
    );
}

#[test]
fn order_of_timestamps_is_that_of_their_places() {
    let early = HybridTimestamp::new(1, u32::MAX);
    let late = early.checked_next().unwrap();
    assert_eq!(late, HybridTimestamp::new(2, 0));
    assert!(early.is_before(&late));
    assert!(!late.is_before(&early));
    assert!(!late.is_before(&late));
    assert_eq!(early < late, early.is_before(&late));
}

#[test]
fn range_is_one_timestamp_after_the_other() {
    let start = HybridTimestamp::new(5, u32::MAX - 1);
    let range = TimestampRange::from_start(start, 4).unwrap();
    let mut expected = start;
    for offset in 0..4 {
        assert_eq!(range.at(offset), Some(expected));
        expected = expected.checked_next().unwrap();
    }
    assert_eq!(range.at(4), None);
    assert_eq!(
        TimestampRange::from_start(start, 0),
        Err(TimestampError::EmptyRange)
    );
    let last = HybridTimestamp::new(u64::MAX, u32::MAX);
    assert_eq!(
        TimestampRange::from_start(last, 2),
        Err(TimestampError::Overflow)
    );
    assert_eq!(start.checked_add(3), Ok(HybridTimestamp::new(6, 1)));
}

#[test]
fn durable_requires_a_backend_override_and_never_uses_raw_send() {
    let capabilities = BackendCapabilities {
        durable: true,
        ..BackendCapabilities::default()
    };
    let error = admit_profile(capabilities, BackendProfile::Durable).unwrap_err();
    assert!(matches!(error, TransportError::NotImplemented(_)));
    assert_eq!(
        error.message(),
        "not implemented: requested message profile is not supported by this backend"
    );
}

#[test]
fn control_and_ephemeral_keep_the_additive_legacy_path() {
    let capabilities = BackendCapabilities {
        durable: true,
        ..BackendCapabilities::default()
    };
    assert!(admit_profile(capabilities, BackendProfile::Control).is_ok());
    assert!(admit_profile(capabilities, BackendProfile::Ephemeral).is_ok());
    let without = BackendCapabilities {
        ephemeral: false,
        ..BackendCapabilities::default()
    };
    assert!(admit_profile(without, BackendProfile::Ephemeral).is_err());
    assert!(without.supports(BackendProfile::Control));
    assert!(!without.supports(BackendProfile::Durable));
    assert_eq!(EnvelopeMetadata::default().message_id, None);
}

#[test]
fn node_configuration_names_what_is_wrong() {
    let mut config = NodeConfig::default();
    assert_eq!(config.validate(false, false), Ok(()));
    config.cert_path = Some("cert.pem".into());
    assert_eq!(
        config.validate(true, true),
        Err(ConfigError::Certificate(
            "Key file must be provided if certificate is provided".into()
        ))
    );
    config.key_path = Some("key.pem".into());
    assert_eq!(
        config.validate(false, true).unwrap_err().message(),
        "Invalid certificate or key: Certificate file not found: cert.pem"
    );
    assert_eq!(
        config.validate(true, false).unwrap_err().message(),
        "Invalid certificate or key: Key file not found: key.pem"
    );
    assert_eq!(config.validate(true, true), Ok(()));
    config.cert_path = None;
    assert_eq!(
        config.validate(true, true),
        Err(ConfigError::Certificate(
            "Certificate file must be provided if key is provided".into()
        ))
    );
    assert_eq!(
        ConfigError::Io("gone".into()).message(),
        "I/O error: gone"
    );
}

#[test]
fn errors_have_texts() {
    let cases = vec![
        (TransportError::Connection("x".into()), "connection failed: x"),
        (TransportError::Tls("x".into()), "tls handshake failed: x"),
        (TransportError::Send("x".into()), "send failed: x"),
        (TransportError::Subscribe("x".into()), "subscribe failed: x"),
        (TransportError::Io("x".into()), "transport IO error: x"),
        (TransportError::NotImplemented("x".into()), "not implemented: x"),
    ];
    for (error, text) in cases {
        assert_eq!(error.message(), text);
    }
    let cases = vec![
        (GossipError::InvalidUpdate("x".into()), "invalid update: x"),
        (GossipError::IncarnationConflict("x".into()), "incarnation conflict: x"),
        (GossipError::Io("x".into()), "gossip IO error: x"),
        (GossipError::NotImplemented("x".into()), "not implemented: x"),
    ];
    for (error, text) in cases {
        assert_eq!(error.message(), text);
    }
}

#[test]
fn spans_and_readings() {
    assert_eq!(Duration::from_secs(2).as_millis(), 2_000);
    assert_eq!(Duration::from_millis(2_999).as_secs(), 2);
    let early = Instant { nanos: 5 };
    let late = early.saturating_add(Duration::from_nanos(7));
    assert_eq!(late, Instant { nanos: 12 });
    assert_eq!(late.saturating_duration_since(early), Duration::from_nanos(7));
    assert_eq!(early.saturating_duration_since(late), Duration::from_nanos(0));
    let before_the_epoch = WallTime { nanos: -1 };
    let after = WallTime { nanos: 1_999_999_999 };
    assert_eq!(before_the_epoch.unix_seconds(), None);
    assert_eq!(after.unix_seconds(), Some(1));
    assert_eq!(before_the_epoch.duration_since(after), None);
    assert_eq!(
        after.duration_since(before_the_epoch),
        Some(Duration::from_secs(2))
    );
    assert!(bytes_equal(b"ab", b"ab"));
    assert!(!bytes_equal(b"ab", b"abc"));
}
