use std::time::Duration;

use makcu::config::DeviceConfig;
use makcu::error::MakcuError;
use makcu::info::{classify_as_value, query_value, strip_km_prefix};

#[test]
fn strip_prefix() {
    assert_eq!(strip_km_prefix("km.MAKCU_L_V3.2"), "MAKCU_L_V3.2");
    assert_eq!(strip_km_prefix("MAKCU"), "MAKCU");
    assert_eq!(strip_km_prefix("km"), "km");
    assert_eq!(strip_km_prefix("km."), "");
    assert_eq!(strip_km_prefix("km.km.x"), "km.x");
}

#[test]
fn value_of_query_response() {
    assert_eq!(classify_as_value(b"km.version()\r\nkm.MAKCU_L_V3.2\r\n").unwrap(), "km.MAKCU_L_V3.2");
    assert_eq!(classify_as_value(b"km.MAKCU").unwrap(), "km.MAKCU");
    match classify_as_value(b" \r\n") {
        Err(MakcuError::Protocol(m)) => assert_eq!(m, "expected a value but got EXECUTED"),
        other => panic!("unexpected {:?}", other),
    }
}

#[test]
fn default_config() {
    let c = DeviceConfig::default();
    assert!(c.port.is_none());
    assert!(c.try_4m_first);
    assert_eq!(c.command_timeout, Duration::from_millis(500));
    assert!(c.reconnect);
    assert_eq!(c.reconnect_backoff, Duration::from_millis(100));
    assert!(!c.fire_and_forget);
    let d = c.clone();
    assert_eq!(d.command_timeout, c.command_timeout);
}

#[test]
fn query_value_strips_prefix() {
    assert_eq!(query_value(b"km.version()\r\nkm.MAKCU_L_V3.2\r\n").unwrap(), "MAKCU_L_V3.2");
    assert_eq!(query_value(b"km.serial()\r\nABC123\r\n").unwrap(), "ABC123");
    match query_value(b"") {
        Err(MakcuError::Protocol(m)) => assert_eq!(m, "expected a value but got EXECUTED"),
        other => panic!("unexpected {:?}", other),
    }
}
