use sensor_gateway::config::{
    resolve_port, ConfigError, ALL_INTERFACES, DEFAULT_PORT, REQUEST_TIMEOUT_SECS,
};
use sensor_gateway::decimal::NumberError;

#[test]
fn the_default_port_is_used_where_none_is_configured() {
    assert_eq!(resolve_port(None), Ok(6767));
    assert_eq!(DEFAULT_PORT, 6767);
}

#[test]
fn a_configured_port_is_used() {
    assert_eq!(resolve_port(Some("8080")), Ok(8080));
    assert_eq!(resolve_port(Some("0")), Ok(0));
    assert_eq!(resolve_port(Some("65535")), Ok(65535));
    assert_eq!(resolve_port(Some("+443")), Ok(443));
    assert_eq!(resolve_port(Some("6767")), Ok(6767));
}

#[test]
fn a_port_that_is_no_integer_is_rejected() {
    assert_eq!(resolve_port(Some("abc")), Err(ConfigError::InvalidPort(NumberError::Malformed)));
    assert_eq!(resolve_port(Some("")), Err(ConfigError::InvalidPort(NumberError::Malformed)));
    assert_eq!(resolve_port(Some("80 ")), Err(ConfigError::InvalidPort(NumberError::Malformed)));
    assert_eq!(resolve_port(Some("-1")), Err(ConfigError::InvalidPort(NumberError::Malformed)));
    assert_eq!(resolve_port(Some("80.5")), Err(ConfigError::InvalidPort(NumberError::Malformed)));
}

#[test]
fn a_port_that_is_too_large_is_rejected() {
    assert_eq!(
        resolve_port(Some("65536")),
        Err(ConfigError::InvalidPort(NumberError::OutOfRange))
    );
    assert_eq!(
        resolve_port(Some("70000")),
        Err(ConfigError::InvalidPort(NumberError::OutOfRange))
    );
}

#[test]
fn the_listener_constants_have_their_values() {
    assert_eq!(ALL_INTERFACES, [0, 0, 0, 0]);
    assert_eq!(REQUEST_TIMEOUT_SECS, 10);
}
