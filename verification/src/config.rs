//! Listener configuration: the port, the host and the per-request timeout.

use crate::decimal::{
    decimal_text, lemma_u16_rejected, lemma_u16_round_trip, parse_u16, u16_of_text, well_formed,
    NumberError,
};
use vstd::prelude::*;

verus! {

/// The port that the listener binds where none is configured.
pub const DEFAULT_PORT: u16 = 6767;

/// The address that stands for all interfaces.
pub const ALL_INTERFACES: [u8; 4] = [0, 0, 0, 0];

/// The number of seconds after which a request is cut off.
pub const REQUEST_TIMEOUT_SECS: u64 = 10;

/// Why the listener cannot be configured.
#[derive(Clone, Copy, Debug, PartialEq, Eq, Structural)]
pub enum ConfigError {
    /// The configured port is not the text of an unsigned 16-bit integer.
    InvalidPort(NumberError),
}

/// The port for a configured value: the default where nothing is configured,
/// else the number that the value denotes.
pub open spec fn port_for(configured: Option<Seq<char>>) -> Result<u16, ConfigError> {
    match configured {
        None => Ok(DEFAULT_PORT),
        Some(text) => match u16_of_text(text) {
            Ok(port) => Ok(port),
            Err(e) => Err(ConfigError::InvalidPort(e)),
        },
    }
}

/// The characters of a configured value, where there is one.
pub open spec fn configured_text(configured: Option<&str>) -> Option<Seq<char>> {
    match configured {
        None => None,
        Some(text) => Some(text@),
    }
}

/// Settles the port from the configured value, if any.
pub fn resolve_port(configured: Option<&str>) -> (r: Result<u16, ConfigError>)
    ensures
        r == port_for(configured_text(configured)),
{
    match configured {
        None => Ok(DEFAULT_PORT),
        Some(text) => match parse_u16(text) {
            Ok(port) => Ok(port),
            Err(e) => Err(ConfigError::InvalidPort(e)),
        },
    }
}

/// A configured value that is not an optional `+` followed by digits is
/// rejected as malformed, whatever else it holds.
pub proof fn lemma_non_integer_port_rejected(text: Seq<char>)
    requires
        !well_formed(text, false),
    ensures
        port_for(Some(text)) == Err::<u16, ConfigError>(
            ConfigError::InvalidPort(NumberError::Malformed),
        ),
{
}

/// A configured value that is the decimal writing of an integer below 0 or
/// above 65535 is rejected.
pub proof fn lemma_port_outside_range_rejected(n: int)
    requires
        n < 0 || n > 65535,
    ensures
        port_for(Some(decimal_text(n))) is Err,
{
    lemma_u16_rejected(n);
}

/// Every port, written in decimal, is accepted as itself.
pub proof fn lemma_decimal_port_accepted(port: u16)
    ensures
        port_for(Some(decimal_text(port as int))) == Ok::<u16, ConfigError>(port),
{
    lemma_u16_round_trip(port);
}

} // verus!
