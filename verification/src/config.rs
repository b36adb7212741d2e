//! What the process is told from outside.

use crate::text::{is_unsigned, parse_unsigned, unsigned_value};
use vstd::prelude::*;

verus! {

/// The port to listen on where none is named.
pub const DEFAULT_PORT: u16 = 8000;

/// The port that a setting names: its number where it is an unsigned number
/// that a port can be, and the default where it is not.
pub open spec fn port_named(setting: Seq<char>) -> u16 {
    if is_unsigned(setting) && unsigned_value(setting) <= u16::MAX {
        unsigned_value(setting) as u16
    } else {
        DEFAULT_PORT
    }
}

/// The port to listen on, given what the environment holds for it, if
/// anything.
pub fn port(setting: Option<&str>) -> (port: u16)
    ensures
        port == match setting {
            Some(text) => port_named(text@),
            None => DEFAULT_PORT,
        },
{
    match setting {
        Some(text) => match parse_unsigned(text, u16::MAX as u64) {
            Some(number) => number as u16,
            None => DEFAULT_PORT,
        },
        None => DEFAULT_PORT,
    }
}

} // verus!
