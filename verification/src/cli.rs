//! Command-line level data: logging mode, server port and audio folder.
//!
//! The port value accepts either a bare port number or a `localhost:` form;
//! what is kept is always the full `localhost:<port>` string the server
//! binds and the result URLs name.

use vstd::prelude::*;
use vstd::string::*;

use crate::text::{dec_body, dec_val, parse_u32, parses_as_u32, str_eq, trim_str, trimmed};

verus! {

/// How much the server prints, and whether it runs detached.
#[derive(Clone, Copy, Debug, PartialEq, Eq, Structural)]
pub enum CliLog {
    /// Spawn a detached background instance and exit.
    Headless,
    /// The spawned background instance itself.
    HeadlessInstance,
    /// Log verbosely in the foreground.
    Dev,
    /// Log verbosely with backtraces.
    Full,
}

impl Default for CliLog {
    fn default() -> (r: Self)
        ensures
            r == CliLog::Headless,
    {
        CliLog::Headless
    }
}

/// The parsed command line: logging mode, port, audio folder and whether to
/// just list the known sources.
#[derive(Debug)]
pub struct Cli {
    pub log: CliLog,
    pub port: PortType,
    pub audio: String,
    pub sources: bool,
}

/// The `host:port` string the server binds, always of the form
/// `localhost:<port>`.
#[derive(Debug, PartialEq)]
pub struct PortType {
    pub inner: String,
}

/// Why a port value was refused.
#[derive(Clone, Copy, Debug, PartialEq, Eq, Structural)]
pub enum PortParseError {
    /// The value does not read as a decimal number.
    InvalidValue,
    /// The number is no valid port.
    OutOfRange,
}

/// The value with a leading `localhost:` removed, when one is present.
pub open spec fn strip_localhost(s: Seq<char>) -> Seq<char> {
    if s.len() >= 10 && s.take(10) == "localhost:"@ {
        s.skip(10)
    } else {
        s
    }
}

impl Default for PortType {
    /// The conventional local port.
    fn default() -> (r: Self)
        ensures
            r.inner@ == "localhost:8080"@,
    {
        PortType { inner: "localhost:8080".to_owned() }
    }
}

impl PortType {
    /// Reads a port argument: an optional `localhost:` prefix is dropped,
    /// surrounding whitespace is trimmed, and the rest must be a decimal
    /// number no greater than the largest port.
    pub fn parse(value: &str) -> (r: Result<PortType, PortParseError>)
        ensures
            ({
                let t = trimmed(strip_localhost(value@));
                match r {
                    Result::Ok(p) => parses_as_u32(t) && dec_val(dec_body(t)) <= 65535 && p.inner@
                        == "localhost:"@ + t,
                    Result::Err(e) => (e == PortParseError::InvalidValue && !parses_as_u32(t)) || (e
                        == PortParseError::OutOfRange && parses_as_u32(t) && dec_val(dec_body(t))
                        > 65535),
                }
            }),
    {
        let n = value.unicode_len();
        let has_prefix = if n >= 10 {
            let head = value.substring_char(0, 10);
            str_eq(head, "localhost:")
        } else {
            false
        };
        let stripped = if has_prefix {
            value.substring_char(10, n)
        } else {
            value
        };
        proof {
            assert(stripped@ == strip_localhost(value@));
        }
        let t = trim_str(stripped);
        match parse_u32(t.as_str()) {
            Option::None => Result::Err(PortParseError::InvalidValue),
            Option::Some(v) => {
                if v <= 65535 {
                    let mut inner = "localhost:".to_owned();
                    inner.append(t.as_str());
                    Result::Ok(PortType { inner })
                } else {
                    Result::Err(PortParseError::OutOfRange)
                }
            },
        }
    }

    /// The bind string, e.g. `localhost:8080`.
    pub fn to_text(&self) -> (r: String)
        ensures
            r@ == self.inner@,
    {
        self.inner.clone()
    }
}

} // verus!
