use vstd::prelude::*;

use crate::text::{decimal, push_decimal, push_signed, push_str, signed_decimal};

verus! {

/// Errors produced while validating an inbound tick.
#[derive(Debug, Clone, Copy, PartialEq, Eq, Structural)]
pub enum InvalidTick {
    /// The instrument identifier was empty.
    EmptyInstrument,
    /// The instrument identifier exceeded the maximum length (bytes).
    InstrumentTooLong(usize),
    /// A negative price was supplied.
    NegativePrice(i64),
}

impl InvalidTick {
    /// The human-readable description of the error.
    pub open spec fn message(self) -> Seq<char> {
        match self {
            InvalidTick::EmptyInstrument => "instrument identifier must not be empty"@,
            InvalidTick::InstrumentTooLong(n) => "instrument identifier too long: "@ + decimal(
                n as nat,
            ) + " bytes"@,
            InvalidTick::NegativePrice(p) => "price must be non-negative, got "@ + signed_decimal(
                p as int,
            ),
        }
    }

    /// Append the description to `out`.
    pub fn write_message(&self, out: &mut String)
        ensures
            final(out)@ == old(out)@ + self.message(),
    {
        match self {
            InvalidTick::EmptyInstrument => push_str(out, "instrument identifier must not be empty"),
            InvalidTick::InstrumentTooLong(n) => {
                push_str(out, "instrument identifier too long: ");
                push_decimal(out, *n as u64);
                push_str(out, " bytes");
            },
            InvalidTick::NegativePrice(p) => {
                push_str(out, "price must be non-negative, got ");
                push_signed(out, *p);
            },
        }
        assert(final(out)@ =~= old(out)@ + self.message());
    }

    /// The human-readable description of the error.
    pub fn to_string(&self) -> (s: String)
        ensures
            s@ == self.message(),
    {
        let mut s = String::new();
        self.write_message(&mut s);
        assert(s@ =~= self.message());
        s
    }
}

/// Errors produced while validating a rule.
#[derive(Debug, Clone, Copy, PartialEq, Eq, Structural)]
pub enum InvalidRule {
    /// The rule had no conditions.
    NoConditions,
    /// The rule name was empty.
    EmptyName,
}

impl InvalidRule {
    /// The human-readable description of the error.
    pub open spec fn message(self) -> Seq<char> {
        match self {
            InvalidRule::NoConditions => "rule must have at least one condition"@,
            InvalidRule::EmptyName => "rule name must not be empty"@,
        }
    }

    /// Append the description to `out`.
    pub fn write_message(&self, out: &mut String)
        ensures
            final(out)@ == old(out)@ + self.message(),
    {
        match self {
            InvalidRule::NoConditions => push_str(out, "rule must have at least one condition"),
            InvalidRule::EmptyName => push_str(out, "rule name must not be empty"),
        }
    }

    /// The human-readable description of the error.
    pub fn to_string(&self) -> (s: String)
        ensures
            s@ == self.message(),
    {
        let mut s = String::new();
        self.write_message(&mut s);
        assert(s@ =~= self.message());
        s
    }
}

/// Errors returned by adapters implementing the engine's ports.
#[derive(Debug, Clone, PartialEq, Eq)]
pub enum PortError {
    /// The backing store or bus is unavailable.
    Unavailable(String),
    /// The requested entity was not found.
    NotFound(String),
    /// A transient error the caller may retry.
    Transient(String),
}

impl PortError {
    /// Whether a failure of this kind is worth retrying.
    pub open spec fn spec_is_retryable(&self) -> bool {
        self is Transient || self is Unavailable
    }

    /// True when the failure is worth retrying.
    pub fn is_retryable(&self) -> (b: bool)
        ensures
            b == self.spec_is_retryable(),
    {
        match self {
            PortError::Transient(_) | PortError::Unavailable(_) => true,
            PortError::NotFound(_) => false,
        }
    }

    /// The human-readable description of the error.
    pub open spec fn message(&self) -> Seq<char> {
        match self {
            PortError::Unavailable(m) => "port unavailable: "@ + m@,
            PortError::NotFound(m) => "not found: "@ + m@,
            PortError::Transient(m) => "transient port error: "@ + m@,
        }
    }

    /// Append the description to `out`.
    pub fn write_message(&self, out: &mut String)
        ensures
            final(out)@ == old(out)@ + self.message(),
    {
        match self {
            PortError::Unavailable(m) => {
                push_str(out, "port unavailable: ");
                push_str(out, m.as_str());
            },
            PortError::NotFound(m) => {
                push_str(out, "not found: ");
                push_str(out, m.as_str());
            },
            PortError::Transient(m) => {
                push_str(out, "transient port error: ");
                push_str(out, m.as_str());
            },
        }
        assert(final(out)@ =~= old(out)@ + self.message());
    }

    /// The human-readable description of the error.
    pub fn to_string(&self) -> (s: String)
        ensures
            s@ == self.message(),
    {
        let mut s = String::new();
        self.write_message(&mut s);
        assert(s@ =~= self.message());
        s
    }
}

/// Errors surfaced by the scan engine.
#[derive(Debug, Clone, PartialEq, Eq)]
pub enum CoreError {
    /// The incoming tick failed validation.
    InvalidTick(InvalidTick),
    /// A submitted rule was invalid.
    InvalidRule(InvalidRule),
    /// Ingest was rejected by admission control.
    RateLimited,
    /// The instrument capacity was exceeded.
    CapacityExceeded(usize),
    /// A downstream port failed.
    Port(PortError),
}

impl CoreError {
    /// The human-readable description of the error.
    pub open spec fn message(&self) -> Seq<char> {
        match self {
            CoreError::InvalidTick(e) => "invalid tick: "@ + e.message(),
            CoreError::InvalidRule(e) => "invalid rule: "@ + e.message(),
            CoreError::RateLimited => "ingest rate limit exceeded"@,
            CoreError::CapacityExceeded(n) => "instrument capacity "@ + decimal(n as nat)
                + " exceeded"@,
            CoreError::Port(e) => e.message(),
        }
    }

    /// The human-readable description of the error.
    pub fn to_string(&self) -> (s: String)
        ensures
            s@ == self.message(),
    {
        let mut s = String::new();
        match self {
            CoreError::InvalidTick(e) => {
                push_str(&mut s, "invalid tick: ");
                e.write_message(&mut s);
            },
            CoreError::InvalidRule(e) => {
                push_str(&mut s, "invalid rule: ");
                e.write_message(&mut s);
            },
            CoreError::RateLimited => push_str(&mut s, "ingest rate limit exceeded"),
            CoreError::CapacityExceeded(n) => {
                push_str(&mut s, "instrument capacity ");
                push_decimal(&mut s, *n as u64);
                push_str(&mut s, " exceeded");
            },
            CoreError::Port(e) => e.write_message(&mut s),
        }
        assert(s@ =~= self.message());
        s
    }
}

impl From<InvalidTick> for CoreError {
    fn from(e: InvalidTick) -> (r: CoreError) {
        CoreError::InvalidTick(e)
    }
}

impl vstd::std_specs::convert::FromSpecImpl<InvalidTick> for CoreError {
    open spec fn obeys_from_spec() -> bool {
        true
    }

    open spec fn from_spec(e: InvalidTick) -> CoreError {
        CoreError::InvalidTick(e)
    }
}

impl From<InvalidRule> for CoreError {
    fn from(e: InvalidRule) -> (r: CoreError) {
        CoreError::InvalidRule(e)
    }
}

impl vstd::std_specs::convert::FromSpecImpl<InvalidRule> for CoreError {
    open spec fn obeys_from_spec() -> bool {
        true
    }

    open spec fn from_spec(e: InvalidRule) -> CoreError {
        CoreError::InvalidRule(e)
    }
}

impl From<PortError> for CoreError {
    fn from(e: PortError) -> (r: CoreError) {
        CoreError::Port(e)
    }
}

impl vstd::std_specs::convert::FromSpecImpl<PortError> for CoreError {
    open spec fn obeys_from_spec() -> bool {
        true
    }

    open spec fn from_spec(e: PortError) -> CoreError {
        CoreError::Port(e)
    }
}

} // verus!
