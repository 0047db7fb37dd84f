use vstd::prelude::*;

pub mod text;
pub mod codec;
pub mod reader;
pub mod writer;
pub mod ser;
pub mod laws;

verus! {

/// A calendar instant in UTC, the plain-value model of a `<date>` element.
/// Only `valid_date` values can be written; parsed values mirror whatever the
/// RFC 3339 parser accepted.
#[derive(Clone, Copy, Debug, PartialEq, Eq, Structural, Hash)]
pub struct PlistDate {
    pub year: i32,
    pub month: u32,
    pub day: u32,
    pub hour: u32,
    pub minute: u32,
    pub second: u32,
    pub nanosecond: u32,
}

pub open spec fn leap_year(y: int) -> bool {
    y % 4 == 0 && (y % 100 != 0 || y % 400 == 0)
}

pub open spec fn days_in_month(y: int, m: int) -> int {
    if m == 2 {
        if leap_year(y) {
            29
        } else {
            28
        }
    } else if m == 4 || m == 6 || m == 9 || m == 11 {
        30
    } else {
        31
    }
}

/// Dates the writer accepts: a real Gregorian calendar day with a four-digit
/// year and a wall-clock time (leap seconds excluded).
pub open spec fn valid_date(d: PlistDate) -> bool {
    0 <= d.year <= 9999 && 1 <= d.month <= 12 && 1 <= d.day <= days_in_month(
        d.year as int,
        d.month as int,
    ) && d.hour < 24 && d.minute < 60 && d.second < 60 && d.nanosecond < 1000000000
}

pub fn date_is_valid(d: &PlistDate) -> (b: bool)
    ensures
        b == valid_date(*d),
{
    let dim: u32 = if d.month == 2 {
        let leap: bool = d.year % 4 == 0 && (d.year % 100 != 0 || d.year % 400 == 0);
        if leap {
            29
        } else {
            28
        }
    } else if d.month == 4 || d.month == 6 || d.month == 9 || d.month == 11 {
        30
    } else {
        31
    };
    0 <= d.year && d.year <= 9999 && 1 <= d.month && d.month <= 12 && 1 <= d.day && d.day <= dim
        && d.hour < 24 && d.minute < 60 && d.second < 60 && d.nanosecond < 1000000000
}

/// One event of the plist event stream. Real numbers carry their decimal
/// text (the digits the markup holds); dates carry a `PlistDate`.
#[derive(Clone, Debug, PartialEq)]
pub enum PlistEvent {
    StartPlist,
    EndPlist,
    StartArray(Option<u64>),
    EndArray,
    StartDictionary(Option<u64>),
    EndDictionary,
    BooleanValue(bool),
    DataValue(Vec<u8>),
    DateValue(PlistDate),
    IntegerValue(i64),
    RealValue(String),
    StringValue(String),
}

/// The mathematical shape of a `PlistEvent`.
pub enum EventV {
    StartPlist,
    EndPlist,
    StartArray(Option<u64>),
    EndArray,
    StartDictionary(Option<u64>),
    EndDictionary,
    BooleanValue(bool),
    DataValue(Seq<u8>),
    DateValue(PlistDate),
    IntegerValue(i64),
    RealValue(Seq<char>),
    StringValue(Seq<char>),
}

impl View for PlistEvent {
    type V = EventV;

    open spec fn view(&self) -> EventV {
        match self {
            PlistEvent::StartPlist => EventV::StartPlist,
            PlistEvent::EndPlist => EventV::EndPlist,
            PlistEvent::StartArray(n) => EventV::StartArray(*n),
            PlistEvent::EndArray => EventV::EndArray,
            PlistEvent::StartDictionary(n) => EventV::StartDictionary(*n),
            PlistEvent::EndDictionary => EventV::EndDictionary,
            PlistEvent::BooleanValue(b) => EventV::BooleanValue(*b),
            PlistEvent::DataValue(v) => EventV::DataValue(v@),
            PlistEvent::DateValue(d) => EventV::DateValue(*d),
            PlistEvent::IntegerValue(i) => EventV::IntegerValue(*i),
            PlistEvent::RealValue(s) => EventV::RealValue(s@),
            PlistEvent::StringValue(s) => EventV::StringValue(s@),
        }
    }
}

/// Reader errors: structural or undecodable markup, input that ends with
/// open elements, or a transport fault.
#[derive(Clone, Copy, Debug, PartialEq, Eq, Structural)]
pub enum ParserError {
    InvalidData,
    UnexpectedEof,
    Io,
}

/// Writer and bridge errors: an illegal event in the current state (or an
/// emitter fault), a transport fault, or a message surfaced by the generic
/// serialization protocol. `Io` names the category only; the in-memory sink
/// carries no I/O error value to keep.
#[derive(Clone, Debug, PartialEq)]
pub enum Error {
    InvalidData,
    Io,
    Serde(String),
}

impl Error {
    /// The bridge's wrapped-text error: a custom message from the generic
    /// serialization protocol.
    pub fn custom(msg: String) -> (e: Error)
        ensures
            e == Error::Serde(msg),
    {
        Error::Serde(msg)
    }

    /// The bridge's invalid-value error maps onto the format's own
    /// structural error kind.
    pub fn invalid_value() -> (e: Error)
        ensures
            e == Error::InvalidData,
    {
        Error::InvalidData
    }
}

pub type ParserResult<T> = Result<T, ParserError>;

pub type WriteResult<T> = Result<T, Error>;

} // verus!
