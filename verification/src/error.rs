//! The errors that parsing and validation report.

use vstd::prelude::*;

use crate::kinds::Frequency;
use crate::property::RRuleProperty;

verus! {

/// Why a piece of rule text was rejected. Each variant carries the raw text
/// that was refused; the date-time variants also name the property that the
/// text was the value of.
#[derive(Debug, Clone, PartialEq, Eq)]
pub enum ParseError {
    MissingProperty(String),
    PropertyParametersNotSupported(String),
    UnrecognizedParameter(String),
    InvalidParameterFormat(String),
    InvalidFrequency(String),
    InvalidInterval(String),
    InvalidCount(String),
    InvalidWeekdayStart(String),
    InvalidBySetPos(String),
    InvalidByMonth(String),
    InvalidByMonthDay(String),
    InvalidByYearDay(String),
    InvalidByWeekNo(String),
    InvalidWeekday(String),
    InvalidByHour(String),
    InvalidByMinute(String),
    InvalidBySecond(String),
    InvalidXIncludeDtstart(String),
    InvalidTimezone(String),
    InvalidDateTimeFormat(String),
    InvalidDateTime { value: String, property: String },
    InvalidDateTimeInLocalTimezone { value: String, property: String },
    DateTimeInLocalTimezoneIsAmbiguous { value: String, property: String },
    InvalidLine(String),
    UnrecognizedProperty(String),
    MissingStartDate(String),
    TooManyStartDates(String),
}

/// Which rejection a `ParseError` is, without the text it carries.
#[derive(Debug, Clone, Copy, PartialEq, Eq, Structural)]
pub enum ParseErrorKind {
    MissingProperty,
    PropertyParametersNotSupported,
    UnrecognizedParameter,
    InvalidParameterFormat,
    InvalidFrequency,
    InvalidInterval,
    InvalidCount,
    InvalidWeekdayStart,
    InvalidBySetPos,
    InvalidByMonth,
    InvalidByMonthDay,
    InvalidByYearDay,
    InvalidByWeekNo,
    InvalidWeekday,
    InvalidByHour,
    InvalidByMinute,
    InvalidBySecond,
    InvalidXIncludeDtstart,
    InvalidTimezone,
    InvalidDateTimeFormat,
    InvalidDateTime,
    InvalidDateTimeInLocalTimezone,
    DateTimeInLocalTimezoneIsAmbiguous,
    InvalidLine,
    UnrecognizedProperty,
    MissingStartDate,
    TooManyStartDates,
}

/// A `ParseError` as a plain value: its kind, the refused text, and the
/// property name (empty where the variant carries none).
pub ghost struct ParseErrorView {
    pub kind: ParseErrorKind,
    pub text: Seq<char>,
    pub property: Seq<char>,
}

/// The view of an error that carries one text.
pub open spec fn error_of(kind: ParseErrorKind, text: Seq<char>) -> ParseErrorView {
    ParseErrorView { kind, text, property: Seq::empty() }
}

/// The view of an error that carries a text and the property it stood under.
pub open spec fn error_at(kind: ParseErrorKind, text: Seq<char>, property: Seq<char>) -> ParseErrorView {
    ParseErrorView { kind, text, property }
}

impl View for ParseError {
    type V = ParseErrorView;

    open spec fn view(&self) -> ParseErrorView {
        match self {
            ParseError::MissingProperty(t) => error_of(ParseErrorKind::MissingProperty, t@),
            ParseError::PropertyParametersNotSupported(t) => error_of(
                ParseErrorKind::PropertyParametersNotSupported,
                t@,
            ),
            ParseError::UnrecognizedParameter(t) => error_of(
                ParseErrorKind::UnrecognizedParameter,
                t@,
            ),
            ParseError::InvalidParameterFormat(t) => error_of(
                ParseErrorKind::InvalidParameterFormat,
                t@,
            ),
            ParseError::InvalidFrequency(t) => error_of(ParseErrorKind::InvalidFrequency, t@),
            ParseError::InvalidInterval(t) => error_of(ParseErrorKind::InvalidInterval, t@),
            ParseError::InvalidCount(t) => error_of(ParseErrorKind::InvalidCount, t@),
            ParseError::InvalidWeekdayStart(t) => error_of(ParseErrorKind::InvalidWeekdayStart, t@),
            ParseError::InvalidBySetPos(t) => error_of(ParseErrorKind::InvalidBySetPos, t@),
            ParseError::InvalidByMonth(t) => error_of(ParseErrorKind::InvalidByMonth, t@),
            ParseError::InvalidByMonthDay(t) => error_of(ParseErrorKind::InvalidByMonthDay, t@),
            ParseError::InvalidByYearDay(t) => error_of(ParseErrorKind::InvalidByYearDay, t@),
            ParseError::InvalidByWeekNo(t) => error_of(ParseErrorKind::InvalidByWeekNo, t@),
            ParseError::InvalidWeekday(t) => error_of(ParseErrorKind::InvalidWeekday, t@),
            ParseError::InvalidByHour(t) => error_of(ParseErrorKind::InvalidByHour, t@),
            ParseError::InvalidByMinute(t) => error_of(ParseErrorKind::InvalidByMinute, t@),
            ParseError::InvalidBySecond(t) => error_of(ParseErrorKind::InvalidBySecond, t@),
            ParseError::InvalidXIncludeDtstart(t) => error_of(
                ParseErrorKind::InvalidXIncludeDtstart,
                t@,
            ),
            ParseError::InvalidTimezone(t) => error_of(ParseErrorKind::InvalidTimezone, t@),
            ParseError::InvalidDateTimeFormat(t) => error_of(
                ParseErrorKind::InvalidDateTimeFormat,
                t@,
            ),
            ParseError::InvalidDateTime { value, property } => error_at(
                ParseErrorKind::InvalidDateTime,
                value@,
                property@,
            ),
            ParseError::InvalidDateTimeInLocalTimezone { value, property } => error_at(
                ParseErrorKind::InvalidDateTimeInLocalTimezone,
                value@,
                property@,
            ),
            ParseError::DateTimeInLocalTimezoneIsAmbiguous { value, property } => error_at(
                ParseErrorKind::DateTimeInLocalTimezoneIsAmbiguous,
                value@,
                property@,
            ),
            ParseError::InvalidLine(t) => error_of(ParseErrorKind::InvalidLine, t@),
            ParseError::UnrecognizedProperty(t) => error_of(
                ParseErrorKind::UnrecognizedProperty,
                t@,
            ),
            ParseError::MissingStartDate(t) => error_of(ParseErrorKind::MissingStartDate, t@),
            ParseError::TooManyStartDates(t) => error_of(ParseErrorKind::TooManyStartDates, t@),
        }
    }
}

/// Why a descriptor whose fields each parsed was still refused.
#[derive(Debug, Clone, Copy, PartialEq, Eq, Structural)]
pub enum ValidationError {
    /// INTERVAL is zero.
    ZeroInterval,
    /// A value of the named list lies outside the range the field allows.
    InvalidFieldValue { field: RRuleProperty, value: i32 },
    /// The named BY-rule has no meaning at the rule's frequency.
    InvalidByRuleAndFrequency { by_rule: RRuleProperty, freq: Frequency },
    /// BYSETPOS stands without any other BY-rule to select from.
    BySetPosWithoutByRule,
}

/// Any error of this library.
#[derive(Debug, Clone, PartialEq, Eq)]
pub enum RRuleError {
    ParserError(ParseError),
    ValidationError(ValidationError),
}

} // verus!
