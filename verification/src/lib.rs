//! Recurrence rules for calendar events: parsing `KEY=VALUE;...` rule text into
//! a checked descriptor, and expanding a descriptor from a start instant into
//! its ordered occurrences.
//!
//! A rule is read by [`RRule::from_str`], checked by [`RRule::validate`] and
//! written by [`RRule::to_string`]. A checked rule is expanded from a start
//! by [`RuleIter`], one occurrence at a time; [`RRuleSet`] merges rules with
//! instants added and excluded by hand, and [`RRuleSet::all`] gives its first
//! occurrences. What holds of these together is stated in [`laws`] and
//! [`roundtrip`].

pub mod calendar;
pub mod datetime;
pub mod document;
pub mod error;
pub mod kinds;
pub mod laws;
pub mod lists;
pub mod merge;
pub mod parser;
pub mod period;
pub mod plan;
pub mod property;
pub mod props;
pub mod render;
pub mod roundtrip;
pub mod rule;
pub mod set;
pub mod stream;
pub mod text;
pub mod validate;
pub mod zone;

pub use calendar::Date;
pub use datetime::{DateTime, Time};
pub use error::{ParseError, ParseErrorKind, RRuleError, ValidationError};
pub use kinds::{Frequency, NWeekday, Weekday};
pub use parser::{props_to_rrule, ContentLineCaptures, PropertyName};
pub use property::RRuleProperty;
pub use props::{parse_parameters, Properties};
pub use rule::RRule;
pub use set::{RRuleResult, RRuleSet};
pub use stream::RuleIter;
pub use validate::ValidatedRRule;
pub use zone::Tz;
