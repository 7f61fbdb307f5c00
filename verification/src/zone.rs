//! Time zones: the ambient zone of the host, UTC, and the zones of the IANA
//! database, and what instant a wall-clock time is in each.

use chrono::TimeZone;
use vstd::prelude::*;

use crate::text::{lacks_char, no_char, str_eq};

verus! {

/// The number under which the zone database holds the zone called `name`,
/// where it holds one.
pub uninterp spec fn zone_named(name: Seq<char>) -> Option<u16>;

/// The name of the zone that the database holds under the number `id`.
pub uninterp spec fn zone_name_of(id: u16) -> Seq<char>;

/// The instants, in seconds since 1970-01-01T00:00:00Z, at which the wall
/// clock of zone `id` shows `local` (seconds since 1970-01-01T00:00:00 on
/// that clock): none where the clock skips that time, two (earliest first)
/// where it shows it twice.
pub uninterp spec fn zone_instants(id: u16, local: int) -> Seq<i64>;

/// A zone of the IANA database, by the number under which the database
/// holds it.
#[derive(Debug, Clone, Copy, PartialEq, Eq, Hash, Structural)]
pub struct ZoneId {
    pub id: u16,
}

/// A time zone.
#[derive(Debug, Clone, Copy, PartialEq, Eq, Hash, Structural)]
pub enum Tz {
    /// The zone of the host, whatever it is when asked.
    Local,
    /// Coordinated universal time.
    Utc,
    /// A zone of the IANA database other than the one called `UTC`.
    Named(ZoneId),
}

/// Looks a zone up by name with chrono-tz's `Tz::from_str` and gives its
/// place among the variants of chrono-tz's `Tz`, which is its place in
/// `TZ_VARIANTS` too: the result depends on the name alone, and the zone
/// found carries the name it was looked up by.
#[verifier::external_body]
fn zone_index(name: &str) -> (r: Option<u16>)
    ensures
        r == zone_named(name@),
        r matches Some(id) ==> zone_name_of(id) == name@,
{
    name.parse::<chrono_tz::Tz>().ok().map(|z| z as u16)
}

/// The name of the zone at place `id` of chrono-tz's `TZ_VARIANTS`, from
/// `Tz::name`; the empty text where there is no such place.
#[verifier::external_body]
fn zone_name(id: u16) -> (r: String)
    ensures
        r@ == zone_name_of(id),
{
    chrono_tz::TZ_VARIANTS.get(id as usize).map(|z| z.name()).unwrap_or_default().to_string()
}

/// The instants at which the zone at place `id` of `TZ_VARIANTS` shows the
/// wall-clock time `local`, from chrono's `TimeZone::from_local_datetime`:
/// the earliest first. None also where there is no such place or chrono
/// cannot hold the time.
#[verifier::external_body]
fn zone_resolve(id: u16, local: i64) -> (r: Vec<i64>)
    ensures
        r@ == zone_instants(id, local as int),
        r.len() <= 2,
{
    let naive = chrono::DateTime::from_timestamp(local, 0).map(|t| t.naive_utc());
    match (chrono_tz::TZ_VARIANTS.get(id as usize), naive) {
        (Some(z), Some(n)) => match z.from_local_datetime(&n) {
            chrono::LocalResult::Single(t) => vec![t.timestamp()],
            chrono::LocalResult::Ambiguous(a, b) => vec![a.timestamp(), b.timestamp()],
            chrono::LocalResult::None => vec![],
        },
        _ => vec![],
    }
}

/// The instants at which the host's own zone shows the wall-clock time
/// `local`, from chrono's `Local.from_local_datetime`. The answer depends on
/// the host and may change between calls: only its length is known.
#[verifier::external_body]
fn ambient_resolve(local: i64) -> (r: Vec<i64>)
    ensures
        r.len() <= 2,
{
    match chrono::DateTime::from_timestamp(local, 0) {
        Some(t) => match chrono::Local.from_local_datetime(&t.naive_utc()) {
            chrono::LocalResult::Single(t) => vec![t.timestamp()],
            chrono::LocalResult::Ambiguous(a, b) => vec![a.timestamp(), b.timestamp()],
            chrono::LocalResult::None => vec![],
        },
        None => vec![],
    }
}

/// The zone that a name stands for: `UTC` itself, or the zone that the
/// database holds under that name. A name with a `;` in it stands for none.
pub open spec fn tz_named(name: Seq<char>) -> Option<Tz> {
    if name == "UTC"@ {
        Some(Tz::Utc)
    } else if !no_char(name, ';') {
        None
    } else {
        match zone_named(name) {
            Some(id) => Some(Tz::Named(ZoneId { id })),
            None => None,
        }
    }
}

/// The instants at which the wall clock of a zone other than the ambient one
/// shows `local`. Of the ambient zone nothing is fixed.
pub open spec fn instants_of(zone: Tz, local: int) -> Seq<i64> {
    match zone {
        Tz::Utc => seq![local as i64],
        Tz::Named(z) => zone_instants(z.id, local),
        Tz::Local => Seq::empty(),
    }
}

impl Tz {
    /// Whether the zone is one that a name can stand for and that reads back
    /// under the same name: UTC, or a database zone whose name is not `UTC`,
    /// holds no `;` and leads back to it.
    pub open spec fn wf(self) -> bool {
        match self {
            Tz::Local => true,
            Tz::Utc => true,
            Tz::Named(z) => zone_name_of(z.id) != "UTC"@ && no_char(zone_name_of(z.id), ';')
                && zone_named(zone_name_of(z.id)) == Some(z.id),
        }
    }

    /// The name under which the zone is written; the ambient zone has none.
    pub open spec fn name_spec(self) -> Seq<char> {
        match self {
            Tz::Local => "Local"@,
            Tz::Utc => "UTC"@,
            Tz::Named(z) => zone_name_of(z.id),
        }
    }

    /// The zone called `name`: `UTC`, or an IANA name such as
    /// `America/New_York`, spelled exactly.
    pub fn named(name: &str) -> (r: Option<Tz>)
        ensures
            r == tz_named(name@),
            r matches Some(z) ==> z.wf() && z.name_spec() == name@ && z != Tz::Local,
    {
        if str_eq(name, "UTC") {
            Some(Tz::Utc)
        } else if !lacks_char(name, ';') {
            None
        } else {
            match zone_index(name) {
                Some(id) => Some(Tz::Named(ZoneId { id })),
                None => None,
            }
        }
    }

    /// The name of the zone; `Local` for the ambient zone.
    pub fn name(&self) -> (r: String)
        ensures
            r@ == self.name_spec(),
    {
        match self {
            Tz::Local => "Local".to_owned(),
            Tz::Utc => "UTC".to_owned(),
            Tz::Named(z) => zone_name(z.id),
        }
    }

    pub fn is_local(&self) -> (r: bool)
        ensures
            r == (*self == Tz::Local),
    {
        match self {
            Tz::Local => true,
            _ => false,
        }
    }

    /// The instants at which this zone's wall clock shows `local`, earliest
    /// first: none, one or two. For the ambient zone the host is asked, and
    /// the answer is not fixed by the arguments.
    pub fn resolve(&self, local: i64) -> (r: Vec<i64>)
        ensures
            r.len() <= 2,
            *self != Tz::Local ==> r@ == instants_of(*self, local as int),
    {
        match self {
            Tz::Utc => {
                let mut v: Vec<i64> = Vec::new();
                v.push(local);
                assert(v@ =~= seq![local]);
                v
            },
            Tz::Named(z) => zone_resolve(z.id, local),
            Tz::Local => ambient_resolve(local),
        }
    }
}

} // verus!
