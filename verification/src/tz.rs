use vstd::prelude::*;

use crate::dates::MAX_LOCAL_SECS;
use crate::dates::MIN_LOCAL_SECS;
use crate::error::ErrorKind;
use crate::error::SensorError;

verus! {

#[verifier::external_type_specification]
#[verifier::external_body]
pub struct ExTz(chrono_tz::Tz);

/// Whether the table of IANA zone names compiled into chrono-tz holds
/// `name`; what its `Tz::from_str` accepts.
pub uninterp spec fn tz_known(name: Seq<char>) -> bool;

/// How the zone called `name` maps a naive local timestamp (seconds since
/// the epoch, read as wall-clock time) to UTC instants.
pub uninterp spec fn tz_local_map(name: Seq<char>, local_secs: int) -> TzMapping;

/// The three ways a wall-clock time maps to UTC: it does not exist (the
/// hour a spring-forward transition skips), it is unique, or it is
/// ambiguous between an earlier and a later instant (the hour a fall-back
/// transition repeats).  The payloads are UTC seconds since the epoch.
#[derive(Clone, Copy, Debug, PartialEq, Eq, Structural)]
pub enum TzMapping {
    Gap,
    Single(i64),
    Ambiguous(i64, i64),
}

/// A resolved timezone: the handle chrono-tz computes with, together with
/// the name it was resolved from, which is what contracts speak of.
pub struct Timezone {
    tz: chrono_tz::Tz,
    name: String,
}

impl View for Timezone {
    type V = Seq<char>;

    closed spec fn view(&self) -> Seq<char> {
        self.name@
    }
}

/// Relies on chrono-tz's `Tz::from_str`: a lookup in the fixed table of
/// zone names, succeeding exactly for the names the table holds.
#[verifier::external_body]
fn tz_from_name(name: &str) -> (r: Option<Timezone>)
    ensures
        r is Some <==> tz_known(name@),
        r matches Some(t) ==> t@ == name@,
{
    match name.parse::<chrono_tz::Tz>() {
        Ok(tz) => Some(Timezone { tz, name: name.to_owned() }),
        Err(_) => None,
    }
}

/// Relies on chrono's `TimeZone::from_local_datetime` on a chrono-tz zone:
/// the mapping from a zone and a naive local time to UTC instants is
/// computed from the timezone table compiled into the crate, a function of
/// the zone name and the local time alone.  `Ambiguous` carries the
/// earliest and the latest instant, in that order.
#[verifier::external_body]
pub(crate) fn lookup_local(tz: &Timezone, local_secs: i64) -> (r: TzMapping)
    requires
        MIN_LOCAL_SECS <= local_secs <= MAX_LOCAL_SECS,
    ensures
        r == tz_local_map(tz@, local_secs as int),
{
    let naive = match chrono::DateTime::from_timestamp(local_secs, 0) {
        Some(d) => d.naive_utc(),
        None => return TzMapping::Gap,
    };
    match chrono::TimeZone::from_local_datetime(&tz.tz, &naive) {
        chrono::LocalResult::None => TzMapping::Gap,
        chrono::LocalResult::Single(d) => TzMapping::Single(d.timestamp()),
        chrono::LocalResult::Ambiguous(a, b) => TzMapping::Ambiguous(a.timestamp(), b.timestamp()),
    }
}

/// The zone name the pipeline uses: the caller's override when one is
/// given, else the fixed default.
pub open spec fn chosen_tz_name(name_override: Option<&str>) -> Seq<char> {
    match name_override {
        Some(n) => n@,
        None => "America/Los_Angeles"@,
    }
}

/// Resolve the zone to convert local times with: the override when one is
/// given, else the fixed default; an unknown name is an error.
pub fn resolve_timezone(name_override: Option<&str>) -> (r: Result<Timezone, SensorError>)
    ensures
        r is Ok <==> tz_known(chosen_tz_name(name_override)),
        r matches Ok(t) ==> t@ == chosen_tz_name(name_override),
        r matches Err(e) ==> e.kind == ErrorKind::UnknownTimezone && e.line is None && (
        e.desc matches Some(d) && d@ == chosen_tz_name(name_override)),
{
    let name: &str = match name_override {
        Some(n) => n,
        None => "America/Los_Angeles",
    };
    match tz_from_name(name) {
        Some(t) => Ok(t),
        None => Err(
            SensorError::with_desc(ErrorKind::UnknownTimezone, None, name.to_owned()),
        ),
    }
}

} // verus!
