use vstd::prelude::*;

use crate::calendar::{days_in_month, exec_days_in_month, Fields};
use crate::errors::UptError;
use crate::instant::Instant;
use crate::resolve::start_from;
use chrono::{Datelike, Offset, Timelike};

verus! {

/// Relies on `chrono::Utc::now` with `timestamp` and
/// `timestamp_subsec_nanos`: the sub-second part stays below two full
/// seconds (it exceeds one only across a leap second).
#[verifier::external_body]
fn now_parts() -> (r: (i64, u32))
    ensures
        r.1 < 2_000_000_000,
{
    let now = chrono::Utc::now();
    (now.timestamp(), now.timestamp_subsec_nanos())
}

/// Relies on `uptime_lib::get`: the wall-clock time since boot as a
/// standard duration, whose sub-second part stays below one second; `None`
/// when the operating system cannot report it.
#[verifier::external_body]
fn uptime_parts() -> (r: Option<(u64, u32)>)
    ensures
        r matches Some(p) ==> p.1 < 1_000_000_000,
{
    match uptime_lib::get() {
        Ok(d) => Some((d.as_secs(), d.subsec_nanos())),
        Err(_) => None,
    }
}

/// The raw calendar readout of an instant in the machine's local timezone.
#[derive(Clone, Copy, Debug)]
pub struct RawLocal {
    pub year: i32,
    pub month: u32,
    pub day: u32,
    pub hour: u32,
    pub minute: u32,
    pub second: u32,
    pub nanos: u32,
    pub offset_secs: i32,
}

/// Relies on chrono: `DateTime::from_timestamp`, the conversion to the
/// local timezone, the `Datelike`/`Timelike` accessors and
/// `FixedOffset::local_minus_utc`, whose documented ranges the clauses
/// repeat. The local fields depend on the machine's timezone database, so
/// nothing more is promised of them.
#[verifier::external_body]
fn local_parts(secs: i64, nanos: u32) -> (r: Option<RawLocal>)
    ensures
        r matches Some(l) ==> 1 <= l.month <= 12 && 1 <= l.day <= 31 && l.hour < 24 && l.minute
            < 60 && l.second < 60 && l.nanos < 2_000_000_000 && -86400 < l.offset_secs < 86400,
{
    let dt = chrono::DateTime::from_timestamp(secs, nanos)?;
    let loc = dt.with_timezone(&chrono::Local);
    let off = loc.offset().fix().local_minus_utc();
    Some(RawLocal {
        year: loc.year(),
        month: loc.month(),
        day: loc.day(),
        hour: loc.hour(),
        minute: loc.minute(),
        second: loc.second(),
        nanos: loc.nanosecond(),
        offset_secs: off,
    })
}

/// Folds a leap-second readout back into the well-formed shape.
pub fn normalize_parts(secs: i64, nanos: u32) -> (r: Option<Instant>)
    requires
        nanos < 2_000_000_000,
    ensures
        r matches Some(i) ==> i.wf() && i.total_nanos() == secs * 1_000_000_000 + nanos,
        r is None <==> (secs == i64::MAX && nanos >= 1_000_000_000),
{
    if nanos >= 1_000_000_000 {
        if secs == i64::MAX {
            None
        } else {
            Some(Instant { secs: secs + 1, nanos: nanos - 1_000_000_000 })
        }
    } else {
        Some(Instant { secs, nanos })
    }
}

/// The current instant in the UTC-equivalent reference.
pub fn now_instant() -> (r: Result<Instant, UptError>)
    ensures
        r matches Ok(i) ==> i.wf(),
        r matches Err(e) ==> e == UptError::SystemQuery,
{
    let (s, n) = now_parts();
    match normalize_parts(s, n) {
        Some(i) => Ok(i),
        None => Err(UptError::SystemQuery),
    }
}

/// The boot instant: the current instant minus the reported uptime,
/// exactly, or `None` when the difference cannot be represented.
pub fn boot_from(now: &Instant, up_secs: u64, up_nanos: u32) -> (r: Option<Instant>)
    requires
        now.wf(),
        up_nanos < 1_000_000_000,
    ensures
        r matches Some(b) ==> b.wf() && b.total_nanos() == now.total_nanos() - (up_secs
            * 1_000_000_000 + up_nanos),
        r is None <==> now.total_nanos() - (up_secs * 1_000_000_000 + up_nanos) < i64::MIN
            * 1_000_000_000,
{
    let bn: u32;
    let borrow: u64;
    if now.nanos >= up_nanos {
        bn = now.nanos - up_nanos;
        borrow = 0;
    } else {
        bn = now.nanos + 1_000_000_000 - up_nanos;
        borrow = 1;
    }
    let ns: i128 = now.secs as i128;
    let need: i128 = up_secs as i128 + borrow as i128;
    if ns - need < i64::MIN as i128 {
        None
    } else {
        Some(Instant { secs: (ns - need) as i64, nanos: bn })
    }
}

/// Resolves the true system start: what the machine booted at, derived
/// from the reported uptime; fatal when the system cannot say.
pub fn get_system_start_time() -> (r: Result<Instant, UptError>)
    ensures
        r matches Ok(i) ==> i.wf(),
        r matches Err(e) ==> e == UptError::SystemQuery,
{
    match uptime_parts() {
        None => Err(UptError::SystemQuery),
        Some(up) => {
            let now = match now_instant() {
                Ok(i) => i,
                Err(e) => {
                    return Err(e);
                },
            };
            match boot_from(&now, up.0, up.1) {
                Some(b) => Ok(b),
                None => Err(UptError::SystemQuery),
            }
        },
    }
}

/// Resolves the effective start under the precedence rule: the persisted
/// reset counts only while it lies after the boot instant. The decision
/// itself is `start_from`, here applied to the live boot query.
pub fn get_start_time(persisted: Option<Instant>) -> (r: Result<Instant, UptError>)
    requires
        persisted matches Some(p) ==> p.wf(),
    ensures
        r matches Ok(i) ==> i.wf() && (persisted matches Some(p) ==> p.spec_le(i)),
        r matches Err(e) ==> e == UptError::SystemQuery,
{
    start_from(get_system_start_time(), persisted)
}

/// Folds a raw local readout into well-formed fields, exactly: every
/// field passes through unchanged, a leap-second nanosecond reading folds
/// back below one second, and the readout is accepted precisely when its
/// year has four digits and its day exists in its month.
pub fn fold_raw_local(l: &RawLocal) -> (r: Option<(Fields, i32)>)
    requires
        1 <= l.month <= 12,
        1 <= l.day <= 31,
        l.hour < 24,
        l.minute < 60,
        l.second < 60,
        l.nanos < 2_000_000_000,
        -86400 < l.offset_secs < 86400,
    ensures
        r is Some <==> (0 <= l.year <= 9999 && l.day as int <= days_in_month(
            l.year as int,
            l.month as int,
        )),
        r matches Some(p) ==> p.0.wf() && p.0.year as int == l.year as int && p.0.month as int
            == l.month as int && p.0.day as int == l.day as int && p.0.hour as int == l.hour as int
            && p.0.minute as int == l.minute as int && p.0.second as int == l.second as int
            && p.0.nanos as int == (if l.nanos >= 1_000_000_000 {
            l.nanos - 1_000_000_000
        } else {
            l.nanos as int
        }) && p.1 == l.offset_secs,
{
    if l.year < 0 || l.year > 9999 {
        return None;
    }
    let dim = exec_days_in_month(l.year as u16, l.month as u8);
    if l.day > dim as u32 {
        return None;
    }
    let nan: u32 = if l.nanos >= 1_000_000_000 {
        l.nanos - 1_000_000_000
    } else {
        l.nanos
    };
    Some((
        Fields {
            year: l.year as u16,
            month: l.month as u8,
            day: l.day as u8,
            hour: l.hour as u8,
            minute: l.minute as u8,
            second: l.second as u8,
            nanos: nan,
        },
        l.offset_secs,
    ))
}

/// The instant's calendar readout in the machine's local timezone; the
/// readout itself depends on the timezone database, and `fold_raw_local`
/// fixes everything the library does with it.
pub fn local_fields(i: &Instant) -> (r: Option<(Fields, i32)>)
    requires
        i.wf(),
    ensures
        r matches Some(p) ==> p.0.wf() && -86400 < p.1 < 86400,
{
    match local_parts(i.secs, i.nanos) {
        None => None,
        Some(l) => fold_raw_local(&l),
    }
}

} // verus!
