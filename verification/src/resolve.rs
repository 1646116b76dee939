use vstd::prelude::*;

use crate::errors::UptError;
use crate::instant::Instant;

verus! {

/// The precedence rule: the effective start is the later of the boot
/// instant and the persisted reset, and the boot instant alone when no
/// reset is on record.
pub open spec fn spec_effective_start(boot: Instant, persisted: Option<Instant>) -> Instant {
    match persisted {
        None => boot,
        Some(p) => if boot.spec_le(p) { p } else { boot },
    }
}

/// What resolution returns for each mode: the raw boot instant under the
/// system override, the precedence rule otherwise.
pub open spec fn spec_resolve_start(
    system_override: bool,
    boot: Instant,
    persisted: Option<Instant>,
) -> Instant {
    if system_override {
        boot
    } else {
        spec_effective_start(boot, persisted)
    }
}

pub fn effective_start(boot: Instant, persisted: Option<Instant>) -> (r: Instant)
    requires
        boot.wf(),
        persisted matches Some(p) ==> p.wf(),
    ensures
        r == spec_effective_start(boot, persisted),
        r.wf(),
        boot.spec_le(r),
        persisted matches Some(p) ==> p.spec_le(r),
{
    match persisted {
        None => boot,
        Some(p) => {
            if boot.le(&p) {
                p
            } else {
                boot
            }
        },
    }
}

pub fn resolve_start(system_override: bool, boot: Instant, persisted: Option<Instant>) -> (r:
    Instant)
    requires
        boot.wf(),
        persisted matches Some(p) ==> p.wf(),
    ensures
        r == spec_resolve_start(system_override, boot, persisted),
        r.wf(),
{
    if system_override {
        boot
    } else {
        effective_start(boot, persisted)
    }
}

/// Whether a reset took effect: a reset that could not be durably recorded
/// reports the write failure and never pretends to have succeeded.
pub fn reset_outcome(now: Instant, write_ok: bool) -> (r: Result<Instant, UptError>)
    requires
        now.wf(),
    ensures
        write_ok ==> r == Ok::<Instant, UptError>(now),
        !write_ok ==> r == Err::<Instant, UptError>(UptError::PersistedWrite),
{
    if write_ok {
        Ok(now)
    } else {
        Err(UptError::PersistedWrite)
    }
}

/// The full start resolution as a pure decision: a boot-query failure
/// propagates unchanged, and otherwise the precedence rule decides.
pub fn start_from(boot: Result<Instant, UptError>, persisted: Option<Instant>) -> (r: Result<
    Instant,
    UptError,
>)
    requires
        boot matches Ok(b) ==> b.wf(),
        persisted matches Some(p) ==> p.wf(),
    ensures
        r == match boot {
            Ok(b) => Ok::<Instant, UptError>(spec_effective_start(b, persisted)),
            Err(e) => Err::<Instant, UptError>(e),
        },
{
    match boot {
        Ok(b) => Ok(effective_start(b, persisted)),
        Err(e) => Err(e),
    }
}

/// Precedence law: for any boot instant and any persisted reset, the
/// effective start is the maximum of the two, whichever order they come in.
pub proof fn lemma_precedence(t0: Instant, t1: Instant)
    ensures
        spec_effective_start(t0, Some(t1)) == if t0.spec_le(t1) { t1 } else { t0 },
        t0.spec_le(spec_effective_start(t0, Some(t1))),
        t1.spec_le(spec_effective_start(t0, Some(t1))),
        spec_effective_start(t0, None) == t0,
{
}

/// System-override law: with a persisted reset present, the override mode
/// returns exactly the boot instant and ignores the reset.
pub proof fn lemma_system_override(boot: Instant, p: Instant)
    ensures
        spec_resolve_start(true, boot, Some(p)) == boot,
{
}

} // verus!
