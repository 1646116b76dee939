use upt::errors::UptError;
use upt::instant::Instant;
use upt::resolve::{effective_start, reset_outcome, resolve_start, start_from};

#[test]
fn precedence_takes_the_later_instant_both_orders() {
    let t0 = Instant::from_unix(1000, 0);
    let t1 = Instant::from_unix(2000, 0);
    assert_eq!(effective_start(t0, Some(t1)), t1);
    assert_eq!(effective_start(t1, Some(t0)), t1);
    // sub-second precision decides ties on the seconds
    let a = Instant::from_unix(1000, 1);
    let b = Instant::from_unix(1000, 2);
    assert_eq!(effective_start(a, Some(b)), b);
    assert_eq!(effective_start(b, Some(a)), b);
    assert_eq!(effective_start(a, Some(a)), a);
}

#[test]
fn no_reset_record_yields_boot_instant() {
    let boot = Instant::from_unix(5000, 0);
    assert_eq!(effective_start(boot, None), boot);
}

#[test]
fn future_reset_is_still_honored() {
    let boot = Instant::from_unix(1000, 0);
    let future = Instant::from_unix(999_999_999, 0);
    assert_eq!(effective_start(boot, Some(future)), future);
}

#[test]
fn system_override_ignores_persisted_reset() {
    let boot = Instant::from_unix(1000, 0);
    let reset = Instant::from_unix(2000, 0);
    assert_eq!(resolve_start(true, boot, Some(reset)), boot);
    assert_eq!(resolve_start(false, boot, Some(reset)), reset);
    assert_eq!(resolve_start(false, boot, None), boot);
}

#[test]
fn start_from_decides_or_propagates() {
    let boot = Instant::from_unix(1000, 0);
    let reset = Instant::from_unix(2000, 0);
    assert_eq!(start_from(Ok(boot), Some(reset)), Ok(reset));
    assert_eq!(start_from(Ok(reset), Some(boot)), Ok(reset));
    assert_eq!(start_from(Ok(boot), None), Ok(boot));
    assert_eq!(
        start_from(Err(UptError::SystemQuery), Some(reset)),
        Err(UptError::SystemQuery)
    );
}

#[test]
fn reset_write_failure_propagates() {
    let now = Instant::from_unix(7777, 0);
    assert_eq!(reset_outcome(now, false), Err(UptError::PersistedWrite));
    assert_eq!(reset_outcome(now, true), Ok(now));
}
