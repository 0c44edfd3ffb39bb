use rx_rs::error::NextWhitoutError;
use rx_rs::error::NextWithError;
use rx_rs::error::WithErr;
use rx_rs::scheduler::LocalScheduler;

#[test]
fn scheduler_runs_due_tasks_in_order() {
    let mut sch = LocalScheduler::new();
    let a = sch.schedule(Some(5));
    let b = sch.schedule(None);
    let c = sch.schedule(Some(20));
    let ready = sch.advance(10);
    assert_eq!(ready, vec![a, b]);
    let ready = sch.advance(25);
    assert_eq!(ready, vec![c]);
}

#[test]
fn scheduler_cancel_prevents_run() {
    let mut sch = LocalScheduler::new();
    let a = sch.schedule(Some(5));
    let b = sch.schedule(Some(7));
    sch.cancel(a);
    let ready = sch.advance(10);
    assert_eq!(ready, vec![b]);
}

#[test]
fn scheduler_task_runs_once() {
    let mut sch = LocalScheduler::new();
    let a = sch.schedule(Some(1));
    assert_eq!(sch.advance(2), vec![a]);
    assert_eq!(sch.advance(5), Vec::<u64>::new());
}

#[test]
fn infallible_transform_reports_success() {
    let plain = NextWhitoutError(|v: i32| v + 1);
    assert_eq!(plain.call_with_err(1), Ok(2));
}

#[test]
fn fallible_transform_reports_its_failure() {
    let fallible = NextWithError(|v: i32| if v > 0 { Ok(v) } else { Err("negative") });
    assert_eq!(fallible.call_with_err(5), Ok(5));
    assert_eq!(fallible.call_with_err(-1), Err("negative"));
}
