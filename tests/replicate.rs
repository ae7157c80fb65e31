use zfs_rs::dataset::{parse_spec, Dataset};
use zfs_rs::machine::MachineError;
use zfs_rs::reconcile::find_mrcud;
use zfs_rs::replicate::{
    decide_after_mrcud, destination_plan, ratelimit_cmd, verify_pv_rate, Decision,
    Event, Replication, ReplicateDatasetOpts, ReplicateError, ReplicateFailure, Step,
};
use zfs_rs::snap::Snap;

const DAY: i64 = 86400;
const JAN1: i64 = 1609459200;

fn snap(guid: u64, name: &str, creation: i64) -> Snap {
    Snap { guid, name: name.to_string(), creation, holds: 0 }
}

fn ds(spec: &str, snaps: Vec<Snap>) -> Dataset {
    let mut d = Dataset::from_str(spec).unwrap();
    d.snaps = snaps;
    d
}

fn opts() -> ReplicateDatasetOpts {
    ReplicateDatasetOpts {
        use_rollback_flag_on_recv: false,
        allow_divergent_destination: false,
        init_nonexistent_destination: false,
        simple_incremental: false,
        app_verbose: false,
        take_snap_now: None,
        ratelimit: None,
    }
}

#[test]
fn test_verify_pv_rate() {
    assert_eq!(verify_pv_rate("1234M"), Ok(()));
    assert_eq!(verify_pv_rate("1234j"), Err(()));
    assert_eq!(verify_pv_rate("-1234M"), Err(()));
    assert_eq!(verify_pv_rate("50M"), Ok(()));
    assert_eq!(verify_pv_rate("50"), Ok(()));
}

#[test]
fn pv_rate_edges() {
    assert_eq!(verify_pv_rate(""), Err(()));
    assert_eq!(verify_pv_rate("M"), Err(()));
    assert_eq!(verify_pv_rate("7T"), Ok(()));
    assert_eq!(verify_pv_rate("7KK"), Err(()));
    assert_eq!(verify_pv_rate("+7"), Err(()));
    assert_eq!(verify_pv_rate("99999999999999999999"), Err(()));
    assert_eq!(verify_pv_rate("18446744073709551616K"), Err(()));
    assert_eq!(verify_pv_rate("18446744073709551615G"), Ok(()));
}

#[test]
fn scenario_up_to_date() {
    let a = ds("a", vec![snap(1, "s1", JAN1), snap(2, "s2", JAN1 + DAY)]);
    let b = ds("b", vec![snap(1, "s1", JAN1), snap(2, "s2", JAN1 + DAY)]);
    let m = find_mrcud(&a, &b);
    assert!(matches!(decide_after_mrcud(&m, &opts()), Ok(Decision::UpToDate(s)) if s.name == "s2"));
    let mut o = opts();
    o.take_snap_now = Some("now".to_string());
    assert!(matches!(decide_after_mrcud(&m, &o), Ok(Decision::SendFrom(s)) if s.name == "s2"));
}

#[test]
fn scenario_source_has_more() {
    let a = ds("a", vec![snap(1, "s1", JAN1), snap(2, "s2", JAN1 + DAY), snap(3, "s3", JAN1 + 2 * DAY)]);
    let b = ds("b", vec![snap(1, "s1", JAN1), snap(2, "s2", JAN1 + DAY)]);
    let m = find_mrcud(&a, &b);
    let from = match decide_after_mrcud(&m, &opts()) {
        Ok(Decision::SendFrom(s)) => s,
        other => panic!("unexpected {:?}", other),
    };
    assert_eq!(from.name, "s2");
    let cmd = zfs_rs::machine::Machine::Local.send_from_s_till_newest(&a, &from, false);
    assert_eq!(cmd.args[1], "zfs send -vP -cpLeI @s2 a@s3");
}

#[test]
fn scenario_divergence_without_rollback() {
    let a = ds("a", vec![snap(1, "s1", JAN1), snap(2, "s2a", JAN1 + DAY)]);
    let b = ds("b", vec![snap(1, "s1", JAN1), snap(3, "s2b", JAN1 + DAY + 30)]);
    let m = find_mrcud(&a, &b);
    let e = decide_after_mrcud(&m, &opts()).unwrap_err();
    assert_eq!(e, ReplicateError::Diverged);
    assert!(e.hint().contains("--allow-divergent-destination"));
    let mut o = opts();
    o.allow_divergent_destination = true;
    assert!(matches!(decide_after_mrcud(&m, &o), Ok(Decision::SendFrom(s)) if s.name == "s1"));
}

#[test]
fn scenario_destination_has_more() {
    let a = ds("a", vec![snap(1, "s1", JAN1), snap(2, "s2", JAN1 + DAY)]);
    let b = ds("b", vec![snap(1, "s1", JAN1), snap(2, "s2", JAN1 + DAY), snap(3, "s3", JAN1 + 2 * DAY)]);
    let m = find_mrcud(&a, &b);
    let e = decide_after_mrcud(&m, &opts()).unwrap_err();
    assert_eq!(e, ReplicateError::DestinationHasMore);
    assert!(e.hint().contains("reverse"));
    let mut o = opts();
    o.take_snap_now = Some("now".to_string());
    assert_eq!(decide_after_mrcud(&m, &o).unwrap_err(), ReplicateError::WouldDiverge { snapshot: "now".to_string() });
    o.allow_divergent_destination = true;
    assert!(matches!(decide_after_mrcud(&m, &o), Ok(Decision::SendFrom(s)) if s.name == "s2"));
}

#[test]
fn scenario_none_in_common() {
    let a = ds("a", vec![snap(1, "s1", JAN1)]);
    let b = ds("b", vec![snap(2, "t1", JAN1 + 1)]);
    let m = find_mrcud(&a, &b);
    assert_eq!(decide_after_mrcud(&m, &opts()).unwrap_err(), ReplicateError::NoneInCommon);
}

#[test]
fn destination_plans() {
    let (_, root) = parse_spec("zelda").unwrap();
    let (_, child) = parse_spec("zelda/x").unwrap();
    assert_eq!(destination_plan(true, &root, &opts()), Ok(false));
    assert_eq!(destination_plan(false, &child, &opts()), Err(ReplicateError::DestinationMissing));
    let mut o = opts();
    o.init_nonexistent_destination = true;
    assert_eq!(destination_plan(false, &root, &o), Err(ReplicateError::DestinationIsPoolRoot));
    assert_eq!(destination_plan(false, &child, &o), Ok(true));
}

#[test]
fn ratelimit_command() {
    let c = ratelimit_cmd("50M");
    assert_eq!(c.program, "pv");
    assert_eq!(c.args, vec!["-q", "-L", "50M"]);
}

fn drive_to_classification(opts: ReplicateDatasetOpts, a: &Dataset, b: &Dataset) -> (Replication, Step) {
    let (mut r, step) = Replication::new(opts);
    assert!(matches!(step, Step::ListSource));
    let step = r.advance(Event::Listed(Ok(())), a, b);
    assert!(matches!(step, Step::ListDestination));
    let step = r.advance(Event::Listed(Ok(())), a, b);
    (r, step)
}

#[test]
fn orchestrator_up_to_date_spawns_nothing() {
    let a = ds("a", vec![snap(1, "s1", JAN1), snap(2, "s2", JAN1 + DAY)]);
    let b = ds("b", vec![snap(1, "s1", JAN1), snap(2, "s2", JAN1 + DAY)]);
    let (_, step) = drive_to_classification(opts(), &a, &b);
    assert!(matches!(step, Step::UpToDate(s) if s.name == "s2"));
}

#[test]
fn orchestrator_source_has_more_sends_incrementally() {
    let a = ds("a", vec![snap(1, "s1", JAN1), snap(2, "s2", JAN1 + DAY), snap(3, "s3", JAN1 + 2 * DAY)]);
    let b = ds("b", vec![snap(1, "s1", JAN1), snap(2, "s2", JAN1 + DAY)]);
    let (mut r, step) = drive_to_classification(opts(), &a, &b);
    let from = match step {
        Step::IncrementalSend(s) => s,
        other => panic!("unexpected {:?}", other),
    };
    assert_eq!(from.name, "s2");
    let send = zfs_rs::machine::Machine::Local.send_from_s_till_newest(&a, &from, false);
    assert_eq!(send.args[1], "zfs send -vP -cpLeI @s2 a@s3");
    let recv = zfs_rs::machine::Machine::Local.recv(&b, false);
    assert_eq!(recv.args[1], "zfs recv -s  b");
    assert!(matches!(r.advance(Event::Streamed { send_ok: true, recv_ok: true }, &a, &b), Step::Synchronized));
}

#[test]
fn orchestrator_divergence_fails() {
    let a = ds("a", vec![snap(1, "s1", JAN1), snap(2, "s2a", JAN1 + DAY)]);
    let b = ds("b", vec![snap(1, "s1", JAN1), snap(3, "s2b", JAN1 + DAY + 30)]);
    let (_, step) = drive_to_classification(opts(), &a, &b);
    match step {
        Step::Failed(ReplicateFailure::Refused(e)) => {
            assert_eq!(e, ReplicateError::Diverged);
            assert!(e.hint().contains("--allow-divergent-destination"));
        }
        other => panic!("unexpected {:?}", other),
    }
}

#[test]
fn orchestrator_destination_has_more_fails() {
    let a = ds("a", vec![snap(1, "s1", JAN1), snap(2, "s2", JAN1 + DAY)]);
    let b = ds("b", vec![snap(1, "s1", JAN1), snap(2, "s2", JAN1 + DAY), snap(3, "s3", JAN1 + 2 * DAY)]);
    let (_, step) = drive_to_classification(opts(), &a, &b);
    assert!(matches!(step, Step::Failed(ReplicateFailure::Refused(ReplicateError::DestinationHasMore))));
}

#[test]
fn orchestrator_takes_snapshot_before_sending() {
    let a = ds("a", vec![snap(1, "s1", JAN1), snap(2, "s2", JAN1 + DAY)]);
    let b = ds("b", vec![snap(1, "s1", JAN1), snap(2, "s2", JAN1 + DAY)]);
    let mut o = opts();
    o.take_snap_now = Some("now".to_string());
    let (mut r, step) = drive_to_classification(o, &a, &b);
    assert!(matches!(step, Step::TakeSnapshot(ref n) if n == "now"));
    assert!(r.opts.take_snap_now.is_none());
    let a2 = ds("a", vec![snap(1, "s1", JAN1), snap(2, "s2", JAN1 + DAY), snap(7, "now", JAN1 + 3 * DAY)]);
    assert!(matches!(r.advance(Event::Completed(Ok(())), &a2, &b), Step::IncrementalSend(s) if s.name == "s2"));
}

#[test]
fn orchestrator_initializes_missing_destination() {
    let a = ds("a", vec![snap(1, "s1", JAN1), snap(2, "s2", JAN1 + DAY)]);
    let (_, empty) = parse_spec("zelda/x").unwrap();
    let mut o = opts();
    o.init_nonexistent_destination = true;
    let (mut r, _) = Replication::new(o);
    r.advance(Event::Listed(Ok(())), &a, &empty);
    assert!(matches!(r.advance(Event::Listed(Err(MachineError::NoDataset)), &a, &empty), Step::CreateAncestors));
    assert!(matches!(r.advance(Event::Completed(Ok(())), &a, &empty), Step::FullSend));
    assert!(matches!(r.advance(Event::Streamed { send_ok: true, recv_ok: true }, &a, &empty), Step::RefreshDestination));
    let b = ds("zelda/x", vec![snap(1, "s1", JAN1)]);
    assert!(matches!(r.advance(Event::Listed(Ok(())), &a, &b), Step::IncrementalSend(s) if s.name == "s1"));
    assert!(matches!(
        r.advance(Event::Streamed { send_ok: false, recv_ok: true }, &a, &b),
        Step::Failed(ReplicateFailure::Refused(ReplicateError::StreamFailed { send_ok: false, recv_ok: true }))
    ));
    assert!(matches!(
        r.advance(Event::Listed(Ok(())), &a, &b),
        Step::Failed(ReplicateFailure::Refused(ReplicateError::OutOfOrder))
    ));
}

#[test]
fn orchestrator_missing_destination_and_host_failures() {
    let a = ds("a", vec![snap(1, "s1", JAN1)]);
    let (_, b) = parse_spec("zelda/x").unwrap();
    let (mut r, _) = Replication::new(opts());
    r.advance(Event::Listed(Ok(())), &a, &b);
    assert!(matches!(
        r.advance(Event::Listed(Err(MachineError::NoDataset)), &a, &b),
        Step::Failed(ReplicateFailure::Refused(ReplicateError::DestinationMissing))
    ));
    let (mut r, _) = Replication::new(opts());
    assert!(matches!(
        r.advance(Event::Listed(Err(MachineError::NoZFSRuntime)), &a, &b),
        Step::Failed(ReplicateFailure::Host(MachineError::NoZFSRuntime))
    ));
    let (_, root) = parse_spec("zelda").unwrap();
    let mut o = opts();
    o.init_nonexistent_destination = true;
    let (mut r, _) = Replication::new(o);
    r.advance(Event::Listed(Ok(())), &a, &root);
    assert!(matches!(
        r.advance(Event::Listed(Err(MachineError::NoDataset)), &a, &root),
        Step::Failed(ReplicateFailure::Refused(ReplicateError::DestinationIsPoolRoot))
    ));
}

#[test]
fn orchestrator_refuses_incomparable_snapshots() {
    let a = ds("a", vec![snap(1, "s1", JAN1)]);
    let b = ds("b", vec![snap(2, "t1", JAN1)]);
    let (_, step) = drive_to_classification(opts(), &a, &b);
    assert!(matches!(step, Step::Failed(ReplicateFailure::Refused(ReplicateError::IncomparableSnapshots))));
}
