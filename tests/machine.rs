use zfs_rs::dataset::{parse_spec, Dataset};
use zfs_rs::machine::{apply_snaps_listing, parse_zfs, snapshot_failure, Machine, MachineError, StdioMode};
use zfs_rs::snap::Snap;

fn argv(l: &zfs_rs::machine::LaunchSpec) -> Vec<String> {
    let mut v = vec![l.program.clone()];
    v.extend(l.args.iter().cloned());
    v
}

const LISTING: &str = "tank/phone@2021-11-01\t1635724800\t1111\t0\ntank/phone@2021-11-02\t1635811200\t2222\t1\n";

#[test]
fn test_parse_zfs() {
    let snaps = parse_zfs(LISTING).unwrap();
    assert_eq!(snaps.len(), 2);
    assert_eq!(snaps[0].name, "2021-11-01");
    assert_eq!(snaps[0].creation, 1635724800);
    assert_eq!(snaps[0].guid, 1111);
    assert_eq!(snaps[0].holds, 0);
    assert_eq!(snaps[1].name, "2021-11-02");
    assert_eq!(snaps[1].guid, 2222);
    assert_eq!(snaps[1].holds, 1);
}

#[test]
fn parse_zfs_edges() {
    assert_eq!(parse_zfs("").unwrap().len(), 0);
    assert!(parse_zfs("tank@a\t1\t2\t3").is_none());
    assert!(parse_zfs("tank@a\t1\t2\n").is_none());
    assert!(parse_zfs("tank\t1\t2\t3\n").is_none());
    assert!(parse_zfs("tank@a\tx\t2\t3\n").is_none());
    assert!(parse_zfs("tank@a\t1\t2\t4294967296\n").is_none());
    assert_eq!(parse_zfs("tank@a\t1\t18446744073709551615\t4294967295\n").unwrap()[0].guid, u64::MAX);
}

#[test]
fn listing_outcomes() {
    let (_, mut ds) = parse_spec("tank/phone").unwrap();
    assert!(apply_snaps_listing(&mut ds, true, LISTING, "").is_ok());
    assert_eq!(ds.snaps.len(), 2);
    assert!(matches!(
        apply_snaps_listing(&mut ds, false, "", "cannot open 'x': dataset does not exist\n"),
        Err(MachineError::NoDataset)
    ));
    assert!(matches!(apply_snaps_listing(&mut ds, false, "", "sh: zfs: not found\n"), Err(MachineError::NoZFSRuntime)));
    assert!(matches!(
        apply_snaps_listing(&mut ds, false, "", "boom\n"),
        Err(MachineError::ZFSCommandExecutionError(m)) if m == "boom\n"
    ));
    assert!(matches!(apply_snaps_listing(&mut ds, true, "junk\n", ""), Err(MachineError::UnreadableListing(_))));
    assert_eq!(ds.snaps.len(), 2);
}

#[test]
fn snapshot_failures() {
    assert!(matches!(snapshot_failure("cannot create: invalid character '!' in name"), MachineError::IllegalZFSName));
    assert!(matches!(snapshot_failure("cannot open 'x': dataset does not exist"), MachineError::NoDataset));
    assert!(matches!(snapshot_failure("cannot create: dataset already exists"), MachineError::NameAlreadyInUse));
    assert!(matches!(snapshot_failure("other"), MachineError::ZFSCommandExecutionError(m) if m == "other"));
}

fn with_snaps(spec: &str) -> Dataset {
    let (_, mut ds) = parse_spec(spec).unwrap();
    ds.snaps = parse_zfs(LISTING).unwrap();
    ds
}

#[test]
fn command_lines() {
    let ds = with_snaps("tank/phone");
    let local = Machine::Local;
    let remote = Machine::Remote { host: "baal".to_string() };
    let first = Snap { guid: 1111, name: "2021-11-01".to_string(), creation: 1635724800, holds: 0 };

    let c = local.send_from_s_till_newest(&ds, &first, false);
    assert_eq!(argv(&c), vec!["sh", "-c", "zfs send -vP -cpLeI @2021-11-01 tank/phone@2021-11-02"]);
    assert_eq!(c.stdout, StdioMode::Piped);
    assert_eq!(c.stderr, StdioMode::Piped);

    let c = remote.send_from_s_till_newest(&ds, &first, true);
    assert_eq!(argv(&c), vec!["ssh", "baal", "--", "zfs send -vP -cpLei @2021-11-01 tank/phone@2021-11-02"]);

    let c = local.fullsend_s(&ds, &first);
    assert_eq!(argv(&c), vec!["sh", "-c", "zfs send -vP -cpLe tank/phone@2021-11-01"]);

    let c = remote.recv(&ds, true);
    assert_eq!(argv(&c), vec!["ssh", "baal", "--", "zfs recv -s -F tank/phone"]);
    assert_eq!(c.stdin, StdioMode::Piped);
    assert_eq!(c.stdout, StdioMode::Null);
    assert_eq!(c.stderr, StdioMode::Inherit);
    let c = local.recv(&ds, false);
    assert_eq!(argv(&c), vec!["sh", "-c", "zfs recv -s  tank/phone"]);

    let c = local.list_snaps_cmd(&ds);
    assert_eq!(argv(&c), vec!["sh", "-c", "zfs list -Hp -o name,creation,guid,userrefs -t snapshot -d1 tank/phone"]);

    let c = local.create_snap_cmd(&ds, "now");
    assert_eq!(argv(&c), vec!["sh", "-c", "zfs snapshot tank/phone@now"]);

    let (_, deep) = parse_spec("tank/a/b/c").unwrap();
    let c = remote.create_ancestors_cmd(&deep);
    assert_eq!(argv(&c), vec!["ssh", "baal", "--", "zfs create -p tank/a/b"]);

    assert_eq!(local.display_name(), "localhost");
    assert_eq!(remote.display_name(), "baal");
}
