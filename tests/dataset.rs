use zfs_rs::comm::{render_comm, CommOpts};
use zfs_rs::dataset::{parse_spec, Dataset, SpecParseError};
use zfs_rs::machine::Machine;
use zfs_rs::reconcile::{find_mrcud, Comm, MRCUD};
use zfs_rs::snap::Snap;

fn snap(guid: u64, name: &str, creation: i64) -> Snap {
    Snap { guid, name: name.to_string(), creation, holds: 0 }
}

fn dataset_with(spec: &str, snaps: Vec<Snap>) -> Dataset {
    let mut ds = Dataset::from_str(spec).unwrap();
    ds.snaps = snaps;
    ds
}

const DAY: i64 = 86400;
const JAN1: i64 = 1609459200;

#[test]
fn test_parse_spec() {
    let (m, d) = parse_spec("tank").unwrap();
    assert_eq!(m, Machine::Local);
    assert_eq!(d.fullname(), "tank");
    assert_eq!(d.relative(), "");
    assert_eq!(d.pool(), "tank");

    let (m, d) = parse_spec("baal:tank").unwrap();
    match m {
        Machine::Remote { ref host } if host == "baal" => (),
        _ => panic!("Machine wasn't constructed properly!"),
    }
    assert_eq!(d.fullname(), "tank");
    assert_eq!(d.relative(), "");
    assert_eq!(d.pool(), "tank");

    let (m, d) = parse_spec(":tank").unwrap();
    assert_eq!(m, Machine::Local);
    assert_eq!(d.fullname(), "tank");
    assert_eq!(d.relative(), "");
    assert_eq!(d.pool(), "tank");

    let err = parse_spec(":tank:lareputa");
    assert!(matches!(err, Err(SpecParseError::IllegalCharacters(_))));

    let err = parse_spec(":tank:lareputa/a/path//to/a/relative/dataset");
    assert!(matches!(err, Err(SpecParseError::IllegalCharacters(_))));

    let (m, d) = parse_spec("server.company.tld:tank/a/path//to/a/relative/dataset").unwrap();
    match m {
        Machine::Remote { ref host } if host == "server.company.tld" => (),
        _ => panic!("Machine wasn't constructed properly!"),
    }
    assert_eq!(d.fullname(), "tank/a/path/to/a/relative/dataset");
    assert_eq!(d.relative(), "to/a/relative/dataset");
    assert_eq!(d.pool(), "tank");

    let err = parse_spec("somehost:an_invâlid_pòól/somedataset");
    assert!(matches!(err, Err(SpecParseError::IllegalCharacters(_))));

    let err = parse_spec("somehost:but/trailing/slash/");
    assert!(matches!(err, Err(SpecParseError::IllegalSlashes(_))));
}

#[test]
fn test_append_relative() {
    let (_, d1) = parse_spec("ganon//lxc/web-ng").unwrap();
    let (_, mut d2) = parse_spec("bk:zelda").unwrap();
    d2.append_relative(&d1);
    assert_eq!(d1.relative(), "lxc/web-ng");
    assert_eq!(d2.fullname(), "zelda/lxc/web-ng");
    assert_eq!(d2.pool(), "zelda");

    let (_, d1) = parse_spec("tank/deluge").unwrap();
    let (_, mut d2) = parse_spec("baccu/deluge").unwrap();
    d2.append_relative(&d1);
    assert_eq!(d1.relative(), "");
    assert_eq!(d2.fullname(), "baccu/deluge");
    assert_eq!(d2.pool(), "baccu");
}

#[test]
fn parse_errors_each_kind() {
    assert!(matches!(parse_spec("tank/a:b"), Err(SpecParseError::ColonAfterSlash(v)) if v == "tank/a:b"));
    assert!(matches!(parse_spec("host:"), Err(SpecParseError::ZeroLengthAfterColon(v)) if v == "host:"));
    assert!(matches!(parse_spec("h:/tank"), Err(SpecParseError::IllegalSlashes(v)) if v == "/tank"));
    assert!(matches!(parse_spec("tank/a b"), Err(SpecParseError::IllegalCharacters(v)) if v == "tank/a b"));
    assert!(matches!(parse_spec("tank//a//b"), Err(SpecParseError::EmptyComponent(v)) if v == "tank//a//b"));
    assert!(matches!(parse_spec("tank///a"), Err(SpecParseError::EmptyComponent(_))));
    assert!(matches!(parse_spec(""), Err(SpecParseError::ZeroLengthAfterColon(_))));
}

#[test]
fn parsed_names_are_normalized() {
    for a in ["tank", "h:tank/x", "tank//x/y", "a-b_c/d//e"] {
        let (_, d) = parse_spec(a).unwrap();
        let n = d.fullname();
        assert!(!n.contains("//"));
        assert!(!n.starts_with('/') && !n.ends_with('/'));
    }
    let (_, d) = parse_spec("tank/sub//deep/er").unwrap();
    assert_eq!(d.pool(), "tank");
    assert_eq!(d.relative(), "deep/er");
    assert!(!d.is_pool_root());
    assert!(parse_spec("tank").unwrap().1.is_pool_root());
}

#[test]
fn append_relative_without_relative_is_idempotent() {
    let (_, src) = parse_spec("tank/data").unwrap();
    let (_, mut dst) = parse_spec("zelda/x").unwrap();
    dst.append_relative(&src);
    dst.append_relative(&src);
    assert_eq!(dst.fullname(), "zelda/x");
}

#[test]
fn relative_path_expansion() {
    let (_, src) = parse_spec("ganon//lxc/web-ng").unwrap();
    assert_eq!(src.fullname(), "ganon/lxc/web-ng");
    assert_eq!(src.relative(), "lxc/web-ng");
    let (_, mut dst) = parse_spec("zelda").unwrap();
    dst.append_relative(&src);
    assert_eq!(dst.fullname(), "zelda/lxc/web-ng");
}

#[test]
fn test_comm() {
    let zelda = dataset_with("zelda/webdata", vec![snap(1, "a", JAN1), snap(2, "b", JAN1 + DAY), snap(4, "d", JAN1 + 3 * DAY)]);
    let tank = dataset_with("tank/webdata", vec![snap(2, "b", JAN1 + DAY), snap(3, "c", JAN1 + 2 * DAY), snap(4, "d", JAN1 + 3 * DAY), snap(5, "e", JAN1 + 4 * DAY)]);
    let (comm, idx) = zelda.comm(&tank);
    let sides: Vec<(Comm, &str)> = comm.iter().map(|(c, s)| (*c, s.name.as_str())).collect();
    assert_eq!(sides, vec![(Comm::LEFT, "a"), (Comm::BOTH, "b"), (Comm::RIGHT, "c"), (Comm::BOTH, "d"), (Comm::RIGHT, "e")]);
    assert_eq!(idx, Some(3));
    // |A| + |B| - |A ∩ B|
    assert_eq!(comm.len(), 3 + 4 - 2);
}

#[test]
fn comm_of_empty_sides() {
    let a = dataset_with("a", vec![]);
    let b = dataset_with("b", vec![snap(1, "x", JAN1)]);
    let (comm, idx) = a.comm(&b);
    assert_eq!(comm.len(), 1);
    assert_eq!(comm[0].0, Comm::RIGHT);
    assert_eq!(idx, None);
    let (comm, idx) = a.comm(&a);
    assert!(comm.is_empty());
    assert_eq!(idx, None);
}

#[test]
fn test_mrcud() {
    let tank = dataset_with("tank/webdata", vec![snap(1, "s1", JAN1), snap(2, "s2", JAN1 + DAY), snap(3, "s3", JAN1 + 2 * DAY)]);
    let other = dataset_with("zelda/webdata", vec![snap(10, "x", JAN1 + 5), snap(11, "y", JAN1 + DAY + 5)]);
    let behind = dataset_with("zelda/webdata", vec![snap(1, "s1", JAN1), snap(2, "s2", JAN1 + DAY)]);
    let diverged = dataset_with("zelda/webdata", vec![snap(1, "s1", JAN1), snap(2, "s2", JAN1 + DAY), snap(9, "s3b", JAN1 + 2 * DAY + 7)]);
    assert!(matches!(find_mrcud(&tank, &other), MRCUD::NoneInCommon));
    assert!(matches!(find_mrcud(&tank, &behind), MRCUD::SourceHasMore(s) if s.name == "s2"));
    assert!(matches!(find_mrcud(&tank, &diverged), MRCUD::Divergence(s) if s.name == "s2"));
}

#[test]
fn mrcud_up_to_date() {
    let a = dataset_with("a", vec![snap(1, "s1", JAN1), snap(2, "s2", JAN1 + DAY)]);
    let b = dataset_with("b", vec![snap(1, "s1", JAN1), snap(2, "s2", JAN1 + DAY)]);
    match find_mrcud(&a, &b) {
        MRCUD::UpToDate(s) => {
            assert_eq!(s.name, "s2");
            assert_eq!(s, a.newest_snap());
            assert_eq!(s, b.newest_snap());
        }
        other => panic!("unexpected {:?}", other),
    }
}

#[test]
fn mrcud_source_has_more() {
    let a = dataset_with("a", vec![snap(1, "s1", JAN1), snap(2, "s2", JAN1 + DAY), snap(3, "s3", JAN1 + 2 * DAY)]);
    let b = dataset_with("b", vec![snap(1, "s1", JAN1), snap(2, "s2", JAN1 + DAY)]);
    assert!(matches!(find_mrcud(&a, &b), MRCUD::SourceHasMore(s) if s.name == "s2"));
}

#[test]
fn mrcud_divergence() {
    let a = dataset_with("a", vec![snap(1, "s1", JAN1), snap(2, "s2a", JAN1 + DAY)]);
    let b = dataset_with("b", vec![snap(1, "s1", JAN1), snap(3, "s2b", JAN1 + DAY + 60)]);
    assert!(matches!(find_mrcud(&a, &b), MRCUD::Divergence(s) if s.name == "s1"));
}

#[test]
fn mrcud_destination_has_more() {
    let a = dataset_with("a", vec![snap(1, "s1", JAN1), snap(2, "s2", JAN1 + DAY)]);
    let b = dataset_with("b", vec![snap(1, "s1", JAN1), snap(2, "s2", JAN1 + DAY), snap(3, "s3", JAN1 + 2 * DAY)]);
    assert!(matches!(find_mrcud(&a, &b), MRCUD::DestinationHasMore(s) if s.name == "s2"));
}

#[test]
fn none_in_common_iff_no_both() {
    let a = dataset_with("a", vec![snap(1, "s1", JAN1)]);
    let b = dataset_with("b", vec![snap(2, "t1", JAN1 + 1)]);
    let (comm, _) = a.comm(&b);
    assert!(comm.iter().all(|(c, _)| *c != Comm::BOTH));
    assert!(matches!(find_mrcud(&a, &b), MRCUD::NoneInCommon));
}

#[test]
fn snap_eq() {
    let mut s1 = Snap::default();
    let mut s2 = Snap::default();
    s1.guid = 1234;
    s2.guid = 5678;
    assert_ne!(s1, s2);
    s2.guid = 1234;
    assert_eq!(s1, s2);
    s2.name = "different".to_string();
    assert_eq!(s1, s2);
}

#[test]
fn snap_order() {
    let a = snap(1, "a", 10);
    let b = snap(2, "b", 20);
    let c = snap(3, "c", 10);
    assert_eq!(a.partial_cmp(&b), Some(std::cmp::Ordering::Less));
    assert_eq!(b.partial_cmp(&a), Some(std::cmp::Ordering::Greater));
    assert_eq!(a.partial_cmp(&c), None);
    assert_eq!(a.partial_cmp(&snap(1, "z", 99)), Some(std::cmp::Ordering::Equal));
}

fn comparison_fixture() -> (Dataset, Dataset) {
    let a = dataset_with("a", vec![snap(1, "s1", JAN1), snap(2, "s2", JAN1 + DAY), snap(3, "s3", JAN1 + 2 * DAY), snap(4, "s4", JAN1 + 3 * DAY)]);
    let b = dataset_with("b", vec![snap(1, "s1", JAN1), snap(5, "t2", JAN1 + DAY + 60), snap(6, "t3", JAN1 + 2 * DAY + 60)]);
    (a, b)
}

#[test]
fn comm_display_plain() {
    let (a, b) = comparison_fixture();
    let (tagged, _) = a.comm(&b);
    let opts = CommOpts { collapse: false, collapse_keep_both_ends: false, order_asc: true };
    let lines = render_comm(&tagged, opts);
    let pad12 = " ".repeat(12);
    let pad24 = " ".repeat(24);
    assert_eq!(lines, vec![format!("{}s1", pad12), "s2".to_string(), format!("{}t2", pad24), "s3".to_string(), format!("{}t3", pad24), "s4".to_string()]);
}

#[test]
fn comm_display_collapsed() {
    let a = dataset_with("a", vec![snap(1, "s1", JAN1), snap(2, "s2", JAN1 + DAY), snap(3, "s3", JAN1 + 2 * DAY), snap(4, "s4", JAN1 + 3 * DAY)]);
    let b = dataset_with("b", vec![snap(1, "s1", JAN1), snap(2, "s2", JAN1 + DAY)]);
    let (tagged, _) = a.comm(&b);
    let pad12 = " ".repeat(12);
    let collapse = CommOpts { collapse: true, collapse_keep_both_ends: false, order_asc: true };
    assert_eq!(render_comm(&tagged, collapse), vec![format!("{}s1", pad12), format!("{}  (+1)", pad12), "s3".to_string(), "  (+1)".to_string()]);
    let ends = CommOpts { collapse: false, collapse_keep_both_ends: true, order_asc: false };
    assert_eq!(render_comm(&tagged, ends), vec!["s4".to_string(), "  (+0)".to_string(), "s3".to_string(), format!("{}s2", pad12), format!("{}  (+0)", pad12), format!("{}s1", pad12)]);
    let mut many = Vec::new();
    for i in 0..12u64 {
        many.push(snap(100 + i, &format!("n{}", i), JAN1 + i as i64));
    }
    let c = dataset_with("c", many);
    let e = dataset_with("e", vec![]);
    let (tagged, _) = c.comm(&e);
    assert_eq!(render_comm(&tagged, collapse), vec!["n0".to_string(), "  (+11)".to_string()]);
}
