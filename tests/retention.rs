use zfs_rs::dataset::Dataset;
use zfs_rs::retention::{keep_verdict, render_tagged_snaps_for_deletion, basic_snap_retention_criteria, RetentionOpts};
use zfs_rs::snap::Snap;

const WHEN: i64 = 1638957718; // 2021-12-08T10:01:58Z
const DAY: i64 = 86400;
const JUN6: i64 = 1622937600; // a Sunday
const DEC5: i64 = 1638662400; // a Sunday

fn snap(guid: u64, name: &str, creation: i64, holds: u32) -> Snap {
    Snap { guid, name: name.to_string(), creation, holds }
}

fn sample() -> Dataset {
    let mut ds = Dataset::from_str("zelda/webdata").unwrap();
    ds.snaps = vec![
        snap(1, "2021-06-06", JUN6, 0),
        snap(2, "2021-06-07", JUN6 + DAY, 0),
        snap(3, "2021-06-08", JUN6 + 2 * DAY, 1),
        snap(4, "2021-06-09", JUN6 + 3 * DAY, 0),
        snap(5, "weird-name", JUN6 + 4 * DAY, 0),
        snap(6, "2021-12-05", DEC5, 0),
        snap(7, "2021-12-06", DEC5 + DAY, 0),
        snap(8, "2021-12-07", DEC5 + 2 * DAY, 0),
    ];
    ds
}

fn criteria(s: &Snap) -> bool {
    basic_snap_retention_criteria(s, WHEN, true)
}

#[test]
fn test_tag_snaps_for_deletion() {
    let ds = sample();
    let tagged = ds.tag_snaps_for_deletion(criteria);
    let verdicts: Vec<(bool, &str)> = tagged.iter().map(|(k, s)| (*k, s.name.as_str())).collect();
    assert_eq!(
        verdicts,
        vec![
            (false, "2021-06-06"),
            (false, "2021-06-07"),
            (true, "2021-06-08"),
            (false, "2021-06-09"),
            (true, "weird-name"),
            (true, "2021-12-05"),
            (false, "2021-12-06"),
            (false, "2021-12-07"),
        ]
    );
}

#[test]
fn test_render_tagged_snaps_for_deletion() {
    let ds = sample();
    let tagged = ds.tag_snaps_for_deletion(criteria);
    let res = render_tagged_snaps_for_deletion(tagged);
    assert_eq!(res, "2021-06-06%2021-06-07,\\\n2021-06-09,\\\n2021-12-06%2021-12-07");
}

#[test]
fn rendered_groups_decode_to_deleted_names() {
    let ds = sample();
    let tagged = ds.tag_snaps_for_deletion(criteria);
    let names: Vec<&str> = ds.snaps.iter().map(|s| s.name.as_str()).collect();
    let deleted: Vec<&str> = tagged.iter().filter(|(k, _)| !*k).map(|(_, s)| s.name.as_str()).collect();
    let res = render_tagged_snaps_for_deletion(tagged);
    let mut decoded: Vec<&str> = Vec::new();
    for part in res.split(",\\\n") {
        match part.split_once('%') {
            Some((a, b)) => {
                let i = names.iter().position(|n| *n == a).unwrap();
                let j = names.iter().position(|n| *n == b).unwrap();
                decoded.extend(&names[i..=j]);
            }
            None => decoded.push(part),
        }
    }
    assert_eq!(decoded, deleted);
}

#[test]
fn render_edges() {
    assert_eq!(render_tagged_snaps_for_deletion(Vec::new()), "");
    let s = snap(1, "only", 0, 0);
    assert_eq!(render_tagged_snaps_for_deletion(vec![(false, &s)]), "only");
    assert_eq!(render_tagged_snaps_for_deletion(vec![(true, &s)]), "");
}

#[test]
fn keep_verdicts() {
    let sunday_recent = snap(1, "2021-12-05", DEC5, 0);
    assert!(keep_verdict(&sunday_recent, WHEN, false, true));
    let sunday_old = snap(2, "2021-06-06", JUN6, 0);
    assert!(!keep_verdict(&sunday_old, WHEN, false, true));
    let held = snap(3, "2021-06-07", JUN6 + DAY, 2);
    assert!(keep_verdict(&held, WHEN, false, true));
    let unusual = snap(4, "odd", JUN6 + DAY, 0);
    assert!(keep_verdict(&unusual, WHEN, true, false));
    assert!(!keep_verdict(&unusual, WHEN, false, false));
    assert!(!basic_snap_retention_criteria(&snap(5, "2021-12-06", DEC5 + DAY, 0), WHEN, true));
    assert!(basic_snap_retention_criteria(&snap(6, "manual", DEC5 + DAY, 0), WHEN, true));
    let opts = RetentionOpts { keep_unusual: true, run_directly: false };
    assert!(opts.keep_unusual && !opts.run_directly);
}
