use zfs_rs::progress::{BarUpdate, LineEffect, ProgressRenderer};

struct Bars {
    items: u64,
    total: u64,
    current_len: u64,
    current_pos: u64,
}

fn run(stream: &str) -> (Vec<LineEffect>, Bars) {
    let mut r = ProgressRenderer::new();
    let mut bars = Bars { items: 0, total: 0, current_len: 0, current_pos: 0 };
    let mut effects = Vec::new();
    for line in stream.lines() {
        let e = r.feed_line(line);
        match &e {
            LineEffect::Started { current_length, .. } => bars.current_len = *current_length,
            LineEffect::Advance(u) => {
                bars.items += u.items_advanced;
                bars.total += u.total_advanced;
                bars.current_len = u.current_length;
                bars.current_pos = u.current_position;
            }
            _ => {}
        }
        effects.push(e);
    }
    (effects, bars)
}

#[test]
fn progress_single_full_send() {
    let (effects, bars) = run("full\ttank/old@t\t100\nsize\t100\n00:00:01\t25\ttank/old@t\n00:00:02\t100\ttank/old@t\n");
    assert_eq!(effects[0], LineEffect::Header);
    assert_eq!(effects[1], LineEffect::Started { items: 1, total: 100, current_length: 100 });
    assert_eq!(
        effects[2],
        LineEffect::Advance(BarUpdate { items_advanced: 0, total_advanced: 25, current_length: 100, current_position: 25 })
    );
    assert_eq!(
        effects[3],
        LineEffect::Advance(BarUpdate { items_advanced: 0, total_advanced: 75, current_length: 100, current_position: 100 })
    );
    assert_eq!(bars.total, 100);
    assert_eq!(bars.current_pos, 100);
}

#[test]
fn progress_skips_unreported_items() {
    let stream = "incremental\ta@1\ttank/x@2\t10\nincremental\ttank/x@2\ttank/x@3\t20\nincremental\ttank/x@3\ttank/x@4\t30\nsize\t60\n00:00:01\t4\ttank/x@2\n00:00:02\t5\ttank/x@4\n";
    let (effects, bars) = run(stream);
    assert_eq!(effects[3], LineEffect::Started { items: 3, total: 60, current_length: 10 });
    assert_eq!(
        effects[5],
        LineEffect::Advance(BarUpdate { items_advanced: 2, total_advanced: 6 + 20 + 5, current_length: 30, current_position: 5 })
    );
    assert_eq!(bars.items, 2);
    assert_eq!(bars.total, 35);
}

#[test]
fn progress_malformed_lines() {
    let mut r = ProgressRenderer::new();
    assert_eq!(r.feed_line("size\t10"), LineEffect::Malformed);
    assert_eq!(r.feed_line("bogus\tline"), LineEffect::Malformed);
    assert_eq!(r.feed_line("full\tt@a\t10"), LineEffect::Header);
    assert_eq!(r.feed_line("size\t10"), LineEffect::Started { items: 1, total: 10, current_length: 10 });
    assert_eq!(r.feed_line("00:00:01\t3\tt@zzz"), LineEffect::Malformed);
    assert_eq!(r.feed_line("00:00:01\tx\tt@a"), LineEffect::Malformed);
    let (effects, _) = run("");
    assert!(effects.is_empty());
}
