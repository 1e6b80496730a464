use resumable_dl::range::Range;
use resumable_dl::task::{get_partial_dirname, partial_path, PlanError, Task, TaskConfig};
use url::Url;

fn source() -> Url {
    Url::parse("http://example.com/files/data.bin").unwrap()
}

fn config(procs: u64, content_length: u64) -> TaskConfig {
    TaskConfig::new(procs, content_length, source(), "data.bin".to_string()).unwrap()
}

fn bounds(t: &Task) -> (u64, u64, u64) {
    (t.id, t.range.low, t.range.high)
}

#[test]
fn three_segments_of_a_thousand_bytes() {
    let c = config(3, 1000);
    assert_eq!(c.task_size, 333);
    let tasks = c.assign_tasks(&vec![None, None, None]);
    let got: Vec<(u64, u64, u64)> = tasks.iter().map(bounds).collect();
    assert_eq!(got, vec![(0, 0, 332), (1, 333, 665), (2, 666, 1000)]);
    for t in &tasks {
        assert_eq!(t.procs, 3);
        assert_eq!(t.file_name, "data.bin");
        assert_eq!(t.url, source());
    }
}

#[test]
fn range_from_each_index() {
    let r0 = Range::from(0, 3, 333, 1000);
    let r1 = Range::from(1, 3, 333, 1000);
    let r2 = Range::from(2, 3, 333, 1000);
    assert_eq!((r0.low, r0.high), (0, 332));
    assert_eq!((r1.low, r1.high), (333, 665));
    assert_eq!((r2.low, r2.high), (666, 1000));
}

#[test]
fn range_from_is_deterministic() {
    assert_eq!(Range::from(4, 7, 13, 95), Range::from(4, 7, 13, 95));
    assert_eq!(Range::from(6, 7, 13, 95), Range { low: 78, high: 95 });
}

#[test]
fn ranges_cover_without_gap_or_overlap() {
    for (procs, len) in [(1u64, 1u64), (4, 10), (3, 1000), (7, 7), (5, 123456)] {
        let c = config(procs, len);
        let tasks = c.assign_tasks(&vec![None; procs as usize]);
        assert_eq!(tasks.len() as u64, procs);
        assert_eq!(tasks[0].range.low, 0);
        assert_eq!(tasks[tasks.len() - 1].range.high, len);
        for w in tasks.windows(2) {
            assert!(w[0].id < w[1].id);
            assert_eq!(w[0].range.high + 1, w[1].range.low);
        }
    }
}

#[test]
fn resumed_segment_starts_after_bytes_on_disk() {
    let c = config(3, 1000);
    let tasks = c.assign_tasks(&vec![None, Some(100), None]);
    let got: Vec<(u64, u64, u64)> = tasks.iter().map(bounds).collect();
    assert_eq!(got, vec![(0, 0, 332), (1, 433, 665), (2, 666, 1000)]);
}

#[test]
fn resumed_last_segment() {
    let c = config(3, 1000);
    let tasks = c.assign_tasks(&vec![None, None, Some(333)]);
    let got: Vec<(u64, u64, u64)> = tasks.iter().map(bounds).collect();
    assert_eq!(got, vec![(0, 0, 332), (1, 333, 665), (2, 999, 1000)]);
}

#[test]
fn complete_segments_get_no_task() {
    let c = config(3, 1000);
    let tasks = c.assign_tasks(&vec![Some(333), None, Some(334)]);
    let got: Vec<(u64, u64, u64)> = tasks.iter().map(bounds).collect();
    assert_eq!(got, vec![(1, 333, 665)]);
}

#[test]
fn all_segments_complete() {
    let c = config(3, 1000);
    let lengths = vec![Some(333), Some(333), Some(334)];
    assert!(c.assign_tasks(&lengths).is_empty());
    assert!(c.all_complete(&lengths));
    assert_eq!(
        c.partial_paths(),
        vec!["data.bin.3.0", "data.bin.3.1", "data.bin.3.2"]
    );
}

#[test]
fn incomplete_parts_are_not_ready() {
    let c = config(3, 1000);
    assert!(!c.all_complete(&vec![Some(333), Some(332), Some(334)]));
    assert!(!c.all_complete(&vec![Some(333), None, Some(334)]));
    assert!(!c.all_complete(&vec![Some(333), Some(333)]));
    assert!(!c.all_complete(&vec![Some(333), Some(333), Some(333)]));
}

#[test]
fn single_segment_plan() {
    let c = config(1, 50);
    let got: Vec<(u64, u64, u64)> = c.assign_tasks(&vec![None]).iter().map(bounds).collect();
    assert_eq!(got, vec![(0, 0, 50)]);
    assert!(c.assign_tasks(&vec![Some(50)]).is_empty());
}

#[test]
fn plan_errors() {
    let e = |p: u64, n: u64| TaskConfig::new(p, n, source(), "x".to_string()).err();
    assert_eq!(e(0, 10), Some(PlanError::NoSegments));
    assert_eq!(e(2, 0), Some(PlanError::EmptyContent));
    assert_eq!(e(5, 4), Some(PlanError::TooManySegments));
    assert_eq!(e(4, 4), None);
}

#[test]
fn joined_parts_give_back_the_content() {
    let content: Vec<u8> = (0..1000u32).map(|i| (i * 7 % 251) as u8).collect();
    let c = config(3, 1000);
    let tasks = c.assign_tasks(&vec![None, None, None]);
    let mut out: Vec<u8> = Vec::new();
    for t in &tasks {
        let end = std::cmp::min(t.range.high + 1, content.len() as u64);
        out.extend_from_slice(&content[t.range.low as usize..end as usize]);
    }
    assert_eq!(out, content);
}

#[test]
fn header_and_width() {
    let r = Range { low: 433, high: 665 };
    assert_eq!(r.bytes_range(), "bytes=433-665");
    assert_eq!(r.abs(), 232);
    assert_eq!(Range::default().bytes_range(), "bytes=0-0");
    let big = Range { low: 9, high: u64::MAX };
    assert_eq!(big.bytes_range(), "bytes=9-18446744073709551615");
}

#[test]
fn partial_file_names() {
    let c = config(12, 1000);
    let tasks = c.assign_tasks(&vec![None; 12]);
    assert_eq!(tasks[10].dest_path(), "data.bin.12.10");
    assert_eq!(partial_path("a", 2, 0), "a.2.0");
}

#[test]
fn partial_dirnames() {
    assert_eq!(get_partial_dirname(String::new(), "f.iso".to_string(), 2), "_.2");
    assert_eq!(get_partial_dirname("/".to_string(), "f.iso".to_string(), 3), "_/.3");
    let joined = get_partial_dirname("dl".to_string(), "f.iso".to_string(), 4);
    let expected = std::path::Path::new("dl").join("_f.iso.4").display().to_string();
    assert_eq!(joined, expected);
    assert!(joined.starts_with("dl") && joined.ends_with("_f.iso.4") && joined.len() > 10);
}
