use tarpaulin::traces::{merge_all, CoverageStat, Trace, TraceMap};

fn trace(file: &str, line: u64, address: Option<u64>, hits: u64) -> Trace {
    let mut t = Trace::new(file.to_string(), line, address, None);
    t.stats = CoverageStat::Line(hits);
    t
}

fn map(traces: Vec<Trace>) -> TraceMap {
    let mut m = TraceMap::new();
    for t in traces {
        m.add_trace(t);
    }
    m
}

fn hits_of(m: &TraceMap, file: &str, line: u64, address: Option<u64>) -> u64 {
    let mut sum = 0;
    for i in 0..m.total_coverable() {
        let t = m.get(i);
        if t.file == file && t.line == line && t.address == address {
            sum += t.hit_count();
        }
    }
    sum
}

#[test]
fn unmapped_trace_is_added_without_hits() {
    let m = map(vec![trace("f.rs", 3, None, 7)]);
    assert_eq!(m.get(0).hit_count(), 0);
    assert_eq!(m.get(0).address, None);
}

#[test]
fn mapped_trace_keeps_its_hits() {
    let m = map(vec![trace("f.rs", 3, Some(0x10), 7)]);
    assert_eq!(m.get(0).hit_count(), 7);
}

#[test]
fn dedup_collapses_equal_keys_and_sums() {
    let mut m = map(vec![
        trace("f.rs", 10, Some(0x1000), 1),
        trace("f.rs", 10, Some(0x1000), 2),
        trace("f.rs", 10, Some(0x1004), 5),
        trace("g.rs", 10, Some(0x1000), 3),
    ]);
    m.dedup();
    assert_eq!(m.total_coverable(), 3);
    assert_eq!(hits_of(&m, "f.rs", 10, Some(0x1000)), 3);
    assert_eq!(hits_of(&m, "f.rs", 10, Some(0x1004)), 5);
    assert_eq!(hits_of(&m, "g.rs", 10, Some(0x1000)), 3);
    for i in 0..m.total_coverable() {
        for j in 0..m.total_coverable() {
            if i != j {
                assert!(!m.get(i).same_key(m.get(j)));
            }
        }
    }
}

#[test]
fn dedup_of_empty_map_is_empty() {
    let mut m = TraceMap::new();
    m.dedup();
    assert_eq!(m.total_coverable(), 0);
}

#[test]
fn merge_sums_hits_per_key() {
    let mut a = map(vec![trace("f.rs", 1, Some(0x10), 2), trace("f.rs", 2, Some(0x20), 1)]);
    let b = map(vec![trace("f.rs", 1, Some(0x10), 3), trace("h.rs", 9, None, 0)]);
    a.merge(&b);
    assert_eq!(a.total_coverable(), 3);
    assert_eq!(hits_of(&a, "f.rs", 1, Some(0x10)), 5);
    assert_eq!(hits_of(&a, "f.rs", 2, Some(0x20)), 1);
    assert_eq!(hits_of(&a, "h.rs", 9, None), 0);
}

#[test]
fn merge_is_commutative_on_hits() {
    let mk_a = || map(vec![trace("f.rs", 1, Some(0x10), 2), trace("f.rs", 2, Some(0x20), 4)]);
    let mk_b = || map(vec![trace("f.rs", 1, Some(0x10), 3), trace("g.rs", 2, Some(0x30), 1)]);
    let mut ab = mk_a();
    ab.merge(&mk_b());
    let mut ba = mk_b();
    ba.merge(&mk_a());
    for (f, l, a) in [("f.rs", 1, Some(0x10)), ("f.rs", 2, Some(0x20)), ("g.rs", 2, Some(0x30))] {
        assert_eq!(hits_of(&ab, f, l, a), hits_of(&ba, f, l, a));
    }
    assert_eq!(hits_of(&ab, "f.rs", 1, Some(0x10)), 5);
}

#[test]
fn merge_is_associative_on_hits() {
    let mk_a = || map(vec![trace("f.rs", 1, Some(0x10), 2)]);
    let mk_b = || map(vec![trace("f.rs", 1, Some(0x10), 3), trace("f.rs", 2, Some(0x20), 1)]);
    let mk_c = || map(vec![trace("f.rs", 2, Some(0x20), 6)]);
    let mut ab_c = mk_a();
    ab_c.merge(&mk_b());
    ab_c.merge(&mk_c());
    let mut bc = mk_b();
    bc.merge(&mk_c());
    let mut a_bc = mk_a();
    a_bc.merge(&bc);
    assert_eq!(hits_of(&ab_c, "f.rs", 1, Some(0x10)), 5);
    assert_eq!(hits_of(&a_bc, "f.rs", 1, Some(0x10)), 5);
    assert_eq!(hits_of(&ab_c, "f.rs", 2, Some(0x20)), 7);
    assert_eq!(hits_of(&a_bc, "f.rs", 2, Some(0x20)), 7);
}

#[test]
fn merge_checked_refuses_overflow() {
    let mut a = map(vec![trace("f.rs", 1, Some(0x10), u64::MAX)]);
    let b = map(vec![trace("f.rs", 1, Some(0x10), 1)]);
    assert!(!a.merge_checked(&b));
    assert_eq!(a.get(0).hit_count(), u64::MAX);
    let mut c = map(vec![trace("f.rs", 1, Some(0x10), 4)]);
    assert!(c.merge_checked(&b));
    assert_eq!(c.get(0).hit_count(), 5);
}

#[test]
fn total_hits_sums_or_reports_overflow() {
    let m = map(vec![trace("f.rs", 1, Some(0x10), 4), trace("f.rs", 2, Some(0x20), 6)]);
    assert_eq!(m.total_hits(), Some(10));
    let big = map(vec![trace("f.rs", 1, Some(0x10), u64::MAX), trace("f.rs", 2, Some(0x20), 1)]);
    assert_eq!(big.total_hits(), None);
}

#[test]
fn increment_hits_counts_first_trace_at_address() {
    let mut m = map(vec![
        trace("f.rs", 1, Some(0x10), 0),
        trace("f.rs", 2, Some(0x20), 0),
        trace("g.rs", 5, Some(0x20), 0),
    ]);
    assert_eq!(m.increment_hits(0x20), Some(1));
    assert_eq!(m.get(1).hit_count(), 1);
    assert_eq!(m.get(2).hit_count(), 0);
    assert_eq!(m.increment_hits(0x99), None);
    assert_eq!(m.first_hits(0x20), Some(1));
    assert_eq!(m.first_hits(0x99), None);
}

#[test]
fn increment_hits_saturates() {
    let mut m = map(vec![trace("f.rs", 1, Some(0x10), u64::MAX)]);
    assert_eq!(m.increment_hits(0x10), Some(0));
    assert_eq!(m.get(0).hit_count(), u64::MAX);
}

#[test]
fn files_lists_each_file_once() {
    let m = map(vec![
        trace("a.rs", 1, Some(1), 0),
        trace("b.rs", 1, Some(2), 0),
        trace("a.rs", 2, Some(3), 0),
    ]);
    assert_eq!(m.files(), vec!["a.rs".to_string(), "b.rs".to_string()]);
}

#[test]
fn child_traces_come_in_line_order() {
    let m = map(vec![
        trace("a.rs", 9, Some(1), 0),
        trace("b.rs", 1, Some(2), 0),
        trace("a.rs", 2, Some(3), 0),
        trace("a.rs", 5, Some(4), 0),
        trace("a.rs", 2, Some(5), 0),
    ]);
    assert_eq!(m.get_child_traces(&"a.rs".to_string()), vec![2, 4, 3, 0]);
    assert_eq!(m.get_child_traces(&"c.rs".to_string()), Vec::<usize>::new());
}

#[test]
fn merge_all_sums_runs_and_dedups() {
    let runs = vec![
        map(vec![trace("f.rs", 1, Some(0x10), 2), trace("f.rs", 1, Some(0x10), 1)]),
        map(vec![trace("f.rs", 1, Some(0x10), 3), trace("g.rs", 4, Some(0x40), 1)]),
        TraceMap::new(),
    ];
    let m = merge_all(&runs).unwrap();
    assert_eq!(m.total_coverable(), 2);
    assert_eq!(hits_of(&m, "f.rs", 1, Some(0x10)), 6);
    assert_eq!(hits_of(&m, "g.rs", 4, Some(0x40)), 1);
}

#[test]
fn merge_all_of_no_runs_is_empty() {
    assert_eq!(merge_all(&Vec::new()).unwrap().total_coverable(), 0);
}

#[test]
fn merge_all_reports_overflow() {
    let runs = vec![
        map(vec![trace("f.rs", 1, Some(0x10), u64::MAX)]),
        map(vec![trace("f.rs", 1, Some(0x10), 1)]),
    ];
    assert!(merge_all(&runs).is_none());
}
