use stream_archive::process_tree::{belongs_to_snapshot, filetime_ticks, process_tree_pids};

fn sorted(mut v: Vec<u32>) -> Vec<u32> {
    v.sort();
    v
}

#[test]
fn tree_holds_root_and_all_descendants_once() {
    // (pid, parent)
    let entries = [(10, 1), (11, 10), (12, 11), (13, 10), (20, 1), (21, 20)];
    assert_eq!(sorted(process_tree_pids(&entries, 10)), vec![10, 11, 12, 13]);
    assert_eq!(sorted(process_tree_pids(&entries, 20)), vec![20, 21]);
    assert_eq!(sorted(process_tree_pids(&entries, 12)), vec![12]);
}

#[test]
fn exited_root_still_owns_its_children() {
    let entries = [(11, 10), (12, 11), (30, 1)];
    assert_eq!(sorted(process_tree_pids(&entries, 10)), vec![11, 12]);
    assert!(process_tree_pids(&entries, 99).is_empty());
}

#[test]
fn cycles_from_reused_ids_end() {
    let entries = [(5, 6), (6, 5), (7, 7)];
    assert_eq!(sorted(process_tree_pids(&entries, 5)), vec![5, 6]);
    assert_eq!(process_tree_pids(&entries, 7), vec![7]);
}

#[test]
fn snapshot_cutoff_rejects_newer_identity() {
    assert!(belongs_to_snapshot(100, 100));
    assert!(!belongs_to_snapshot(101, 100));
}

#[test]
fn filetime_counts_ticks_since_1601() {
    assert_eq!(filetime_ticks(0, 0), Some(116_444_736_000_000_000));
    assert_eq!(filetime_ticks(1, 250), Some(116_444_736_010_000_002));
    assert_eq!(filetime_ticks(u64::MAX, 0), None);
    assert_eq!(filetime_ticks(u64::MAX / 10_000_000, 0), None);
}
