use hl_bootstrap::prune::{should_prune, tally, DirEntryInfo, EntryKind, PruneWalk};

const HOUR_NS: u64 = 3_600_000_000_000;
const MINUTE_NS: u64 = 60_000_000_000;

fn file(name: &str, age_ns: u64) -> DirEntryInfo {
    DirEntryInfo { name: name.to_string(), kind: EntryKind::File, age_ns: Some(age_ns) }
}

fn dir(name: &str) -> DirEntryInfo {
    DirEntryInfo { name: name.to_string(), kind: EntryKind::Directory, age_ns: Some(0) }
}

fn path(parts: &[&str]) -> Vec<String> {
    parts.iter().map(|p| p.to_string()).collect()
}

/// Runs a walk over an in-memory tree: `listing` gives the entries of a
/// directory by its path.
fn walk(cutoff_ns: u64, listing: &dyn Fn(&Vec<String>) -> Vec<DirEntryInfo>) -> (Vec<Vec<String>>, Vec<Vec<String>>) {
    let mut w = PruneWalk::new(cutoff_ns);
    let mut visited = Vec::new();
    while let Some(d) = w.next_directory() {
        let entries = listing(&d);
        w.visit(&d, &entries);
        visited.push(d);
    }
    (w.marked, visited)
}

#[test]
fn test_prune_removes_old_files() {
    let (marked, _) = walk(HOUR_NS, &|d| {
        if d.is_empty() {
            vec![dir("subdir")]
        } else {
            vec![file("old_file.txt", 2 * HOUR_NS), file("new_file.txt", 30 * MINUTE_NS)]
        }
    });
    assert_eq!(marked, vec![path(&["subdir", "old_file.txt"])]);
}

#[test]
fn test_prune_skips_base_directory_files() {
    let (marked, _) = walk(HOUR_NS, &|d| if d.is_empty() { vec![file("base_file.txt", 2 * HOUR_NS)] } else { vec![] });
    assert!(marked.is_empty());
}

#[test]
fn test_prune_skips_visor_child_stderr() {
    let (marked, _) = walk(HOUR_NS, &|d| {
        if d.is_empty() {
            vec![dir("subdir")]
        } else {
            vec![file("visor_child_stderr", 2 * HOUR_NS)]
        }
    });
    assert!(marked.is_empty());
}

#[test]
fn test_prune_handles_nested_directories() {
    let (marked, visited) = walk(HOUR_NS, &|d| match d.len() {
        0 => vec![dir("level1")],
        1 => vec![dir("level2")],
        2 => vec![dir("level3")],
        _ => vec![file("old_file.txt", 2 * HOUR_NS), file("new_file.txt", 30 * MINUTE_NS)],
    });
    assert_eq!(marked, vec![path(&["level1", "level2", "level3", "old_file.txt"])]);
    assert_eq!(visited.len(), 4);
}

#[test]
fn test_prune_handles_missing_directory_gracefully() {
    // A directory that cannot be listed is visited with no entries.
    let (marked, visited) = walk(HOUR_NS, &|_| vec![]);
    assert!(marked.is_empty());
    assert_eq!(visited, vec![Vec::<String>::new()]);
}

#[test]
fn test_prune_removes_multiple_old_files() {
    let (marked, _) = walk(HOUR_NS, &|d| {
        if d.is_empty() {
            vec![dir("subdir1"), dir("subdir2")]
        } else if d[0] == "subdir1" {
            vec![file("file1.txt", 2 * HOUR_NS), file("file2.txt", 2 * HOUR_NS), file("file_new.txt", 30 * MINUTE_NS)]
        } else {
            vec![file("file3.txt", 2 * HOUR_NS)]
        }
    });
    assert_eq!(
        marked,
        vec![path(&["subdir1", "file1.txt"]), path(&["subdir1", "file2.txt"]), path(&["subdir2", "file3.txt"])]
    );
}

#[test]
fn prune_cycle_scenario_with_protected_and_root_files() {
    let (marked, _) = walk(HOUR_NS, &|d| {
        if d.is_empty() {
            vec![file("root_old.log", 2 * HOUR_NS), dir("sub")]
        } else {
            vec![file("recent.log", 30 * MINUTE_NS), file("stale.log", 2 * HOUR_NS), file("visor_child_stderr", 2 * HOUR_NS)]
        }
    });
    assert_eq!(marked, vec![path(&["sub", "stale.log"])]);
}

#[test]
fn walk_is_depth_first_in_listing_order() {
    let (_, visited) = walk(HOUR_NS, &|d| match d.len() {
        0 => vec![dir("a"), dir("b")],
        1 if d[0] == "a" => vec![dir("c")],
        _ => vec![],
    });
    assert_eq!(visited, vec![path(&[]), path(&["a"]), path(&["a", "c"]), path(&["b"])]);
}

#[test]
fn prune_rule_edges() {
    let other = DirEntryInfo { name: "x".to_string(), kind: EntryKind::Other, age_ns: Some(2 * HOUR_NS) };
    assert!(!should_prune(1, &other, HOUR_NS));
    assert!(!should_prune(1, &file("x", HOUR_NS), HOUR_NS));
    assert!(should_prune(1, &file("x", HOUR_NS + 1), HOUR_NS));
    let unknown_age = DirEntryInfo { name: "x".to_string(), kind: EntryKind::File, age_ns: None };
    assert!(!should_prune(3, &unknown_age, HOUR_NS));
}

#[test]
fn tally_counts_each_outcome() {
    let s = tally(&vec![true, false, true, true]);
    assert_eq!((s.removed, s.failed), (3, 1));
    let s = tally(&vec![]);
    assert_eq!((s.removed, s.failed), (0, 0));
}
