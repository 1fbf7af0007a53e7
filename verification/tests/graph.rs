use claude_pilot::graph::{detect_cycle, DependencyMap};

fn map(entries: &[(&str, &[&str])]) -> DependencyMap {
    let mut m = DependencyMap::new();
    for (k, deps) in entries {
        m.insert(k.to_string(), deps.iter().map(|d| d.to_string()).collect());
    }
    m
}

#[test]
fn no_cycle() {
    let deps = map(&[("A", &["B", "C"]), ("B", &["D"]), ("C", &["D"]), ("D", &[])]);
    assert!(detect_cycle(&deps).is_none());
}

#[test]
fn simple_cycle() {
    let deps = map(&[("A", &["B"]), ("B", &["C"]), ("C", &["A"])]);
    let cycle = detect_cycle(&deps);
    assert!(cycle.is_some());
}

#[test]
fn self_cycle() {
    let deps = map(&[("A", &["A"])]);
    let cycle = detect_cycle(&deps);
    assert!(cycle.is_some());
}

#[test]
fn cycle_path_closes_on_repeated_name() {
    let deps = map(&[("A", &["B"]), ("B", &["C"]), ("C", &["B"])]);
    let cycle = detect_cycle(&deps).expect("cycle");
    assert!(cycle.len() >= 2);
    let last = cycle.last().unwrap();
    assert!(cycle[..cycle.len() - 1].contains(last));
}

#[test]
fn insert_replaces_earlier_entry() {
    let mut m = DependencyMap::new();
    m.insert("A".to_string(), vec!["A".to_string()]);
    m.insert("A".to_string(), vec![]);
    assert_eq!(m.len(), 1);
    assert!(detect_cycle(&m).is_none());
}

#[test]
fn dependency_on_unknown_name_is_no_cycle() {
    let deps = map(&[("A", &["Z"])]);
    assert!(detect_cycle(&deps).is_none());
}
