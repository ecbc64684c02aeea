use projects_rs::procs::{Proc, ProcTable};

fn proc(name: &str, pid: u32) -> Proc {
    Proc { name: name.to_string(), pid, log_file: format!("/logs/{}.log", name) }
}

#[test]
fn insert_then_get() {
    let mut t = ProcTable::new();
    t.insert(proc("web", 10));
    t.insert(proc("db", 11));
    assert_eq!(t.len(), 2);
    assert_eq!(t.get(&"web".to_string()).map(|p| p.pid), Some(10));
    assert_eq!(t.get(&"db".to_string()).map(|p| p.pid), Some(11));
    assert!(t.get(&"cache".to_string()).is_none());
    assert!(t.contains(&"db".to_string()));
    assert!(!t.contains(&"cache".to_string()));
}

#[test]
fn insert_replaces_same_name_in_place() {
    let mut t = ProcTable::new();
    t.insert(proc("web", 10));
    t.insert(proc("db", 11));
    t.insert(proc("web", 12));
    assert_eq!(t.len(), 2);
    assert_eq!(t.at(0).pid, 12);
    assert_eq!(t.at(1).pid, 11);
}

#[test]
fn remove_returns_the_entry() {
    let mut t = ProcTable::new();
    t.insert(proc("web", 10));
    t.insert(proc("db", 11));
    let gone = t.remove(&"web".to_string());
    assert_eq!(gone.map(|p| p.pid), Some(10));
    assert_eq!(t.len(), 1);
    assert!(!t.contains(&"web".to_string()));
    assert!(t.remove(&"web".to_string()).is_none());
    assert_eq!(t.len(), 1);
}

#[test]
fn clean_procs_keeps_only_live_ones() {
    let mut t = ProcTable::new();
    t.insert(proc("a", 1));
    t.insert(proc("b", 2));
    t.insert(proc("c", 3));
    t.clean_procs(&vec![true, false, true]);
    assert_eq!(t.len(), 2);
    assert_eq!(t.at(0).name, "a");
    assert_eq!(t.at(1).name, "c");
    assert!(!t.contains(&"b".to_string()));
    t.clean_procs(&vec![false, false]);
    assert_eq!(t.len(), 0);
}

#[test]
fn find_gives_position() {
    let mut t = ProcTable::new();
    t.insert(proc("a", 1));
    t.insert(proc("b", 2));
    assert_eq!(t.find(&"b".to_string()), Some(1));
    assert_eq!(t.find(&"z".to_string()), None);
}
