use panel::models::{EnvVar, Timestamp};
use panel::state_persistence::{ServiceState, StatePersistence};

fn state(id: &str, pid: u32) -> ServiceState {
    ServiceState {
        service_id: id.to_string(),
        pid,
        started_at: Timestamp { secs: 1_700_000_000, nanos: 0 },
        command: "run".to_string(),
        working_dir: "/srv".to_string(),
        environment: vec![EnvVar { key: "A".to_string(), value: "1".to_string() }],
    }
}

fn ids(p: &StatePersistence) -> Vec<(String, u32)> {
    p.load_state().iter().map(|s| (s.service_id.clone(), s.pid)).collect()
}

#[test]
fn new_store_is_empty() {
    let p = StatePersistence::new("panel/state.json".to_string());
    assert_eq!(p.state_file(), "panel/state.json");
    assert_eq!(p.load_state().len(), 0);
}

#[test]
fn save_replaces_all_records() {
    let mut p = StatePersistence::new("s.json".to_string());
    p.save_state(vec![state("a", 1), state("b", 2)]);
    assert_eq!(ids(&p), vec![("a".to_string(), 1), ("b".to_string(), 2)]);
    p.save_state(vec![state("c", 3)]);
    assert_eq!(ids(&p), vec![("c".to_string(), 3)]);
    assert_eq!(p.state_file(), "s.json");
}

#[test]
fn load_returns_records_whole() {
    let mut p = StatePersistence::new("s.json".to_string());
    p.save_state(vec![state("a", 1)]);
    let r = p.load_state();
    assert_eq!(r[0].command, "run");
    assert_eq!(r[0].working_dir, "/srv");
    assert_eq!(r[0].started_at, Timestamp { secs: 1_700_000_000, nanos: 0 });
    assert_eq!(r[0].environment.len(), 1);
    assert_eq!(r[0].environment[0].key, "A");
    assert_eq!(r[0].environment[0].value, "1");
}

#[test]
fn add_appends_a_new_service() {
    let mut p = StatePersistence::new("s.json".to_string());
    p.add_or_update_service(state("a", 1));
    p.add_or_update_service(state("b", 2));
    assert_eq!(ids(&p), vec![("a".to_string(), 1), ("b".to_string(), 2)]);
}

#[test]
fn update_moves_the_service_to_the_end() {
    let mut p = StatePersistence::new("s.json".to_string());
    p.save_state(vec![state("a", 1), state("b", 2), state("c", 3)]);
    p.add_or_update_service(state("a", 9));
    assert_eq!(
        ids(&p),
        vec![("b".to_string(), 2), ("c".to_string(), 3), ("a".to_string(), 9)]
    );
}

#[test]
fn update_drops_every_older_record_of_the_service() {
    let mut p = StatePersistence::new("s.json".to_string());
    p.save_state(vec![state("a", 1), state("b", 2), state("a", 3)]);
    p.add_or_update_service(state("a", 9));
    assert_eq!(ids(&p), vec![("b".to_string(), 2), ("a".to_string(), 9)]);
}

#[test]
fn remove_takes_out_the_service_and_keeps_the_order() {
    let mut p = StatePersistence::new("s.json".to_string());
    p.save_state(vec![state("a", 1), state("b", 2), state("c", 3), state("b", 4)]);
    p.remove_service("b");
    assert_eq!(ids(&p), vec![("a".to_string(), 1), ("c".to_string(), 3)]);
}

#[test]
fn remove_of_an_unknown_service_changes_nothing() {
    let mut p = StatePersistence::new("s.json".to_string());
    p.save_state(vec![state("a", 1)]);
    p.remove_service("zzz");
    assert_eq!(ids(&p), vec![("a".to_string(), 1)]);
    p.remove_service("a");
    p.remove_service("a");
    assert_eq!(ids(&p), Vec::<(String, u32)>::new());
}
