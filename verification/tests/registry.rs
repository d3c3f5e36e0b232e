use launchbox::child::{ProcState, SpawnError, Subprocess};
use launchbox::registry::Registry;

fn started(label: &str, command_line: &str, pid: u32) -> Subprocess {
    let mut h = Subprocess::new((&label.to_string(), command_line), "/srv".to_string()).unwrap();
    h.start(Ok(pid)).unwrap();
    h
}

fn with(handles: Vec<Subprocess>) -> Registry {
    let mut registry = Registry::new();
    for h in handles {
        assert!(registry.track(h).is_none());
    }
    registry
}

#[test]
fn a_new_registry_tracks_nothing() {
    let registry = Registry::new();
    assert_eq!(registry.len(), 0);
    assert!(!registry.is_running("editor"));
    assert!(registry.pids().is_empty());
}

#[test]
fn track_makes_a_label_running() {
    let mut registry = Registry::new();
    assert!(registry.track(started("editor", "vim", 10)).is_none());
    assert!(registry.is_running("editor"));
    assert!(!registry.is_running("game"));
    assert!(!registry.is_running("edit"));
    assert_eq!(registry.len(), 1);
    assert_eq!(registry.pids(), vec![10]);
}

#[test]
fn track_hands_back_a_handle_that_was_not_started() {
    let mut registry = Registry::new();
    let h = Subprocess::new((&"editor".to_string(), "vim"), "/srv".to_string()).unwrap();
    let back = registry.track(h).unwrap();
    assert_eq!(back.title(), "editor");
    assert_eq!(registry.len(), 0);
    assert!(!registry.is_running("editor"));
}

#[test]
fn track_hands_back_a_second_handle_for_a_label() {
    let mut registry = with(vec![started("editor", "vim", 10)]);
    let back = registry.track(started("editor", "emacs", 11)).unwrap();
    assert_eq!(back.pid(), Some(11));
    assert_eq!(back.program(), "emacs");
    assert_eq!(registry.len(), 1);
    assert_eq!(registry.pids(), vec![10]);
}

#[test]
fn launch_while_running_spawns_nothing() {
    let registry = with(vec![started("editor", "vim", 10)]);
    let r = registry.launch(&"editor".to_string(), "vim", "/srv".to_string());
    assert!(matches!(r, Ok(None)));
    assert_eq!(registry.len(), 1);
}

#[test]
fn launch_while_running_does_not_even_read_the_command_line() {
    let registry = with(vec![started("editor", "vim", 10)]);
    let r = registry.launch(&"editor".to_string(), "", "/srv".to_string());
    assert!(matches!(r, Ok(None)));
}

#[test]
fn launch_of_a_free_label_hands_out_the_handle_to_spawn() {
    let registry = with(vec![started("editor", "vim", 10)]);
    let h = registry.launch(&"game".to_string(), "nethack -u me", "/home/me".to_string())
        .unwrap()
        .unwrap();
    assert_eq!(h.title(), "game");
    assert_eq!(h.program(), "nethack");
    assert_eq!(h.args(), &vec!["-u".to_string(), "me".to_string()]);
    assert_eq!(h.cwd(), "/home/me");
    assert_eq!(h.pid(), None);
    assert_eq!(registry.len(), 1);
    assert!(!registry.is_running("game"));
}

#[test]
fn launch_refuses_an_empty_command_line() {
    let registry = Registry::new();
    let r = registry.launch(&"nothing".to_string(), "", "/srv".to_string());
    assert_eq!(r.err(), Some(SpawnError::InvalidCommand));
    assert_eq!(registry.len(), 0);
}

#[test]
fn a_launched_and_started_handle_is_running_once_tracked() {
    let mut registry = Registry::new();
    let mut h = registry.launch(&"game".to_string(), "nethack", "/srv".to_string())
        .unwrap()
        .unwrap();
    h.start(Ok(77)).unwrap();
    assert!(registry.track(h).is_none());
    assert!(registry.is_running("game"));
    assert!(matches!(
        registry.launch(&"game".to_string(), "nethack", "/srv".to_string()),
        Ok(None)
    ));
}

#[test]
fn kill_of_an_unknown_label_changes_nothing() {
    let mut registry = with(vec![started("editor", "vim", 10), started("game", "nethack", 11)]);
    assert_eq!(registry.kill("nonexistent-label"), None);
    assert_eq!(registry.len(), 2);
    assert_eq!(registry.pids(), vec![10, 11]);
    assert!(registry.is_running("editor"));
    assert!(registry.is_running("game"));
}

#[test]
fn kill_on_an_empty_registry_changes_nothing() {
    let mut registry = Registry::new();
    assert_eq!(registry.kill("nonexistent-label"), None);
    assert_eq!(registry.len(), 0);
}

#[test]
fn kill_removes_the_label_and_hands_out_its_identifier() {
    let mut registry = with(vec![
        started("editor", "vim", 10),
        started("game", "nethack", 11),
        started("mail", "mutt", 12),
    ]);
    assert_eq!(registry.kill("game"), Some(11));
    assert!(!registry.is_running("game"));
    assert!(registry.is_running("editor"));
    assert!(registry.is_running("mail"));
    assert_eq!(registry.pids(), vec![10, 12]);
    assert_eq!(registry.kill("game"), None);
    assert_eq!(registry.kill("editor"), Some(10));
    assert_eq!(registry.kill("mail"), Some(12));
    assert_eq!(registry.len(), 0);
}

#[test]
fn a_killed_label_can_be_tracked_again() {
    let mut registry = with(vec![started("editor", "vim", 10)]);
    assert_eq!(registry.kill("editor"), Some(10));
    assert!(registry.track(started("editor", "vim", 20)).is_none());
    assert_eq!(registry.pids(), vec![20]);
}

#[test]
fn reap_dead_removes_a_process_that_exited() {
    let mut registry = Registry::new();
    let mut editor = registry.launch(&"editor".to_string(), "vim", "/srv".to_string())
        .unwrap()
        .unwrap();
    editor.start(Ok(4242)).unwrap();
    assert!(registry.track(editor).is_none());
    assert!(registry.is_running("editor"));
    assert_eq!(registry.pids(), vec![4242]);
    let reaped = registry.reap_dead(&vec![None]);
    assert_eq!(reaped, vec![4242]);
    assert!(!registry.is_running("editor"));
    assert_eq!(registry.len(), 0);
}

#[test]
fn reap_dead_removes_zombie_stopped_and_dead() {
    let mut registry = with(vec![
        started("a", "a", 1),
        started("b", "b", 2),
        started("c", "c", 3),
        started("d", "d", 4),
        started("e", "e", 5),
    ]);
    let reaped = registry.reap_dead(&vec![
        Some(ProcState::Zombie),
        Some(ProcState::Sleeping),
        Some(ProcState::Stopped),
        Some(ProcState::Dead),
        Some(ProcState::TraceStopped),
    ]);
    assert_eq!(reaped, vec![1, 3, 4]);
    assert_eq!(registry.pids(), vec![2, 5]);
    assert!(registry.is_running("b"));
    assert!(registry.is_running("e"));
    assert!(!registry.is_running("a"));
    assert!(!registry.is_running("c"));
    assert!(!registry.is_running("d"));
}

#[test]
fn reap_dead_keeps_the_living() {
    let mut registry = with(vec![started("editor", "vim", 10), started("game", "nethack", 11)]);
    let reaped = registry.reap_dead(&vec![Some(ProcState::Running), Some(ProcState::Waiting)]);
    assert!(reaped.is_empty());
    assert_eq!(registry.pids(), vec![10, 11]);
}

#[test]
fn reap_dead_twice_is_reap_dead_once() {
    let mut registry = with(vec![
        started("editor", "vim", 10),
        started("game", "nethack", 11),
        started("mail", "mutt", 12),
    ]);
    let state = |pid: u32| if pid == 11 { None } else { Some(ProcState::Sleeping) };
    let seen: Vec<Option<ProcState>> = registry.pids().into_iter().map(state).collect();
    assert_eq!(registry.reap_dead(&seen), vec![11]);
    assert_eq!(registry.pids(), vec![10, 12]);
    let seen: Vec<Option<ProcState>> = registry.pids().into_iter().map(state).collect();
    assert!(registry.reap_dead(&seen).is_empty());
    assert_eq!(registry.pids(), vec![10, 12]);
    assert_eq!(registry.len(), 2);
}

#[test]
fn reap_dead_leaves_what_was_not_observed() {
    let mut registry = with(vec![started("editor", "vim", 10), started("game", "nethack", 11)]);
    assert!(registry.reap_dead(&vec![]).is_empty());
    assert_eq!(registry.pids(), vec![10, 11]);
    assert_eq!(registry.reap_dead(&vec![None]), vec![10]);
    assert_eq!(registry.pids(), vec![11]);
}

#[test]
fn reap_dead_ignores_observations_beyond_the_registry() {
    let mut registry = with(vec![started("editor", "vim", 10)]);
    let reaped = registry.reap_dead(&vec![Some(ProcState::Running), None, None]);
    assert!(reaped.is_empty());
    assert_eq!(registry.pids(), vec![10]);
}

#[test]
fn reap_dead_on_an_empty_registry_does_nothing() {
    let mut registry = Registry::new();
    assert!(registry.reap_dead(&vec![None, Some(ProcState::Dead)]).is_empty());
    assert_eq!(registry.len(), 0);
}

#[test]
fn get_finds_the_handle_of_a_label() {
    let registry = with(vec![started("editor", "vim notes.txt", 10), started("game", "nethack", 11)]);
    let h = registry.get("game").unwrap();
    assert_eq!(h.title(), "game");
    assert_eq!(h.program(), "nethack");
    assert_eq!(h.pid(), Some(11));
    let h = registry.get("editor").unwrap();
    assert_eq!(h.pid(), Some(10));
    assert_eq!(h.args(), &vec!["notes.txt".to_string()]);
    assert!(registry.get("mail").is_none());
    assert!(registry.get("").is_none());
}

#[test]
fn pids_come_in_the_order_of_tracking() {
    let registry = with(vec![
        started("z", "z", 30),
        started("a", "a", 10),
        started("m", "m", 20),
    ]);
    assert_eq!(registry.pids(), vec![30, 10, 20]);
}
