//! Tests of matching, dispatch planning, the engine state machine and
//! debounce coalescing.

use prown::engine::{
    coalesce_paths, dispatch_kind, step, EngineAction, EngineEvent, EngineState, EventKind,
};
use prown::parser::{parse_prown, RawSection, RawValue};
use prown::prown::Module;

fn doc(sections: Vec<(&str, RawSection)>) -> Vec<(String, RawSection)> {
    sections.into_iter().map(|(n, s)| (n.to_string(), s)).collect()
}

fn table(entries: Vec<(&str, RawValue)>) -> RawSection {
    RawSection::Table(entries.into_iter().map(|(k, v)| (k.to_string(), v)).collect())
}

fn s(text: &str) -> RawValue {
    RawValue::Str(text.to_string())
}

fn strings(items: Vec<&str>) -> Vec<String> {
    items.into_iter().map(|i| i.to_string()).collect()
}

#[test]
fn module_matches_iff_some_pattern_matches() {
    let mut m = Module::new("src");
    m.change(strings(vec!["*.go", "*.rs"])).unwrap();
    assert!(m.match_change("src/main.go"));
    assert!(m.match_change("lib.rs"));
    assert!(!m.match_change("docs/readme.md"));

    let mut reversed = Module::new("src");
    reversed.change(strings(vec!["*.rs", "*.go"])).unwrap();
    assert_eq!(
        m.match_change("src/main.go"),
        reversed.match_change("src/main.go")
    );
    assert_eq!(
        m.match_change("docs/readme.md"),
        reversed.match_change("docs/readme.md")
    );
}

#[test]
fn module_without_patterns_never_matches() {
    let m = Module::new("idle");
    assert!(!m.match_change("anything/at/all"));
}

#[test]
fn malformed_glob_fails_module_construction() {
    let mut m = Module::new("src");
    let before_is_empty = !m.match_change("x");
    assert!(m.change(strings(vec!["["])).is_err());
    // the module is left as it was
    assert_eq!(!m.match_change("x"), before_is_empty);
}

#[test]
fn watch_event_dispatches_matching_module_once() {
    let d = doc(vec![(
        "src",
        table(vec![("change", s("*.go")), ("run", s("go build ./..."))]),
    )]);
    let p = parse_prown(&d, ".prown.toml".to_string()).unwrap();

    // a write event for a matching path: the engine asks for one dispatch pass
    let (state, action) = step(
        EngineState::Watching,
        EngineEvent::Fs(EventKind::Write, "src/main.go".to_string()),
    );
    assert_eq!(state, EngineState::Watching);
    let path = match action {
        EngineAction::Dispatch(path) => path,
        _ => panic!("a write event must dispatch"),
    };
    let plan = p.matching_modules(&path);
    assert_eq!(plan, vec![0usize]);
    let commands = p.modules()[plan[0]].run_commands();
    assert_eq!(commands, &vec!["go build ./...".to_string()]);

    // a write event for a non-matching path: no module is dispatched
    let plan = p.matching_modules("docs/readme.md");
    assert!(plan.is_empty());
}

#[test]
fn modules_dispatch_in_declaration_order() {
    let d = doc(vec![
        ("first", table(vec![("change", s("*.go")), ("run", s("echo one"))])),
        ("docs", table(vec![("change", s("*.md")), ("run", s("echo docs"))])),
        ("second", table(vec![("change", s("*.go")), ("run", s("echo two"))])),
    ]);
    let p = parse_prown(&d, ".prown.toml".to_string()).unwrap();
    assert_eq!(p.matching_modules("pkg/a.go"), vec![0usize, 2usize]);
}

#[test]
fn engine_transitions_follow_the_table() {
    // subscribing
    let (st, _) = step(EngineState::Idle, EngineEvent::Subscribed);
    assert_eq!(st, EngineState::Watching);
    let (st, _) = step(EngineState::Idle, EngineEvent::SubscribeFailed);
    assert_eq!(st, EngineState::Failed);

    // a non-dispatching event kind is observed but triggers nothing
    let (st, action) = step(
        EngineState::Watching,
        EngineEvent::Fs(EventKind::Remove, "gone.txt".to_string()),
    );
    assert_eq!(st, EngineState::Watching);
    assert!(matches!(action, EngineAction::Ignore));

    // the channel closing stops the loop cleanly
    let (st, action) = step(EngineState::Watching, EngineEvent::Closed);
    assert_eq!(st, EngineState::Stopped);
    assert!(matches!(action, EngineAction::Halt));

    // terminal states absorb everything
    let (st, _) = step(EngineState::Stopped, EngineEvent::Subscribed);
    assert_eq!(st, EngineState::Stopped);
    let (st, _) = step(
        EngineState::Failed,
        EngineEvent::Fs(EventKind::Write, "a".to_string()),
    );
    assert_eq!(st, EngineState::Failed);
}

#[test]
fn dispatching_kinds_are_writes_write_notices_and_create() {
    assert!(dispatch_kind(EventKind::Write));
    assert!(dispatch_kind(EventKind::NoticeWrite));
    assert!(dispatch_kind(EventKind::Create));
    assert!(!dispatch_kind(EventKind::NoticeRemove));
    assert!(!dispatch_kind(EventKind::Remove));
    assert!(!dispatch_kind(EventKind::Rename));
    assert!(!dispatch_kind(EventKind::Chmod));
    assert!(!dispatch_kind(EventKind::Rescan));
    assert!(!dispatch_kind(EventKind::Other));
}

#[test]
fn burst_for_one_path_collapses_to_one_pass() {
    let burst = strings(vec!["src/main.go", "src/main.go", "src/main.go", "src/main.go"]);
    assert_eq!(coalesce_paths(&burst), strings(vec!["src/main.go"]));
}

#[test]
fn coalescing_keeps_first_occurrence_order() {
    let burst = strings(vec!["a.go", "b.go", "a.go", "c.go", "b.go"]);
    assert_eq!(coalesce_paths(&burst), strings(vec!["a.go", "b.go", "c.go"]));
    assert_eq!(coalesce_paths(&strings(vec![])), Vec::<String>::new());
}
