//! Tests of projects, direct command runs and project initialization.

use prown::command::{default_prown, init, InitPlan};
use prown::error::PError;
use prown::parser::{parse_prown, RawSection, RawValue};
use prown::project::Project;
use prown::prown::Prown;

fn commands_doc(entries: Vec<(&str, &str)>) -> Vec<(String, RawSection)> {
    let table = entries
        .into_iter()
        .map(|(k, v)| (k.to_string(), RawValue::Str(v.to_string())))
        .collect();
    vec![("commands".to_string(), RawSection::Table(table))]
}

#[test]
fn pr01() {
    let project = Project::new("tests/pr01".to_string(), None);
    assert_eq!(project.has_prown(), false);
}

#[test]
fn pr02() {
    let prown = Prown::new(".prown.toml".to_string(), Vec::new(), Vec::new());
    let project = Project::new("tests/pr02".to_string(), Some(prown));
    assert_eq!(project.has_prown(), true);
}

#[test]
fn running_a_registered_command_tokenizes_it() {
    let d = commands_doc(vec![("build", "make all")]);
    let p = parse_prown(&d, ".prown.toml".to_string()).unwrap();
    let (prog, args) = p.run("build").unwrap();
    assert_eq!(prog, "make");
    assert_eq!(args, vec!["all".to_string()]);
}

#[test]
fn running_a_missing_command_names_it_and_the_path() {
    let d = commands_doc(vec![("build", "make all")]);
    let p = parse_prown(&d, "proj/.prown.toml".to_string()).unwrap();
    match p.run("missing") {
        Err(PError::MissingCommand(name, path)) => {
            assert_eq!(name, "missing");
            assert_eq!(path, "proj/.prown.toml");
            let message = PError::MissingCommand(name, path).message();
            assert_eq!(
                message,
                "There is no missing command in proj/.prown.toml\n\
                 Add 'missing = \"<command>\"' in proj/.prown.toml under [commands] section"
            );
        }
        _ => panic!("a missing command must fail without running anything"),
    }
}

#[test]
fn project_without_descriptor_cannot_run() {
    let project = Project::new("proj".to_string(), None);
    match project.run("build") {
        Err(PError::MissingPrown(dir)) => {
            assert_eq!(dir, "proj");
            assert_eq!(
                PError::MissingPrown(dir).message(),
                "There is no .prown.toml file in proj"
            );
        }
        _ => panic!("expected a missing-descriptor error"),
    }
}

#[test]
fn project_with_descriptor_delegates_run() {
    let d = commands_doc(vec![("test", "cargo test")]);
    let p = parse_prown(&d, ".prown.toml".to_string()).unwrap();
    let project = Project::new("proj".to_string(), Some(p));
    let (prog, args) = project.run("test").unwrap();
    assert_eq!(prog, "cargo");
    assert_eq!(args, vec!["test".to_string()]);
}

#[test]
fn project_name_is_the_last_path_component() {
    let project = Project::new("home/user/proj".to_string(), None);
    assert_eq!(project.name(), "proj");
    assert_eq!(project.path(), "home/user/proj");
    let plain = Project::new("plain".to_string(), None);
    assert_eq!(plain.name(), "plain");
    let trailing = Project::new("home/user/proj/".to_string(), None);
    assert_eq!(trailing.name(), "proj");
}

#[test]
fn init_writes_the_template_only_into_a_fresh_project() {
    match init("proj/.prown.toml", false) {
        InitPlan::WriteTemplate(contents) => {
            assert_eq!(contents, default_prown());
            assert!(contents.contains("[commands]"));
        }
        _ => panic!("a fresh project must get the template"),
    }
    match init("proj/.prown.toml", true) {
        InitPlan::Conflict(message) => {
            assert_eq!(message, "Prown file already exist: proj/.prown.toml");
        }
        _ => panic!("an existing descriptor must not be overwritten"),
    }
}
