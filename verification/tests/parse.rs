//! Tests of the descriptor parser: value normalization, error cases, and the
//! first-registry-section rule.

use prown::error::PError;
use prown::parser::{parse_command, parse_content, parse_prown, split_tokens, RawSection, RawValue};

fn doc(
    sections: Vec<(&str, RawSection)>,
) -> Vec<(String, RawSection)> {
    sections.into_iter().map(|(n, s)| (n.to_string(), s)).collect()
}

fn table(entries: Vec<(&str, RawValue)>) -> RawSection {
    RawSection::Table(entries.into_iter().map(|(k, v)| (k.to_string(), v)).collect())
}

fn s(text: &str) -> RawValue {
    RawValue::Str(text.to_string())
}

fn list(items: Vec<&str>) -> RawValue {
    RawValue::List(items.into_iter().map(|i| i.to_string()).collect())
}

#[test]
fn single_string_promotes_to_one_element_list() {
    let a = parse_content(&s("go build")).unwrap();
    assert_eq!(a, vec!["go build".to_string()]);
    let b = parse_content(&list(vec!["go build"])).unwrap();
    assert_eq!(a, b);
    assert!(parse_content(&RawValue::Other).is_none());
}

#[test]
fn string_and_list_shapes_parse_alike() {
    let d1 = doc(vec![("src", table(vec![("change", s("*.go")), ("run", s("go build"))]))]);
    let d2 = doc(vec![(
        "src",
        table(vec![("change", list(vec!["*.go"])), ("run", list(vec!["go build"]))]),
    )]);
    let p1 = parse_prown(&d1, ".prown.toml".to_string()).unwrap();
    let p2 = parse_prown(&d2, ".prown.toml".to_string()).unwrap();
    let m1 = &p1.modules()[0];
    let m2 = &p2.modules()[0];
    assert_eq!(m1.run_commands(), m2.run_commands());
    assert_eq!(m1.get_name(), "src");
    assert!(m1.match_change("deep/dir/a.go"));
    assert!(m2.match_change("deep/dir/a.go"));
}

#[test]
fn non_table_section_fails_naming_it() {
    let d = doc(vec![
        ("src", table(vec![("run", s("make"))])),
        ("loose", RawSection::NotTable),
    ]);
    match parse_prown(&d, ".prown.toml".to_string()) {
        Err(PError::NotATable(name)) => {
            assert_eq!(name, "loose");
        }
        _ => panic!("expected a not-a-table error"),
    }
}

#[test]
fn not_a_table_message_gives_remediation() {
    let e = PError::NotATable("loose".to_string());
    assert_eq!(e.message(), "loose is not a table, replace it with [loose]");
}

#[test]
fn second_commands_section_is_ignored() {
    let d = doc(vec![
        ("commands", table(vec![("build", s("make all"))])),
        ("command", table(vec![("deploy", s("scp out host:"))])),
    ]);
    let p = parse_prown(&d, ".prown.toml".to_string()).unwrap();
    assert!(p.run("build").is_ok());
    match p.run("deploy") {
        Err(PError::MissingCommand(name, path)) => {
            assert_eq!(name, "deploy");
            assert_eq!(path, ".prown.toml");
        }
        _ => panic!("the second registry section must not be honored"),
    }
    assert!(p.modules().is_empty());
}

#[test]
fn unknown_module_key_fails() {
    let d = doc(vec![("src", table(vec![("watch", s("*.go"))]))]);
    match parse_prown(&d, ".prown.toml".to_string()) {
        Err(PError::CommandNotImplemented(key, module)) => {
            assert_eq!(key, "watch");
            assert_eq!(module, "src");
            assert_eq!(
                PError::CommandNotImplemented(key, module).message(),
                "The command watch in module src is not implemented in prown"
            );
        }
        _ => panic!("expected an unsupported-directive error"),
    }
}

#[test]
fn wrongly_shaped_module_value_fails() {
    let d = doc(vec![("src", table(vec![("change", RawValue::Other)]))]);
    match parse_prown(&d, ".prown.toml".to_string()) {
        Err(PError::BadValue(section, key)) => {
            assert_eq!(section, "src");
            assert_eq!(key, "change");
        }
        _ => panic!("expected a type error"),
    }
}

#[test]
fn non_string_command_value_fails_naming_section() {
    let d = doc(vec![("commands", table(vec![("build", list(vec!["make"]))]))]);
    match parse_prown(&d, ".prown.toml".to_string()) {
        Err(PError::BadValue(section, key)) => {
            assert_eq!(section, "commands");
            assert_eq!(key, "build");
            assert_eq!(
                PError::BadValue(section, key).message(),
                "The value of build in [commands] must be a string or a list of strings"
            );
        }
        _ => panic!("expected a type error"),
    }
}

#[test]
fn malformed_glob_fails_parse_with_its_text() {
    let d = doc(vec![("src", table(vec![("change", list(vec!["*.go", "["]))]))]);
    match parse_prown(&d, ".prown.toml".to_string()) {
        Err(PError::PatternError(text)) => {
            assert_eq!(text, "[");
            assert_eq!(
                PError::PatternError(text).message(),
                "The pattern [ is not a valid glob"
            );
        }
        _ => panic!("a malformed glob must fail the whole parse"),
    }
}

#[test]
fn parse_is_fail_fast_first_error_wins() {
    let d = doc(vec![
        ("first", RawSection::NotTable),
        ("second", table(vec![("change", RawValue::Other)])),
    ]);
    match parse_prown(&d, ".prown.toml".to_string()) {
        Err(PError::NotATable(name)) => assert_eq!(name, "first"),
        _ => panic!("the first error must win"),
    }
}

#[test]
fn command_tokenization_splits_on_whitespace() {
    let (prog, args) = parse_command("go build ./...");
    assert_eq!(prog, "go");
    assert_eq!(args, vec!["build".to_string(), "./...".to_string()]);

    let (prog, args) = parse_command("  make \t all\n");
    assert_eq!(prog, "make");
    assert_eq!(args, vec!["all".to_string()]);

    assert_eq!(split_tokens("a b"), vec!["a".to_string(), "b".to_string()]);
    assert_eq!(split_tokens("   "), Vec::<String>::new());
}

#[test]
fn tokenization_splits_on_unicode_whitespace() {
    let (prog, args) = parse_command("make\u{a0}all");
    assert_eq!(prog, "make");
    assert_eq!(args, vec!["all".to_string()]);
    let (prog, args) = parse_command("go\u{2003}test\u{3000}./...");
    assert_eq!(prog, "go");
    assert_eq!(args, vec!["test".to_string(), "./...".to_string()]);
}

#[test]
fn empty_command_yields_empty_program_name() {
    let (prog, args) = parse_command("");
    assert_eq!(prog, "");
    assert!(args.is_empty());
}

#[test]
fn default_template_parses() {
    let d = doc(vec![
        ("commands", table(vec![("build", s("make"))])),
        ("src", table(vec![("change", s("*")), ("run", s("make"))])),
    ]);
    let p = parse_prown(&d, ".prown.toml".to_string()).unwrap();
    assert!(p.run("build").is_ok());
    assert_eq!(p.modules().len(), 1);
}
