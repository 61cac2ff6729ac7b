use diakonos::unit::{RestartPolicy, ServiceSection, ServiceType, UnitFile, UnitSection};
use diakonos::text::{parse_env_pairs, split_env_entry, strip_service_suffix, tokenize, vec_contains_string};

fn section(exec_start: &str) -> ServiceSection {
    ServiceSection {
        service_type: None,
        exec_start: exec_start.to_string(),
        exec_stop: None,
        restart: None,
        restart_sec: None,
        working_directory: None,
        environment: None,
        user: None,
    }
}

fn unit(name: &str, requires: Option<Vec<String>>, wants: Option<Vec<String>>) -> UnitFile {
    UnitFile {
        unit: UnitSection { description: None, after: None, requires_list: requires, wants },
        service: section("/bin/sleep 60"),
        name: name.to_string(),
    }
}

#[test]
fn defaults_are_simple_and_no() {
    assert_eq!(ServiceType::default(), ServiceType::Simple);
    assert_eq!(RestartPolicy::default(), RestartPolicy::No);
}

#[test]
fn dependencies_are_requires_then_wants() {
    let u = unit(
        "api",
        Some(vec!["db".to_string(), "cache".to_string()]),
        Some(vec!["metrics".to_string()]),
    );
    assert_eq!(u.dependencies(), vec!["db".to_string(), "cache".to_string(), "metrics".to_string()]);
}

#[test]
fn dependencies_empty_when_unset() {
    let u = unit("api", None, None);
    assert!(u.dependencies().is_empty());
}

#[test]
fn ordering_dependencies_come_from_after() {
    let mut u = unit("api", None, None);
    u.unit.after = Some(vec!["net".to_string()]);
    assert_eq!(u.ordering_dependencies(), vec!["net".to_string()]);
    let v = unit("api", None, None);
    assert!(v.ordering_dependencies().is_empty());
}

#[test]
fn restart_policy_and_delay_defaults() {
    let mut u = unit("api", None, None);
    assert_eq!(u.restart_policy(), RestartPolicy::No);
    assert_eq!(u.restart_delay_secs(), 5);
    u.service.restart = Some(RestartPolicy::OnFailure);
    u.service.restart_sec = Some(1);
    assert_eq!(u.restart_policy(), RestartPolicy::OnFailure);
    assert_eq!(u.restart_delay_secs(), 1);
}

#[test]
fn tokenize_splits_on_blanks() {
    assert_eq!(tokenize("/bin/sleep 60"), vec!["/bin/sleep".to_string(), "60".to_string()]);
    assert_eq!(tokenize("  a \t b\nc  "), vec!["a".to_string(), "b".to_string(), "c".to_string()]);
}

#[test]
fn tokenize_empty_and_blank_only() {
    assert!(tokenize("").is_empty());
    assert!(tokenize("   \t  ").is_empty());
}

#[test]
fn env_entry_splits_at_first_equals() {
    assert_eq!(
        split_env_entry(&"KEY=VALUE".to_string()),
        Some(("KEY".to_string(), "VALUE".to_string()))
    );
    assert_eq!(
        split_env_entry(&"A=b=c".to_string()),
        Some(("A".to_string(), "b=c".to_string()))
    );
    assert_eq!(split_env_entry(&"malformed".to_string()), None);
}

#[test]
fn env_entries_without_equals_are_skipped() {
    let entries = vec!["A=1".to_string(), "bogus".to_string(), "B=2".to_string()];
    let pairs = parse_env_pairs(&entries);
    assert_eq!(
        pairs,
        vec![("A".to_string(), "1".to_string()), ("B".to_string(), "2".to_string())]
    );
}

#[test]
fn service_suffix_is_stripped() {
    assert_eq!(strip_service_suffix(&"db.service".to_string()), "db".to_string());
    assert_eq!(strip_service_suffix(&"db".to_string()), "db".to_string());
    assert_eq!(strip_service_suffix(&".service".to_string()), "".to_string());
    assert_eq!(strip_service_suffix(&"a.services".to_string()), "a.services".to_string());
}

#[test]
fn contains_compares_by_contents() {
    let v = vec!["db".to_string(), "api".to_string()];
    assert!(vec_contains_string(&v, &"api".to_string()));
    assert!(!vec_contains_string(&v, &"web".to_string()));
}
