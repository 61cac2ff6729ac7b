use diakonos::error::DiakonosError;
use diakonos::registry::ServiceManager;
use diakonos::service::Service;
use diakonos::unit::{ServiceSection, UnitFile, UnitSection};

fn make_unit(name: &str, requires: Vec<&str>) -> UnitFile {
    UnitFile {
        unit: UnitSection {
            description: None,
            after: None,
            requires_list: if requires.is_empty() {
                None
            } else {
                Some(requires.into_iter().map(|s| s.to_string()).collect())
            },
            wants: None,
        },
        service: ServiceSection {
            service_type: None,
            exec_start: "/bin/sleep 60".to_string(),
            exec_stop: None,
            restart: None,
            restart_sec: None,
            working_directory: None,
            environment: None,
            user: None,
        },
        name: name.to_string(),
    }
}

fn manager_with(units: Vec<UnitFile>) -> ServiceManager {
    let mut m = ServiceManager::new();
    for u in units {
        m.insert_service(Service::new(u)).unwrap();
    }
    m
}

#[test]
fn single_service_resolves_to_itself() {
    let m = manager_with(vec![make_unit("web", vec![])]);
    assert_eq!(m.resolve_dependencies(&"web".to_string()).unwrap(), vec!["web".to_string()]);
}

#[test]
fn dependency_chain_is_ordered_dependency_first() {
    let m = manager_with(vec![
        make_unit("db", vec![]),
        make_unit("api", vec!["db.service"]),
    ]);
    assert_eq!(
        m.resolve_dependencies(&"api".to_string()).unwrap(),
        vec!["db".to_string(), "api".to_string()]
    );
}

#[test]
fn transitive_chain_keeps_every_dependency_ahead() {
    let m = manager_with(vec![
        make_unit("c", vec![]),
        make_unit("b", vec!["c"]),
        make_unit("a", vec!["b"]),
    ]);
    assert_eq!(
        m.resolve_dependencies(&"a".to_string()).unwrap(),
        vec!["c".to_string(), "b".to_string(), "a".to_string()]
    );
}

#[test]
fn diamond_dependencies_resolve_each_name_once() {
    let m = manager_with(vec![
        make_unit("d", vec![]),
        make_unit("b", vec!["d"]),
        make_unit("c", vec!["d"]),
        make_unit("a", vec!["b", "c"]),
    ]);
    let order = m.resolve_dependencies(&"a".to_string()).unwrap();
    assert_eq!(order, vec!["d".to_string(), "b".to_string(), "c".to_string(), "a".to_string()]);
}

#[test]
fn two_cycle_is_reported_and_nothing_changes() {
    let m = manager_with(vec![
        make_unit("a", vec!["b"]),
        make_unit("b", vec!["a"]),
    ]);
    let r = m.resolve_dependencies(&"a".to_string());
    assert!(matches!(r, Err(DiakonosError::DependencyCycle)));
    assert_eq!(
        m.get_service_status(&"a".to_string()).unwrap(),
        diakonos::service::ServiceState::Stopped
    );
    assert_eq!(
        m.get_service_status(&"b".to_string()).unwrap(),
        diakonos::service::ServiceState::Stopped
    );
}

#[test]
fn self_cycle_is_reported() {
    let m = manager_with(vec![make_unit("a", vec!["a"])]);
    let r = m.resolve_dependencies(&"a".to_string());
    assert!(matches!(r, Err(DiakonosError::DependencyCycle)));
}

#[test]
fn missing_dependency_is_reported_by_name() {
    let m = manager_with(vec![make_unit("api", vec!["db"])]);
    let r = m.resolve_dependencies(&"api".to_string());
    assert!(matches!(r, Err(DiakonosError::DependencyNotMet(n)) if n == "db"));
}

#[test]
fn cycle_free_graph_never_reports_a_cycle() {
    let m = manager_with(vec![
        make_unit("a", vec!["b", "missing"]),
        make_unit("b", vec![]),
    ]);
    let r = m.resolve_dependencies(&"a".to_string());
    assert!(matches!(r, Err(DiakonosError::DependencyNotMet(n)) if n == "missing"));
}

#[test]
fn loaded_acyclic_graph_always_resolves() {
    let m = manager_with(vec![
        make_unit("e", vec![]),
        make_unit("d", vec!["e"]),
        make_unit("c", vec!["d", "e"]),
        make_unit("b", vec!["c", "d"]),
        make_unit("a", vec!["b", "c"]),
    ]);
    for name in ["a", "b", "c", "d", "e"] {
        let order = m.resolve_dependencies(&name.to_string()).unwrap();
        assert_eq!(order.last().unwrap(), name);
    }
}

#[test]
fn unknown_target_is_not_found() {
    let m = manager_with(vec![make_unit("web", vec![])]);
    let r = m.resolve_dependencies(&"nope".to_string());
    assert!(matches!(r, Err(DiakonosError::ServiceNotFound(n)) if n == "nope"));
}

#[test]
fn service_suffix_is_stripped_at_resolution() {
    let m = manager_with(vec![
        make_unit("db", vec![]),
        make_unit("api", vec!["db.service"]),
    ]);
    let order = m.resolve_dependencies(&"api".to_string()).unwrap();
    assert!(order.contains(&"db".to_string()));
    assert!(!order.iter().any(|n| n.contains(".service")));
}
