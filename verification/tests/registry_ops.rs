use diakonos::error::DiakonosError;
use diakonos::registry::ServiceManager;
use diakonos::service::{PollOutcome, Service, ServiceState, StartDecision, StopDecision};
use diakonos::unit::{RestartPolicy, ServiceSection, UnitFile, UnitSection};

fn make_unit(name: &str, exec_start: &str) -> UnitFile {
    UnitFile {
        unit: UnitSection { description: None, after: None, requires_list: None, wants: None },
        service: ServiceSection {
            service_type: None,
            exec_start: exec_start.to_string(),
            exec_stop: None,
            restart: None,
            restart_sec: None,
            working_directory: None,
            environment: None,
            user: None,
        },
        name: name.to_string(),
    }
}

fn manager_with(units: Vec<UnitFile>) -> ServiceManager {
    let mut m = ServiceManager::new();
    for u in units {
        m.insert_service(Service::new(u)).unwrap();
    }
    m
}

#[test]
fn new_record_is_stopped_with_nothing_tracked() {
    let s = Service::new(make_unit("web", "/bin/sleep 60"));
    assert_eq!(s.state, ServiceState::Stopped);
    assert_eq!(s.pid, None);
    assert!(!s.handle_present);
    assert_eq!(s.restart_count, 0);
}

#[test]
fn duplicate_insert_is_refused() {
    let mut m = manager_with(vec![make_unit("web", "/bin/sleep 60")]);
    let r = m.insert_service(Service::new(make_unit("web", "/bin/sleep 60")));
    assert!(matches!(r, Err(DiakonosError::ServiceAlreadyExists(n)) if n == "web"));
}

#[test]
fn status_of_unknown_service_is_not_found() {
    let m = manager_with(vec![make_unit("web", "/bin/sleep 60")]);
    let r = m.get_service_status(&"nope".to_string());
    assert!(matches!(r, Err(DiakonosError::ServiceNotFound(n)) if n == "nope"));
}

#[test]
fn list_reports_every_loaded_name_with_its_state() {
    let mut m = manager_with(vec![make_unit("a", "/bin/true"), make_unit("b", "/bin/true")]);
    m.begin_start_service(&"a".to_string()).unwrap();
    m.complete_start_service(&"a".to_string(), Ok(41)).unwrap();
    let listing = m.list_services();
    assert_eq!(
        listing,
        vec![
            ("a".to_string(), ServiceState::Running),
            ("b".to_string(), ServiceState::Stopped)
        ]
    );
}

#[test]
fn empty_exec_start_is_rejected_and_fails_the_record() {
    let mut m = manager_with(vec![make_unit("web", "")]);
    let d = m.begin_start_service(&"web".to_string()).unwrap();
    assert!(matches!(
        d,
        StartDecision::Rejected(DiakonosError::StartError(msg)) if msg == "Empty ExecStart"
    ));
    assert_eq!(m.get_service_status(&"web".to_string()).unwrap(), ServiceState::Failed);
    assert_eq!(m.services[0].pid, None);
    assert!(!m.services[0].handle_present);
}

#[test]
fn blank_only_exec_start_is_rejected() {
    let mut m = manager_with(vec![make_unit("web", "   \t ")]);
    let d = m.begin_start_service(&"web".to_string()).unwrap();
    assert!(matches!(d, StartDecision::Rejected(DiakonosError::StartError(_))));
    assert_eq!(m.get_service_status(&"web".to_string()).unwrap(), ServiceState::Failed);
}

#[test]
fn launch_carries_program_args_dir_and_env() {
    let mut u = make_unit("web", "/bin/sleep 60 extra");
    u.service.working_directory = Some("/tmp".to_string());
    u.service.environment = Some(vec!["A=1".to_string(), "junk".to_string()]);
    let mut m = manager_with(vec![u]);
    let d = m.begin_start_service(&"web".to_string()).unwrap();
    match d {
        StartDecision::Launch(req) => {
            assert_eq!(req.program, "/bin/sleep".to_string());
            assert_eq!(req.args, vec!["60".to_string(), "extra".to_string()]);
            assert_eq!(req.working_directory, Some("/tmp".to_string()));
            assert_eq!(req.env, vec![("A".to_string(), "1".to_string())]);
        },
        _ => panic!("expected a launch"),
    }
}

#[test]
fn single_start_reaches_running() {
    let mut m = manager_with(vec![make_unit("web", "/bin/sleep 60")]);
    let d = m.begin_start_service(&"web".to_string()).unwrap();
    assert!(matches!(d, StartDecision::Launch(_)));
    let r = m.complete_start_service(&"web".to_string(), Ok(4242));
    assert!(r.is_ok());
    assert_eq!(m.get_service_status(&"web".to_string()).unwrap(), ServiceState::Running);
}

#[test]
fn starting_a_running_service_is_a_no_op() {
    let mut m = manager_with(vec![make_unit("web", "/bin/sleep 60")]);
    m.begin_start_service(&"web".to_string()).unwrap();
    m.complete_start_service(&"web".to_string(), Ok(7)).unwrap();
    let d = m.begin_start_service(&"web".to_string()).unwrap();
    assert!(matches!(d, StartDecision::AlreadyRunning));
    assert_eq!(m.get_service_status(&"web".to_string()).unwrap(), ServiceState::Running);
}

#[test]
fn spawn_failure_leaves_the_record_failed() {
    let mut m = manager_with(vec![make_unit("web", "/no/such/file")]);
    m.begin_start_service(&"web".to_string()).unwrap();
    let r = m.complete_start_service(&"web".to_string(), Err("permission denied".to_string()));
    assert!(matches!(r, Err(DiakonosError::StartError(msg)) if msg == "permission denied"));
    assert_eq!(m.get_service_status(&"web".to_string()).unwrap(), ServiceState::Failed);
}

#[test]
fn stop_forces_stopped_with_nothing_retained() {
    let mut m = manager_with(vec![make_unit("web", "/bin/sleep 60")]);
    m.begin_start_service(&"web".to_string()).unwrap();
    m.complete_start_service(&"web".to_string(), Ok(99)).unwrap();
    let d = m.begin_stop_service(&"web".to_string()).unwrap();
    match d {
        StopDecision::Proceed { stop_command, pid } => {
            assert!(stop_command.is_none());
            assert_eq!(pid, Some(99));
        },
        _ => panic!("expected a stop plan"),
    }
    m.finish_stop_service(&"web".to_string()).unwrap();
    assert_eq!(m.get_service_status(&"web".to_string()).unwrap(), ServiceState::Stopped);
    let s = Service::new(make_unit("probe", "/bin/true"));
    assert_eq!(s.pid, None);
}

#[test]
fn stop_of_a_stopped_service_is_a_no_op() {
    let mut m = manager_with(vec![make_unit("web", "/bin/sleep 60")]);
    let d = m.begin_stop_service(&"web".to_string()).unwrap();
    assert!(matches!(d, StopDecision::AlreadyStopped));
}

#[test]
fn stop_command_is_tokenized() {
    let mut u = make_unit("web", "/bin/sleep 60");
    u.service.exec_stop = Some("/bin/kill -TERM self".to_string());
    let mut m = manager_with(vec![u]);
    m.begin_start_service(&"web".to_string()).unwrap();
    m.complete_start_service(&"web".to_string(), Ok(5)).unwrap();
    match m.begin_stop_service(&"web".to_string()).unwrap() {
        StopDecision::Proceed { stop_command, pid } => {
            let cmd = stop_command.expect("stop command expected");
            assert_eq!(cmd.program, "/bin/kill".to_string());
            assert_eq!(cmd.args, vec!["-TERM".to_string(), "self".to_string()]);
            assert_eq!(pid, Some(5));
        },
        _ => panic!("expected a stop plan"),
    }
}

#[test]
fn poll_transitions_follow_the_exit_status() {
    let mut m = manager_with(vec![make_unit("web", "/bin/sleep 60")]);
    let name = "web".to_string();
    m.begin_start_service(&name).unwrap();
    m.complete_start_service(&name, Ok(11)).unwrap();
    assert_eq!(m.apply_poll_outcome(&name, PollOutcome::StillRunning).unwrap(), ServiceState::Running);
    assert_eq!(m.apply_poll_outcome(&name, PollOutcome::ExitedSuccess).unwrap(), ServiceState::Stopped);
    m.begin_start_service(&name).unwrap();
    m.complete_start_service(&name, Ok(12)).unwrap();
    assert_eq!(m.apply_poll_outcome(&name, PollOutcome::ExitedFailure).unwrap(), ServiceState::Failed);
    assert_eq!(m.get_service_status(&name).unwrap(), ServiceState::Failed);
}

#[test]
fn poll_without_a_handle_changes_nothing() {
    let mut m = manager_with(vec![make_unit("web", "/bin/sleep 60")]);
    let name = "web".to_string();
    assert_eq!(m.apply_poll_outcome(&name, PollOutcome::ExitedFailure).unwrap(), ServiceState::Stopped);
}

#[test]
fn restart_policy_decides_reactivation() {
    let mut u = make_unit("flaky", "/bin/false");
    u.service.restart = Some(RestartPolicy::OnFailure);
    u.service.restart_sec = Some(1);
    let mut m = manager_with(vec![u]);
    let name = "flaky".to_string();
    assert_eq!(m.restart_decision(&name).unwrap(), None);
    m.begin_start_service(&name).unwrap();
    m.complete_start_service(&name, Ok(3)).unwrap();
    m.apply_poll_outcome(&name, PollOutcome::ExitedFailure).unwrap();
    assert_eq!(m.restart_decision(&name).unwrap(), Some(1));
}

#[test]
fn always_policy_restarts_after_clean_exit() {
    let mut u = make_unit("web", "/bin/sleep 60");
    u.service.restart = Some(RestartPolicy::Always);
    let mut m = manager_with(vec![u]);
    let name = "web".to_string();
    m.begin_start_service(&name).unwrap();
    m.complete_start_service(&name, Ok(3)).unwrap();
    m.apply_poll_outcome(&name, PollOutcome::ExitedSuccess).unwrap();
    assert_eq!(m.restart_decision(&name).unwrap(), Some(5));
}

#[test]
fn auto_restart_counts_and_relaunches() {
    let mut u = make_unit("flaky", "/bin/false");
    u.service.restart = Some(RestartPolicy::OnFailure);
    let mut m = manager_with(vec![u]);
    let name = "flaky".to_string();
    m.begin_start_service(&name).unwrap();
    m.complete_start_service(&name, Ok(3)).unwrap();
    m.apply_poll_outcome(&name, PollOutcome::ExitedFailure).unwrap();
    let d = m.begin_auto_restart(&name).unwrap();
    assert!(matches!(d, Some(StartDecision::Launch(_))));
    m.complete_start_service(&name, Ok(4)).unwrap();
    assert_eq!(m.get_service_status(&name).unwrap(), ServiceState::Running);
    m.apply_poll_outcome(&name, PollOutcome::ExitedFailure).unwrap();
    let d2 = m.begin_auto_restart(&name).unwrap();
    assert!(matches!(d2, Some(StartDecision::Launch(_))));
    m.complete_start_service(&name, Ok(5)).unwrap();
    let flaky = &m.services[0];
    assert_eq!(flaky.restart_count, 2);
}

#[test]
fn auto_restart_skips_a_record_no_longer_terminal() {
    let mut m = manager_with(vec![make_unit("web", "/bin/sleep 60")]);
    let name = "web".to_string();
    m.begin_start_service(&name).unwrap();
    m.complete_start_service(&name, Ok(3)).unwrap();
    let d = m.begin_auto_restart(&name).unwrap();
    assert!(d.is_none());
    assert_eq!(m.services[0].restart_count, 0);
}
