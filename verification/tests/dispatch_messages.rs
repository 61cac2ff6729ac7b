use diakonos::client::Client;
use diakonos::daemon::DaemonConfig;
use diakonos::dispatch::{
    response_for_invalid, response_for_restart, response_for_shutdown, response_for_start,
    response_for_status, response_for_stop, should_terminate,
};
use diakonos::error::DiakonosError;
use diakonos::ipc::{Request, Response};
use diakonos::service::ServiceState;

#[test]
fn error_messages_match_their_variants() {
    assert_eq!(
        DiakonosError::ServiceNotFound("nope".to_string()).message(),
        "Service not found: nope"
    );
    assert_eq!(
        DiakonosError::ServiceAlreadyExists("web".to_string()).message(),
        "Service already exists: web"
    );
    assert_eq!(
        DiakonosError::ParseError("bad toml".to_string()).message(),
        "Failed to parse unit file: bad toml"
    );
    assert_eq!(
        DiakonosError::StartError("Empty ExecStart".to_string()).message(),
        "Failed to start service: Empty ExecStart"
    );
    assert_eq!(
        DiakonosError::StopError("never".to_string()).message(),
        "Failed to stop service: never"
    );
    assert_eq!(DiakonosError::DependencyCycle.message(), "Dependency cycle detected");
    assert_eq!(
        DiakonosError::DependencyNotMet("db".to_string()).message(),
        "Service dependency not met: db"
    );
    assert_eq!(DiakonosError::IoError("broken pipe".to_string()).message(), "IO error: broken pipe");
    assert_eq!(DiakonosError::ProcessError("wait".to_string()).message(), "Process error: wait");
}

#[test]
fn start_responses_carry_exact_text() {
    let ok = response_for_start(&"web".to_string(), &Ok(()));
    assert_eq!(ok, Response::Okay { message: "Service 'web' started successfully".to_string() });
    let err = response_for_start(
        &"nope".to_string(),
        &Err(DiakonosError::ServiceNotFound("nope".to_string())),
    );
    assert_eq!(
        err,
        Response::Error {
            message: "Failed to start service 'nope': Service not found: nope".to_string()
        }
    );
}

#[test]
fn cycle_error_text_mentions_the_cycle() {
    let err = response_for_start(&"a".to_string(), &Err(DiakonosError::DependencyCycle));
    match err {
        Response::Error { message } => assert!(message.contains("cycle")),
        _ => panic!("expected an error response"),
    }
}

#[test]
fn stop_restart_and_status_responses() {
    assert_eq!(
        response_for_stop(&"web".to_string(), &Ok(())),
        Response::Okay { message: "Service 'web' stopped successfully".to_string() }
    );
    assert_eq!(
        response_for_restart(&"web".to_string(), &Ok(())),
        Response::Okay { message: "Service 'web' restarted successfully".to_string() }
    );
    assert_eq!(
        response_for_status(&"web".to_string(), &Ok(ServiceState::Running)),
        Response::Status { service: "web".to_string(), state: ServiceState::Running }
    );
    assert_eq!(
        response_for_status(
            &"gone".to_string(),
            &Err(DiakonosError::ServiceNotFound("gone".to_string()))
        ),
        Response::Error {
            message: "Failed to get status for 'gone': Service not found: gone".to_string()
        }
    );
}

#[test]
fn shutdown_is_acknowledged_and_terminates() {
    assert_eq!(
        response_for_shutdown(),
        Response::Okay { message: "Daemon shutting down".to_string() }
    );
    assert!(should_terminate(&Request::Shutdown));
    assert!(!should_terminate(&Request::Ping));
    assert!(!should_terminate(&Request::List));
}

#[test]
fn invalid_frames_get_an_error_response() {
    assert_eq!(response_for_invalid(), Response::Error { message: "Invalid request".to_string() });
}

#[test]
fn state_words_match_their_variants() {
    assert_eq!(ServiceState::Stopped.word(), "Stopped");
    assert_eq!(ServiceState::Starting.word(), "Starting");
    assert_eq!(ServiceState::Running.word(), "Running");
    assert_eq!(ServiceState::Stopping.word(), "Stopping");
    assert_eq!(ServiceState::Failed.word(), "Failed");
}

#[test]
fn daemon_layout_follows_home() {
    let c = DaemonConfig::with_home("/home/me");
    assert_eq!(c.socket_path, "/home/me/.diakonos/daemon.sock");
    assert_eq!(c.pid_file, "/home/me/.diakonos/daemon.pid");
    assert_eq!(c.log_file, "/home/me/.diakonos/daemon.log");
    assert_eq!(c.service_dir, "./services");
    let d = DaemonConfig::default();
    assert_eq!(d.socket_path, "./.diakonos/daemon.sock");
}

#[test]
fn client_keeps_its_configuration() {
    let c = Client::new(DaemonConfig::with_home("/h"));
    assert_eq!(c.config.socket_path, "/h/.diakonos/daemon.sock");
}
