//! The per-service state machine.  Each mutating operation of the original
//! start/stop/poll paths is split into its decision steps: a step computes
//! what the process shell must do (spawn, signal) and applies the resulting
//! observation to the record.  The shell owns the OS child handle; the record
//! mirrors its presence in `handle_present`.

use vstd::prelude::*;
use vstd::string::*;
use crate::error::DiakonosError;
use crate::text::{spec_tokens, spec_env_pairs, tokenize, parse_env_pairs};
use crate::unit::{UnitFile, RestartPolicy};

verus! {

/// The closed set of lifecycle states.
#[derive(Debug, Clone, Copy, PartialEq, Eq, Structural)]
pub enum ServiceState {
    Stopped,
    Starting,
    Running,
    Stopping,
    Failed,
}

impl ServiceState {
    /// The state's name, as status output and the wire format spell it.
    pub open spec fn spec_word(self) -> Seq<char> {
        match self {
            ServiceState::Stopped => "Stopped"@,
            ServiceState::Starting => "Starting"@,
            ServiceState::Running => "Running"@,
            ServiceState::Stopping => "Stopping"@,
            ServiceState::Failed => "Failed"@,
        }
    }

    /// Renders the state's name.
    pub fn word(&self) -> (r: String)
        ensures
            r@ == self.spec_word(),
    {
        match self {
            ServiceState::Stopped => String::from_str("Stopped"),
            ServiceState::Starting => String::from_str("Starting"),
            ServiceState::Running => String::from_str("Running"),
            ServiceState::Stopping => String::from_str("Stopping"),
            ServiceState::Failed => String::from_str("Failed"),
        }
    }
}

/// Everything the shell needs to spawn one child process.
#[derive(Debug, Clone)]
pub struct LaunchRequest {
    /// The executable: the first token of the command line.
    pub program: String,
    /// The remaining tokens.
    pub args: Vec<String>,
    /// Directory to run in, when the unit declares one.
    pub working_directory: Option<String>,
    /// The well-formed `KEY=VALUE` pairs of the unit's `Environment`.
    pub env: Vec<(String, String)>,
}

/// What `begin_start` decided.
pub enum StartDecision {
    /// The record was already `Running`; nothing to do.
    AlreadyRunning,
    /// The command line is empty; the start is rejected with this error.
    Rejected(DiakonosError),
    /// The shell must spawn this child and report the outcome.
    Launch(LaunchRequest),
}

/// What `begin_stop` decided.
pub enum StopDecision {
    /// The record was already `Stopped`; nothing to do.
    AlreadyStopped,
    /// The shell runs the optional stop command, then signals `pid` with
    /// the graceful-terminate/kill escalation, then calls `finish_stop`.
    Proceed { stop_command: Option<LaunchRequest>, pid: Option<u32> },
}

/// The shell's observation from one non-blocking poll of a child.
#[derive(Debug, Clone, Copy, PartialEq, Eq, Structural)]
pub enum PollOutcome {
    /// The child exited with a success status.
    ExitedSuccess,
    /// The child exited with a non-zero status or on a signal.
    ExitedFailure,
    /// The child is still alive.
    StillRunning,
    /// The probe itself failed.
    ProbeFailed,
}

/// The in-memory twin of a unit file, carrying lifecycle state.
pub struct Service {
    pub unit: UnitFile,
    pub state: ServiceState,
    pub pid: Option<u32>,
    /// Whether the shell holds a child handle for this record.
    pub handle_present: bool,
    pub restart_count: u32,
}

/// The command-line tokens of the unit's `ExecStart`.
pub open spec fn exec_start_tokens(u: UnitFile) -> Seq<Seq<char>> {
    spec_tokens(u.service.exec_start@)
}

/// The command-line tokens of the unit's `ExecStop`, empty when absent.
pub open spec fn exec_stop_tokens(u: UnitFile) -> Seq<Seq<char>> {
    match u.service.exec_stop {
        Some(s) => spec_tokens(s@),
        None => Seq::empty(),
    }
}

/// The unit's `Environment` entries, empty when absent.
pub open spec fn env_entries(u: UnitFile) -> Seq<Seq<char>> {
    match u.service.environment {
        Some(v) => v.deep_view(),
        None => Seq::empty(),
    }
}

/// `req` is exactly the launch that `ExecStart` of `u` describes.
pub open spec fn is_launch_for(req: LaunchRequest, u: UnitFile) -> bool {
    &&& exec_start_tokens(u).len() > 0
    &&& req.program@ == exec_start_tokens(u)[0]
    &&& req.args.deep_view() == exec_start_tokens(u).drop_first()
    &&& req.working_directory.deep_view() == u.service.working_directory.deep_view()
    &&& req.env.deep_view() == spec_env_pairs(env_entries(u))
}

/// `req` is exactly the fire-and-forget launch that `ExecStop` of `u`
/// describes: bare command, no directory or environment overrides.
pub open spec fn is_stop_launch_for(req: LaunchRequest, u: UnitFile) -> bool {
    &&& exec_stop_tokens(u).len() > 0
    &&& req.program@ == exec_stop_tokens(u)[0]
    &&& req.args.deep_view() == exec_stop_tokens(u).drop_first()
    &&& req.working_directory is None
    &&& req.env.deep_view() == Seq::<(Seq<char>, Seq<char>)>::empty()
}

/// Builds the launch for a non-empty token list: first token is the program,
/// the rest are arguments.
fn launch_from_tokens(tokens: &Vec<String>, working_directory: Option<String>, env: Vec<
    (String, String),
>) -> (r: LaunchRequest)
    requires
        tokens.len() > 0,
    ensures
        r.program@ == tokens.deep_view()[0],
        r.args.deep_view() == tokens.deep_view().drop_first(),
        r.working_directory == working_directory,
        r.env == env,
{
    let program = tokens[0].clone();
    let mut args: Vec<String> = Vec::new();
    let mut i: usize = 1;
    proof {
        assert(args.deep_view() =~~= tokens.deep_view().subrange(1, 1));
    }
    while i < tokens.len()
        invariant
            1 <= i <= tokens.len(),
            args.deep_view() == tokens.deep_view().subrange(1, i as int),
        decreases tokens.len() - i,
    {
        let ghost prev = args.deep_view();
        let item = tokens[i].clone();
        proof {
            assert(item@ == tokens.deep_view()[i as int]);
        }
        args.push(item);
        proof {
            assert(args.deep_view() =~~= prev.push(tokens.deep_view()[i as int]));
            assert(args.deep_view() =~~= tokens.deep_view().subrange(1, i + 1));
        }
        i = i + 1;
    }
    proof {
        assert(tokens.deep_view().subrange(1, tokens.deep_view().len() as int) =~~= tokens.deep_view().drop_first());
    }
    LaunchRequest { program, args, working_directory, env }
}

impl Service {
    /// Structural consistency of one record: a running record tracks a pid
    /// and a handle, a stopped or failed one tracks neither, and the pid and
    /// the handle are tracked together.
    pub open spec fn wf(self) -> bool {
        &&& (self.state == ServiceState::Running ==> self.pid is Some && self.handle_present)
        &&& ((self.state == ServiceState::Stopped || self.state == ServiceState::Failed)
            ==> self.pid is None && !self.handle_present)
        &&& (self.pid is Some <==> self.handle_present)
    }

    /// The record is `Running` exactly when a pid and a child handle are
    /// tracked.
    pub open spec fn running_iff_tracked(self) -> bool {
        self.state == ServiceState::Running <==> (self.pid is Some && self.handle_present)
    }

    /// A fresh record: `Stopped`, nothing tracked, no restarts yet.
    pub fn new(unit: UnitFile) -> (r: Self)
        ensures
            r.unit == unit,
            r.state == ServiceState::Stopped,
            r.pid is None,
            !r.handle_present,
            r.restart_count == 0,
            r.wf(),
    {
        Service {
            unit,
            state: ServiceState::Stopped,
            pid: None,
            handle_present: false,
            restart_count: 0,
        }
    }

    /// The first half of the start path: transition to `Starting` and
    /// compute the launch.  An empty command line is rejected with
    /// `StartError` and fails the record, tracking nothing.
    pub fn begin_start(&mut self) -> (d: StartDecision)
        ensures
            final(self).unit == old(self).unit,
            final(self).restart_count == old(self).restart_count,
            old(self).state == ServiceState::Running ==> d is AlreadyRunning && *final(self)
                == *old(self),
            old(self).state != ServiceState::Running && exec_start_tokens(old(self).unit).len()
                == 0 ==> ((d matches StartDecision::Rejected(e) && (e
                matches DiakonosError::StartError(m) && m@ == "Empty ExecStart"@))
                && final(self).state == ServiceState::Failed && final(self).pid is None
                && !final(self).handle_present && final(self).running_iff_tracked()),
            old(self).state != ServiceState::Running && exec_start_tokens(old(self).unit).len()
                > 0 ==> ((d matches StartDecision::Launch(req) && is_launch_for(
                req,
                old(self).unit,
            )) && final(self).state == ServiceState::Starting && final(self).pid == old(self).pid
                && final(self).handle_present == old(self).handle_present),
            old(self).wf() ==> final(self).wf(),
    {
        if self.state == ServiceState::Running {
            return StartDecision::AlreadyRunning;
        }
        self.state = ServiceState::Starting;
        let tokens = tokenize(self.unit.service.exec_start.as_str());
        if tokens.len() == 0 {
            self.pid = None;
            self.handle_present = false;
            self.state = ServiceState::Failed;
            return StartDecision::Rejected(
                DiakonosError::StartError(String::from_str("Empty ExecStart")),
            );
        }
        let working_directory = match &self.unit.service.working_directory {
            Some(w) => Some(w.clone()),
            None => None,
        };
        let env = match &self.unit.service.environment {
            Some(v) => parse_env_pairs(v),
            None => Vec::new(),
        };
        proof {
            if self.unit.service.environment is None {
                assert(spec_env_pairs(env_entries(self.unit)) =~~= Seq::<
                    (Seq<char>, Seq<char>),
                >::empty());
            }
            assert(env.deep_view() =~~= spec_env_pairs(env_entries(self.unit)));
        }
        StartDecision::Launch(launch_from_tokens(&tokens, working_directory, env))
    }

    /// The second half of the start path: record the spawn outcome.  On
    /// success the child is tracked and the record runs; on failure the
    /// record fails with `StartError` carrying the cause, tracking nothing.
    pub fn complete_start(&mut self, outcome: Result<u32, String>) -> (r: Result<
        (),
        DiakonosError,
    >)
        ensures
            final(self).unit == old(self).unit,
            final(self).restart_count == old(self).restart_count,
            outcome matches Ok(p) ==> final(self).state == ServiceState::Running
                && final(self).pid == Some(p) && final(self).handle_present && r is Ok,
            outcome matches Err(m) ==> final(self).state == ServiceState::Failed
                && final(self).pid is None && !final(self).handle_present
                && r == Result::<(), DiakonosError>::Err(DiakonosError::StartError(m)),
            final(self).wf(),
            final(self).running_iff_tracked(),
    {
        match outcome {
            Ok(p) => {
                self.pid = Some(p);
                self.handle_present = true;
                self.state = ServiceState::Running;
                Ok(())
            },
            Err(m) => {
                self.pid = None;
                self.handle_present = false;
                self.state = ServiceState::Failed;
                Err(DiakonosError::StartError(m))
            },
        }
    }

    /// The first half of the stop path: transition to `Stopping` and tell
    /// the shell what to do (optional stop command, then signal the pid).
    pub fn begin_stop(&mut self) -> (d: StopDecision)
        ensures
            final(self).unit == old(self).unit,
            final(self).pid == old(self).pid,
            final(self).handle_present == old(self).handle_present,
            final(self).restart_count == old(self).restart_count,
            old(self).state == ServiceState::Stopped ==> d is AlreadyStopped && *final(self)
                == *old(self),
            old(self).state != ServiceState::Stopped ==> final(self).state
                == ServiceState::Stopping,
            old(self).state != ServiceState::Stopped ==> (d matches StopDecision::Proceed {
                stop_command,
                pid,
            } && pid == old(self).pid && (if exec_stop_tokens(old(self).unit).len() > 0 {
                stop_command matches Some(req) && is_stop_launch_for(req, old(self).unit)
            } else {
                stop_command is None
            })),
            old(self).wf() ==> final(self).wf(),
    {
        if self.state == ServiceState::Stopped {
            return StopDecision::AlreadyStopped;
        }
        self.state = ServiceState::Stopping;
        let stop_command = match &self.unit.service.exec_stop {
            Some(cmd) => {
                let tokens = tokenize(cmd.as_str());
                if tokens.len() > 0 {
                    let req = launch_from_tokens(&tokens, None, Vec::new());
                    proof {
                        assert(req.env.deep_view() =~~= Seq::<(Seq<char>, Seq<char>)>::empty());
                    }
                    Some(req)
                } else {
                    None
                }
            },
            None => None,
        };
        let pid = match &self.pid {
            Some(p) => Some(*p),
            None => None,
        };
        StopDecision::Proceed { stop_command, pid }
    }

    /// The last step of the stop path: the record is forced to `Stopped`
    /// and no pid or child handle is retained.
    pub fn finish_stop(&mut self)
        ensures
            final(self).unit == old(self).unit,
            final(self).restart_count == old(self).restart_count,
            final(self).state == ServiceState::Stopped,
            final(self).pid is None,
            !final(self).handle_present,
            final(self).wf(),
            final(self).running_iff_tracked(),
    {
        self.pid = None;
        self.handle_present = false;
        self.state = ServiceState::Stopped;
    }

    /// Applies one reconciliation observation: a clean exit stops the
    /// record, a failed exit or probe fails it, a live child reaffirms
    /// `Running`.  Terminal transitions release the pid and the handle.
    pub fn apply_poll(&mut self, outcome: PollOutcome)
        requires
            old(self).handle_present,
        ensures
            final(self).unit == old(self).unit,
            final(self).restart_count == old(self).restart_count,
            outcome == PollOutcome::ExitedSuccess ==> final(self).state == ServiceState::Stopped
                && final(self).pid is None && !final(self).handle_present,
            outcome == PollOutcome::ExitedFailure ==> final(self).state == ServiceState::Failed
                && final(self).pid is None && !final(self).handle_present,
            outcome == PollOutcome::ProbeFailed ==> final(self).state == ServiceState::Failed
                && final(self).pid is None && !final(self).handle_present,
            outcome == PollOutcome::StillRunning ==> final(self).state == ServiceState::Running
                && final(self).pid == old(self).pid
                && final(self).handle_present == old(self).handle_present,
            old(self).wf() ==> final(self).wf() && final(self).running_iff_tracked(),
    {
        match outcome {
            PollOutcome::ExitedSuccess => {
                self.pid = None;
                self.handle_present = false;
                self.state = ServiceState::Stopped;
            },
            PollOutcome::ExitedFailure => {
                self.pid = None;
                self.handle_present = false;
                self.state = ServiceState::Failed;
            },
            PollOutcome::ProbeFailed => {
                self.pid = None;
                self.handle_present = false;
                self.state = ServiceState::Failed;
            },
            PollOutcome::StillRunning => {
                self.state = ServiceState::Running;
            },
        }
    }

    /// Whether the restart policy asks for a re-activation from the current
    /// state: `always` unconditionally, `on-failure` only from `Failed`.
    pub open spec fn spec_should_restart(self) -> bool {
        self.unit.spec_restart_policy() == RestartPolicy::Always || (
        self.unit.spec_restart_policy() == RestartPolicy::OnFailure && self.state
            == ServiceState::Failed)
    }

    /// Whether the restart policy asks for a re-activation from the current
    /// state: `always` unconditionally, `on-failure` only from `Failed`.
    pub fn should_restart(&self) -> (r: bool)
        ensures
            r == self.spec_should_restart(),
    {
        let policy = self.unit.restart_policy();
        match policy {
            RestartPolicy::Always => true,
            RestartPolicy::OnFailure => self.state == ServiceState::Failed,
            RestartPolicy::No => false,
        }
    }

    /// The delay in seconds before a scheduled restart.
    pub fn get_restart_delay(&self) -> (r: u64)
        ensures
            r == self.unit.spec_restart_delay_secs(),
    {
        self.unit.restart_delay_secs()
    }
}

} // verus!
