//! The service registry: the single source of truth mapping service names to
//! records.  Insertion is append-only; names are unique; every record keeps
//! its structural consistency.  The shell serialises access (one writer or
//! many readers) and calls the per-name operations below.

use vstd::prelude::*;
use vstd::string::*;
use crate::error::DiakonosError;
use crate::service::{
    PollOutcome, Service, ServiceState, StartDecision, StopDecision, exec_start_tokens,
    exec_stop_tokens, is_launch_for, is_stop_launch_for,
};

verus! {

/// The registry of loaded services.
pub struct ServiceManager {
    pub services: Vec<Service>,
}

impl ServiceManager {
    /// The names in the registry, in insertion order.
    pub open spec fn names(self) -> Seq<Seq<char>> {
        Seq::new(self.services@.len(), |i: int| self.services@[i].unit.name@)
    }

    /// Whether a record with name `n` is present.
    pub open spec fn has_name(self, n: Seq<char>) -> bool {
        exists|i: int| 0 <= i < self.services@.len() && self.services@[i].unit.name@ == n
    }

    /// The index of the record named `n` (well-defined under `wf`).
    pub open spec fn spec_index_of(self, n: Seq<char>) -> int {
        choose|i: int| 0 <= i < self.services@.len() && self.services@[i].unit.name@ == n
    }

    /// The record named `n` (meaningful only when `has_name(n)`).
    pub open spec fn record_of(self, n: Seq<char>) -> Service {
        self.services@[self.spec_index_of(n)]
    }

    /// Registry consistency: names are unique and every record is
    /// structurally consistent.
    pub open spec fn wf(self) -> bool {
        &&& (forall|i: int, j: int|
            0 <= i < j < self.services@.len() ==> self.services@[i].unit.name@ != self.services@[
                j
            ].unit.name@)
        &&& (forall|i: int|
            0 <= i < self.services@.len() ==> (#[trigger] self.services@[i]).wf())
    }

    /// An empty registry.
    pub fn new() -> (r: Self)
        ensures
            r.services@.len() == 0,
            r.wf(),
    {
        ServiceManager { services: Vec::new() }
    }

    /// Finds the index of the record named `name`.
    pub fn find_index(&self, name: &String) -> (r: Option<usize>)
        ensures
            match r {
                Some(i) => i < self.services@.len() && self.services@[i as int].unit.name@
                    == name@,
                None => !self.has_name(name@),
            },
    {
        let mut i: usize = 0;
        while i < self.services.len()
            invariant
                i <= self.services@.len(),
                forall|j: int| 0 <= j < i ==> self.services@[j].unit.name@ != name@,
            decreases self.services@.len() - i,
        {
            if self.services[i].unit.name.eq(name) {
                return Some(i);
            }
            i = i + 1;
        }
        None
    }

    /// Inserts a freshly loaded record, refusing a duplicate name.
    pub fn insert_service(&mut self, service: Service) -> (r: Result<(), DiakonosError>)
        ensures
            old(self).has_name(service.unit.name@) ==> (r matches Err(e) && (e
                matches DiakonosError::ServiceAlreadyExists(m) && m@ == service.unit.name@)
                && *final(self) == *old(self)),
            !old(self).has_name(service.unit.name@) ==> r is Ok && final(self).services@ == old(
                self,
            ).services@.push(service),
            old(self).wf() && service.wf() ==> final(self).wf(),
    {
        match self.find_index(&service.unit.name) {
            Some(_) => Err(DiakonosError::ServiceAlreadyExists(service.unit.name.clone())),
            None => {
                self.services.push(service);
                Ok(())
            },
        }
    }

    /// A snapshot read of one record's state.
    pub fn get_service_status(&self, name: &String) -> (r: Result<ServiceState, DiakonosError>)
        requires
            self.wf(),
        ensures
            self.has_name(name@) ==> r == Result::<ServiceState, DiakonosError>::Ok(
                self.record_of(name@).state,
            ),
            !self.has_name(name@) ==> (r matches Err(e) && (e
                matches DiakonosError::ServiceNotFound(m) && m@ == name@)),
    {
        match self.find_index(name) {
            Some(i) => {
                proof {
                    let k = self.spec_index_of(name@);
                    assert(self.services@[k].unit.name@ == name@);
                    assert(k == i as int);
                }
                Ok(self.services[i].state)
            },
            None => Err(DiakonosError::ServiceNotFound(name.clone())),
        }
    }

    /// A snapshot of every loaded name with its current state, in insertion
    /// order.
    pub fn list_services(&self) -> (r: Vec<(String, ServiceState)>)
        ensures
            r@.len() == self.services@.len(),
            forall|i: int|
                0 <= i < r@.len() ==> (#[trigger] r@[i]).0@ == self.services@[i].unit.name@ && r@[
                    i
                ].1 == self.services@[i].state,
    {
        let mut out: Vec<(String, ServiceState)> = Vec::new();
        let mut i: usize = 0;
        while i < self.services.len()
            invariant
                i <= self.services@.len(),
                out@.len() == i,
                forall|j: int|
                    0 <= j < i ==> (#[trigger] out@[j]).0@ == self.services@[j].unit.name@
                        && out@[j].1 == self.services@[j].state,
            decreases self.services@.len() - i,
        {
            out.push((self.services[i].unit.name.clone(), self.services[i].state));
            i = i + 1;
        }
        out
    }

    /// The registry after a per-name operation: only index `i` changed, and
    /// the record there still describes the same unit.
    pub open spec fn updated_record(self, post: ServiceManager, i: int) -> bool {
        &&& post.services@ == self.services@.update(i, post.services@[i])
        &&& post.services@.len() == self.services@.len()
        &&& post.services@[i].unit == self.services@[i].unit
    }

    /// The first half of starting one service: transition its record and
    /// compute the launch the shell must perform.
    pub fn begin_start_service(&mut self, name: &String) -> (r: Result<
        StartDecision,
        DiakonosError,
    >)
        requires
            old(self).wf(),
        ensures
            final(self).wf(),
            !old(self).has_name(name@) ==> ((r matches Err(e) && (e
                matches DiakonosError::ServiceNotFound(m) && m@ == name@)) && *final(self)
                == *old(self)),
            old(self).has_name(name@) ==> (r matches Ok(d) && ({
                let i = old(self).spec_index_of(name@);
                let before = old(self).services@[i];
                let after = final(self).services@[i];
                &&& old(self).updated_record(*final(self), i)
                &&& after.restart_count == before.restart_count
                &&& (before.state == ServiceState::Running ==> d is AlreadyRunning && after
                    == before)
                &&& (before.state != ServiceState::Running && exec_start_tokens(
                    before.unit,
                ).len() == 0 ==> ((d matches StartDecision::Rejected(e) && (e
                    matches DiakonosError::StartError(m2) && m2@ == "Empty ExecStart"@))
                    && after.state == ServiceState::Failed && after.pid is None
                    && !after.handle_present && after.running_iff_tracked()))
                &&& (before.state != ServiceState::Running && exec_start_tokens(
                    before.unit,
                ).len() > 0 ==> ((d matches StartDecision::Launch(req) && is_launch_for(
                    req,
                    before.unit,
                )) && after.state == ServiceState::Starting && after.pid == before.pid
                    && after.handle_present == before.handle_present))
            })),
    {
        match self.find_index(name) {
            None => Err(DiakonosError::ServiceNotFound(name.clone())),
            Some(i) => {
                proof {
                    lemma_index_of(*self, i as int);
                }
                let d = self.services[i].begin_start();
                proof {
                    lemma_update_keeps_wf(*old(self), *self, i as int);
                }
                Ok(d)
            },
        }
    }

    /// The second half of starting one service: record the spawn outcome.
    pub fn complete_start_service(&mut self, name: &String, outcome: Result<u32, String>) -> (r:
        Result<(), DiakonosError>)
        requires
            old(self).wf(),
        ensures
            final(self).wf(),
            !old(self).has_name(name@) ==> ((r matches Err(e) && (e
                matches DiakonosError::ServiceNotFound(m) && m@ == name@)) && *final(self)
                == *old(self)),
            old(self).has_name(name@) ==> ({
                let i = old(self).spec_index_of(name@);
                let before = old(self).services@[i];
                let after = final(self).services@[i];
                &&& old(self).updated_record(*final(self), i)
                &&& after.restart_count == before.restart_count
                &&& after.running_iff_tracked()
                &&& (outcome matches Ok(p) ==> after.state == ServiceState::Running && after.pid
                    == Some(p) && after.handle_present && r is Ok)
                &&& (outcome matches Err(m) ==> after.state == ServiceState::Failed
                    && after.pid is None && !after.handle_present && r == Result::<
                    (),
                    DiakonosError,
                >::Err(DiakonosError::StartError(m)))
            }),
    {
        match self.find_index(name) {
            None => Err(DiakonosError::ServiceNotFound(name.clone())),
            Some(i) => {
                proof {
                    lemma_index_of(*self, i as int);
                }
                let r = self.services[i].complete_start(outcome);
                proof {
                    lemma_update_keeps_wf(*old(self), *self, i as int);
                }
                r
            },
        }
    }

    /// The first half of stopping one service: transition its record and
    /// tell the shell what to run and signal.
    pub fn begin_stop_service(&mut self, name: &String) -> (r: Result<
        StopDecision,
        DiakonosError,
    >)
        requires
            old(self).wf(),
        ensures
            final(self).wf(),
            !old(self).has_name(name@) ==> ((r matches Err(e) && (e
                matches DiakonosError::ServiceNotFound(m) && m@ == name@)) && *final(self)
                == *old(self)),
            old(self).has_name(name@) ==> (r matches Ok(d) && ({
                let i = old(self).spec_index_of(name@);
                let before = old(self).services@[i];
                let after = final(self).services@[i];
                &&& old(self).updated_record(*final(self), i)
                &&& after.pid == before.pid
                &&& after.handle_present == before.handle_present
                &&& after.restart_count == before.restart_count
                &&& (before.state == ServiceState::Stopped ==> d is AlreadyStopped && after
                    == before)
                &&& (before.state != ServiceState::Stopped ==> after.state
                    == ServiceState::Stopping && (d matches StopDecision::Proceed {
                    stop_command,
                    pid,
                } && pid == before.pid && (if exec_stop_tokens(before.unit).len() > 0 {
                    stop_command matches Some(req) && is_stop_launch_for(req, before.unit)
                } else {
                    stop_command is None
                })))
            })),
    {
        match self.find_index(name) {
            None => Err(DiakonosError::ServiceNotFound(name.clone())),
            Some(i) => {
                proof {
                    lemma_index_of(*self, i as int);
                }
                let d = self.services[i].begin_stop();
                proof {
                    lemma_update_keeps_wf(*old(self), *self, i as int);
                }
                Ok(d)
            },
        }
    }

    /// The last step of stopping one service: force its record to `Stopped`
    /// with nothing tracked.
    pub fn finish_stop_service(&mut self, name: &String) -> (r: Result<(), DiakonosError>)
        requires
            old(self).wf(),
        ensures
            final(self).wf(),
            !old(self).has_name(name@) ==> ((r matches Err(e) && (e
                matches DiakonosError::ServiceNotFound(m) && m@ == name@)) && *final(self)
                == *old(self)),
            old(self).has_name(name@) ==> r is Ok && ({
                let i = old(self).spec_index_of(name@);
                let after = final(self).services@[i];
                &&& old(self).updated_record(*final(self), i)
                &&& after.restart_count == old(self).services@[i].restart_count
                &&& after.state == ServiceState::Stopped
                &&& after.pid is None
                &&& !after.handle_present
                &&& after.running_iff_tracked()
            }),
    {
        match self.find_index(name) {
            None => Err(DiakonosError::ServiceNotFound(name.clone())),
            Some(i) => {
                proof {
                    lemma_index_of(*self, i as int);
                }
                self.services[i].finish_stop();
                proof {
                    lemma_update_keeps_wf(*old(self), *self, i as int);
                }
                Ok(())
            },
        }
    }

    /// Applies one reconciliation observation to one record, returning the
    /// state it settles in.  A record without a tracked child is left as it
    /// is, mirroring that only attached children are polled.
    pub fn apply_poll_outcome(&mut self, name: &String, outcome: PollOutcome) -> (r: Result<
        ServiceState,
        DiakonosError,
    >)
        requires
            old(self).wf(),
        ensures
            final(self).wf(),
            !old(self).has_name(name@) ==> ((r matches Err(e) && (e
                matches DiakonosError::ServiceNotFound(m) && m@ == name@)) && *final(self)
                == *old(self)),
            old(self).has_name(name@) ==> ({
                let i = old(self).spec_index_of(name@);
                let before = old(self).services@[i];
                let after = final(self).services@[i];
                &&& old(self).updated_record(*final(self), i)
                &&& after.restart_count == before.restart_count
                &&& r == Result::<ServiceState, DiakonosError>::Ok(after.state)
                &&& (!before.handle_present ==> after == before)
                &&& (before.handle_present ==> {
                    &&& (outcome == PollOutcome::ExitedSuccess ==> after.state
                        == ServiceState::Stopped && after.pid is None && !after.handle_present)
                    &&& (outcome == PollOutcome::ExitedFailure ==> after.state
                        == ServiceState::Failed && after.pid is None && !after.handle_present)
                    &&& (outcome == PollOutcome::ProbeFailed ==> after.state
                        == ServiceState::Failed && after.pid is None && !after.handle_present)
                    &&& (outcome == PollOutcome::StillRunning ==> after.state
                        == ServiceState::Running && after.pid == before.pid
                        && after.handle_present == before.handle_present)
                    &&& after.running_iff_tracked()
                })
            }),
    {
        match self.find_index(name) {
            None => Err(DiakonosError::ServiceNotFound(name.clone())),
            Some(i) => {
                proof {
                    lemma_index_of(*self, i as int);
                }
                if self.services[i].handle_present {
                    self.services[i].apply_poll(outcome);
                }
                let state = self.services[i].state;
                proof {
                    lemma_update_keeps_wf(*old(self), *self, i as int);
                    if !old(self).services@[i as int].handle_present {
                        assert(final(self).services@ =~= old(self).services@.update(
                            i as int,
                            final(self).services@[i as int],
                        ));
                    }
                }
                Ok(state)
            },
        }
    }

    /// Whether the restart policy asks for a re-activation of this record
    /// now, and with what delay in seconds.
    pub fn restart_decision(&self, name: &String) -> (r: Result<Option<u64>, DiakonosError>)
        requires
            self.wf(),
        ensures
            !self.has_name(name@) ==> (r matches Err(e) && (e
                matches DiakonosError::ServiceNotFound(m) && m@ == name@)),
            self.has_name(name@) ==> r == Result::<Option<u64>, DiakonosError>::Ok(
                if self.record_of(name@).spec_should_restart() {
                    Some(self.record_of(name@).unit.spec_restart_delay_secs())
                } else {
                    Option::<u64>::None
                },
            ),
    {
        match self.find_index(name) {
            None => Err(DiakonosError::ServiceNotFound(name.clone())),
            Some(i) => {
                proof {
                    lemma_index_of(*self, i as int);
                }
                if self.services[i].should_restart() {
                    Ok(Some(self.services[i].get_restart_delay()))
                } else {
                    Ok(None)
                }
            },
        }
    }

    /// The delayed-restart re-entry: if the record is still terminal
    /// (`Stopped` or `Failed`), count the automatic restart and begin the
    /// start path again; otherwise leave it alone.
    pub fn begin_auto_restart(&mut self, name: &String) -> (r: Result<
        Option<StartDecision>,
        DiakonosError,
    >)
        requires
            old(self).wf(),
        ensures
            final(self).wf(),
            !old(self).has_name(name@) ==> ((r matches Err(e) && (e
                matches DiakonosError::ServiceNotFound(m) && m@ == name@)) && *final(self)
                == *old(self)),
            old(self).has_name(name@) ==> ({
                let i = old(self).spec_index_of(name@);
                let before = old(self).services@[i];
                let after = final(self).services@[i];
                &&& old(self).updated_record(*final(self), i)
                &&& (!(before.state == ServiceState::Stopped || before.state
                    == ServiceState::Failed) ==> r == Result::<
                    Option<StartDecision>,
                    DiakonosError,
                >::Ok(None) && after == before)
                &&& ((before.state == ServiceState::Stopped || before.state
                    == ServiceState::Failed) ==> (r matches Ok(opt) && (opt matches Some(d) && ({
                    &&& after.restart_count as int == (if before.restart_count < 0xffff_ffffu32 {
                        before.restart_count + 1
                    } else {
                        before.restart_count as int
                    })
                    &&& (exec_start_tokens(before.unit).len() == 0 ==> ((d
                        matches StartDecision::Rejected(e) && (e
                        matches DiakonosError::StartError(m2) && m2@ == "Empty ExecStart"@))
                        && after.state == ServiceState::Failed && after.pid is None
                        && !after.handle_present && after.running_iff_tracked()))
                    &&& (exec_start_tokens(before.unit).len() > 0 ==> ((d
                        matches StartDecision::Launch(req) && is_launch_for(req, before.unit))
                        && after.state == ServiceState::Starting && after.pid == before.pid
                        && after.handle_present == before.handle_present))
                }))))
            }),
    {
        match self.find_index(name) {
            None => Err(DiakonosError::ServiceNotFound(name.clone())),
            Some(i) => {
                proof {
                    lemma_index_of(*self, i as int);
                }
                let state = self.services[i].state;
                if state == ServiceState::Stopped || state == ServiceState::Failed {
                    if self.services[i].restart_count < 0xffff_ffffu32 {
                        let c = self.services[i].restart_count;
                        self.services[i].restart_count = c + 1;
                    }
                    let d = self.services[i].begin_start();
                    proof {
                        lemma_update_keeps_wf(*old(self), *self, i as int);
                    }
                    Ok(Some(d))
                } else {
                    proof {
                        assert(final(self).services@ =~= old(self).services@.update(
                            i as int,
                            final(self).services@[i as int],
                        ));
                    }
                    Ok(None)
                }
            },
        }
    }
}

/// Under `wf`, the index a linear search finds is the one `spec_index_of`
/// names.
pub proof fn lemma_index_of(m: ServiceManager, i: int)
    requires
        m.wf(),
        0 <= i < m.services@.len(),
    ensures
        m.has_name(m.services@[i].unit.name@),
        m.spec_index_of(m.services@[i].unit.name@) == i,
{
    let n = m.services@[i].unit.name@;
    assert(m.has_name(n));
    let k = m.spec_index_of(n);
    assert(0 <= k < m.services@.len() && m.services@[k].unit.name@ == n);
    if k < i {
        assert(m.services@[k].unit.name@ != m.services@[i].unit.name@);
    } else if i < k {
        assert(m.services@[i].unit.name@ != m.services@[k].unit.name@);
    }
}

/// An update that keeps a record's unit and consistency keeps the registry
/// consistent.
proof fn lemma_update_keeps_wf(pre: ServiceManager, post: ServiceManager, i: int)
    requires
        pre.wf(),
        0 <= i < pre.services@.len(),
        post.services@.len() == pre.services@.len(),
        forall|j: int|
            0 <= j < pre.services@.len() && j != i ==> post.services@[j] == pre.services@[j],
        post.services@[i].unit == pre.services@[i].unit,
        post.services@[i].wf(),
    ensures
        post.wf(),
        post.services@ == pre.services@.update(i, post.services@[i]),
{
    assert(post.services@ =~= pre.services@.update(i, post.services@[i]));
    assert forall|p: int, q: int| 0 <= p < q < post.services@.len() implies post.services@[
        p
    ].unit.name@ != post.services@[q].unit.name@ by {
        assert(pre.services@[p].unit.name@ != pre.services@[q].unit.name@);
    }
    assert forall|p: int| 0 <= p < post.services@.len() implies (#[trigger] post.services@[
        p
    ]).wf() by {
        if p != i {
            assert(pre.services@[p].wf());
        }
    }
}

} // verus!
