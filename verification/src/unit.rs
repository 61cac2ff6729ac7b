//! The in-memory unit model: the fields of a parsed unit file that the
//! supervisor consumes, and its two derived dependency views.

use vstd::prelude::*;

verus! {

/// The declared service type.  Parsed and stored; the supervisor does not
/// act on it.
#[derive(Debug, Clone, Copy, PartialEq, Eq, Structural)]
pub enum ServiceType {
    Simple,
    Forking,
    Oneshot,
}

impl Default for ServiceType {
    fn default() -> (r: Self)
        ensures
            r == ServiceType::Simple,
    {
        ServiceType::Simple
    }
}

/// The rule deciding whether a terminal transition schedules a delayed
/// re-activation.
#[derive(Debug, Clone, Copy, PartialEq, Eq, Structural)]
pub enum RestartPolicy {
    Always,
    OnFailure,
    No,
}

impl Default for RestartPolicy {
    fn default() -> (r: Self)
        ensures
            r == RestartPolicy::No,
    {
        RestartPolicy::No
    }
}

/// The `Unit` section of a unit file.
#[derive(Debug, Clone)]
pub struct UnitSection {
    pub description: Option<String>,
    pub after: Option<Vec<String>>,
    pub requires_list: Option<Vec<String>>,
    pub wants: Option<Vec<String>>,
}

/// The `Service` section of a unit file.
#[derive(Debug, Clone)]
pub struct ServiceSection {
    pub service_type: Option<ServiceType>,
    pub exec_start: String,
    pub exec_stop: Option<String>,
    pub restart: Option<RestartPolicy>,
    pub restart_sec: Option<u64>,
    pub working_directory: Option<String>,
    pub environment: Option<Vec<String>>,
    pub user: Option<String>,
}

/// One loaded unit file.  Immutable after load; `name` is the file stem and
/// identifies the service within the registry.
#[derive(Debug, Clone)]
pub struct UnitFile {
    pub unit: UnitSection,
    pub service: ServiceSection,
    pub name: String,
}

/// Copies the strings of `src` onto the end of `dst`.
fn append_string_vec(dst: &mut Vec<String>, src: &Vec<String>)
    ensures
        final(dst).deep_view() == old(dst).deep_view() + src.deep_view(),
{
    let mut i: usize = 0;
    proof {
        assert(dst.deep_view() + src.deep_view().take(0) =~~= dst.deep_view());
    }
    while i < src.len()
        invariant
            i <= src.len(),
            dst.deep_view() == old(dst).deep_view() + src.deep_view().take(i as int),
        decreases src.len() - i,
    {
        let ghost prev = dst.deep_view();
        let item = src[i].clone();
        proof {
            assert(item@ == src.deep_view()[i as int]);
        }
        dst.push(item);
        proof {
            assert(dst.deep_view() =~~= prev.push(src.deep_view()[i as int]));
            assert(dst.deep_view() =~~= old(dst).deep_view() + src.deep_view().take(i + 1));
        }
        i = i + 1;
    }
    proof {
        assert(src.deep_view().take(src.deep_view().len() as int) =~= src.deep_view());
    }
}

impl UnitFile {
    /// The names listed under `Requires`, in file order.
    pub open spec fn requires_seq(self) -> Seq<Seq<char>> {
        match self.unit.requires_list {
            Some(v) => v.deep_view(),
            None => Seq::empty(),
        }
    }

    /// The names listed under `Wants`, in file order.
    pub open spec fn wants_seq(self) -> Seq<Seq<char>> {
        match self.unit.wants {
            Some(v) => v.deep_view(),
            None => Seq::empty(),
        }
    }

    /// The names listed under `After`, in file order.
    pub open spec fn after_seq(self) -> Seq<Seq<char>> {
        match self.unit.after {
            Some(v) => v.deep_view(),
            None => Seq::empty(),
        }
    }

    /// The activation dependencies: `Requires` followed by `Wants`, order
    /// preserved and duplicates allowed.
    pub open spec fn activation_deps(self) -> Seq<Seq<char>> {
        self.requires_seq() + self.wants_seq()
    }

    /// The restart rule, defaulting to `No` when the file declares none.
    pub open spec fn spec_restart_policy(self) -> RestartPolicy {
        match self.service.restart {
            Some(p) => p,
            None => RestartPolicy::No,
        }
    }

    /// The restart delay in seconds, defaulting to five.
    pub open spec fn spec_restart_delay_secs(self) -> u64 {
        match self.service.restart_sec {
            Some(n) => n,
            None => 5,
        }
    }

    /// The dependencies whose activation this unit triggers:
    /// `Requires` then `Wants`.
    pub fn dependencies(&self) -> (r: Vec<String>)
        ensures
            r.deep_view() == self.activation_deps(),
    {
        let mut deps: Vec<String> = Vec::new();
        match &self.unit.requires_list {
            Some(v) => {
                append_string_vec(&mut deps, v);
            },
            None => {},
        }
        match &self.unit.wants {
            Some(v) => {
                append_string_vec(&mut deps, v);
            },
            None => {},
        }
        proof {
            assert(deps.deep_view() =~~= self.activation_deps());
        }
        deps
    }

    /// The ordering-only dependencies (`After`).  Exposed, not acted on.
    pub fn ordering_dependencies(&self) -> (r: Vec<String>)
        ensures
            r.deep_view() == self.after_seq(),
    {
        let mut deps: Vec<String> = Vec::new();
        match &self.unit.after {
            Some(v) => {
                append_string_vec(&mut deps, v);
            },
            None => {},
        }
        proof {
            assert(deps.deep_view() =~~= self.after_seq());
        }
        deps
    }

    /// The restart rule, defaulting to `No`.
    pub fn restart_policy(&self) -> (r: RestartPolicy)
        ensures
            r == self.spec_restart_policy(),
    {
        match self.service.restart {
            Some(p) => p,
            None => RestartPolicy::No,
        }
    }

    /// The restart delay in seconds, defaulting to five.
    pub fn restart_delay_secs(&self) -> (r: u64)
        ensures
            r == self.spec_restart_delay_secs(),
    {
        match self.service.restart_sec {
            Some(n) => n,
            None => 5,
        }
    }
}

} // verus!
