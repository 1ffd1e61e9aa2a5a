//! `start`: starting an instance, recreating its container if it was
//! removed.

use vstd::prelude::*;
use crate::text::{decimal, owned, push_decimal, str_eq};

verus! {

/// Result of `start`.
#[derive(Clone, Debug)]
pub struct StartOutput {
    pub name: String,
    pub port: u16,
}

/// `Instance '<name>' started on port <port>.`
pub open spec fn start_output_text(o: StartOutput) -> Seq<char> {
    "Instance '"@ + o.name@ + "' started on port "@ + decimal(o.port as nat) + "."@
}

impl StartOutput {
    /// The line printed after `start`.
    pub fn to_text(&self) -> (r: String)
        ensures
            r@ == start_output_text(*self),
    {
        let mut r = owned("Instance '");
        r.push_str(self.name.as_str());
        r.push_str("' started on port ");
        push_decimal(&mut r, self.port as u64);
        r.push_str(".");
        r
    }
}

/// What `start` has to do for an instance, given the containers that exist.
#[derive(Clone, Copy, Debug, PartialEq, Eq, Structural)]
pub enum StartAction {
    /// Its container is running already.
    AlreadyRunning,
    /// Its container exists and is started again.
    StartExisting,
    /// It has no container; one is created from its metadata.
    Recreate,
}

/// The action for instance `name`, given (instance, state) pairs of the
/// existing containers: running if any of its containers is `running`,
/// else start it if it has one, else recreate it.
pub open spec fn start_action_for(containers: Seq<(String, String)>, name: Seq<char>) -> StartAction {
    if exists|i: int| 0 <= i < containers.len() && containers[i].0@ == name && containers[i].1@ == "running"@ {
        StartAction::AlreadyRunning
    } else if exists|i: int| 0 <= i < containers.len() && containers[i].0@ == name {
        StartAction::StartExisting
    } else {
        StartAction::Recreate
    }
}

/// Decides what `start` does for instance `name`.
pub fn start_action(containers: &Vec<(String, String)>, name: &str) -> (r: StartAction)
    ensures
        r == start_action_for(containers@, name@),
{
    let n: usize = containers.len();
    let mut i: usize = 0;
    let mut exists: bool = false;
    while i < n
        invariant
            n == containers@.len(),
            i <= n,
            forall|j: int| 0 <= j < i ==> !(containers@[j].0@ == name@ && containers@[j].1@ == "running"@),
            exists == (exists|j: int| 0 <= j < i && containers@[j].0@ == name@),
        decreases n - i,
    {
        let same = str_eq(containers[i].0.as_str(), name);
        if same && str_eq(containers[i].1.as_str(), "running") {
            return StartAction::AlreadyRunning;
        }
        if same {
            exists = true;
        }
        i = i + 1;
    }
    if exists {
        StartAction::StartExisting
    } else {
        StartAction::Recreate
    }
}

/// Whether a container of instance `name` is `running`, among (instance,
/// state) pairs of the existing containers.
pub fn instance_running(containers: &Vec<(String, String)>, name: &str) -> (r: bool)
    ensures
        r == exists|i: int| 0 <= i < containers@.len() && containers@[i].0@ == name@ && containers@[i].1@ == "running"@,
{
    start_action(containers, name) == StartAction::AlreadyRunning
}

} // verus!
