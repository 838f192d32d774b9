//! Per-environment install outcomes, used for the final summary alongside
//! the change ledger.

use vstd::prelude::*;
use crate::names::EnvironmentName;

verus! {

/// Why an install step changed nothing.
#[derive(Debug)]
pub enum NotChangedReason {
    AlreadyInstalled,
}

pub open spec fn not_changed_text(r: NotChangedReason) -> Seq<char> {
    "already installed"@
}

impl NotChangedReason {
    /// The reason as display text.
    pub fn as_str(&self) -> (r: &'static str)
        ensures
            r@ == not_changed_text(*self),
    {
        "already installed"
    }
}

/// Whether an install step actually changed an environment.
#[derive(Debug)]
pub enum EnvState {
    Installed,
    NotChanged(NotChangedReason),
}

pub open spec fn env_state_text(s: EnvState) -> Seq<char> {
    match s {
        EnvState::Installed => "installed"@,
        EnvState::NotChanged(r) => not_changed_text(r),
    }
}

impl EnvState {
    /// The state as display text.
    pub fn as_str(&self) -> (r: &'static str)
        ensures
            r@ == env_state_text(*self),
    {
        match self {
            EnvState::Installed => "installed",
            EnvState::NotChanged(reason) => reason.as_str(),
        }
    }
}

/// One environment's install outcome.
#[derive(Debug)]
pub struct EnvStateEntry {
    pub env: EnvironmentName,
    pub state: EnvState,
}

/// The install outcomes of one run, in the order the environments were
/// processed.
#[derive(Debug)]
pub struct EnvChanges {
    pub changes: Vec<EnvStateEntry>,
}

impl EnvChanges {
    pub fn new() -> (r: EnvChanges)
        ensures
            r.changes@.len() == 0,
    {
        EnvChanges { changes: Vec::new() }
    }
}

} // verus!
