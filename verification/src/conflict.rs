//! The decision logic of the conflict resolution workflow.
//!
//! The engine reports which objects are in conflict, the winner it computed
//! for each, and the set of competing revisions. The functions here make the
//! workflow's decisions over those reported values: whether an object may be
//! resolved at all, which revision the resolution targets, and how a commit's
//! outcome is reported. They are pure, so they hold for every state the
//! engine can report.

use vstd::prelude::*;

use crate::errors::ToolError;

verus! {

/// Whether a sequence of strings contains `x`, compared by contents.
pub open spec fn seq_contains_str(v: Seq<String>, x: Seq<char>) -> bool {
    exists|i: int| 0 <= i < v.len() && v[i]@ == x
}

/// Decides `seq_contains_str` over a vector.
pub fn vec_contains(v: &Vec<String>, x: &String) -> (b: bool)
    ensures
        b == seq_contains_str(v@, x@),
{
    let mut i: usize = 0;
    while i < v.len()
        invariant
            0 <= i <= v.len(),
            forall|j: int| 0 <= j < i ==> v@[j]@ != x@,
        decreases v.len() - i,
    {
        if v[i] == *x {
            return true;
        }
        i = i + 1;
    }
    false
}

/// The engine-reported conflict state of one object: its current winner and
/// the set of competing revisions (the winner is not a member).
pub struct ObjectConflictState {
    pub winner: String,
    pub conflicting: Vec<String>,
}

/// The outcome of resolving one object.
#[derive(Debug)]
pub struct ResolutionOutcome {
    pub object_id: String,
    /// The revision recorded by the resolution.
    pub new_revision: String,
    /// The engine's winner before the resolution.
    pub previous_winner: String,
}

/// How a commit ended: a new anchor set was written, or nothing was staged.
#[derive(Debug)]
pub enum CommitReport {
    Committed(Vec<String>),
    NothingToCommit,
}

/// Gate of single-object resolution: the object must be in the reported
/// conflict set; otherwise the workflow stops before any mutation.
pub fn check_in_conflict(in_conflict: &Vec<String>, uuid: &String) -> (r: Result<(), ToolError>)
    ensures
        r is Ok <==> seq_contains_str(in_conflict@, uuid@),
        r matches Err(e) ==> e is NoConflict,
{
    if vec_contains(in_conflict, uuid) {
        Ok(())
    } else {
        Err(ToolError::NoConflict)
    }
}

/// Picks the revision a resolution will target.
///
/// With no explicit request the engine's winner is used, which records the
/// existing winner authoritatively. An explicit request is valid exactly when
/// it equals the engine's winner or is a member of the conflicting set;
/// anything else is refused with `InvalidWinnerChoice` before any mutation.
pub fn choose_winner(state: &ObjectConflictState, requested: &Option<String>) -> (r: Result<
    String,
    ToolError,
>)
    ensures
        requested is None ==> (r matches Ok(w) && w@ == state.winner@),
        requested matches Some(q) ==> ((r is Ok) <==> (q@ == state.winner@ || seq_contains_str(
            state.conflicting@,
            q@,
        ))),
        requested matches Some(q) ==> (r matches Ok(w) ==> w@ == q@),
        r matches Err(e) ==> e is InvalidWinnerChoice,
{
    match requested {
        Option::None => Ok(state.winner.clone()),
        Option::Some(q) => {
            if *q == state.winner || vec_contains(&state.conflicting, q) {
                Ok(q.clone())
            } else {
                Err(ToolError::InvalidWinnerChoice)
            }
        },
    }
}

/// Reports a commit's outcome: the new anchors when one was written, and
/// "nothing to commit" when the engine had nothing staged.
pub fn describe_commit(anchors: Option<Vec<String>>) -> (r: CommitReport)
    ensures
        anchors matches Some(v) ==> r matches CommitReport::Committed(w) && w@ == v@,
        anchors is None <==> r is NothingToCommit,
{
    match anchors {
        Option::Some(v) => CommitReport::Committed(v),
        Option::None => CommitReport::NothingToCommit,
    }
}

} // verus!
