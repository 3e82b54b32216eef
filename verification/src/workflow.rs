//! Operations against an open repository.
//!
//! Each operation fetches engine state through the trusted wrappers, makes
//! its decisions in verified code, and reports plain values. What the engine
//! reports depends on the repository's stored state, so every function here
//! is verified for every value the wrappers can return.

use vstd::prelude::*;

use melda::melda::Melda;

use crate::conflict::check_in_conflict;
use crate::conflict::choose_winner;
use crate::conflict::describe_commit;
use crate::conflict::seq_contains_str;
use crate::conflict::vec_contains;
use crate::conflict::CommitReport;
use crate::conflict::ObjectConflictState;
use crate::conflict::ResolutionOutcome;
use crate::errors::ToolError;
use crate::graph::spec_role;
use crate::graph::BlockRecord;
use crate::graph::BlockRole;
use crate::locator::locator_ok;
use crate::locator::parse_locator;
use crate::locator::scheme_known;
use crate::locator::scheme_of;
use crate::locator::shape_ok;
use crate::revid::check_revision_id;
use crate::revid::is_revision_id;
use crate::trusted::engine_anchors;
use crate::trusted::engine_commit_pending;
use crate::trusted::engine_get_block;
use crate::trusted::engine_get_conflicting;
use crate::trusted::engine_get_value_json;
use crate::trusted::engine_get_winner;
use crate::trusted::engine_in_conflict;
use crate::trusted::engine_open;
use crate::trusted::engine_open_until;
use crate::trusted::engine_parent_revision;
use crate::trusted::engine_resolve_as;

verus! {

/// Opens the repository a locator names, optionally bounded to the history
/// up to one anchor block. The locator is parsed and classified before any
/// backend is touched: a malformed or unsupported locator is refused with no
/// side effects.
pub fn open_repository(locator: &String, until_block: Option<&String>) -> (r: Result<
    Melda,
    ToolError,
>)
    ensures
        !locator_ok(locator@) ==> (r matches Err(e) && (e is InvalidLocator
            || e is UnsupportedBackend) && ((e is UnsupportedBackend) <==> (shape_ok(locator@)
            && !scheme_known(scheme_of(locator@))))),
        locator_ok(locator@) ==> (r matches Err(e) ==> (e is AdapterInitFailed
            || e is RepositoryInitFailed)),
        r matches Err(e) ==> e.is_startup_error(),
{
    match parse_locator(locator) {
        Ok(_) => {},
        Err(e) => {
            return Err(e);
        },
    }
    match until_block {
        Option::Some(anchor) => engine_open_until(locator, anchor),
        Option::None => engine_open(locator),
    }
}

/// The identifier entered the traversal legitimately: it stands in the
/// frontier, or some earlier record lists it as a parent.
pub open spec fn from_traversal(
    frontier: Seq<String>,
    out: Seq<BlockRecord>,
    bound: int,
    id: Seq<char>,
) -> bool {
    seq_contains_str(frontier, id) || exists|j: int|
        0 <= j < bound && j < out.len() && ((#[trigger] out[j]).block.parents matches Some(ps)
            && seq_contains_str(ps@, id))
}

/// Walks the repository's stored provenance breadth-first from `frontier`,
/// fetching each block from the engine, printing none twice: the visited set
/// is checked before every fetch, so diamond shapes neither duplicate output
/// nor loop. Identifiers whose block is absent from storage are skipped
/// silently and stop their branch. Each record is classified against
/// `anchors`, and every reported identifier comes from the frontier or from
/// the parent set of an earlier record. At most `max_blocks` identifiers are
/// examined; a caller that passes `usize::MAX` exhausts any graph that fits
/// in memory.
pub fn walk_live(m: &Melda, frontier: &Vec<String>, anchors: &Vec<String>, max_blocks: usize) -> (
    out: Vec<BlockRecord>)
    ensures
        forall|i: int, j: int|
            0 <= i < j < out@.len() ==> (#[trigger] out@[i]).block.id@ != (
            #[trigger] out@[j]).block.id@,
        forall|i: int|
            0 <= i < out@.len() ==> (#[trigger] out@[i]).role == spec_role(
                anchors@,
                out@[i].block,
            ),
        forall|i: int|
            0 <= i < out@.len() ==> from_traversal(frontier@, out@, i, (
            #[trigger] out@[i]).block.id@),
{
    let mut queue: Vec<String> = crate::graph::clone_string_vec(frontier);
    let mut visited: Vec<String> = Vec::new();
    let mut out: Vec<BlockRecord> = Vec::new();
    let mut steps: usize = 0;
    proof {
        assert forall|k: int| 0 <= k < queue@.len() implies from_traversal(
            frontier@,
            out@,
            out@.len() as int,
            (#[trigger] queue@[k])@,
        ) by {
            assert((frontier@[k])@ == (queue@[k])@);
        }
    }
    while queue.len() > 0 && steps < max_blocks
        invariant
            steps <= max_blocks,
            forall|i: int, j: int|
                0 <= i < j < visited@.len() ==> (#[trigger] visited@[i])@ != (
                #[trigger] visited@[j])@,
            forall|i: int, j: int|
                0 <= i < j < out@.len() ==> (#[trigger] out@[i]).block.id@ != (
                #[trigger] out@[j]).block.id@,
            forall|i: int|
                0 <= i < out@.len() ==> seq_contains_str(visited@, (#[trigger] out@[i]).block.id@),
            forall|i: int|
                0 <= i < out@.len() ==> (#[trigger] out@[i]).role == spec_role(
                    anchors@,
                    out@[i].block,
                ),
            forall|i: int|
                0 <= i < out@.len() ==> from_traversal(frontier@, out@, i, (
                #[trigger] out@[i]).block.id@),
            forall|k: int|
                0 <= k < queue@.len() ==> from_traversal(frontier@, out@, out@.len() as int, (
                #[trigger] queue@[k])@),
        decreases max_blocks - steps,
    {
        steps = steps + 1;
        let ghost oq = queue@;
        let id = queue.remove(0);
        proof {
            assert(id == oq[0]);
            assert(queue@ =~= oq.subrange(1, oq.len() as int));
            assert(from_traversal(frontier@, out@, out@.len() as int, id@));
            assert forall|k: int| 0 <= k < queue@.len() implies from_traversal(
                frontier@,
                out@,
                out@.len() as int,
                (#[trigger] queue@[k])@,
            ) by {
                assert((oq[k + 1])@ == (queue@[k])@);
            }
        }
        if !vec_contains(&visited, &id) {
            let ghost ov = visited@;
            let ghost oq2 = queue@;
            let ghost oout = out@;
            match engine_get_block(m, &id) {
                Option::Some(b) => {
                    let in_anchors = vec_contains(anchors, &id);
                    let role = if in_anchors {
                        BlockRole::Anchor
                    } else {
                        match &b.parents {
                            Option::Some(_) => BlockRole::Intermediate,
                            Option::None => BlockRole::Origin,
                        }
                    };
                    match &b.parents {
                        Option::Some(ps) => {
                            crate::graph::push_all(&mut queue, ps);
                        },
                        Option::None => {},
                    }
                    let rec = BlockRecord { role, block: b };
                    proof {
                        assert(rec.role == spec_role(anchors@, rec.block));
                    }
                    out.push(rec);
                    visited.push(id);
                    proof {
                        assert((visited@[visited@.len() - 1])@ == id@);
                        assert(seq_contains_str(visited@, id@));
                        assert forall|x: Seq<char>| seq_contains_str(ov, x) implies seq_contains_str(
                            visited@,
                            x,
                        ) by {
                            let k = choose|k: int| 0 <= k < ov.len() && (ov[k])@ == x;
                            assert((visited@[k])@ == x);
                        }
                        // The old queue entries and records keep their
                        // traversal witnesses; the new parents point at the
                        // new record; the new record's identifier came off
                        // the queue.
                        assert forall|i: int|
                            0 <= i < out@.len() implies from_traversal(frontier@, out@, i, (
                            #[trigger] out@[i]).block.id@) by {
                            if i < oout.len() {
                                assert(out@[i] == oout[i]);
                                assert(from_traversal(frontier@, oout, i, (oout[i]).block.id@));
                                if !seq_contains_str(frontier@, (oout[i]).block.id@) {
                                    let j = choose|j: int|
                                        0 <= j < i && j < oout.len() && ((
                                        #[trigger] oout[j]).block.parents matches Some(ps2)
                                            && seq_contains_str(ps2@, (oout[i]).block.id@));
                                    assert(out@[j] == oout[j]);
                                }
                            } else {
                                assert(out@[i] == rec);
                                if !seq_contains_str(frontier@, id@) {
                                    let j = choose|j: int|
                                        0 <= j < oout.len() && ((
                                        #[trigger] oout[j]).block.parents matches Some(ps2)
                                            && seq_contains_str(ps2@, id@));
                                    assert(out@[j] == oout[j]);
                                }
                            }
                        }
                        assert forall|k: int| 0 <= k < queue@.len() implies from_traversal(
                            frontier@,
                            out@,
                            out@.len() as int,
                            (#[trigger] queue@[k])@,
                        ) by {
                            if k < oq2.len() {
                                assert((queue@[k])@ == (oq2[k])@);
                                assert(from_traversal(frontier@, oout, oout.len() as int, (
                                oq2[k])@));
                                if !seq_contains_str(frontier@, (oq2[k])@) {
                                    let j = choose|j: int|
                                        0 <= j < oout.len() && ((
                                        #[trigger] oout[j]).block.parents matches Some(ps2)
                                            && seq_contains_str(ps2@, (oq2[k])@));
                                    assert(out@[j] == oout[j]);
                                }
                            } else {
                                // A parent pushed by the new record.
                                match rec.block.parents {
                                    Option::Some(ps2) => {
                                        assert((queue@[k])@ == (ps2@[k - oq2.len()])@);
                                        assert(seq_contains_str(ps2@, (queue@[k])@));
                                        assert(0 <= oout.len() < out@.len() && ((
                                        out@[oout.len() as int]).block.parents matches Some(ps3)
                                            && seq_contains_str(ps3@, (queue@[k])@)));
                                    },
                                    Option::None => {
                                        assert(queue@.len() == oq2.len());
                                    },
                                }
                            }
                        }
                    }
                },
                Option::None => {
                    visited.push(id);
                    proof {
                        assert forall|x: Seq<char>| seq_contains_str(ov, x) implies seq_contains_str(
                            visited@,
                            x,
                        ) by {
                            let k = choose|k: int| 0 <= k < ov.len() && (ov[k])@ == x;
                            assert((visited@[k])@ == x);
                        }
                        assert forall|k: int| 0 <= k < queue@.len() implies from_traversal(
                            frontier@,
                            out@,
                            out@.len() as int,
                            (#[trigger] queue@[k])@,
                        ) by {
                            assert((queue@[k])@ == (oq2[k])@);
                        }
                    }
                },
            }
        }
    }
    out
}

/// The provenance report of the repository: a breadth-first walk from the
/// named block, or from the full current anchor set when none is named, each
/// reachable block printed exactly once with its classification. With a
/// named start, every record is the named block itself or a parent named by
/// an earlier record. The roles are classified against the anchor set this
/// function fetches from the engine, which this signature does not expose;
/// `walk_live` states the classification relative to a given anchor set.
#[verifier::rlimit(80)]
pub fn log_blocks(m: &Melda, start: Option<&String>, max_blocks: usize) -> (out: Vec<BlockRecord>)
    ensures
        forall|i: int, j: int|
            0 <= i < j < out@.len() ==> (#[trigger] out@[i]).block.id@ != (
            #[trigger] out@[j]).block.id@,
        start matches Some(b) ==> forall|i: int|
            0 <= i < out@.len() ==> ((#[trigger] out@[i]).block.id@ == b@ || exists|j: int|
                0 <= j < i && ((#[trigger] out@[j]).block.parents matches Some(ps)
                    && seq_contains_str(ps@, out@[i].block.id@))),
{
    let anchors = engine_anchors(m);
    match start {
        Option::Some(b) => {
            let mut frontier: Vec<String> = Vec::new();
            frontier.push(b.clone());
            let out = walk_live(m, &frontier, &anchors, max_blocks);
            proof {
                assert forall|i: int|
                    0 <= i < out@.len() implies ((#[trigger] out@[i]).block.id@ == b@ || exists|
                    j: int|
                    0 <= j < i && ((#[trigger] out@[j]).block.parents matches Some(ps)
                        && seq_contains_str(ps@, out@[i].block.id@))) by {
                    assert(from_traversal(frontier@, out@, i, out@[i].block.id@));
                    if seq_contains_str(frontier@, out@[i].block.id@) {
                        let k = choose|k: int|
                            0 <= k < frontier@.len() && (frontier@[k])@ == out@[i].block.id@;
                        assert((frontier@[0])@ == b@);
                    } else {
                        let j = choose|j: int|
                            0 <= j < i && j < out@.len() && ((
                            #[trigger] out@[j]).block.parents matches Some(ps)
                                && seq_contains_str(ps@, out@[i].block.id@));
                        assert(0 <= j < i && ((out@[j]).block.parents matches Some(ps)
                            && seq_contains_str(ps@, out@[i].block.id@)));
                    }
                }
            }
            out
        },
        Option::None => {
            let frontier = crate::graph::clone_string_vec(&anchors);
            walk_live(m, &frontier, &anchors, max_blocks)
        },
    }
}

/// One revision together with the object value it denotes, serialized.
#[derive(Debug)]
pub struct RevisionValue {
    pub revision: String,
    pub value: String,
}

/// The conflict state of one object, for display: the engine's winner and
/// every competing revision, each with its materialized value.
#[derive(Debug)]
pub struct ConflictReport {
    pub object_id: String,
    pub winner: RevisionValue,
    pub conflicting: Vec<RevisionValue>,
}

/// Builds the conflict report for each listed object: its winner with the
/// winning value, and every conflicting revision with its value. An empty
/// list always succeeds with an empty report. A stored revision whose
/// identifier does not follow the revision grammar is refused with
/// `UnknownRevision` rather than handed back to the engine, whose parser
/// could read it as a different revision.
pub fn conflict_reports(m: &Melda, uuids: &Vec<String>) -> (r: Result<
    Vec<ConflictReport>,
    ToolError,
>)
    ensures
        uuids@.len() == 0 ==> r is Ok,
        r matches Ok(v) ==> v@.len() == uuids@.len() && forall|i: int|
            0 <= i < v@.len() ==> (#[trigger] v@[i]).object_id@ == uuids@[i]@,
        r matches Err(e) ==> (e is UnknownObject || e is UnknownRevision),
{
    let mut reports: Vec<ConflictReport> = Vec::new();
    let mut i: usize = 0;
    while i < uuids.len()
        invariant
            0 <= i <= uuids@.len(),
            reports@.len() == i,
            forall|j: int| 0 <= j < i ==> (#[trigger] reports@[j]).object_id@ == uuids@[j]@,
        decreases uuids.len() - i,
    {
        let uuid = &uuids[i];
        let winner = match engine_get_winner(m, uuid) {
            Ok(w) => w,
            Err(e) => {
                return Err(e);
            },
        };
        if !check_revision_id(&winner) {
            return Err(ToolError::UnknownRevision(winner));
        }
        let winner_value = match engine_get_value_json(m, uuid, &winner) {
            Ok(v) => v,
            Err(e) => {
                return Err(e);
            },
        };
        let conflicting = match engine_get_conflicting(m, uuid) {
            Ok(c) => c,
            Err(e) => {
                return Err(e);
            },
        };
        let mut entries: Vec<RevisionValue> = Vec::new();
        let mut k: usize = 0;
        while k < conflicting.len()
            invariant
                0 <= k <= conflicting@.len(),
                uuids@.len() > 0,
            decreases conflicting.len() - k,
        {
            if !check_revision_id(&conflicting[k]) {
                return Err(ToolError::UnknownRevision(conflicting[k].clone()));
            }
            let value = match engine_get_value_json(m, uuid, &conflicting[k]) {
                Ok(v) => v,
                Err(e) => {
                    return Err(e);
                },
            };
            entries.push(RevisionValue { revision: conflicting[k].clone(), value });
            k = k + 1;
        }
        reports.push(
            ConflictReport {
                object_id: uuid.clone(),
                winner: RevisionValue { revision: winner, value: winner_value },
                conflicting: entries,
            },
        );
        i = i + 1;
    }
    Ok(reports)
}

/// The conflict report of every object currently in conflict.
pub fn inspect_conflicts(m: &Melda) -> (r: Result<Vec<ConflictReport>, ToolError>)
    ensures
        r matches Err(e) ==> (e is UnknownObject || e is UnknownRevision),
{
    let uuids = engine_in_conflict(m);
    conflict_reports(m, &uuids)
}

/// Resolves one object, without committing.
///
/// The object must be in the engine's current conflict set, else `NoConflict`
/// and no mutation. An explicit requested winner must equal the engine's
/// winner or be a member of the conflicting set, else `InvalidWinnerChoice`
/// and no mutation; with no request the engine's winner is recorded
/// authoritatively — so no request is never refused as an invalid choice —
/// which clears the conflict without changing content. A chosen revision
/// whose stored identifier does not follow the revision grammar is refused
/// with `UnknownRevision` before any mutation, because the engine's parser
/// could read it as a different revision.
pub fn resolve_object(m: &mut Melda, uuid: &String, requested: &Option<String>) -> (r: Result<
    ResolutionOutcome,
    ToolError,
>)
    ensures
        r matches Ok(o) ==> o.object_id@ == uuid@,
        r matches Err(e) ==> (e is NoConflict || e is InvalidWinnerChoice || e is UnknownObject
            || e is UnknownRevision || e is ResolutionFailed),
        requested is None ==> (r matches Err(e) ==> !(e is InvalidWinnerChoice)),
{
    let in_conflict = engine_in_conflict(m);
    match check_in_conflict(&in_conflict, uuid) {
        Ok(_) => {},
        Err(e) => {
            return Err(e);
        },
    }
    let winner = match engine_get_winner(m, uuid) {
        Ok(w) => w,
        Err(e) => {
            return Err(e);
        },
    };
    let conflicting = match engine_get_conflicting(m, uuid) {
        Ok(c) => c,
        Err(e) => {
            return Err(e);
        },
    };
    let state = ObjectConflictState { winner, conflicting };
    let chosen = match choose_winner(&state, requested) {
        Ok(w) => w,
        Err(e) => {
            return Err(e);
        },
    };
    if !check_revision_id(&chosen) {
        return Err(ToolError::UnknownRevision(chosen));
    }
    let new_revision = match engine_resolve_as(m, uuid, &chosen) {
        Ok(w) => w,
        Err(e) => {
            return Err(e);
        },
    };
    Ok(
        ResolutionOutcome {
            object_id: uuid.clone(),
            new_revision,
            previous_winner: state.winner,
        },
    )
}

/// Resolves each listed object to its own engine-computed winner, without
/// committing: one outcome per listed object, in order. An empty list always
/// succeeds and resolves nothing. The first per-object failure halts the
/// batch; a winner whose stored identifier does not follow the revision
/// grammar halts it with `UnknownRevision` before that object is touched.
pub fn resolve_listed(m: &mut Melda, uuids: &Vec<String>) -> (r: Result<
    Vec<ResolutionOutcome>,
    ToolError,
>)
    ensures
        uuids@.len() == 0 ==> r is Ok,
        r matches Ok(v) ==> v@.len() == uuids@.len() && forall|i: int|
            0 <= i < v@.len() ==> (#[trigger] v@[i]).object_id@ == uuids@[i]@,
        r matches Err(e) ==> (e is UnknownObject || e is UnknownRevision
            || e is ResolutionFailed),
{
    let mut outcomes: Vec<ResolutionOutcome> = Vec::new();
    let mut i: usize = 0;
    while i < uuids.len()
        invariant
            0 <= i <= uuids@.len(),
            outcomes@.len() == i,
            forall|j: int| 0 <= j < i ==> (#[trigger] outcomes@[j]).object_id@ == uuids@[j]@,
        decreases uuids.len() - i,
    {
        let winner = match engine_get_winner(m, &uuids[i]) {
            Ok(w) => w,
            Err(e) => {
                return Err(e);
            },
        };
        if !check_revision_id(&winner) {
            return Err(ToolError::UnknownRevision(winner));
        }
        let new_revision = match engine_resolve_as(m, &uuids[i], &winner) {
            Ok(w) => w,
            Err(e) => {
                return Err(e);
            },
        };
        outcomes.push(
            ResolutionOutcome {
                object_id: uuids[i].clone(),
                new_revision,
                previous_winner: winner,
            },
        );
        i = i + 1;
    }
    Ok(outcomes)
}

/// Commits everything staged as one atomic batch and reports the outcome:
/// the single new anchor block, or "nothing to commit" when nothing was
/// staged. A failed commit means nothing was persisted.
pub fn commit_changes(m: &mut Melda) -> (r: Result<CommitReport, ToolError>)
    ensures
        r matches Ok(c) ==> (c matches CommitReport::Committed(v) ==> v@.len() == 1),
        r matches Err(e) ==> e is CommitFailed,
{
    match engine_commit_pending(m) {
        Ok(o) => Ok(describe_commit(o)),
        Err(e) => Err(e),
    }
}

/// The outcome of a single-object resolution: the recorded resolution and
/// the commit that persisted it.
#[derive(Debug)]
pub struct SingleResolution {
    pub outcome: ResolutionOutcome,
    pub commit: CommitReport,
}

/// The outcome of bulk resolution: every recorded resolution and the one
/// commit that persisted the batch.
#[derive(Debug)]
pub struct BulkResolution {
    pub outcomes: Vec<ResolutionOutcome>,
    pub commit: CommitReport,
}

/// Resolves one object and commits the result as one operation. Validation
/// failures stop the workflow before any mutation; a commit failure means
/// nothing was persisted.
pub fn resolve_single(m: &mut Melda, uuid: &String, requested: &Option<String>) -> (r: Result<
    SingleResolution,
    ToolError,
>)
    ensures
        r matches Ok(s) ==> s.outcome.object_id@ == uuid@ && (s.commit matches
            CommitReport::Committed(v) ==> v@.len() == 1),
        r matches Err(e) ==> (e is NoConflict || e is InvalidWinnerChoice || e is UnknownObject
            || e is UnknownRevision || e is ResolutionFailed || e is CommitFailed),
{
    let outcome = match resolve_object(m, uuid, requested) {
        Ok(o) => o,
        Err(e) => {
            return Err(e);
        },
    };
    match commit_changes(m) {
        Ok(commit) => Ok(SingleResolution { outcome, commit }),
        Err(e) => Err(e),
    }
}

/// Resolves every object currently in conflict to its own engine-computed
/// winner and commits the whole batch as one operation: all resolutions
/// precede the single commit, so callers see all of them persisted or none.
/// The batch is all-or-nothing: the first per-object failure halts it before
/// the commit. With an empty conflict set nothing is resolved and the commit
/// reports nothing to commit, so running bulk resolution again right after a
/// successful run commits nothing and is idempotent.
pub fn resolve_all(m: &mut Melda) -> (r: Result<BulkResolution, ToolError>)
    ensures
        r matches Ok(b) ==> (b.commit matches CommitReport::Committed(v) ==> v@.len() == 1),
        r matches Err(e) ==> (e is UnknownObject || e is UnknownRevision
            || e is ResolutionFailed || e is CommitFailed),
{
    let uuids = engine_in_conflict(m);
    let outcomes = match resolve_listed(m, &uuids) {
        Ok(v) => v,
        Err(e) => {
            return Err(e);
        },
    };
    match commit_changes(m) {
        Ok(commit) => Ok(BulkResolution { outcomes, commit }),
        Err(e) => Err(e),
    }
}

/// The object's revision history, newest first: its current winner, then
/// each parent revision in turn, ending at the origin revision. An unknown
/// object is refused with `UnknownObject`; a stored identifier that does not
/// follow the revision grammar, or an engine error along the chain, is
/// reported loudly rather than silently truncating the history. At most
/// `max_revisions` entries are emitted; a caller that passes `usize::MAX`
/// exhausts any chain.
pub fn revision_history(m: &Melda, object: &String, max_revisions: usize) -> (r: Result<
    Vec<String>,
    ToolError,
>)
    requires
        max_revisions >= 1,
    ensures
        r matches Ok(v) ==> 1 <= v@.len() <= max_revisions && forall|i: int|
            0 <= i < v@.len() ==> is_revision_id((#[trigger] v@[i])@),
        r matches Err(e) ==> (e is UnknownObject || e is UnknownRevision),
{
    let winner = match engine_get_winner(m, object) {
        Ok(w) => w,
        Err(e) => {
            return Err(e);
        },
    };
    if !check_revision_id(&winner) {
        return Err(ToolError::UnknownRevision(winner));
    }
    let mut out: Vec<String> = Vec::new();
    let mut cur = winner;
    let mut done = false;
    out.push(cur.clone());
    while !done && out.len() < max_revisions
        invariant
            1 <= out@.len() <= max_revisions,
            is_revision_id(cur@),
            forall|i: int| 0 <= i < out@.len() ==> is_revision_id((#[trigger] out@[i])@),
        decreases max_revisions - out@.len(), (if done {
            0int
        } else {
            1int
        }),
    {
        match engine_parent_revision(m, object, &cur) {
            Ok(Option::Some(p)) => {
                if !check_revision_id(&p) {
                    return Err(ToolError::UnknownRevision(p));
                }
                out.push(p.clone());
                cur = p;
            },
            Ok(Option::None) => {
                done = true;
            },
            Err(e) => {
                return Err(e);
            },
        }
    }
    Ok(out)
}

/// The serialized value of an object: at the named revision, or at the
/// current winner when none is named. A malformed named revision is refused
/// before the engine is asked; an unknown object is established first, so a
/// value failure after that concerns the revision.
pub fn object_value(m: &Melda, object: &String, revision: &Option<String>) -> (r: Result<
    String,
    ToolError,
>)
    ensures
        r matches Err(e) ==> (e is UnknownObject || e is UnknownRevision),
        revision matches Some(q) ==> (!is_revision_id(q@) ==> (r matches Err(e)
            && e is UnknownRevision)),
{
    match revision {
        Option::Some(rev) => {
            if !check_revision_id(rev) {
                return Err(ToolError::UnknownRevision(rev.clone()));
            }
            match engine_get_winner(m, object) {
                Ok(_) => {},
                Err(e) => {
                    return Err(e);
                },
            }
            engine_get_value_json(m, object, rev)
        },
        Option::None => {
            let winner = match engine_get_winner(m, object) {
                Ok(w) => w,
                Err(e) => {
                    return Err(e);
                },
            };
            if !check_revision_id(&winner) {
                return Err(ToolError::UnknownRevision(winner));
            }
            engine_get_value_json(m, object, &winner)
        },
    }
}

/// The commit metadata of an update: the author and description pairs, in
/// that order, or nothing when neither is given — an empty map is never
/// sent.
pub fn build_commit_info(author: &Option<String>, description: &Option<String>) -> (r: Option<
    Vec<(String, String)>,
>)
    ensures
        (author is None && description is None) <==> r is None,
        r matches Some(v) ==> v@.len() == ((if author is Some {
            1int
        } else {
            0int
        }) + (if description is Some {
            1int
        } else {
            0int
        })),
        author matches Some(a) ==> (r matches Some(v) && v@[0].0@ == "author"@ && v@[0].1@ == a@),
        description matches Some(d) ==> (r matches Some(v) && v@[v@.len() - 1].0@
            == "description"@ && v@[v@.len() - 1].1@ == d@),
{
    let mut pairs: Vec<(String, String)> = Vec::new();
    match author {
        Option::Some(a) => {
            pairs.push(("author".to_owned(), a.clone()));
        },
        Option::None => {},
    }
    match description {
        Option::Some(d) => {
            pairs.push(("description".to_owned(), d.clone()));
        },
        Option::None => {},
    }
    if pairs.len() == 0 {
        None
    } else {
        Some(pairs)
    }
}

} // verus!
