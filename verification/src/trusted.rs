//! The trusted boundary to the CRDT storage engine.
//!
//! Everything the tool asks of the engine goes through the wrappers here.
//! Their contracts state only what the engine's own source shows, and what
//! they return depends on the repository's stored state, so the callers are
//! verified for every value that can come back. That includes the revision
//! strings the engine reports: its formatter prints an index, a dash, and the
//! stored digest, but nothing validates a digest loaded from disk, so no
//! wrapper claims a shape for them. The wrappers that hand a revision back to
//! the engine do require the well-formed shape: the engine re-parses the
//! string with an unanchored pattern, so a string outside the shape may abort
//! the process or silently name a different revision, while a well-formed one
//! parses exactly as written (its index fits `u32`, so the parse cannot
//! abort). The workflow checks the shape in verified code before every such
//! call.

use vstd::prelude::*;

use crate::errors::ToolError;
use crate::graph::BlockInfo;
use crate::locator::locator_ok;
use crate::revid::is_revision_id;

verus! {

/// The engine's repository handle. Opaque to the tool: every observation of
/// it goes through the wrappers below.
#[verifier::external_type_specification]
#[verifier::external_body]
pub struct ExMelda(melda::melda::Melda);

/// Relies on `melda::adapter::get_adapter`, which parses the locator with the
/// `url` crate — it aborts on strings that parser refuses, which the locator
/// grammar rules out — and constructs the backend, and on `Melda::new`, which
/// opens the repository against it and loads its blocks. Either failure is
/// carried through as a classified message; a filesystem bootstrap failure
/// aborts inside the engine, as an unrecoverable startup error.
#[verifier::external_body]
pub(crate) fn engine_open(url: &String) -> (r: Result<melda::melda::Melda, ToolError>)
    requires
        locator_ok(url@),
    ensures
        r matches Err(e) ==> (e is AdapterInitFailed || e is RepositoryInitFailed),
{
    let adapter = match melda::adapter::get_adapter(url) {
        Ok(a) => a,
        Err(e) => {
            return Err(ToolError::AdapterInitFailed(e.to_string()));
        },
    };
    match melda::melda::Melda::new(std::sync::Arc::new(std::sync::RwLock::new(adapter))) {
        Ok(m) => Ok(m),
        Err(e) => Err(ToolError::RepositoryInitFailed(e.to_string())),
    }
}

/// Relies on `melda::adapter::get_adapter` (see `engine_open`) and on
/// `Melda::new_until`, which loads the repository only up to the given
/// anchor block.
#[verifier::external_body]
pub(crate) fn engine_open_until(url: &String, anchor: &String) -> (r: Result<
    melda::melda::Melda,
    ToolError,
>)
    requires
        locator_ok(url@),
    ensures
        r matches Err(e) ==> (e is AdapterInitFailed || e is RepositoryInitFailed),
{
    let adapter = match melda::adapter::get_adapter(url) {
        Ok(a) => a,
        Err(e) => {
            return Err(ToolError::AdapterInitFailed(e.to_string()));
        },
    };
    let anchors = std::collections::BTreeSet::from([anchor.clone()]);
    match melda::melda::Melda::new_until(
        std::sync::Arc::new(std::sync::RwLock::new(adapter)),
        &anchors,
    ) {
        Ok(m) => Ok(m),
        Err(e) => Err(ToolError::RepositoryInitFailed(e.to_string())),
    }
}

/// Relies on `Melda::get_anchors`: the identifiers of the valid, applied
/// blocks that no block names as a parent — the current heads.
#[verifier::external_body]
pub(crate) fn engine_anchors(m: &melda::melda::Melda) -> (r: Vec<String>) {
    m.get_anchors().into_iter().collect()
}

/// Relies on `Melda::get_block`, a lookup in the engine's block table, which
/// keys every block by its own identifier; in this engine it cannot fail, and
/// an absent identifier comes back as `None`. The catch-all arm therefore
/// only covers the absent case today; an engine whose lookup could fail would
/// deserve a loud error here instead of the silent skip. The metadata map is
/// serialized with `serde_json::to_string`, as the report prints it.
#[verifier::external_body]
pub(crate) fn engine_get_block(m: &melda::melda::Melda, id: &String) -> (r: Option<BlockInfo>)
    ensures
        r matches Some(b) ==> b.id@ == id@,
{
    match m.get_block(id) {
        Ok(Some(b)) => {
            let info_json = match b.info {
                Some(i) => Some(serde_json::to_string(&serde_json::Value::from(i)).unwrap_or_default()),
                None => None,
            };
            let packs = b.packs.map(|p| p.into_iter().collect());
            let parents = b.parents.map(|p| p.into_iter().collect());
            Some(BlockInfo { id: id.clone(), info_json, packs, parents })
        },
        _ => None,
    }
}

/// Relies on `Melda::in_conflict`: the identifiers of the objects that have
/// more than one leaf revision.
#[verifier::external_body]
pub(crate) fn engine_in_conflict(m: &melda::melda::Melda) -> (r: Vec<String>) {
    m.in_conflict().into_iter().collect()
}

/// Relies on `Melda::get_winner`: the object's winning revision, rendered by
/// the engine's revision formatter. The digest part comes from storage
/// unvalidated, so no shape is claimed of the result. An unknown object or
/// one without a winner is an error.
#[verifier::external_body]
pub(crate) fn engine_get_winner(m: &melda::melda::Melda, uuid: &String) -> (r: Result<
    String,
    ToolError,
>)
    ensures
        r matches Err(e) ==> e is UnknownObject,
{
    match m.get_winner(uuid.as_str()) {
        Ok(w) => Ok(w),
        Err(e) => Err(ToolError::UnknownObject(e.to_string())),
    }
}

/// Relies on `Melda::get_conflicting`: the object's leaf revisions other than
/// the winner, rendered by the engine's revision formatter. As with the
/// winner, no shape is claimed of the elements.
#[verifier::external_body]
pub(crate) fn engine_get_conflicting(m: &melda::melda::Melda, uuid: &String) -> (r: Result<
    Vec<String>,
    ToolError,
>)
    ensures
        r matches Err(e) ==> e is UnknownObject,
{
    match m.get_conflicting(uuid.as_str()) {
        Ok(s) => Ok(s.into_iter().collect()),
        Err(e) => Err(ToolError::UnknownObject(e.to_string())),
    }
}

/// Relies on `Melda::get_value`, which materializes the object at the given
/// revision, and on `serde_json::to_string` for its display form. The shape
/// requirement keeps the engine's unanchored revision parser from aborting or
/// reading the string as a different revision. The engine reports an unknown
/// object and an unknown revision through one error type that cannot be told
/// apart without reading message text, so every failure is classified as a
/// revision failure; callers establish first that the object exists.
#[verifier::external_body]
pub(crate) fn engine_get_value_json(m: &melda::melda::Melda, uuid: &String, rev: &String) -> (r:
    Result<String, ToolError>)
    requires
        is_revision_id(rev@),
    ensures
        r matches Err(e) ==> e is UnknownRevision,
{
    match m.get_value(uuid.as_str(), Some(rev.as_str())) {
        Ok(v) => Ok(serde_json::to_string(&serde_json::Value::from(v)).unwrap_or_default()),
        Err(e) => Err(ToolError::UnknownRevision(e.to_string())),
    }
}

/// Relies on `Melda::resolve_as`, which makes the given revision the winner
/// and marks the other leaves resolved. The shape requirement keeps the
/// engine's unanchored revision parser from aborting or resolving to a
/// different revision than the one named; the engine refuses a revision that
/// is not a leaf of the object, so the workflow validates the choice first.
#[verifier::external_body]
pub(crate) fn engine_resolve_as(m: &mut melda::melda::Melda, uuid: &String, winner: &String) -> (r:
    Result<String, ToolError>)
    requires
        is_revision_id(winner@),
    ensures
        r matches Err(e) ==> e is ResolutionFailed,
{
    match m.resolve_as(uuid.as_str(), winner.as_str()) {
        Ok(w) => Ok(w),
        Err(e) => Err(ToolError::ResolutionFailed(e.to_string())),
    }
}

/// Relies on `Melda::commit` with no extra information: with nothing staged
/// it returns `None` and writes nothing; otherwise it persists one new block
/// and returns the singleton anchor set holding that block's identifier.
#[verifier::external_body]
pub(crate) fn engine_commit_pending(m: &mut melda::melda::Melda) -> (r: Result<
    Option<Vec<String>>,
    ToolError,
>)
    ensures
        r matches Ok(Some(v)) ==> v@.len() == 1,
        r matches Err(e) ==> e is CommitFailed,
{
    match m.commit(None) {
        Ok(Some(s)) => Ok(Some(s.into_iter().collect())),
        Ok(None) => Ok(None),
        Err(e) => Err(ToolError::CommitFailed(e.to_string())),
    }
}

/// Relies on `Melda::get_parent_revision`: the parent of the given revision
/// in the object's revision tree, or `None` at the origin. A parent is
/// rendered by the engine's revision formatter, with the digest unvalidated,
/// so no shape is claimed of it. The shape requirement on the given revision
/// keeps the engine's unanchored parser from aborting or reading it as a
/// different revision; an unknown object is an error.
#[verifier::external_body]
pub(crate) fn engine_parent_revision(m: &melda::melda::Melda, uuid: &String, rev: &String) -> (r:
    Result<Option<String>, ToolError>)
    requires
        is_revision_id(rev@),
    ensures
        r matches Err(e) ==> e is UnknownObject,
{
    match m.get_parent_revision(uuid.as_str(), rev.as_str()) {
        Ok(p) => Ok(p),
        Err(e) => Err(ToolError::UnknownObject(e.to_string())),
    }
}

} // verus!
