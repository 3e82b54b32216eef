//! End-to-end tests against the real storage engine over in-memory backends.

use melda_tools::conflict::CommitReport;
use melda_tools::errors::ToolError;
use melda_tools::graph::BlockRole;
use melda_tools::workflow::build_commit_info;
use melda_tools::workflow::commit_changes;
use melda_tools::workflow::inspect_conflicts;
use melda_tools::workflow::log_blocks;
use melda_tools::workflow::object_value;
use melda_tools::workflow::open_repository;
use melda_tools::workflow::resolve_all;
use melda_tools::workflow::resolve_object;
use melda_tools::workflow::resolve_single;
use melda_tools::workflow::revision_history;

use serde_json::Value;

fn mem() -> melda::melda::Melda {
    open_repository(&"memory://".to_string(), None).unwrap()
}

fn obj(key: &str, val: &str) -> serde_json::Map<String, Value> {
    let mut m = serde_json::Map::new();
    m.insert(key.to_string(), Value::from(val));
    m
}

#[test]
fn unsupported_scheme_fails_before_any_io() {
    let e = match open_repository(&"ftp://somewhere".to_string(), None) {
        Ok(_) => panic!("expected a refusal"),
        Err(e) => e,
    };
    assert!(matches!(e, ToolError::UnsupportedBackend));
}

#[test]
fn malformed_locator_fails_before_any_io() {
    let e = match open_repository(&"no separator".to_string(), None) {
        Ok(_) => panic!("expected a refusal"),
        Err(e) => e,
    };
    assert!(matches!(e, ToolError::InvalidLocator));
}

#[test]
fn bulk_resolution_with_no_conflicts_commits_nothing_twice() {
    let mut m = mem();
    m.create_object("doc", obj("k", "v")).unwrap();
    m.commit(None).unwrap();
    // First bulk run: nothing in conflict, nothing staged.
    let r1 = resolve_all(&mut m).unwrap();
    assert!(r1.outcomes.is_empty());
    assert!(matches!(r1.commit, CommitReport::NothingToCommit));
    // Second run right after: same empty outcome.
    let r2 = resolve_all(&mut m).unwrap();
    assert!(r2.outcomes.is_empty());
    assert!(matches!(r2.commit, CommitReport::NothingToCommit));
}

#[test]
fn object_not_in_conflict_is_refused_with_no_commit() {
    let mut m = mem();
    m.create_object("doc", obj("k", "v")).unwrap();
    m.commit(None).unwrap();
    let e = resolve_object(&mut m, &"doc".to_string(), &None).unwrap_err();
    assert!(matches!(e, ToolError::NoConflict));
    // Nothing was staged by the refused resolution.
    assert!(m.commit(None).unwrap().is_none());
}

/// Two replicas write the same object concurrently, then meld.
fn conflicted_pair() -> (melda::melda::Melda, String, String) {
    let m1 = mem();
    m1.create_object("shared", obj("k", "first")).unwrap();
    let w1 = m1.get_winner("shared").unwrap();
    m1.commit(None).unwrap();
    let mut m2 = mem();
    m2.create_object("shared", obj("k", "second")).unwrap();
    let w2 = m2.get_winner("shared").unwrap();
    m2.commit(None).unwrap();
    m2.meld(&m1).unwrap();
    m2.refresh().unwrap();
    (m2, w1, w2)
}

#[test]
fn melding_concurrent_edits_reports_a_conflict() {
    let (m, w1, w2) = conflicted_pair();
    let reports = inspect_conflicts(&m).unwrap();
    assert_eq!(reports.len(), 1);
    assert_eq!(reports[0].object_id, "shared");
    assert_eq!(reports[0].conflicting.len(), 1);
    let winner = &reports[0].winner.revision;
    let loser = &reports[0].conflicting[0].revision;
    assert!(winner == &w1 || winner == &w2);
    assert!(loser == &w1 || loser == &w2);
    assert_ne!(winner, loser);
    // Each side shows the value recorded at that revision.
    assert!(reports[0].winner.value.contains("\"k\""));
    assert!(reports[0].conflicting[0].value.contains("\"k\""));
}

#[test]
fn explicit_winner_from_the_conflicting_set_succeeds() {
    let (mut m, _, _) = conflicted_pair();
    let reports = inspect_conflicts(&m).unwrap();
    let loser = reports[0].conflicting[0].revision.clone();
    let previous = reports[0].winner.revision.clone();
    let s = resolve_single(&mut m, &"shared".to_string(), &Some(loser.clone())).unwrap();
    assert_eq!(s.outcome.object_id, "shared");
    assert_eq!(s.outcome.previous_winner, previous);
    // The resolution recorded a new revision superseding both sides.
    assert_ne!(s.outcome.new_revision, loser);
    assert_ne!(s.outcome.new_revision, previous);
    assert!(matches!(s.commit, CommitReport::Committed(_)));
    assert!(m.in_conflict().is_empty());
}

#[test]
fn unrelated_winner_is_refused_and_leaves_the_conflict() {
    let (mut m, _, _) = conflicted_pair();
    let e = resolve_object(&mut m, &"shared".to_string(), &Some("1-zzzz".to_string()))
        .unwrap_err();
    assert!(matches!(e, ToolError::InvalidWinnerChoice));
    // The repository still reports the conflict, and nothing was staged.
    assert!(m.in_conflict().contains("shared"));
    assert!(m.commit(None).unwrap().is_none());
}

#[test]
fn resolving_without_a_request_records_the_engine_winner() {
    let (mut m, _, _) = conflicted_pair();
    let winner = m.get_winner("shared").unwrap();
    let s = resolve_single(&mut m, &"shared".to_string(), &None).unwrap();
    assert_eq!(s.outcome.previous_winner, winner);
    assert!(m.in_conflict().is_empty());
}

#[test]
fn bulk_resolution_clears_every_conflict() {
    let (mut m, _, _) = conflicted_pair();
    let r = resolve_all(&mut m).unwrap();
    assert_eq!(r.outcomes.len(), 1);
    assert_eq!(r.outcomes[0].object_id, "shared");
    assert!(matches!(r.commit, CommitReport::Committed(_)));
    assert!(m.in_conflict().is_empty());
    // Running bulk resolution again finds nothing to do.
    let again = resolve_all(&mut m).unwrap();
    assert!(again.outcomes.is_empty());
    assert!(matches!(again.commit, CommitReport::NothingToCommit));
}

#[test]
fn history_of_three_sequential_revisions_runs_newest_first() {
    let m = mem();
    m.create_object("doc", obj("k", "one")).unwrap();
    let r1 = m.get_winner("doc").unwrap();
    m.update_object("doc", obj("k", "two")).unwrap();
    let r2 = m.get_winner("doc").unwrap();
    m.update_object("doc", obj("k", "three")).unwrap();
    let r3 = m.get_winner("doc").unwrap();
    let h = revision_history(&m, &"doc".to_string(), usize::MAX).unwrap();
    assert_eq!(h, vec![r3, r2, r1]);
}

#[test]
fn history_of_an_unknown_object_is_refused() {
    let m = mem();
    let e = revision_history(&m, &"ghost".to_string(), usize::MAX).unwrap_err();
    assert!(matches!(e, ToolError::UnknownObject(_)));
}

#[test]
fn value_of_the_winner_matches_what_was_written() {
    let m = mem();
    let payload = obj("k", "v");
    m.create_object("doc", payload.clone()).unwrap();
    let expected = serde_json::to_string(&Value::from(payload)).unwrap();
    let got = object_value(&m, &"doc".to_string(), &None).unwrap();
    assert_eq!(got, expected);
}

#[test]
fn value_at_an_old_revision_shows_the_old_content() {
    let m = mem();
    let first = obj("k", "old");
    m.create_object("doc", first.clone()).unwrap();
    let r1 = m.get_winner("doc").unwrap();
    m.update_object("doc", obj("k", "new")).unwrap();
    let expected = serde_json::to_string(&Value::from(first)).unwrap();
    let got = object_value(&m, &"doc".to_string(), &Some(r1)).unwrap();
    assert_eq!(got, expected);
}

#[test]
fn malformed_revision_is_refused_before_the_engine() {
    let m = mem();
    m.create_object("doc", obj("k", "v")).unwrap();
    let e = object_value(&m, &"doc".to_string(), &Some("no dash".to_string())).unwrap_err();
    assert!(matches!(e, ToolError::UnknownRevision(_)));
}

#[test]
fn log_of_a_diamond_prints_each_block_exactly_once() {
    // O is committed on one replica; two replicas extend it independently
    // with A and B; melding and committing H joins them.
    let mut m1 = mem();
    m1.create_object("base", obj("k", "origin")).unwrap();
    let o = m1.commit(None).unwrap().unwrap().into_iter().next().unwrap();
    let mut m2 = mem();
    m2.meld(&m1).unwrap();
    m2.refresh().unwrap();
    m1.create_object("left", obj("k", "a")).unwrap();
    let a = m1.commit(None).unwrap().unwrap().into_iter().next().unwrap();
    m2.create_object("right", obj("k", "b")).unwrap();
    let b = m2.commit(None).unwrap().unwrap().into_iter().next().unwrap();
    m1.meld(&m2).unwrap();
    m1.refresh().unwrap();
    m1.create_object("top", obj("k", "h")).unwrap();
    let h = m1.commit(None).unwrap().unwrap().into_iter().next().unwrap();

    let out = log_blocks(&m1, None, usize::MAX);
    let ids: Vec<String> = out.iter().map(|r| r.block.id.clone()).collect();
    assert_eq!(out.len(), 4);
    assert_eq!(ids[0], h);
    assert!(ids.contains(&a));
    assert!(ids.contains(&b));
    assert_eq!(ids[3], o);
    assert_eq!(out[0].role, BlockRole::Anchor);
    assert_eq!(out[1].role, BlockRole::Intermediate);
    assert_eq!(out[2].role, BlockRole::Intermediate);
    assert_eq!(out[3].role, BlockRole::Origin);
    // H records both A and B as parents; O is reached through both yet
    // printed once.
    let parents = out[0].block.parents.clone().unwrap();
    assert!(parents.contains(&a));
    assert!(parents.contains(&b));
}

#[test]
fn log_from_an_explicit_block_walks_only_its_ancestry() {
    let m = mem();
    m.create_object("doc", obj("k", "one")).unwrap();
    let first = m.commit(None).unwrap().unwrap().into_iter().next().unwrap();
    m.update_object("doc", obj("k", "two")).unwrap();
    let second = m.commit(None).unwrap().unwrap().into_iter().next().unwrap();
    let from_first = log_blocks(&m, Some(&first), usize::MAX);
    assert_eq!(from_first.len(), 1);
    assert_eq!(from_first[0].block.id, first);
    let from_second = log_blocks(&m, Some(&second), usize::MAX);
    assert_eq!(from_second.len(), 2);
    assert_eq!(from_second[0].block.id, second);
    assert_eq!(from_second[1].block.id, first);
}

#[test]
fn log_of_an_absent_block_is_empty() {
    let m = mem();
    m.create_object("doc", obj("k", "v")).unwrap();
    m.commit(None).unwrap();
    let out = log_blocks(&m, Some(&"missing".to_string()), usize::MAX);
    assert!(out.is_empty());
}

#[test]
fn commit_metadata_appears_in_the_block_record() {
    let m = mem();
    m.create_object("doc", obj("k", "v")).unwrap();
    let info = build_commit_info(
        &Some("someone".to_string()),
        &Some("first change".to_string()),
    )
    .unwrap();
    let mut map = serde_json::Map::new();
    for (k, v) in info {
        map.insert(k, Value::from(v));
    }
    let ids = m.commit(Some(map)).unwrap().unwrap();
    let id = ids.into_iter().next().unwrap();
    let out = log_blocks(&m, Some(&id), usize::MAX);
    assert_eq!(out.len(), 1);
    let info_json = out[0].block.info_json.clone().unwrap();
    assert!(info_json.contains("someone"));
    assert!(info_json.contains("first change"));
}

#[test]
fn commit_with_nothing_staged_reports_nothing_to_commit() {
    let mut m = mem();
    let r = commit_changes(&mut m).unwrap();
    assert!(matches!(r, CommitReport::NothingToCommit));
}

#[test]
fn build_commit_info_keeps_the_given_pairs_in_order() {
    assert!(build_commit_info(&None, &None).is_none());
    let a = build_commit_info(&Some("me".to_string()), &None).unwrap();
    assert_eq!(a, vec![("author".to_string(), "me".to_string())]);
    let d = build_commit_info(&None, &Some("why".to_string())).unwrap();
    assert_eq!(d, vec![("description".to_string(), "why".to_string())]);
    let both = build_commit_info(&Some("me".to_string()), &Some("why".to_string())).unwrap();
    assert_eq!(
        both,
        vec![
            ("author".to_string(), "me".to_string()),
            ("description".to_string(), "why".to_string()),
        ]
    );
}
