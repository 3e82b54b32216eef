use melda_tools::conflict::check_in_conflict;
use melda_tools::conflict::choose_winner;
use melda_tools::conflict::describe_commit;
use melda_tools::conflict::CommitReport;
use melda_tools::conflict::ObjectConflictState;
use melda_tools::errors::ToolError;

fn state(winner: &str, conflicting: &[&str]) -> ObjectConflictState {
    ObjectConflictState {
        winner: winner.to_string(),
        conflicting: conflicting.iter().map(|s| s.to_string()).collect(),
    }
}

#[test]
fn object_in_conflict_set_passes_the_gate() {
    let set = vec!["x".to_string(), "y".to_string()];
    assert!(check_in_conflict(&set, &"y".to_string()).is_ok());
}

#[test]
fn object_outside_conflict_set_is_no_conflict() {
    let set = vec!["x".to_string()];
    let e = check_in_conflict(&set, &"z".to_string()).unwrap_err();
    assert!(matches!(e, ToolError::NoConflict));
}

#[test]
fn empty_conflict_set_refuses_everything() {
    let set: Vec<String> = Vec::new();
    let e = check_in_conflict(&set, &"x".to_string()).unwrap_err();
    assert!(matches!(e, ToolError::NoConflict));
}

#[test]
fn no_request_uses_the_engine_winner() {
    let s = state("ra", &["rb"]);
    let w = choose_winner(&s, &None).unwrap();
    assert_eq!(w, "ra");
}

#[test]
fn member_of_conflicting_set_is_a_valid_winner() {
    let s = state("ra", &["rb", "rc"]);
    let w = choose_winner(&s, &Some("rb".to_string())).unwrap();
    assert_eq!(w, "rb");
}

#[test]
fn the_engine_winner_itself_is_a_valid_winner() {
    let s = state("ra", &["rb"]);
    let w = choose_winner(&s, &Some("ra".to_string())).unwrap();
    assert_eq!(w, "ra");
}

#[test]
fn unrelated_revision_is_an_invalid_winner() {
    let s = state("ra", &["rb"]);
    let e = choose_winner(&s, &Some("rz".to_string())).unwrap_err();
    assert!(matches!(e, ToolError::InvalidWinnerChoice));
}

#[test]
fn commit_without_anchors_reports_nothing_to_commit() {
    let r = describe_commit(None);
    assert!(matches!(r, CommitReport::NothingToCommit));
}

#[test]
fn commit_with_anchors_reports_them() {
    let r = describe_commit(Some(vec!["b1".to_string()]));
    match r {
        CommitReport::Committed(v) => assert_eq!(v, vec!["b1".to_string()]),
        CommitReport::NothingToCommit => panic!("expected a committed report"),
    }
}
