use melda_tools::chain::chain_history;
use melda_tools::chain::RevisionLink;
use melda_tools::errors::ToolError;

fn link(id: &str, parent: Option<&str>) -> RevisionLink {
    RevisionLink { id: id.to_string(), parent: parent.map(|p| p.to_string()) }
}

#[test]
fn three_sequential_revisions_emit_newest_first() {
    let table = vec![
        link("r3", Some("r2")),
        link("r2", Some("r1")),
        link("r1", None),
    ];
    let out = chain_history(&table, &"r3".to_string()).unwrap();
    assert_eq!(out, vec!["r3".to_string(), "r2".to_string(), "r1".to_string()]);
}

#[test]
fn walk_can_start_mid_chain() {
    let table = vec![
        link("r3", Some("r2")),
        link("r2", Some("r1")),
        link("r1", None),
    ];
    let out = chain_history(&table, &"r2".to_string()).unwrap();
    assert_eq!(out, vec!["r2".to_string(), "r1".to_string()]);
}

#[test]
fn single_revision_chain_emits_one_identifier() {
    let table = vec![link("r1", None)];
    let out = chain_history(&table, &"r1".to_string()).unwrap();
    assert_eq!(out, vec!["r1".to_string()]);
}

#[test]
fn five_sequential_revisions_emit_five_identifiers() {
    let table = vec![
        link("r5", Some("r4")),
        link("r4", Some("r3")),
        link("r3", Some("r2")),
        link("r2", Some("r1")),
        link("r1", None),
    ];
    let out = chain_history(&table, &"r5".to_string()).unwrap();
    assert_eq!(out.len(), 5);
    assert_eq!(out[0], "r5");
    assert_eq!(out[4], "r1");
}

#[test]
fn unknown_start_is_refused() {
    let table = vec![link("r1", None)];
    let e = chain_history(&table, &"r9".to_string()).unwrap_err();
    assert!(matches!(e, ToolError::UnknownObject(_)));
}

#[test]
fn empty_table_knows_no_object() {
    let table: Vec<RevisionLink> = Vec::new();
    let e = chain_history(&table, &"r1".to_string()).unwrap_err();
    assert!(matches!(e, ToolError::UnknownObject(_)));
}
