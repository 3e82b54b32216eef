use melda_tools::graph::walk_blocks;
use melda_tools::graph::BlockInfo;
use melda_tools::graph::BlockRole;

fn block(id: &str, parents: Option<&[&str]>) -> BlockInfo {
    BlockInfo {
        id: id.to_string(),
        info_json: None,
        packs: None,
        parents: parents.map(|ps| ps.iter().map(|p| p.to_string()).collect()),
    }
}

fn ids(out: &[melda_tools::graph::BlockRecord]) -> Vec<String> {
    out.iter().map(|r| r.block.id.clone()).collect()
}

#[test]
fn diamond_prints_each_block_exactly_once() {
    // H has parents A and B, which share the ancestor O.
    let g = vec![
        block("O", None),
        block("A", Some(&["O"])),
        block("B", Some(&["O"])),
        block("H", Some(&["A", "B"])),
    ];
    let anchors = vec!["H".to_string()];
    let frontier = vec!["H".to_string()];
    let out = walk_blocks(&g, &frontier, &anchors);
    assert_eq!(ids(&out), vec!["H", "A", "B", "O"]);
    assert_eq!(out[0].role, BlockRole::Anchor);
    assert_eq!(out[1].role, BlockRole::Intermediate);
    assert_eq!(out[2].role, BlockRole::Intermediate);
    assert_eq!(out[3].role, BlockRole::Origin);
}

#[test]
fn walk_from_the_anchor_set_covers_every_head() {
    let g = vec![
        block("O", None),
        block("A", Some(&["O"])),
        block("B", Some(&["O"])),
    ];
    let anchors = vec!["A".to_string(), "B".to_string()];
    let out = walk_blocks(&g, &anchors.clone(), &anchors);
    assert_eq!(ids(&out), vec!["A", "B", "O"]);
    assert_eq!(out[0].role, BlockRole::Anchor);
    assert_eq!(out[1].role, BlockRole::Anchor);
    assert_eq!(out[2].role, BlockRole::Origin);
}

#[test]
fn repeated_frontier_entries_do_not_duplicate_output() {
    let g = vec![block("O", None)];
    let frontier = vec!["O".to_string(), "O".to_string(), "O".to_string()];
    let anchors = vec!["O".to_string()];
    let out = walk_blocks(&g, &frontier, &anchors);
    assert_eq!(ids(&out), vec!["O"]);
}

#[test]
fn missing_block_stops_the_branch_silently() {
    // A names a parent the store does not hold.
    let g = vec![block("A", Some(&["gone"]))];
    let frontier = vec!["A".to_string()];
    let anchors = vec!["A".to_string()];
    let out = walk_blocks(&g, &frontier, &anchors);
    assert_eq!(ids(&out), vec!["A"]);
}

#[test]
fn missing_frontier_block_yields_no_output() {
    let g = vec![block("A", None)];
    let frontier = vec!["gone".to_string()];
    let anchors: Vec<String> = Vec::new();
    let out = walk_blocks(&g, &frontier, &anchors);
    assert!(out.is_empty());
}

#[test]
fn unreachable_blocks_stay_out_of_the_report() {
    let g = vec![
        block("O", None),
        block("A", Some(&["O"])),
        block("lone", None),
    ];
    let frontier = vec!["A".to_string()];
    let anchors = vec!["A".to_string()];
    let out = walk_blocks(&g, &frontier, &anchors);
    assert_eq!(ids(&out), vec!["A", "O"]);
}

#[test]
fn metadata_and_packs_are_carried_into_the_record() {
    let g = vec![BlockInfo {
        id: "X".to_string(),
        info_json: Some("{\"author\":\"someone\"}".to_string()),
        packs: Some(vec!["p1".to_string(), "p2".to_string()]),
        parents: None,
    }];
    let frontier = vec!["X".to_string()];
    let anchors: Vec<String> = Vec::new();
    let out = walk_blocks(&g, &frontier, &anchors);
    assert_eq!(out.len(), 1);
    assert_eq!(out[0].block.info_json.as_deref(), Some("{\"author\":\"someone\"}"));
    assert_eq!(
        out[0].block.packs,
        Some(vec!["p1".to_string(), "p2".to_string()])
    );
    assert_eq!(out[0].role, BlockRole::Origin);
}

#[test]
fn anchor_classification_wins_over_origin() {
    // A parentless block that is also an anchor is reported as an anchor.
    let g = vec![block("O", None)];
    let frontier = vec!["O".to_string()];
    let anchors = vec!["O".to_string()];
    let out = walk_blocks(&g, &frontier, &anchors);
    assert_eq!(out[0].role, BlockRole::Anchor);
}
