use melda_tools::revid::check_revision_id;

#[test]
fn first_revision_shape_is_accepted() {
    assert!(check_revision_id(&"1-abc".to_string()));
}

#[test]
fn full_revision_shape_is_accepted() {
    assert!(check_revision_id(
        &"2-d_e5d1d20".to_string()
    ));
    assert!(check_revision_id(
        &"3-97b7a6993ee290384d32087608174bbab48de824406166f8b78c24a3bf1e1a1c_986c918".to_string()
    ));
}

#[test]
fn mixed_word_characters_are_accepted() {
    assert!(check_revision_id(&"10-Ab_z9".to_string()));
}

#[test]
fn largest_index_is_accepted() {
    assert!(check_revision_id(&"4294967295-x".to_string()));
}

#[test]
fn index_above_the_limit_is_rejected() {
    assert!(!check_revision_id(&"4294967296-x".to_string()));
}

#[test]
fn leading_zeros_count_by_value() {
    assert!(check_revision_id(&"0000000001-x".to_string()));
    assert!(!check_revision_id(&"0004294967296-x".to_string()));
}

#[test]
fn empty_digest_is_rejected() {
    assert!(!check_revision_id(&"1-".to_string()));
}

#[test]
fn missing_index_is_rejected() {
    assert!(!check_revision_id(&"-abc".to_string()));
}

#[test]
fn missing_dash_is_rejected() {
    assert!(!check_revision_id(&"abc".to_string()));
    assert!(!check_revision_id(&"123".to_string()));
}

#[test]
fn second_dash_is_rejected() {
    assert!(!check_revision_id(&"1-ab-c".to_string()));
}

#[test]
fn empty_string_is_rejected() {
    assert!(!check_revision_id(&"".to_string()));
}

#[test]
fn non_word_characters_are_rejected() {
    assert!(!check_revision_id(&"1-a b".to_string()));
    assert!(!check_revision_id(&"1-a.b".to_string()));
}
