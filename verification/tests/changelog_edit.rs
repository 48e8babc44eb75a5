use prsm::changelog::{insert_before_first_heading, ChangelogError};

#[test]
fn insert_goes_before_latest_version() {
    let data = b"# Changelog\n\n## 1.0.0\n- old\n".to_vec();
    let changes = b"## 1.1.0\n- new\n\n".to_vec();

    let out = insert_before_first_heading(&data, &changes).unwrap();
    assert_eq!(out, b"# Changelog\n\n## 1.1.0\n- new\n\n## 1.0.0\n- old\n".to_vec());
}

#[test]
fn document_without_version_heading_is_rejected() {
    let data = b"# Changelog\nnothing released yet\n".to_vec();
    let changes = b"## 1.0.0\n".to_vec();

    let out = insert_before_first_heading(&data, &changes);
    assert!(matches!(out, Err(ChangelogError::MissingVersionHeading)));
}

#[test]
fn empty_document_is_rejected() {
    let out = insert_before_first_heading(&Vec::new(), &b"## 1.0.0\n".to_vec());
    assert!(matches!(out, Err(ChangelogError::MissingVersionHeading)));
}

#[test]
fn heading_at_start_inserts_at_start() {
    let data = b"## 0.1.0\n".to_vec();
    let changes = b"## 0.2.0\n".to_vec();

    let out = insert_before_first_heading(&data, &changes).unwrap();
    assert_eq!(out, b"## 0.2.0\n## 0.1.0\n".to_vec());
}
