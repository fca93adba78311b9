use bootc_verified::tmt::integration::FIELD_FRESH_INSTALL_DISK;
use bootc_verified::tmt::metadata::{metadata_blocks, parse_tmt_metadata, MetadataError};

#[test]
fn test_parse_tmt_metadata_basic() {
    let content = r#"# number: 1
# tmt:
#   summary: Execute booted readonly/nondestructive tests
#   duration: 30m
#
# Run all readonly tests in sequence
use tap.nu
"#;

    let metadata = parse_tmt_metadata(content).unwrap().unwrap();
    assert_eq!(metadata.number, 1);

    // Verify tmt fields are captured
    let tmt = metadata.tmt.as_mapping().unwrap();
    assert_eq!(
        tmt.get(&serde_yaml::Value::String("summary".to_string())),
        Some(&serde_yaml::Value::String(
            "Execute booted readonly/nondestructive tests".to_string()
        ))
    );
    assert_eq!(
        tmt.get(&serde_yaml::Value::String("duration".to_string())),
        Some(&serde_yaml::Value::String("30m".to_string()))
    );
}

#[test]
fn test_parse_tmt_metadata_with_adjust() {
    let content = r#"# number: 27
# tmt:
#   summary: Execute custom selinux policy test
#   duration: 30m
#   adjust:
#     - when: running_env != image_mode
#       enabled: false
#       because: these tests require features only available in image mode
#
use std assert
"#;

    let metadata = parse_tmt_metadata(content).unwrap().unwrap();
    assert_eq!(metadata.number, 27);

    // Verify adjust section is in tmt
    let tmt = metadata.tmt.as_mapping().unwrap();
    assert!(tmt.contains_key(&serde_yaml::Value::String("adjust".to_string())));
}

#[test]
fn test_parse_tmt_metadata_no_metadata() {
    let content = r#"# Just a comment
use std assert
"#;

    let result = parse_tmt_metadata(content).unwrap();
    assert!(result.is_none());
}

#[test]
fn test_parse_tmt_metadata_shell_script() {
    let content = r#"# number: 26
# tmt:
#   summary: Test bootc examples build scripts
#   duration: 45m
#   adjust:
#     - when: running_env != image_mode
#       enabled: false
#
#!/bin/bash
set -eux
"#;

    let metadata = parse_tmt_metadata(content).unwrap().unwrap();
    assert_eq!(metadata.number, 26);

    let tmt = metadata.tmt.as_mapping().unwrap();
    assert_eq!(
        tmt.get(&serde_yaml::Value::String("duration".to_string())),
        Some(&serde_yaml::Value::String("45m".to_string()))
    );
    assert!(tmt.contains_key(&serde_yaml::Value::String("adjust".to_string())));
}

#[test]
fn test_parse_tmt_metadata_with_try_bind_storage() {
    let content = r#"# number: 24
# extra:
#   try_bind_storage: true
# tmt:
#   summary: Execute local upgrade tests
#   duration: 30m
#
use std assert
"#;

    let metadata = parse_tmt_metadata(content).unwrap().unwrap();
    assert_eq!(metadata.number, 24);

    let extra = metadata.extra.as_mapping().unwrap();
    assert_eq!(
        extra.get(&serde_yaml::Value::String("try_bind_storage".to_string())),
        Some(&serde_yaml::Value::Bool(true))
    );

    let tmt = metadata.tmt.as_mapping().unwrap();
    assert_eq!(
        tmt.get(&serde_yaml::Value::String("summary".to_string())),
        Some(&serde_yaml::Value::String(
            "Execute local upgrade tests".to_string()
        ))
    );
}

#[test]
fn test_parse_tmt_metadata_with_fresh_install_disk() {
    let content = r#"# number: 50
# extra:
#   fresh_install_disk: true
# tmt:
#   summary: Verify a fresh installed boot
#
#!/bin/bash
"#;
    let metadata = parse_tmt_metadata(content).unwrap().unwrap();
    assert_eq!(metadata.number, 50);
    assert_eq!(
        metadata
            .extra
            .as_mapping()
            .unwrap()
            .get(&serde_yaml::Value::String(
                FIELD_FRESH_INSTALL_DISK.to_string()
            )),
        Some(&serde_yaml::Value::Bool(true))
    );
}

#[test]
fn metadata_errors_have_their_inputs() {
    let number = parse_tmt_metadata("# number: many\n").unwrap_err();
    assert!(matches!(number, MetadataError::Number));
    let extra = parse_tmt_metadata("# number: 1\n# extra:\n#   a: [\n").unwrap_err();
    assert!(matches!(extra, MetadataError::Extra(_, _)));
    let tmt = parse_tmt_metadata("# number: 1\n# tmt:\n#   a: [\n").unwrap_err();
    assert!(matches!(tmt, MetadataError::Tmt(_, _)));
    assert!(tmt.message().starts_with("Failed to parse tmt metadata YAML:\n"));
}

#[test]
fn blocks_are_found_before_they_are_parsed() {
    let blocks = metadata_blocks("# number: 7\n# extra:\n#   a: 1\n# tmt:\n#   b: 2\n")
        .unwrap()
        .unwrap();
    assert_eq!(blocks.number, 7);
    assert!(blocks.extra.contains("a: 1"));
    assert!(blocks.tmt.contains("b: 2"));
    let empty = parse_tmt_metadata("# number: 7\n").unwrap().unwrap();
    assert!(empty.tmt.as_mapping().unwrap().is_empty());
}
