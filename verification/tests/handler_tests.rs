use bitburner_oxide::config::{get_mock_config, Config};
use bitburner_oxide::handler::{
    build_bitburner_request, classify, extract_file_name, is_valid_file, Action, BitburnerRequest,
    ChangeEvent, EventKind, HandlerError,
};

fn mock_config() -> Config {
    get_mock_config().unwrap()
}

fn config_with_root(directory: &str) -> Config {
    let mut config = mock_config();
    config.directory = String::from(directory);
    config
}

#[test]
fn assert_path_prefix_is_stripped() {
    assert_eq!(
        extract_file_name(&String::from("/one/two/three.txt"), &mock_config()).unwrap(),
        String::from("three.txt")
    )
}

#[test]
fn assert_valid_file() {
    assert!(is_valid_file(&String::from("test.js"), &mock_config()));
}

#[test]
fn assert_invalid_file() {
    assert!(!is_valid_file(&String::from("test.kt"), &mock_config()));
}

#[test]
fn valid_file_checks_extension_not_suffix() {
    let config = mock_config();
    assert!(is_valid_file(&String::from("/one/two/deep/file.script"), &config));
    assert!(!is_valid_file(&String::from("nodots"), &config));
    assert!(!is_valid_file(&String::from(".js"), &config));
    assert!(!is_valid_file(&String::from("/one/two/.js"), &config));
    assert!(!is_valid_file(&String::from("trailing."), &config));
    assert!(!is_valid_file(&String::from("upper.JS"), &config));
}

#[test]
fn extension_after_last_dot_wins() {
    let config = mock_config();
    assert!(is_valid_file(&String::from("archive.tar.js"), &config));
    assert!(!is_valid_file(&String::from("script.js.bak"), &config));
}

#[test]
fn file_name_is_relative_without_trailing_slash_root() {
    let config = config_with_root("/one/two");
    assert_eq!(
        extract_file_name(&String::from("/one/two/three.txt"), &config).unwrap(),
        String::from("three.txt")
    );
}

#[test]
fn file_name_outside_root_is_an_error() {
    let config = config_with_root("/one/two");
    assert_eq!(
        extract_file_name(&String::from("/somewhere/else.txt"), &config),
        Err(HandlerError::PathOutsideRoot)
    );
}

#[test]
fn file_name_keeps_nested_directories() {
    let config = config_with_root("/one/two");
    assert_eq!(
        extract_file_name(&String::from("/one/two/sub/dir/four.js"), &config).unwrap(),
        String::from("sub/dir/four.js")
    );
}

#[test]
fn classify_created_yields_one_write() {
    let config = mock_config();
    let event = ChangeEvent {
        kind: EventKind::Created,
        paths: vec![String::from("/one/two/test.js")],
    };
    assert_eq!(
        classify(&event, &config),
        vec![Action::Write { path: String::from("/one/two/test.js") }]
    );
}

#[test]
fn classify_out_of_scope_yields_nothing() {
    let config = mock_config();
    let event = ChangeEvent {
        kind: EventKind::Removed,
        paths: vec![String::from("/one/two/test.kt")],
    };
    assert_eq!(classify(&event, &config), vec![]);
}

#[test]
fn classify_modified_in_place_yields_one_write() {
    let config = mock_config();
    let path = String::from("/one/two/test.js");
    let event = ChangeEvent { kind: EventKind::Modified, paths: vec![path.clone(), path.clone()] };
    assert_eq!(classify(&event, &config), vec![Action::Write { path }]);
}

#[test]
fn classify_modified_single_path_yields_one_write() {
    let config = mock_config();
    let path = String::from("/one/two/test.js");
    let event = ChangeEvent { kind: EventKind::Modified, paths: vec![path.clone()] };
    assert_eq!(classify(&event, &config), vec![Action::Write { path }]);
}

#[test]
fn classify_rename_writes_destination_then_deletes_source() {
    let config = mock_config();
    let event = ChangeEvent {
        kind: EventKind::Modified,
        paths: vec![
            String::from("/one/two/source.js"),
            String::from("/one/two/destination.js"),
        ],
    };
    assert_eq!(
        classify(&event, &config),
        vec![
            Action::Write { path: String::from("/one/two/destination.js") },
            Action::Delete { path: String::from("/one/two/source.js") },
        ]
    );
}

#[test]
fn classify_rename_with_one_foreign_extension_yields_nothing() {
    let config = mock_config();
    let event = ChangeEvent {
        kind: EventKind::Modified,
        paths: vec![String::from("/one/two/source.js"), String::from("/one/two/dest.kt")],
    };
    assert_eq!(classify(&event, &config), vec![]);
}

#[test]
fn classify_removed_yields_one_delete() {
    let config = mock_config();
    let event = ChangeEvent {
        kind: EventKind::Removed,
        paths: vec![String::from("/one/two/test.js")],
    };
    assert_eq!(
        classify(&event, &config),
        vec![Action::Delete { path: String::from("/one/two/test.js") }]
    );
}

#[test]
fn classify_other_kind_yields_nothing() {
    let config = mock_config();
    let event = ChangeEvent {
        kind: EventKind::Other,
        paths: vec![String::from("/one/two/test.js")],
    };
    assert_eq!(classify(&event, &config), vec![]);
}

#[test]
fn build_write_request_encodes_content() {
    let config = mock_config();
    let action = Action::Write { path: String::from("/one/two/test.js") };
    let content = String::from("x");
    assert_eq!(
        build_bitburner_request(&action, Some(&content), &config),
        Ok(BitburnerRequest {
            filename: String::from("test.js"),
            code: Some(String::from("eA==")),
        })
    );
}

#[test]
fn build_delete_request_has_no_code() {
    let config = mock_config();
    let action = Action::Delete { path: String::from("/one/two/test.js") };
    assert_eq!(
        build_bitburner_request(&action, None, &config),
        Ok(BitburnerRequest { filename: String::from("test.js"), code: None })
    );
}

#[test]
fn build_write_without_content_is_recoverable() {
    let config = mock_config();
    let action = Action::Write { path: String::from("/one/two/gone.js") };
    assert_eq!(
        build_bitburner_request(&action, None, &config),
        Err(HandlerError::ContentUnavailable)
    );
}

#[test]
fn write_event_produces_one_write_request() {
    let config = mock_config();
    let event = ChangeEvent {
        kind: EventKind::Created,
        paths: vec![String::from("/one/two/test.js")],
    };
    let actions = classify(&event, &config);
    assert_eq!(actions.len(), 1);
    let content = String::from("x");
    let request = build_bitburner_request(&actions[0], Some(&content), &config).unwrap();
    assert_eq!(request.filename, String::from("test.js"));
    assert_eq!(request.code, Some(String::from("eA==")));
}

#[test]
fn rename_event_produces_write_then_delete_requests() {
    let config = mock_config();
    let event = ChangeEvent {
        kind: EventKind::Modified,
        paths: vec![
            String::from("/one/two/source.js"),
            String::from("/one/two/destination.js"),
        ],
    };
    let actions = classify(&event, &config);
    assert_eq!(actions.len(), 2);
    let content = String::from("x");
    let write = build_bitburner_request(&actions[0], Some(&content), &config).unwrap();
    assert_eq!(write.filename, String::from("destination.js"));
    assert!(write.code.is_some());
    let delete = build_bitburner_request(&actions[1], None, &config).unwrap();
    assert_eq!(delete.filename, String::from("source.js"));
    assert_eq!(delete.code, None);
}

#[test]
fn build_outside_root_is_an_error() {
    let config = mock_config();
    let action = Action::Write { path: String::from("/elsewhere/test.js") };
    let content = String::from("x");
    assert_eq!(
        build_bitburner_request(&action, Some(&content), &config),
        Err(HandlerError::PathOutsideRoot)
    );
}
