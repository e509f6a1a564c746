use std::path::PathBuf;

use minivna::paths::{
    config_path_from, config_path_from_arguments, configured_path, join,
    json_requested_in_arguments,
};

fn set(value: &str) -> Option<Vec<u8>> {
    Some(value.as_bytes().to_vec())
}

fn path(bytes: Vec<u8>) -> PathBuf {
    PathBuf::from(String::from_utf8(bytes).unwrap())
}

fn arguments(list: &[&str]) -> Vec<Vec<u8>> {
    list.iter().map(|argument| argument.as_bytes().to_vec()).collect()
}

#[test]
fn config_path_prefers_xdg_config_home() {
    let found = config_path_from(&set("/tmp/xdg"), &set("/tmp/home")).unwrap();
    assert_eq!(path(found), PathBuf::from("/tmp/xdg/minivna/minivna.toml"));
}

#[test]
fn config_path_falls_back_to_home() {
    let found = config_path_from(&None, &set("/tmp/home")).unwrap();
    assert_eq!(path(found), PathBuf::from("/tmp/home/.config/minivna/minivna.toml"));
}

#[test]
fn config_path_is_found_in_cli_arguments() {
    let current = std::path::absolute(".").unwrap();
    let found = config_path_from_arguments(
        &arguments(&["minivna", "scan", "--config=experiment.toml"]),
        &None,
        &None,
        current.as_os_str().as_encoded_bytes(),
    )
    .unwrap();
    assert_eq!(path(found), current.join("experiment.toml"));
}

#[test]
fn empty_directories_count_as_unset() {
    let found = config_path_from(&set(""), &set("/h")).unwrap();
    assert_eq!(path(found), PathBuf::from("/h/.config/minivna/minivna.toml"));
    assert_eq!(config_path_from(&set(""), &set("")), None);
    assert_eq!(config_path_from(&None, &None), None);
}

#[test]
fn the_last_named_path_wins() {
    assert_eq!(
        configured_path(&arguments(&["minivna", "--config", "a", "--config=b"])),
        set("b")
    );
    assert_eq!(
        configured_path(&arguments(&["minivna", "--config=b", "--config", "--config=c"])),
        set("--config=c")
    );
    assert_eq!(configured_path(&arguments(&["minivna", "--config=b", "--config"])), None);
    assert_eq!(configured_path(&arguments(&["--config=x"])), None);
}

#[test]
fn arguments_that_are_no_text_name_no_path_by_themselves() {
    let mut strange = b"--config=".to_vec();
    strange.push(0xff);
    assert_eq!(configured_path(&vec![b"minivna".to_vec(), strange.clone()]), None);
    assert_eq!(
        configured_path(&vec![b"minivna".to_vec(), b"--config".to_vec(), strange.clone()]),
        Some(strange)
    );
}

#[test]
fn json_is_asked_for_by_its_flag() {
    assert!(json_requested_in_arguments(&arguments(&["minivna", "scan", "--json"])));
    assert!(!json_requested_in_arguments(&arguments(&["--json", "scan", "--jsonl"])));
}

#[test]
fn byte_paths_join_like_paths() {
    for (directory, name) in [("/a", "b"), ("/a/", "b"), ("", "b"), ("/a", "/b"), ("/a", "")] {
        assert_eq!(
            path(join(directory.as_bytes(), name.as_bytes())).as_os_str(),
            PathBuf::from(directory).join(name).as_os_str()
        );
    }
}
