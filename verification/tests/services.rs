use faceauth::ipc::ServiceEntry;
use faceauth::services::{
    defaults_path, find_entry, is_storable, is_valid_name, merge_services, opt_path, opts_text, parse_opts,
    set_entry,
};

fn list(text: &str) -> Vec<ServiceEntry> {
    parse_opts(&Some(text.to_string()))
}

fn pairs(list: &[ServiceEntry]) -> Vec<(&str, bool)> {
    list.iter().map(|e| (e.name.as_str(), e.allowed)).collect()
}

#[test]
fn paths_of_the_lists() {
    assert_eq!(defaults_path(), "/etc/security/faceauth/defaults.opt");
    assert_eq!(opt_path(1000), "/etc/security/faceauth/1000.opt");
}

#[test]
fn lists_are_read() {
    let l = list("+sudo\n-login\r\n\n  +sddm  \n# note\n+\n");
    assert_eq!(pairs(&l), vec![("sudo", true), ("login", false), ("sddm", true)]);
    assert!(parse_opts(&None).is_empty());
}

#[test]
fn later_lines_count() {
    assert_eq!(pairs(&list("+sudo\n-login\n-sudo\n")), vec![("sudo", false), ("login", false)]);
}

#[test]
fn lists_are_read_back_as_written() {
    let l = list("-sudo\n+login\n");
    assert_eq!(opts_text(&l), "-sudo\n+login\n");
    assert_eq!(pairs(&list(&opts_text(&l))), pairs(&l));
    assert_eq!(opts_text(&vec![]), "");
}

#[test]
fn changes_touch_one_service() {
    let mut l = list("-sudo\n+login\n");
    set_entry(&mut l, "sudo", true);
    set_entry(&mut l, "sddm", false);
    assert_eq!(pairs(&l), vec![("sudo", true), ("login", true), ("sddm", false)]);
    assert_eq!(find_entry(&l, "sudo"), Some(true));
    assert_eq!(find_entry(&l, "sddm"), Some(false));
    assert_eq!(find_entry(&l, "su"), None);
}

#[test]
fn the_user_overrides_everybody() {
    let merged = merge_services(&list("-sudo\n-login\n"), &list("+login\n+su\n"));
    assert_eq!(pairs(&merged), vec![("sudo", false), ("login", true), ("su", true)]);
}

#[test]
fn names_of_services() {
    assert!(is_valid_name("sudo"));
    assert!(is_valid_name("kde-fingerprint"));
    assert!(!is_valid_name(""));
    assert!(is_valid_name("tmux: server"));
    assert!(!is_valid_name("sudo "));
    assert!(!is_valid_name(" "));
    assert!(!is_valid_name("a\nb"));
    assert!(!is_valid_name("../shadow"));
    assert!(is_storable("/usr/bin/tmux"));
    assert!(!is_storable(""));
    assert!(!is_storable("a\nb"));
    assert!(!is_storable("tmux\t"));
}
