use faceauth::messages::Message;
use faceauth::notify::{
    bus_address, icon_path, notice_timeout_ms, notification_id, parse_args, requested_by_body,
    result_args, start_args, test_start_args, Notice, Stage,
};

fn parse(args: &[&str]) -> Option<Notice> {
    parse_args(&args.iter().map(|s| s.to_string()).collect())
}

fn english(m: &Message) -> String {
    m.fill(m.template)
}

fn after_program(args: Vec<String>) -> Vec<String> {
    let mut all = vec!["faceauth-notify".to_string()];
    all.extend(args);
    all
}

#[test]
fn start_is_parsed() {
    let n = parse(&["n", "start", "1000", "sudo", "bash", "9000"]).unwrap();
    assert_eq!((n.stage, n.uid, n.replaces, n.timeout_ms), (Stage::Start, 1000, None, 9000));
    assert_eq!((n.service.as_str(), n.caller.as_str()), ("sudo", "bash"));
    let n = parse(&["n", "start", "x"]).unwrap();
    assert_eq!((n.uid, n.timeout_ms), (0, 8000));
    assert_eq!((n.service.as_str(), n.caller.as_str()), ("unknown", ""));
    assert_eq!(parse(&["n", "start", "1", "s", "c", "soon"]).unwrap().timeout_ms, 8000);
}

#[test]
fn results_are_parsed() {
    let n = parse(&["n", "success", "1000", "42", "sudo", "bash"]).unwrap();
    assert_eq!(
        (n.stage, n.uid, n.replaces, n.timeout_ms),
        (Stage::Success, 1000, Some(42), 5000)
    );
    let n = parse(&["n", "failure", "1000", "42"]).unwrap();
    assert_eq!((n.stage, n.service.as_str(), n.caller.as_str()), (Stage::Failure, "unknown", ""));
    assert!(parse(&["n", "success", "1000"]).is_none());
    assert!(parse(&["n", "failure", "1000", "x"]).is_none());
}

#[test]
fn other_commands_are_none() {
    assert!(parse(&["n", "start"]).is_none());
    assert!(parse(&["n"]).is_none());
    assert!(parse(&["n", "stop", "1000", "42"]).is_none());
}

#[test]
fn what_is_asked_for_arrives() {
    let n = parse_args(&after_program(start_args(1000, "sudo", "bash", 8000))).unwrap();
    assert_eq!((n.stage, n.uid, n.timeout_ms), (Stage::Start, 1000, 8000));
    assert_eq!((n.service.as_str(), n.caller.as_str()), ("sudo", "bash"));
    let caller = Some("bash".to_string());
    let n = parse_args(&after_program(result_args(7, 42, false, "su", &caller))).unwrap();
    assert_eq!((n.stage, n.uid, n.replaces), (Stage::Failure, 7, Some(42)));
    assert_eq!((n.service.as_str(), n.caller.as_str()), ("su", "bash"));
    let n = parse_args(&after_program(result_args(7, 42, true, "faceauth", &None))).unwrap();
    assert_eq!((n.stage, n.service.as_str(), n.caller.as_str()), (Stage::Success, "faceauth", ""));
    assert_eq!(test_start_args(7), vec!["start", "7", "faceauth"]);
}

#[test]
fn texts_of_notifications() {
    let n = parse(&["n", "start", "1000", "sudo", "bash"]).unwrap();
    assert_eq!(english(&n.summary()), "Face Authentication ...");
    assert_eq!(english(&n.body()), "Requested by: sudo via bash");
    assert_eq!(n.icon_name(), "faceauth-icon.svg");
    let n = parse(&["n", "success", "1000", "1", "sudo"]).unwrap();
    assert_eq!(english(&n.summary()), "Face Authentication Successful");
    assert_eq!(english(&n.body()), "Requested by: sudo");
    assert_eq!(n.icon_name(), "faceauth-icon-success.svg");
    let n = parse(&["n", "failure", "1000", "1", "sudo", "sudo"]).unwrap();
    assert_eq!(english(&n.summary()), "Face Authentication Failed");
    assert_eq!(english(&n.body()), "Requested by: sudo");
    assert_eq!(n.icon_name(), "faceauth-icon-fail.svg");
    assert_eq!(requested_by_body("su", "").fill("{service}?"), "su?");
}

#[test]
fn paths_and_numbers() {
    assert_eq!(icon_path(None, 1000, "i.svg"), "/run/user/1000/i.svg");
    assert_eq!(icon_path(Some("/tmp/run".to_string()), 1000, "i.svg"), "/tmp/run/i.svg");
    assert_eq!(bus_address(1000), "unix:path=/run/user/1000/bus");
    assert_eq!(notice_timeout_ms(5), 8000);
    assert_eq!(notification_id("17\n"), Some(17));
    assert_eq!(notification_id(""), None);
}
