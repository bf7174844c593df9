use faceauth::error::FaceAuthError;
use faceauth::model::{CameraId, FaceModel};
use faceauth::pam::{
    authenticating_user, do_authenticate, has_controlling_tty, has_sshd_ancestor,
    is_remote_session, next_ancestor, ppid_of, process_name, NextStep, PamOutcome, Progress, Session, Verdict,
};

fn text(s: &str) -> Option<String> {
    Some(s.to_string())
}

const STATUS: &str = "Name:\tcargo\nUmask:\t0022\nPid:\t815\nPPid:\t4711\nTracerPid:\t0\n";

#[test]
fn ppid_of_current_process_is_nonzero() {
    let ppid = ppid_of(&text(STATUS));
    assert!(ppid.is_some(), "could not read /proc/self/status");
    assert!(ppid.unwrap() > 0);
    assert_eq!(ppid, Some(4711));
}

#[test]
fn status_files_without_a_parent() {
    assert_eq!(ppid_of(&None), None);
    assert_eq!(ppid_of(&text("Name:\tx\n")), None);
    assert_eq!(ppid_of(&text("PPid:\n")), None);
    assert_eq!(ppid_of(&text("PPid:\tmany\n")), None);
    assert_eq!(ppid_of(&text("NSPPid:\t3\nPPid:\t1 2\nPPid:\t9\n")), Some(1));
}

#[test]
fn parent_process_name_is_nonempty() {
    let name = process_name(text("cargo\n"));
    assert!(name.is_some(), "could not read parent process name from /proc");
    assert!(!name.unwrap().is_empty());
    assert_eq!(process_name(None), None);
}

fn chain(names: &[&str]) -> Vec<Option<String>> {
    names.iter().map(|name| text(name)).collect()
}

#[test]
fn has_sshd_ancestor_does_not_panic() {
    let _ = has_sshd_ancestor(&vec![]);
    assert!(!has_sshd_ancestor(&vec![]));
    assert!(has_sshd_ancestor(&chain(&["bash\n", "sshd\n", "systemd\n"])));
    assert!(!has_sshd_ancestor(&chain(&["bash\n", "systemd\n"])));
    assert!(!has_sshd_ancestor(&chain(&["sshd-like\n"])));
    // The first process of a container may be the server itself.
    assert!(has_sshd_ancestor(&chain(&["bash\n", "sshd\n"])));
    assert!(has_sshd_ancestor(&vec![None, text("sshd")]));
    assert!(!has_sshd_ancestor(&vec![None, None]));
}

#[test]
fn the_way_to_the_first_process() {
    assert_eq!(next_ancestor(815, &text(STATUS)), Some(4711));
    assert_eq!(next_ancestor(2, &text("PPid:\t0\n")), Some(0));
    assert_eq!(next_ancestor(815, &None), None);
    assert_eq!(next_ancestor(1, &text(STATUS)), None);
    assert_eq!(next_ancestor(0, &text(STATUS)), None);
}

#[test]
fn controlling_terminals() {
    assert!(has_controlling_tty(&text("815 (sudo) S 4711 815 4711 34816 815 4194560")));
    assert!(!has_controlling_tty(&text("815 (cron) S 1 815 815 0 -1 4194560")));
    assert!(has_controlling_tty(&text("815 (a) 0 0 (b)) S 4711 815 4711 34816 815")));
    assert!(!has_controlling_tty(&text("815 (x) S 1")));
    assert!(!has_controlling_tty(&None));
}

#[test]
fn remote_sessions() {
    let host = |bytes: &[u8]| Some(bytes.to_vec());
    assert!(is_remote_session(&host(b"host.example")));
    assert!(is_remote_session(&host(b"  ")));
    assert!(is_remote_session(&host(&[0xff, 0xfe])));
    assert!(!is_remote_session(&host(b"")));
    assert!(!is_remote_session(&None));
}

#[test]
fn whose_face_is_looked_for() {
    assert_eq!(authenticating_user(text("alice"), text("root")), Ok("alice".to_string()));
    assert_eq!(authenticating_user(text("alice"), None), Ok("alice".to_string()));
    assert_eq!(authenticating_user(text(""), text("root")), Ok("root".to_string()));
    assert_eq!(authenticating_user(None, text("root")), Ok("root".to_string()));
    assert_eq!(authenticating_user(None, None), Err(PamOutcome::AuthinfoUnavail));
    assert_eq!(authenticating_user(text(""), None), Err(PamOutcome::AuthinfoUnavail));
}

fn session() -> Session {
    Session {
        username: "alice".to_string(),
        uid: Some(1000),
        service: "sudo".to_string(),
        parent: text("bash"),
        remote: false,
        inside_ssh: false,
        has_tty: true,
    }
}

fn finish(step: NextStep) -> Verdict {
    match step {
        NextStep::Finish(v) => v,
        _ => panic!("not finished"),
    }
}

#[test]
fn sessions_are_refused_before_the_daemon_is_asked() {
    let cases = [
        (Session { remote: true, ..session() }, "remote session"),
        (Session { inside_ssh: true, ..session() }, "running inside SSH session"),
        (Session { has_tty: false, ..session() }, "no controlling terminal"),
    ];
    for (s, why) in cases {
        let v = finish(do_authenticate(&s, Progress::Called));
        assert_eq!(v.outcome, PamOutcome::AuthinfoUnavail);
        assert_eq!(
            v.log,
            format!("[sudo via bash] face authentication skipped for alice (uid: 1000): {why}")
        );
        assert!(!v.is_error && v.speech.is_none());
    }
    assert!(matches!(do_authenticate(&session(), Progress::Called), NextStep::Ask));
}

fn asked(allowed: bool, parent_opted_out: bool) -> Progress {
    Progress::Asked { allowed, parent_opted_out }
}

#[test]
fn services_have_to_opt_in() {
    assert!(matches!(do_authenticate(&session(), asked(true, false)), NextStep::Load));
    let s = Session { uid: None, parent: None, ..session() };
    let v = finish(do_authenticate(&s, asked(false, false)));
    assert_eq!(v.outcome, PamOutcome::AuthinfoUnavail);
    assert_eq!(v.log, "[sudo] face authentication skipped for alice: service not opted in");
}

#[test]
fn parent_processes_can_opt_out() {
    let v = finish(do_authenticate(&session(), asked(true, true)));
    assert_eq!(v.outcome, PamOutcome::AuthinfoUnavail);
    assert!(!v.is_error && v.speech.is_none());
    assert_eq!(
        v.log,
        "[sudo via bash] face authentication skipped for alice (uid: 1000): parent process opted out"
    );
    let v = finish(do_authenticate(&session(), asked(false, true)));
    assert!(v.log.ends_with(": service not opted in"));
}

#[test]
fn users_have_to_be_enrolled() {
    let e = FaceAuthError::ModelNotFound("alice".to_string());
    let v = finish(do_authenticate(&session(), Progress::Loaded(Err(e), String::new())));
    assert_eq!(v.outcome, PamOutcome::AuthinfoUnavail);
    assert!(!v.is_error);
    assert_eq!(
        v.log,
        "[sudo via bash] no face model enrolled for alice (uid: 1000), skipping"
    );
    let e = FaceAuthError::Storage("no socket".to_string());
    let v = finish(do_authenticate(&session(), Progress::Loaded(Err(e), String::new())));
    assert_eq!(v.outcome, PamOutcome::AuthinfoUnavail);
    assert!(v.is_error);
    assert_eq!(
        v.log,
        "[sudo via bash] could not load face model for alice (uid: 1000), skipping: Model storage error: no socket"
    );
}

#[test]
fn an_attempt_from_start_to_end() {
    let s = session();
    let camera = CameraId { by_id: text("usb-A"), by_path: None, index: 2 };
    let loaded = Progress::Loaded(Ok(FaceModel::new("alice", camera)), "IR Cam".to_string());
    let attempt = match do_authenticate(&s, loaded) {
        NextStep::Attempt(a) => a,
        _ => panic!("no attempt"),
    };
    assert_eq!(
        attempt.log,
        "[sudo via bash] face authentication starting for alice (uid: 1000) using /dev/video2 (usb-A)"
    );
    assert_eq!(
        attempt.speech,
        "faceauth: 'alice' please look at the camera (IR Cam at /dev/video2) ..."
    );
    let v = finish(do_authenticate(&s, Progress::Attempted(attempt, Ok(()))));
    assert_eq!(v.outcome, PamOutcome::Success);
    assert_eq!(
        v.log,
        "[sudo via bash] face authentication succeeded for alice (uid: 1000) using /dev/video2 (usb-A)"
    );
    assert_eq!(v.speech.unwrap(), "faceauth: authentication successful");

    let camera = CameraId { by_id: None, by_path: None, index: 0 };
    let loaded = Progress::Loaded(Ok(FaceModel::new("alice", camera)), String::new());
    let attempt = match do_authenticate(&s, loaded) {
        NextStep::Attempt(a) => a,
        _ => panic!("no attempt"),
    };
    assert!(attempt.speech.ends_with("(/dev/video0) ..."));
    let e = FaceAuthError::Camera("no match".to_string());
    let v = finish(do_authenticate(&s, Progress::Attempted(attempt, Err(e))));
    assert_eq!(v.outcome, PamOutcome::AuthinfoUnavail);
    assert_eq!(
        v.log,
        "[sudo via bash] face authentication failed for alice (uid: 1000) using /dev/video0, skipping: Camera error: no match"
    );
    assert_eq!(v.speech.unwrap(), "faceauth: authentication failed: Camera error: no match");
}
