use faceauth::camera::CameraInfo;
use faceauth::cli::{
    acting_user, ask_for_camera, camera_hint, camera_name, capture_outcome, check_camera,
    choice_lines, choice_prompt, clear_outcome, daemon_request, display_camera, enroll_outcome,
    enrolling_message, enrollment_camera, info_lines, info_messages, info_words,
    is_device_path, is_model_not_found, list_messages, list_words, load_model, look_message,
    no_services_message, opt_outcome, print_camera_list, prompt_camera, resolve_add_camera,
    services_outcome, status_done_line, status_line, test_model, test_outcome, CameraSource,
    Complaint, EnrollRun, GivenCamera, InfoWords, ListWords, Offer, SIMILARITY_LIMIT,
};
use faceauth::ipc::{Exchange, Request, Response, ServiceEntry};
use faceauth::messages::Message;
use faceauth::model::{model_to_disk, CameraId, FaceModel, FileRead};

fn cam(index: u32, name: &str, greyscale_only: bool) -> CameraInfo {
    CameraInfo { index, name: name.to_string(), greyscale_only }
}

fn cameras() -> Vec<CameraInfo> {
    vec![cam(2, "IR Camera", true), cam(10, "", true), cam(0, "USB Webcam", false)]
}

fn failure(message: &str) -> Option<Response> {
    Some(Response::Failure { message: message.to_string() })
}

fn model(index: u32) -> FaceModel {
    FaceModel::new("alice", CameraId { by_id: None, by_path: None, index })
}

fn english(m: &Message) -> String {
    m.fill(m.template)
}

fn said<T>(r: Result<T, Complaint>) -> String {
    match r {
        Ok(_) => panic!("no complaint"),
        Err(Complaint::Translated(m)) => english(&m),
        Err(Complaint::Verbatim(s)) => s,
    }
}

fn done(r: Result<Message, Complaint>) -> String {
    english(&r.unwrap())
}

// --- lists ---

fn words() -> ListWords {
    let (title, unknown, recommended, possible) = list_messages();
    list_words(english(&title), english(&unknown), english(&recommended), english(&possible))
}

fn labels() -> InfoWords {
    let (user, uid, index, by_id, by_path, batches) = info_messages();
    info_words(
        english(&user),
        english(&uid),
        english(&index),
        english(&by_id),
        english(&by_path),
        english(&batches),
    )
}

#[test]
fn words_without_a_catalogue() {
    let words = words();
    assert_eq!(words.title, "Available cameras:");
    assert_eq!(words.unknown, "(unknown)");
    assert_eq!(words.recommended, "IR, recommended");
    assert_eq!(words.possible, "possible IR");
    let words = labels();
    assert_eq!(words.user, "User");
    assert_eq!(words.uid, "UID");
    assert_eq!(words.camera_index, "Camera index");
    assert_eq!(words.camera_by_id, "Camera by-id");
    assert_eq!(words.camera_by_path, "Camera by-path");
    assert_eq!(words.batches, "Batches");
}

#[test]
fn hints_and_names() {
    let words = words();
    assert_eq!(camera_hint(&cam(0, "IR", true), &words), " [IR, recommended]");
    assert_eq!(camera_hint(&cam(0, "Cam", true), &words), " [IR, recommended]");
    assert_eq!(camera_hint(&cam(0, "IR Cam", false), &words), " [possible IR]");
    assert_eq!(camera_hint(&cam(0, "Cam", false), &words), "");
    assert_eq!(camera_name(&cam(0, "Cam", false), &words), "Cam");
    assert_eq!(camera_name(&cam(0, "", false), &words), "(unknown)");
}

#[test]
fn cameras_are_shown_by_number() {
    assert_eq!(
        print_camera_list(&cameras(), &words()),
        vec![
            "Available cameras:",
            "  /dev/video0  USB Webcam",
            "  /dev/video2  IR Camera [IR, recommended]",
            "  /dev/video10  (unknown) [IR, recommended]",
        ]
    );
    assert_eq!(print_camera_list(&vec![], &words()), vec!["Available cameras:"]);
}

#[test]
fn the_suggested_camera_is_marked() {
    assert_eq!(
        choice_lines(&cameras(), &words()),
        vec![
            "Available cameras:",
            "    0.  /dev/video0  USB Webcam",
            "  * 2.  /dev/video2  IR Camera [IR, recommended]",
            "    10.  /dev/video10  (unknown) [IR, recommended]",
        ]
    );
    assert_eq!(english(&choice_prompt(&cameras())), "Select camera (default 2): ");
}

#[test]
fn choosing_a_camera() {
    let choose = |line: &str| prompt_camera(&cameras(), Some(line.to_string()));
    assert_eq!(choose("\n").unwrap(), 2);
    assert_eq!(prompt_camera(&cameras(), None).unwrap(), 2);
    assert_eq!(choose(" 10 \n").unwrap(), 10);
    assert_eq!(
        english(&choose("7\n").unwrap_err()),
        "invalid selection '7'; expected one of: 0, 2, 10"
    );
    assert_eq!(
        english(&choose("two\n").unwrap_err()),
        "invalid selection 'two'; expected one of: 0, 2, 10"
    );
}

#[test]
fn asking_needs_cameras_and_a_terminal() {
    assert!(ask_for_camera(&cameras(), true).is_ok());
    assert_eq!(
        english(&ask_for_camera(&cameras(), false).unwrap_err()),
        "--camera is required in non-interactive mode"
    );
    assert_eq!(english(&ask_for_camera(&vec![], true).unwrap_err()), "no camera devices found");
}

// --- the camera argument ---

fn given(spec: &str, path: Option<&str>, id: Option<&str>, port: Option<&str>) -> GivenCamera {
    let text = |s: Option<&str>| s.map(|t| t.to_string());
    GivenCamera {
        spec: spec.to_string(),
        path_target: text(path),
        by_id_target: text(id),
        by_path_target: text(port),
    }
}

#[test]
fn device_paths() {
    for path in ["/dev", "/dev/", "/dev/video0", "//dev/x", "/./dev/x", "/.//./dev"] {
        assert!(is_device_path(path), "{path}");
    }
    for path in ["dev/video0", "/devices", "/tmp/dev", "/.dev/x", "", "/", "./dev", "/de"] {
        assert!(!is_device_path(path), "{path}");
    }
}

#[test]
fn camera_arguments() {
    let resolve = |g: GivenCamera| resolve_add_camera(&g);
    assert_eq!(resolve(given("3", None, None, None)).unwrap(), 3);
    assert_eq!(resolve(given("/dev/video5", Some("video5"), None, None)).unwrap(), 5);
    assert_eq!(
        english(&resolve(given("/dev/null", Some("null"), None, None)).unwrap_err()),
        "could not resolve camera path '/dev/null'"
    );
    assert_eq!(resolve(given("usb-A", None, Some("video1"), None)).unwrap(), 1);
    assert_eq!(resolve(given("pci-1", None, None, Some("video4"))).unwrap(), 4);
    assert_eq!(resolve(given("same", None, Some("video4"), Some("video4"))).unwrap(), 4);
    assert_eq!(
        english(&resolve(given("twins", None, Some("video1"), Some("video3"))).unwrap_err()),
        "'twins' is ambiguous - matches: /dev/video1, /dev/video3; use a full path instead (e.g. --camera /dev/video1)"
    );
    assert_eq!(
        english(&resolve(given("front", None, None, None)).unwrap_err()),
        "unrecognised camera 'front'; use an index, /dev/videoN path, or udev name"
    );
}

// --- models ---

#[test]
fn missing_models_are_recognised() {
    assert!(is_model_not_found("no model enrolled for 'alice'"));
    assert!(is_model_not_found("No face model found for user 'alice'"));
    assert!(!is_model_not_found("permission denied: you are not 'alice'"));
    assert!(!is_model_not_found(""));
}

#[test]
fn loading_a_model() {
    let nothing = || Err("not parsed".to_string());
    let reply = Some(Response::Model { json: "{}".to_string() });
    let disk = model_to_disk(&model(3));
    assert_eq!(load_model("alice", reply, Ok(disk), None).unwrap().camera.index, 3);
    assert_eq!(
        load_model("alice", failure("denied"), nothing(), None).unwrap_err(),
        "denied"
    );
    assert_eq!(
        load_model("alice", Some(Response::Success), nothing(), None).unwrap_err(),
        "unexpected response from daemon"
    );
    // Without the daemon the file is read directly.
    let read = Some(FileRead::Parsed(Ok(model_to_disk(&model(4)))));
    assert_eq!(load_model("alice", None, nothing(), read).unwrap().camera.index, 4);
    let e = load_model("alice", None, nothing(), Some(FileRead::Missing)).unwrap_err();
    assert!(is_model_not_found(&e));
}

#[test]
fn answers_of_the_daemon() {
    assert!(matches!(
        daemon_request(Exchange::Answer(Response::Success)),
        Some(Response::Success)
    ));
    assert!(daemon_request(Exchange::Unreachable("x".to_string())).is_none());
    assert!(daemon_request(Exchange::Malformed("x".to_string())).is_none());
}

#[test]
fn who_is_acted_for() {
    let name = |s: &str| Some(s.to_string());
    assert_eq!(acting_user(name("bob"), name("alice")).unwrap(), "bob");
    assert_eq!(acting_user(None, name("alice")).unwrap(), "alice");
    assert_eq!(
        english(&acting_user(None, None).unwrap_err()),
        "cannot determine username for current UID"
    );
}

// --- enrolling ---

#[test]
fn the_stored_camera_decides() {
    assert!(matches!(enrollment_camera(Ok(model(3)), false), CameraSource::Stored(3)));
    assert!(matches!(enrollment_camera(Ok(model(3)), true), CameraSource::Check(3)));
    let missing = Err("no model enrolled for 'alice'".to_string());
    assert!(matches!(enrollment_camera(missing, true), CameraSource::Choose));
    assert!(matches!(
        enrollment_camera(Err("denied".to_string()), false),
        CameraSource::Refuse(m) if m == "denied"
    ));
    assert_eq!(check_camera("alice", 3, 3).unwrap(), 3);
    assert_eq!(
        english(&check_camera("alice", 3, 4).unwrap_err()),
        "'alice' is already enrolled with /dev/video3; omit --camera to add another batch, or run 'faceauth clear' first to change cameras"
    );
}

#[test]
fn five_different_encodings_are_taken() {
    assert_eq!(f64::from_bits(SIMILARITY_LIMIT), 0.3);
    let far = 0.4f64.to_bits();
    let near = 0.25f64.to_bits();
    let nearest = 0.125f64.to_bits();
    let mut run = EnrollRun::new();
    assert_eq!(english(&run.capturing("different angle")), "[1/5] capturing...");
    assert_eq!(run.offer([1; 128], &vec![]), Offer::Taken);
    assert_eq!(english(&run.captured_message()), "[1/5] captured");
    assert_eq!(english(&run.capturing("different angle")), "[2/5] capturing... (different angle)");
    assert_eq!(run.offer([2; 128], &vec![near]), Offer::TooSimilar(near));
    assert_eq!(
        english(&run.too_similar_message("0.25")),
        "[2/5] too similar (0.25) - adjust angle and hold still"
    );
    assert_eq!(run.offer([3; 128], &vec![0.3f64.to_bits()]), Offer::Taken);
    assert_eq!(run.offer([4; 128], &vec![near, nearest]), Offer::TooSimilar(nearest));
    assert_eq!(run.offer([5; 128], &vec![far, f64::NAN.to_bits()]), Offer::Taken);
    assert_eq!(run.offer([6; 128], &vec![far; 3]), Offer::Taken);
    assert!(!run.is_complete());
    assert_eq!(run.offer([7; 128], &vec![far; 4]), Offer::Complete);
    assert!(run.is_complete());
    match run.request("alice", 2) {
        Request::Enroll { username, camera_index, encodings } => {
            assert_eq!((username.as_str(), camera_index), ("alice", 2));
            let firsts: Vec<u32> = encodings.iter().map(|e| e[0]).collect();
            assert_eq!(firsts, vec![1, 3, 5, 6, 7]);
            assert!(encodings.iter().all(|e| e.len() == 128));
        }
        _ => panic!("not an enrollment"),
    }
}

#[test]
fn captures_for_an_enrollment() {
    assert_eq!(english(&enrolling_message("alice")), "enrolling face for 'alice'");
    let ok = Some(Response::Encoding { data: vec![1; 128] });
    assert_eq!(capture_outcome(ok).unwrap(), [1; 128]);
    let short = Some(Response::Encoding { data: vec![1; 12] });
    assert_eq!(said(capture_outcome(short)), "capture failed: invalid encoding from daemon");
    assert_eq!(said(capture_outcome(failure("dark"))), "capture failed: dark");
    assert_eq!(
        said(capture_outcome(Some(Response::Success))),
        "capture failed: unexpected response from daemon"
    );
    assert_eq!(
        said(capture_outcome(None)),
        "daemon not available; cannot capture without daemon"
    );
}

#[test]
fn outcomes_of_commands() {
    assert_eq!(
        done(enroll_outcome("alice", Some(Response::Success))),
        "Enrollment successful for 'alice'."
    );
    assert_eq!(said(enroll_outcome("alice", failure("full"))), "enrollment failed: full");
    assert_eq!(
        done(clear_outcome("alice", Some(Response::Success))),
        "Model for 'alice' removed."
    );
    assert_eq!(said(clear_outcome("alice", failure("no"))), "clear failed: no");
    assert_eq!(
        done(opt_outcome("alice", "sudo", false, Some(Response::Success))),
        "face authentication disabled for 'sudo' (user 'alice')."
    );
    assert_eq!(
        done(opt_outcome("alice", "sudo", true, Some(Response::Success))),
        "face authentication enabled for 'sudo' (user 'alice')."
    );
    assert_eq!(said(opt_outcome("alice", "sudo", true, failure("no"))), "no");
    let odd = || Some(Response::Model { json: String::new() });
    for r in [
        enroll_outcome("a", odd()),
        clear_outcome("a", odd()),
        opt_outcome("a", "s", true, odd()),
        test_outcome(odd()).0,
    ] {
        assert_eq!(said(r), "unexpected response from daemon");
    }
    for r in [
        enroll_outcome("a", None),
        clear_outcome("a", None),
        opt_outcome("a", "s", true, None),
        test_outcome(None).0,
    ] {
        assert_eq!(said(r), "daemon not available");
    }
}

#[test]
fn testing_authentication() {
    assert_eq!(display_camera("IR Cam", 2), "IR Cam at /dev/video2");
    assert_eq!(display_camera("", 2), "/dev/video2");
    assert_eq!(
        english(&look_message("alice", "IR Cam", 2)),
        "'alice' please look at the camera (IR Cam at /dev/video2) ..."
    );
    let (r, shown) = test_outcome(Some(Response::Success));
    assert_eq!((done(r).as_str(), shown), ("authentication successful", Some(true)));
    let (r, shown) = test_outcome(failure("no match"));
    assert_eq!((said(r).as_str(), shown), ("authentication failed: no match", Some(false)));
    assert_eq!(test_outcome(None).1, None);

    let reply = || Some(Response::Model { json: "{}".to_string() });
    let disk = model_to_disk(&model(3));
    assert_eq!(test_model(reply(), Ok(disk)).unwrap().camera.index, 3);
    assert_eq!(said(test_model(reply(), Err("eof".to_string()))), "JSON error: eof");
    assert_eq!(said(test_model(failure("none"), Err(String::new()))), "none");
    assert_eq!(said(test_model(None, Err(String::new()))), "daemon not available");
    assert_eq!(
        said(test_model(Some(Response::Success), Err(String::new()))),
        "unexpected response from daemon"
    );
}

#[test]
fn services_are_listed() {
    let entry = |name: &str, allowed| ServiceEntry { name: name.to_string(), allowed };
    let services = vec![entry("sudo", false), entry("sddm", true)];
    assert_eq!(
        services_outcome(Some(Response::Services { services })).unwrap().unwrap(),
        vec!["-sudo", "+sddm"]
    );
    assert!(services_outcome(Some(Response::Services { services: vec![] })).unwrap().is_none());
    assert_eq!(english(&no_services_message()), "no services recorded yet");
    assert_eq!(said(services_outcome(failure("no"))), "no");
    assert_eq!(said(services_outcome(None)), "daemon not available");
    assert_eq!(
        said(services_outcome(Some(Response::Success))),
        "unexpected response from daemon"
    );
}

#[test]
fn models_are_described() {
    let camera = CameraId {
        by_id: Some("usb-A".to_string()),
        by_path: Some("pci-1".to_string()),
        index: 2,
    };
    let mut m = FaceModel::new("alice", camera);
    m.add_batch(&vec![[0; 128]; 5]);
    m.add_batch(&vec![[0; 128]; 5]);
    assert_eq!(
        info_lines(&labels(), "alice", Some(1000), &m),
        vec![
            "User: alice",
            "UID: 1000",
            "Camera index: 2 (/dev/video2)",
            "Camera by-id: usb-A",
            "Camera by-path: pci-1",
            "Batches: 2",
        ]
    );
    assert_eq!(
        info_lines(&labels(), "alice", None, &model(0)),
        vec!["User: alice", "Camera index: 0 (/dev/video0)", "Batches: 0"]
    );
}

#[test]
fn status_lines_are_padded() {
    let line = status_line("ok");
    assert_eq!(line.chars().count(), 3 + 72);
    assert!(line.starts_with("\r  ok   "));
    assert_eq!(status_done_line("x").chars().count(), 11 + 72);
    let long = "y".repeat(80);
    assert_eq!(status_line(&long), format!("\r  {long}"));
}
