use faceauth::camera::CameraInfo;
use faceauth::daemon::{
    auth_request, auth_response, authorize, cameras_response, capture_response,
    check_service_response, do_clear, do_enroll, do_load, fetch_response, handle_request,
    model_call, named_user, pam_service_paths, parsed_request, record_caller, reply_line, request_line,
    services_response, set_opt, store_response, CameraReply, ClearPlan, Dispatch, ModelMsg,
    ModelReply, TextFile,
};
use faceauth::ipc::{Request, Response};
use faceauth::model::{
    load_model_from_disk, model_to_disk, CameraId, FaceModel, FileRead, SavePlan,
};

fn message(r: &Response) -> &str {
    match r {
        Response::Failure { message } => message,
        _ => panic!("not a failure"),
    }
}

fn camera(index: u32) -> CameraId {
    CameraId { by_id: None, by_path: None, index }
}

/// A model file with these batches.
fn stored(index: u32, batches: &[usize]) -> Option<FileRead> {
    let mut model = FaceModel::new("alice", camera(index));
    for (i, n) in batches.iter().enumerate() {
        model.add_batch(&vec![[i as u32; 128]; *n]);
    }
    Some(FileRead::Parsed(Ok(model_to_disk(&model))))
}

fn sizes(plan: SavePlan) -> Vec<usize> {
    load_model_from_disk(plan.disk).unwrap().batches
}

// --- connections ---

#[test]
fn requests_are_read_from_a_line() {
    let (uid, text) = request_line(Some(7), Some(" {}\n".to_string())).unwrap();
    assert_eq!((uid, text.as_str()), (7, "{}"));
    let e = request_line(None, Some("{}\n".to_string())).unwrap_err();
    assert_eq!(message(&e), "failed to determine caller identity");
    let e = request_line(Some(7), Some(String::new())).unwrap_err();
    assert_eq!(message(&e), "failed to read request");
    let e = request_line(Some(7), None).unwrap_err();
    assert_eq!(message(&e), "failed to read request");
}

#[test]
fn malformed_requests_are_refused() {
    assert!(matches!(parsed_request(Ok(Request::ListCameras)), Ok(Request::ListCameras)));
    let e = parsed_request(Err("eof at 1".to_string())).unwrap_err();
    assert_eq!(message(&e), "malformed request: eof at 1");
}

#[test]
fn replies_are_lines() {
    assert_eq!(reply_line(Some("{}".to_string())), "{}\n");
    assert_eq!(
        reply_line(None),
        "{\"status\":\"Err\",\"message\":\"serialization error\"}\n"
    );
}

// --- authorization ---

#[test]
fn only_the_user_and_root_may_act() {
    assert!(authorize("alice", 0, Some(1000)).is_none());
    assert!(authorize("alice", 0, None).is_none());
    assert!(authorize("alice", 1000, Some(1000)).is_none());
    let e = authorize("alice", 1001, Some(1000)).unwrap();
    assert_eq!(message(&e), "permission denied: you are not 'alice'");
    let e = authorize("nobody", 1001, None).unwrap();
    assert_eq!(message(&e), "unknown user 'nobody'");
}

fn user_requests() -> Vec<Request> {
    let username = || "alice".to_string();
    vec![
        Request::Enroll { username: username(), camera_index: 0, encodings: vec![vec![0; 128]] },
        Request::Clear { username: username(), index: None },
        Request::LoadModel { username: username() },
        Request::Authenticate { username: username(), timeout_secs: 5 },
        Request::GetServices { username: username() },
        Request::SetOpt { username: username(), service: "sudo".to_string(), allowed: true },
    ]
}

#[test]
fn strangers_are_refused() {
    for request in user_requests() {
        match handle_request(request, 1001, Some(1000)) {
            Dispatch::Reply(e) => {
                assert_eq!(message(&e), "permission denied: you are not 'alice'")
            }
            _ => panic!("let in"),
        }
    }
    for request in user_requests() {
        assert!(!matches!(handle_request(request, 1000, Some(1000)), Dispatch::Reply(_)));
    }
    for request in user_requests() {
        assert!(!matches!(handle_request(request, 0, None), Dispatch::Reply(_)));
    }
}

#[test]
fn users_named_by_requests() {
    for request in user_requests() {
        assert_eq!(named_user(&request).as_deref(), Some("alice"));
    }
    let request =
        Request::CheckService { username: "bob".to_string(), service: "su".to_string() };
    assert_eq!(named_user(&request).as_deref(), Some("bob"));
    assert_eq!(named_user(&Request::ListCameras), None);
    assert_eq!(named_user(&Request::RecordCaller { service: "su".to_string() }), None);
}

#[test]
fn requests_are_dispatched() {
    let request = Request::Enroll {
        username: "alice".to_string(),
        camera_index: 3,
        encodings: vec![vec![1; 128], vec![2; 128]],
    };
    assert!(matches!(
        handle_request(request, 1000, Some(1000)),
        Dispatch::Store(ModelMsg::Enroll { username, camera_index: 3, batch })
            if username == "alice" && batch == vec![[1; 128], [2; 128]]
    ));
    let request = Request::Enroll {
        username: "alice".to_string(),
        camera_index: 3,
        encodings: vec![vec![1; 128], vec![2; 129]],
    };
    assert!(matches!(
        handle_request(request, 1000, Some(1000)),
        Dispatch::Reply(e) if message(&e) == "each encoding must be exactly 128 floats"
    ));
    let request = Request::Clear { username: "alice".to_string(), index: Some(2) };
    assert!(matches!(
        handle_request(request, 0, None),
        Dispatch::Store(ModelMsg::Clear { username, index: Some(2) }) if username == "alice"
    ));
    let request = Request::LoadModel { username: "alice".to_string() };
    assert!(matches!(
        handle_request(request, 0, None),
        Dispatch::Fetch(ModelMsg::Load { username }) if username == "alice"
    ));
    let request = Request::Authenticate { username: "alice".to_string(), timeout_secs: 9 };
    assert!(matches!(
        handle_request(request, 0, None),
        Dispatch::FetchForAuth { load: ModelMsg::Load { username }, timeout_secs: 9 }
            if username == "alice"
    ));
    let request = Request::CaptureEncoding { camera_index: 1, timeout_secs: 20 };
    match handle_request(request, 1234, None) {
        Dispatch::Capture { request, wait_secs } => {
            assert_eq!((request.camera_index, request.timeout_secs, wait_secs), (1, 20, 80));
        }
        _ => panic!("not a capture"),
    }
    assert!(matches!(handle_request(Request::ListCameras, 1234, None), Dispatch::ListCameras));
    let request = Request::CheckService {
        username: "alice".to_string(),
        service: "sudo".to_string(),
    };
    assert!(matches!(handle_request(request, 1234, None), Dispatch::CheckService { .. }));
    let request = Request::RecordCaller { service: "sudo".to_string() };
    assert!(matches!(
        handle_request(request, 1234, None),
        Dispatch::RecordCaller { service } if service == "sudo"
    ));
}

// --- answers ---

#[test]
fn answers_about_models() {
    assert_eq!(model_call(ModelReply::Done(5)).unwrap(), 5);
    let gone: Result<u8, Response> = model_call(ModelReply::Unavailable);
    assert_eq!(message(&gone.unwrap_err()), "model actor unavailable");
    assert!(matches!(store_response(ModelReply::Done(())), Response::Success));
    assert_eq!(message(&store_response(ModelReply::Failed("disk".to_string()))), "disk");
    assert!(matches!(
        fetch_response(ModelReply::Done("{}".to_string())),
        Response::Model { json } if json == "{}"
    ));
    assert_eq!(message(&fetch_response(ModelReply::Unavailable)), "model actor unavailable");
}

#[test]
fn from_model_to_camera() {
    let disk = match stored(4, &[2]) {
        Some(FileRead::Parsed(Ok(disk))) => disk,
        _ => panic!("no disk"),
    };
    let (request, wait) = auth_request(ModelReply::Done(Ok(disk)), 5).ok().unwrap();
    assert_eq!((request.timeout_secs, wait), (5, 65));
    assert_eq!(request.face_model.camera.index, 4);
    assert_eq!(request.face_model.encodings.len(), 2);
    let e = auth_request(ModelReply::Done(Err("eof".to_string())), 5).err().unwrap();
    assert_eq!(message(&e), "JSON error: eof");
    let e = auth_request(ModelReply::Failed("no model".to_string()), 5).err().unwrap();
    assert_eq!(message(&e), "no model");
    let e = auth_request(ModelReply::Unavailable, 5).err().unwrap();
    assert_eq!(message(&e), "model actor unavailable");
}

#[test]
fn answers_about_the_camera() {
    assert!(matches!(auth_response(CameraReply::Done(())), Response::Success));
    assert_eq!(message(&auth_response(CameraReply::Unavailable)), "camera actor unavailable");
    assert_eq!(
        message(&auth_response(CameraReply::TimedOut)),
        "authentication timed out waiting for camera"
    );
    assert_eq!(message(&auth_response(CameraReply::Failed("x".to_string()))), "x");
    assert!(matches!(
        capture_response(CameraReply::Done(vec![1; 128])),
        Response::Encoding { data } if data == vec![1; 128]
    ));
    assert_eq!(
        message(&capture_response(CameraReply::TimedOut)),
        "capture timed out waiting for camera"
    );
    assert_eq!(message(&capture_response(CameraReply::Unavailable)), "camera actor unavailable");
    assert_eq!(message(&capture_response(CameraReply::Failed("y".to_string()))), "y");
}

#[test]
fn cameras_are_described() {
    let cameras = vec![
        CameraInfo { index: 2, name: "IR Camera".to_string(), greyscale_only: true },
        CameraInfo { index: 0, name: "USB Cam".to_string(), greyscale_only: false },
    ];
    match cameras_response(&cameras) {
        Response::Cameras { cameras } => {
            assert_eq!(cameras.len(), 2);
            assert_eq!((cameras[0].index, cameras[0].suitability), (2, 2));
            assert_eq!((cameras[1].name.as_str(), cameras[1].suitability), ("USB Cam", 0));
        }
        _ => panic!("no cameras"),
    }
}

// --- models ---

#[test]
fn loading_for_a_client() {
    assert_eq!(
        do_load("alice", None, TextFile::Missing),
        Err("unknown user 'alice'".to_string())
    );
    assert_eq!(
        do_load("alice", Some(1000), TextFile::Missing),
        Err("no model enrolled for 'alice'".to_string())
    );
    assert_eq!(
        do_load("alice", Some(1000), TextFile::Failed("denied".to_string())),
        Err("denied".to_string())
    );
    assert_eq!(
        do_load("alice", Some(1000), TextFile::Contents("{}".to_string())),
        Ok("{}".to_string())
    );
}

#[test]
fn enrolling() {
    let batch = vec![[7; 128]; 5];
    let plan = do_enroll("alice", camera(2), &batch, Some(1000), None).ok().unwrap();
    assert_eq!(plan.path, "/etc/security/faceauth/1000.json");
    assert_eq!(plan.owner, 1000);
    let model = load_model_from_disk(plan.disk).unwrap();
    assert_eq!(model.encodings, batch);
    assert_eq!(model.camera.index, 2);

    let plan = do_enroll("alice", camera(2), &batch, Some(1000), stored(2, &[1, 3])).ok().unwrap();
    assert_eq!(sizes(plan), vec![1, 3, 5]);

    assert_eq!(
        do_enroll("alice", camera(3), &batch, Some(1000), stored(2, &[1])).err().unwrap(),
        "model already uses /dev/video2; use 'faceauth clear' first to change cameras"
    );
    // A model without encodings takes the new camera.
    let plan = do_enroll("alice", camera(3), &batch, Some(1000), stored(2, &[])).ok().unwrap();
    assert_eq!(plan.disk.camera.index, 3);

    assert_eq!(
        do_enroll("alice", camera(2), &batch, None, None).err().unwrap(),
        "unknown user 'alice'"
    );
    let failed = Some(FileRead::Failed("denied".to_string()));
    assert_eq!(
        do_enroll("alice", camera(2), &batch, Some(1000), failed).err().unwrap(),
        "Model storage error: denied"
    );
}

#[test]
fn clearing() {
    assert_eq!(
        do_clear("alice", None, None, None).err().unwrap(),
        "unknown user 'alice'"
    );
    assert!(matches!(do_clear("alice", None, Some(1000), None), Ok(ClearPlan::Nothing)));
    assert!(matches!(do_clear("alice", Some(3), Some(1000), None), Ok(ClearPlan::Nothing)));
    assert!(matches!(
        do_clear("alice", None, Some(1000), stored(0, &[1, 2])),
        Ok(ClearPlan::Delete(path)) if path == "/etc/security/faceauth/1000.json"
    ));
    match do_clear("alice", Some(1), Some(1000), stored(0, &[1, 2, 3])) {
        Ok(ClearPlan::Save(plan)) => assert_eq!(sizes(plan), vec![1, 3]),
        _ => panic!("not saved"),
    }
    assert!(matches!(
        do_clear("alice", Some(0), Some(1000), stored(0, &[4])),
        Ok(ClearPlan::Delete(_))
    ));
    assert_eq!(
        do_clear("alice", Some(2), Some(1000), stored(0, &[1, 1])).err().unwrap(),
        "batch index 2 out of range (have 2)"
    );
    assert_eq!(
        do_clear("alice", Some(0), Some(1000), Some(FileRead::Missing)).err().unwrap(),
        "No face model found for user 'alice'"
    );
}

// --- services ---

#[test]
fn services_of_a_user() {
    let text = |s: &str| Some(s.to_string());
    match services_response("alice", Some(1000), &text("-sudo\n"), &text("+sudo\n+su\n")) {
        Response::Services { services } => {
            let got: Vec<(&str, bool)> =
                services.iter().map(|e| (e.name.as_str(), e.allowed)).collect();
            assert_eq!(got, vec![("sudo", true), ("su", true)]);
        }
        _ => panic!("no services"),
    }
    let r = services_response("alice", None, &None, &None);
    assert_eq!(message(&r), "unknown user 'alice'");
}

#[test]
fn opting_in_and_out() {
    let text = |s: &str| Some(s.to_string());
    let plan = set_opt("alice", "sudo", false, Some(1000), &None).unwrap();
    assert_eq!(plan.path, "/etc/security/faceauth/1000.opt");
    assert_eq!(plan.text, "-sudo\n");
    let plan = set_opt("alice", "sudo", false, Some(1000), &text("+su\n+sudo\n")).unwrap();
    let out = plan.text;
    assert_eq!(out, "+su\n-sudo\n");
    assert!(matches!(
        check_service_response("alice", "su", Some(1000), &None, &Some(out.clone())),
        Response::Success
    ));
    let r = check_service_response("alice", "sudo", Some(1000), &text("+sudo\n"), &Some(out));
    assert_eq!(message(&r), "service 'sudo' is opted out");
    assert!(matches!(
        check_service_response("alice", "sudo", Some(1000), &text("+sudo\n"), &None),
        Response::Success
    ));
    let r = check_service_response("alice", "login", Some(1000), &None, &None);
    assert_eq!(message(&r), "service 'login' is not opted in");
    let r = check_service_response("alice", "login", None, &None, &None);
    assert_eq!(message(&r), "unknown user 'alice'");
    let e = set_opt("alice", "a\n+sudo", true, Some(1000), &None).unwrap_err();
    assert_eq!(message(&e), "invalid service name 'a\n+sudo'");
    let e = set_opt("alice", "sudo", true, None, &None).unwrap_err();
    assert_eq!(message(&e), "unknown user 'alice'");
    // A parent process may be known by a path.
    let plan = set_opt("alice", "/usr/bin/tmux", false, Some(1000), &None).unwrap();
    assert_eq!(plan.text, "-/usr/bin/tmux\n");
}

#[test]
fn recording_callers() {
    let text = |s: &str| Some(s.to_string());
    assert_eq!(
        pam_service_paths("sudo"),
        ("/etc/pam.d/sudo".to_string(), "/usr/lib/pam.d/sudo".to_string())
    );
    let plan = record_caller("sudo", true, &None).unwrap().unwrap();
    assert_eq!(plan.path, "/etc/security/faceauth/defaults.opt");
    assert_eq!(plan.text, "-sudo\n");
    let plan = record_caller("sudo", true, &text("+login\n")).unwrap().unwrap();
    assert_eq!(plan.text, "+login\n-sudo\n");
    assert!(record_caller("sudo", true, &text("+sudo\n")).unwrap().is_none());
    let e = record_caller("nope", false, &None).unwrap_err();
    assert_eq!(message(&e), "unknown PAM service 'nope'");
    assert!(record_caller("../shadow", true, &None).is_err());
}
