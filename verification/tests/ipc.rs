use faceauth::error::FaceAuthError;
use faceauth::ipc::{
    add_capped, authenticate_request, authenticate_via_daemon, capture_encoding_request,
    capture_encoding_via_daemon, check_service_request, check_service_via_daemon, from_line,
    load_model_request, load_model_via_daemon, opted_out_via_daemon, record_caller_request, to_line,
    Exchange, Request, Response, SOCKET_PATH,
};
use faceauth::model::{model_to_disk, CameraId, FaceModel};

fn failure(message: &str) -> Response {
    Response::Failure { message: message.to_string() }
}

#[test]
fn socket_path() {
    assert_eq!(SOCKET_PATH, "/run/faceauth/faceauth.sock");
}

#[test]
fn lines_carry_json() {
    assert_eq!(to_line("{\"op\":\"ListCameras\"}"), "{\"op\":\"ListCameras\"}\n");
    assert_eq!(from_line(&to_line("{\"a\": 1}")), "{\"a\": 1}");
    assert_eq!(from_line(" {}\r\n"), "{}");
}

#[test]
fn sums_are_capped() {
    assert_eq!(add_capped(5, 60), 65);
    assert_eq!(add_capped(u64::MAX - 3, 10), u64::MAX);
}

#[test]
fn capture_through_the_daemon() {
    let (request, wait) = capture_encoding_request(2, 30);
    assert!(matches!(request, Request::CaptureEncoding { camera_index: 2, timeout_secs: 30 }));
    assert_eq!(wait, 40);
    assert_eq!(capture_encoding_request(0, u64::MAX).1, u64::MAX);

    let ok = Exchange::Answer(Response::Encoding { data: vec![5; 128] });
    assert_eq!(capture_encoding_via_daemon(ok).unwrap(), [5; 128]);
    let short = Exchange::Answer(Response::Encoding { data: vec![5; 127] });
    assert_eq!(
        capture_encoding_via_daemon(short).unwrap_err().message(),
        "dlib error: encoding from daemon must be exactly 128 floats"
    );
    let timeout = Exchange::Answer(failure("timed out"));
    assert!(matches!(
        capture_encoding_via_daemon(timeout).unwrap_err(),
        FaceAuthError::Camera(m) if m == "timed out"
    ));
    let odd = Exchange::Answer(Response::Success);
    assert_eq!(
        capture_encoding_via_daemon(odd).unwrap_err().message(),
        "Model storage error: unexpected response from faceauth daemon"
    );
    let gone = Exchange::Unreachable("no socket".to_string());
    assert!(matches!(capture_encoding_via_daemon(gone).unwrap_err(), FaceAuthError::Storage(_)));
    let bad = Exchange::Malformed("eof".to_string());
    assert!(matches!(capture_encoding_via_daemon(bad).unwrap_err(), FaceAuthError::Json(_)));
}

#[test]
fn loading_through_the_daemon() {
    assert!(matches!(
        load_model_request("carol"),
        Request::LoadModel { username } if username == "carol"
    ));
    let nothing = || Err("not parsed".to_string());
    let disk = model_to_disk(&FaceModel::new(
        "carol",
        CameraId { by_id: None, by_path: None, index: 6 },
    ));
    let answer = Exchange::Answer(Response::Model { json: "{}".to_string() });
    assert_eq!(load_model_via_daemon("carol", answer, Ok(disk)).unwrap().camera.index, 6);
    let answer = Exchange::Answer(Response::Model { json: "{".to_string() });
    assert!(matches!(
        load_model_via_daemon("carol", answer, nothing()).unwrap_err(),
        FaceAuthError::Json(_)
    ));
    let answer = Exchange::Answer(failure("no model enrolled for 'carol'"));
    assert!(matches!(
        load_model_via_daemon("carol", answer, nothing()).unwrap_err(),
        FaceAuthError::ModelNotFound(u) if u == "carol"
    ));
    let answer = Exchange::Answer(failure("permission denied"));
    assert!(matches!(
        load_model_via_daemon("carol", answer, nothing()).unwrap_err(),
        FaceAuthError::Storage(m) if m == "permission denied"
    ));
    let answer = Exchange::Answer(Response::Success);
    assert!(load_model_via_daemon("carol", answer, nothing()).is_err());
    let answer = Exchange::Unreachable("x".to_string());
    assert!(matches!(
        load_model_via_daemon("carol", answer, nothing()).unwrap_err(),
        FaceAuthError::Storage(_)
    ));
}

#[test]
fn authenticating_through_the_daemon() {
    let (request, wait) = authenticate_request("dave", 5);
    assert!(matches!(
        request,
        Request::Authenticate { username, timeout_secs: 5 } if username == "dave"
    ));
    assert_eq!(wait, 65);
    assert!(authenticate_via_daemon(Exchange::Answer(Response::Success)).is_ok());
    assert!(matches!(
        authenticate_via_daemon(Exchange::Answer(failure("no match"))).unwrap_err(),
        FaceAuthError::Camera(m) if m == "no match"
    ));
    let odd = Exchange::Answer(Response::Model { json: String::new() });
    assert!(matches!(authenticate_via_daemon(odd).unwrap_err(), FaceAuthError::Storage(_)));
    let gone = Exchange::Unreachable("x".to_string());
    assert!(matches!(authenticate_via_daemon(gone).unwrap_err(), FaceAuthError::Storage(_)));
    let bad = Exchange::Malformed("x".to_string());
    assert!(matches!(authenticate_via_daemon(bad).unwrap_err(), FaceAuthError::Json(_)));
}

#[test]
fn services_through_the_daemon() {
    assert!(matches!(
        check_service_request("dave", "sudo"),
        Request::CheckService { username, service } if username == "dave" && service == "sudo"
    ));
    assert!(matches!(
        record_caller_request("login"),
        Request::RecordCaller { service } if service == "login"
    ));
    assert!(check_service_via_daemon(&Exchange::Answer(Response::Success)));
    assert!(!check_service_via_daemon(&Exchange::Answer(failure("no"))));
    assert!(!check_service_via_daemon(&Exchange::Unreachable("x".to_string())));
}

#[test]
fn parents_through_the_daemon() {
    let answer = |m: &str| Exchange::Answer(failure(m));
    assert!(opted_out_via_daemon("tmux", &answer("service 'tmux' is opted out")));
    assert!(!opted_out_via_daemon("tmux", &answer("service 'tmux' is not opted in")));
    assert!(!opted_out_via_daemon("tmux", &answer("service 'bash' is opted out")));
    assert!(!opted_out_via_daemon("tmux", &Exchange::Answer(Response::Success)));
    assert!(!opted_out_via_daemon("tmux", &Exchange::Unreachable("x".to_string())));
}
