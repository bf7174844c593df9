use faceauth::auth::{
    authenticate_with_encoder, capture_with_encoder, encoder_unavailable, enrolled_camera,
    frame_interval, perform_auth, perform_capture, AuthConfig, Duration, Moment, Step,
    Watch,
};
use faceauth::error::FaceAuthError;
use faceauth::model::{CameraId, FaceModel};

fn camera(index: u32) -> CameraId {
    CameraId { by_id: None, by_path: None, index }
}

#[test]
fn durations() {
    assert_eq!(Duration::from_millis(1500), Duration { secs: 1, nanos: 500_000_000 });
    assert_eq!(Duration::from_secs(7), Duration { secs: 7, nanos: 0 });
    assert_eq!(frame_interval(), Duration { secs: 0, nanos: 100_000_000 });
    let five = Duration::from_secs(5);
    assert!(!five.exceeds(five));
    assert!(Duration { secs: 5, nanos: 1 }.exceeds(five));
    assert!(!Duration { secs: 4, nanos: 999_999_999 }.exceeds(five));
}

#[test]
fn default_configuration() {
    let config = AuthConfig::default();
    assert_eq!(config.timeout, Duration::from_secs(5));
    assert_eq!(config.frame_interval, Duration::from_millis(100));
    let config = AuthConfig::with_timeout(30);
    assert_eq!(config.timeout, Duration::from_secs(30));
    assert_eq!(config.frame_interval, Duration::from_millis(100));
}

fn gone() -> FaceAuthError {
    FaceAuthError::Camera("gone".to_string())
}

fn blur() -> FaceAuthError {
    FaceAuthError::Dlib("blur".to_string())
}

/// What a capture comes to after these rounds, and whether it ends at all.
fn capture(moments: Vec<Moment<[u32; 128]>>) -> Option<Result<[u32; 128], FaceAuthError>> {
    let mut watch = Watch::Fresh;
    for moment in moments {
        match capture_with_encoder(watch, moment, Duration::from_secs(30)) {
            Step::Stop(result) => return Some(result),
            Step::Wait { pause, watch: next } => {
                assert_eq!(pause, frame_interval());
                watch = next;
            }
        }
    }
    None
}

fn attempt(moments: Vec<Moment<Vec<u64>>>) -> Option<Result<(), FaceAuthError>> {
    let config = AuthConfig {
        timeout: Duration::from_secs(5),
        frame_interval: Duration::from_millis(7),
    };
    let mut watch = Watch::Fresh;
    for moment in moments {
        match authenticate_with_encoder(watch, moment, &config) {
            Step::Stop(result) => return Some(result),
            Step::Wait { pause, watch: next } => {
                assert_eq!(pause, config.frame_interval);
                watch = next;
            }
        }
    }
    None
}

#[test]
fn capture_waits_for_exactly_one_face() {
    let none = || Moment::Faces(vec![]);
    let two = || Moment::Faces(vec![[1; 128], [2; 128]]);
    let one = |n: u32| Moment::Faces(vec![[n; 128]]);
    let rounds = vec![Moment::NoFrame(gone()), Moment::Garbled, Moment::Unreadable(blur()), none()];
    assert!(capture(rounds).is_none());
    assert_eq!(capture(vec![two(), one(3), one(4)]).unwrap().unwrap(), [3; 128]);
    // Bad frames are passed over.
    let rounds = vec![
        Moment::NoFrame(gone()),
        Moment::Garbled,
        Moment::Unreadable(blur()),
        Moment::NoFrame(gone()),
        one(5),
        Moment::Over,
    ];
    assert_eq!(capture(rounds).unwrap().unwrap(), [5; 128]);
    // A face that comes too late does not count.
    let rounds = vec![none(), Moment::Over, one(6)];
    assert!(matches!(capture(rounds), Some(Err(FaceAuthError::Timeout(30)))));
}

#[test]
fn captures_without_a_face_end_in_time() {
    let end = |moments| capture(moments).unwrap().unwrap_err();
    assert!(matches!(end(vec![Moment::Over]), FaceAuthError::Timeout(30)));
    // A camera that never could be read is reported as such.
    let late = || FaceAuthError::Camera("late".to_string());
    let rounds = vec![Moment::NoFrame(gone()), Moment::NoFrame(late()), Moment::Over];
    assert!(matches!(end(rounds), FaceAuthError::Camera(m) if m == "late"));
    for seen in [Moment::Garbled, Moment::Unreadable(blur()), Moment::Faces(vec![])] {
        let rounds = vec![Moment::NoFrame(gone()), seen, Moment::NoFrame(gone()), Moment::Over];
        assert!(matches!(end(rounds), FaceAuthError::Timeout(30)));
    }
}

#[test]
fn authentication_waits_for_an_enrolled_face() {
    let near = 0.4f64.to_bits();
    let far = 0.9f64.to_bits();
    let stranger = || Moment::Faces(vec![vec![far, far]]);
    let friend = || Moment::Faces(vec![vec![far], vec![far, near]]);
    assert!(attempt(vec![stranger(), Moment::Faces(vec![])]).is_none());
    assert!(attempt(vec![stranger(), friend()]).unwrap().is_ok());
    // Lost and garbled frames are passed over.
    let rounds = vec![Moment::NoFrame(gone()), Moment::Garbled, stranger(), friend()];
    assert!(attempt(rounds).unwrap().is_ok());
    let rounds = vec![stranger(), Moment::Over, friend()];
    assert!(matches!(attempt(rounds), Some(Err(FaceAuthError::Timeout(5)))));
    let rounds = vec![Moment::NoFrame(gone()), Moment::Garbled, Moment::Over];
    assert!(matches!(attempt(rounds), Some(Err(FaceAuthError::Timeout(5)))));
    let rounds = vec![Moment::NoFrame(gone()), Moment::NoFrame(gone()), Moment::Over];
    assert!(matches!(attempt(rounds), Some(Err(FaceAuthError::Camera(m))) if m == "gone"));
    let rounds = vec![stranger(), Moment::Unreadable(blur()), friend()];
    assert!(matches!(attempt(rounds), Some(Err(FaceAuthError::Dlib(m))) if m == "blur"));
}

#[test]
fn a_model_without_encodings_is_none() {
    let mut model = FaceModel::new("frank", camera(2));
    assert!(matches!(
        enrolled_camera(&model).unwrap_err(),
        FaceAuthError::ModelNotFound(u) if u == "frank"
    ));
    model.add_encoding([0; 128]);
    assert_eq!(enrolled_camera(&model).unwrap(), camera(2));
}

#[test]
fn replies_of_the_camera_thread() {
    assert_eq!(perform_auth(Ok(())), Ok(()));
    assert_eq!(
        perform_auth(Err(FaceAuthError::Timeout(5))),
        Err("Authentication timed out after 5 seconds".to_string())
    );
    assert_eq!(perform_capture(Ok([9; 128])), Ok(vec![9; 128]));
    assert_eq!(
        perform_capture(Err(FaceAuthError::Camera("gone".to_string()))),
        Err("Camera error: gone".to_string())
    );
    assert_eq!(
        encoder_unavailable(&FaceAuthError::Dlib("no file".to_string())),
        "face encoder unavailable: dlib error: no file"
    );
}
