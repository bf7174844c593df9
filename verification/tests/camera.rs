use faceauth::camera::{
    camera_id_for_index, camera_name_for_index, cameras_by_index, capture_frame,
    device_name_path, enumerate_v4l_dir, has_video_capture, is_decodable, is_greyscale_only,
    list_cameras, look_at, luma_frame, resolve_camera_index, resolve_video_symlink,
    suitability_of, video_device_path, video_index, CameraInfo, Capture, DeviceLink, Look,
    PixelFormat, VideoNode,
};
use faceauth::error::FaceAuthError;
use faceauth::model::CameraId;

// --- suitability ---

#[test]
fn suitability_colour_no_hint() {
    let cam = CameraInfo { index: 0, name: "USB Webcam".to_string(), greyscale_only: false };
    assert_eq!(cam.suitability(), 0);
}

#[test]
fn suitability_greyscale_no_hint() {
    let cam = CameraInfo { index: 0, name: "Some Camera".to_string(), greyscale_only: true };
    assert_eq!(cam.suitability(), 1);
}

#[test]
fn suitability_colour_with_hint() {
    let cam = CameraInfo {
        index: 0,
        name: "Windows Hello Camera".to_string(),
        greyscale_only: false,
    };
    assert_eq!(cam.suitability(), 1);
}

#[test]
fn suitability_greyscale_with_hint() {
    let cam = CameraInfo { index: 0, name: "Intel RealSense IR".to_string(), greyscale_only: true };
    assert_eq!(cam.suitability(), 2);
}

#[test]
fn suitability_all_name_hints_recognised() {
    for name in &["IR Camera", "Infrared Sensor", "Windows Hello", "Intel RealSense"] {
        let cam = CameraInfo { index: 0, name: name.to_string(), greyscale_only: false };
        assert!(cam.suitability() >= 1, "expected name hint match for: {name}");
    }
}

#[test]
fn suitability_ignores_case_of_other_scripts() {
    // The Turkish capital I with dot becomes two characters, of which the first is `i`.
    let cam = CameraInfo { index: 0, name: "\u{130}R".to_string(), greyscale_only: false };
    assert_eq!(cam.suitability(), 0);
    let cam = CameraInfo { index: 0, name: "\u{c4}IR".to_string(), greyscale_only: false };
    assert_eq!(cam.suitability(), 1);
}

#[test]
fn suitability_of_lower_case_name() {
    assert_eq!(suitability_of("infrared", false), 1);
    assert_eq!(suitability_of("INFRARED", false), 0);
    assert_eq!(suitability_of("", true), 1);
}

// --- names and paths ---

#[test]
fn camera_name_for_missing_index_is_empty() {
    assert_eq!(device_name_path(999_999), "/sys/class/video4linux/video999999/name");
    assert_eq!(camera_name_for_index(None), "");
}

#[test]
fn camera_name_is_trimmed() {
    assert_eq!(camera_name_for_index(Some(" HD Webcam\n".to_string())), "HD Webcam");
}

#[test]
fn device_paths_and_numbers() {
    assert_eq!(video_device_path(0), "/dev/video0");
    assert_eq!(video_device_path(4294967295), "/dev/video4294967295");
    assert_eq!(video_index("video12"), Some(12));
    assert_eq!(video_index("video"), None);
    assert_eq!(video_index("video1x"), None);
    assert_eq!(video_index("media0"), None);
    assert_eq!(video_index("video4294967296"), None);
    // The number in a device path is the one that it was made for.
    assert_eq!(video_index(video_device_path(77).strip_prefix("/dev/").unwrap()), Some(77));
    assert_eq!(resolve_video_symlink(&Some("video3".to_string())), Some(3));
    assert_eq!(resolve_video_symlink(&None), None);
}

// --- capabilities ---

#[test]
fn capture_capability_is_that_of_the_node() {
    assert!(!has_video_capture(None));
    assert!(has_video_capture(Some((0x1, 0x0))));
    assert!(!has_video_capture(Some((0x2, 0x1))));
    assert!(has_video_capture(Some((0x8000_0000, 0x1))));
    assert!(!has_video_capture(Some((0x8000_0001, 0x0080_0000))));
}

#[test]
fn greyscale_only_needs_a_format_and_no_colour() {
    let grey: u32 = 0x59455247;
    let y16: u32 = 0x36313059;
    let yuyv: u32 = 0x56595559;
    assert!(!is_greyscale_only(&None));
    assert!(!is_greyscale_only(&Some(vec![])));
    assert!(is_greyscale_only(&Some(vec![grey])));
    assert!(is_greyscale_only(&Some(vec![grey, y16, 0x30313059, 0x32313059, 0xB6313059])));
    assert!(!is_greyscale_only(&Some(vec![grey, yuyv])));
}

// --- listing ---

fn node(file_name: &str, captures: bool, name: Option<&str>, greyscale_only: bool) -> VideoNode {
    VideoNode {
        file_name: file_name.to_string(),
        captures,
        name: name.map(|s| s.to_string()),
        greyscale_only,
    }
}

#[test]
fn cameras_are_listed_by_suitability() {
    let nodes = vec![
        node("video4", true, Some("USB Webcam\n"), false),
        node("video1", false, Some("USB Webcam\n"), false),
        node("video0", true, Some("USB Webcam\n"), false),
        node("video2", true, Some("IR Camera\n"), true),
        node("media0", true, Some("x"), true),
        node("video3", true, None, true),
    ];
    let cameras = list_cameras(&nodes);
    let indices: Vec<u32> = cameras.iter().map(|c| c.index).collect();
    assert_eq!(indices, vec![2, 3, 0, 4]);
    assert_eq!(cameras[0].name, "IR Camera");
    assert_eq!(cameras[1].name, "");

    let sorted = cameras_by_index(&cameras);
    let indices: Vec<u32> = sorted.iter().map(|c| c.index).collect();
    assert_eq!(indices, vec![0, 2, 3, 4]);
    assert!(sorted[1].greyscale_only);
}

#[test]
fn no_nodes_no_cameras() {
    assert!(list_cameras(&vec![]).is_empty());
}

// --- stable names ---

fn link(name: &str, target: Option<&str>) -> DeviceLink {
    DeviceLink { name: name.to_string(), target: target.map(|s| s.to_string()) }
}

#[test]
fn links_that_lead_nowhere_are_left_out() {
    let links = vec![
        link("a", Some("video0")),
        link("b", None),
        link("c", Some("null")),
        link("d", Some("video2")),
    ];
    assert_eq!(
        enumerate_v4l_dir(&links),
        vec![("a".to_string(), 0), ("d".to_string(), 2)]
    );
}

#[test]
fn identity_of_a_camera() {
    let by_id = vec![
        link("usb-A-video-index0", Some("video0")),
        link("usb-B-video-index0", Some("video2")),
        link("usb-B-again", Some("video2")),
    ];
    let by_path = vec![link("pci-1-video-index0", Some("video0"))];
    let id = camera_id_for_index(2, &by_id, &by_path);
    assert_eq!(id.by_id.as_deref(), Some("usb-B-video-index0"));
    assert_eq!(id.by_path, None);
    assert_eq!(id.index, 2);
    // It leads back to the device.
    assert_eq!(resolve_camera_index(&id, &Some("video2".to_string()), &None), 2);
}

#[test]
fn serial_number_decides_before_port_and_index() {
    let id = CameraId {
        by_id: Some("usb-B".to_string()),
        by_path: Some("pci-1".to_string()),
        index: 7,
    };
    let v = |n: &str| Some(n.to_string());
    assert_eq!(resolve_camera_index(&id, &v("video4"), &v("video5")), 4);
    assert_eq!(resolve_camera_index(&id, &None, &v("video5")), 5);
    assert_eq!(resolve_camera_index(&id, &v("sda"), &v("video5")), 5);
    assert_eq!(resolve_camera_index(&id, &None, &None), 7);
    let bare = CameraId { by_id: None, by_path: None, index: 7 };
    assert_eq!(resolve_camera_index(&bare, &v("video4"), &v("video5")), 7);
}

// --- frames ---

#[test]
fn grey_frames_keep_their_bytes() {
    let frame = capture_frame(Capture::Raw {
        format: PixelFormat::Gray,
        width: 2,
        height: 1,
        bytes: vec![10, 200],
    })
    .unwrap();
    assert_eq!(frame.data, vec![10, 10, 10, 200, 200, 200]);
    assert_eq!((frame.width, frame.height), (2, 1));
}

#[test]
fn colour_frames_become_their_mean() {
    for format in [PixelFormat::RawRgb, PixelFormat::RawBgr] {
        let frame = capture_frame(Capture::Raw {
            format,
            width: 1,
            height: 2,
            bytes: vec![1, 2, 4, 255, 255, 254],
        })
        .unwrap();
        assert_eq!(frame.data, vec![2, 2, 2, 254, 254, 254]);
    }
}

#[test]
fn packed_frames_are_decoded() {
    // Black and white without colour, then two pixels that share theirs.
    let packed = Capture::Raw {
        format: PixelFormat::Yuyv,
        width: 2,
        height: 2,
        bytes: vec![16, 128, 235, 128, 81, 90, 145, 240],
    };
    let frame = capture_frame(packed).unwrap();
    let lumas: Vec<u8> = frame.data.chunks(3).map(|p| p[0]).collect();
    assert_eq!(lumas, vec![0, 255, 85, 134]);
    assert!(frame.data.chunks(3).all(|p| p[0] == p[1] && p[1] == p[2]));
}

#[test]
fn planar_frames_are_decoded() {
    // Colour in the second pair of columns only.
    let planar = Capture::Raw {
        format: PixelFormat::Nv12,
        width: 4,
        height: 2,
        bytes: vec![16, 16, 81, 145, 235, 235, 145, 81, 128, 128, 90, 240],
    };
    assert!(is_decodable(&planar));
    let frame = capture_frame(planar).unwrap();
    let lumas: Vec<u8> = frame.data.chunks(3).map(|p| p[0]).collect();
    assert_eq!(lumas, vec![0, 0, 85, 134, 255, 255, 134, 85]);
    assert_eq!((frame.width, frame.height), (4, 2));
}

#[test]
fn short_frames_are_errors() {
    let no_buffer = |f: &str| format!("Could not process frame {f} to F: Failed to create buffer");
    let yuyv = "Could not process frame YUYV to RGB888: Assertion failure, the YUV stream isn't 4:2:2! (wrong number of bytes)";
    let nv12 = "Could not process frame NV12 to RGB: bad input buffer size";
    for (format, len, why) in [
        (PixelFormat::Gray, 3, no_buffer("GRAY")),
        (PixelFormat::RawRgb, 9, no_buffer("RAWRGB")),
        (PixelFormat::RawBgr, 9, no_buffer("RAWBGR")),
        (PixelFormat::Yuyv, 7, yuyv.to_string()),
        (PixelFormat::Yuyv, 4, no_buffer("YUYV")),
        (PixelFormat::Nv12, 5, nv12.to_string()),
    ] {
        let raw = || Capture::Raw { format, width: 2, height: 2, bytes: vec![0; len] };
        let err = capture_frame(raw()).err().unwrap();
        assert!(matches!(err, FaceAuthError::Camera(m) if m == why), "{why}");
        assert!(matches!(look_at(raw()), Look::Garbled));
    }
    let odd = Capture::Raw { format: PixelFormat::Nv12, width: 1, height: 2, bytes: vec![0; 3] };
    assert_eq!(
        capture_frame(odd).err().unwrap().message(),
        "Camera error: Could not process frame NV12 to RGB: bad resolution"
    );
}

#[test]
fn lost_frames_are_told_from_garbled_ones() {
    let lost = look_at(Capture::Failed("gone".to_string()));
    assert!(matches!(lost, Look::Lost(FaceAuthError::Camera(m)) if m == "gone"));
    let luma = Err("bad stream".to_string());
    let garbled = look_at(Capture::Decompressed { width: 1, height: 1, luma });
    assert!(matches!(garbled, Look::Garbled));
    let bytes = vec![7];
    let sight = look_at(Capture::Raw { format: PixelFormat::Gray, width: 1, height: 1, bytes });
    assert!(matches!(sight, Look::Sight(f) if f.data == [7, 7, 7] && (f.width, f.height) == (1, 1)));
}

#[test]
fn frames_that_cannot_be_decoded_safely() {
    let raw = |format, width, height, len: usize| Capture::Raw {
        format,
        width,
        height,
        bytes: vec![0; len],
    };
    assert!(!is_decodable(&raw(PixelFormat::RawRgb, 1, 1, 4)));
    assert!(is_decodable(&raw(PixelFormat::RawRgb, 1, 1, 6)));
    assert!(!is_decodable(&raw(PixelFormat::Nv12, 0, 2, 0)));
    assert!(is_decodable(&raw(PixelFormat::Nv12, 0, 2, 6)));
    assert!(is_decodable(&raw(PixelFormat::Nv12, 0, 3, 0)));
    assert!(is_decodable(&raw(PixelFormat::Nv12, 2, 0, 0)));
    assert!(!is_decodable(&raw(PixelFormat::Nv12, 4294967295, 0, 0)));
    assert!(!is_decodable(&raw(PixelFormat::Nv12, 65536, 65536, 0)));
    assert!(is_decodable(&raw(PixelFormat::Gray, 4294967295, 4294967295, 0)));
    assert!(is_decodable(&Capture::Failed("x".to_string())));
}

#[test]
fn frames_without_width() {
    let raw = |height, len: usize| Capture::Raw {
        format: PixelFormat::Nv12,
        width: 0,
        height,
        bytes: vec![0; len],
    };
    assert!(matches!(capture_frame(raw(2, 6)), Err(FaceAuthError::Camera(_))));
    assert!(matches!(capture_frame(raw(3, 0)), Err(FaceAuthError::Camera(_))));
    let flat = Capture::Raw { format: PixelFormat::Nv12, width: 2, height: 0, bytes: vec![] };
    assert!(capture_frame(flat).unwrap().data.is_empty());
}

#[test]
fn failures_of_the_camera_are_passed_on() {
    let err = capture_frame(Capture::Failed("gone".to_string())).err().unwrap();
    assert_eq!(err.message(), "Camera error: gone");
    let err = capture_frame(Capture::Decompressed {
        width: 1,
        height: 1,
        luma: Err("bad stream".to_string()),
    })
    .err()
    .unwrap();
    assert_eq!(err.message(), "Camera error: bad stream");
    let frame = capture_frame(Capture::Decompressed { width: 1, height: 1, luma: Ok(vec![9]) });
    assert_eq!(frame.ok().unwrap().data, vec![9, 9, 9]);
    assert_eq!(luma_frame(1, 1, Ok(vec![7])).ok().unwrap().data, vec![7, 7, 7]);
}
