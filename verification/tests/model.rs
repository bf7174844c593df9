use faceauth::encoding::{encoding_from_hex, encoding_to_hex};
use faceauth::error::FaceAuthError;
use faceauth::model::{
    load_model, load_model_from_disk, load_model_from_json, load_or_create_model, model_exists,
    model_path, model_to_disk, next_save_step, save_model, temp_path, CameraId, DiskEntry,
    FaceModel, FaceModelDisk, FileRead, SaveStep, StoredModel,
};

fn camera(index: u32) -> CameraId {
    CameraId { by_id: None, by_path: None, index }
}

fn enc(value: f32) -> [u32; 128] {
    [value.to_bits(); 128]
}

/// A parsed model file, taken from a JSON text.
fn parse(contents: &str) -> Result<FaceModelDisk, String> {
    let v: serde_json::Value = serde_json::from_str(contents).map_err(|e| e.to_string())?;
    let text = |v: &serde_json::Value| v.as_str().map(|s| s.to_string());
    let entries = v["encodings"].as_array().ok_or("no encodings")?;
    Ok(FaceModelDisk {
        version: v["version"].as_u64().unwrap_or(1) as u32,
        username: text(&v["username"]).ok_or("no username")?,
        camera: CameraId {
            by_id: text(&v["camera"]["by_id"]),
            by_path: text(&v["camera"]["by_path"]),
            index: v["camera"]["index"].as_u64().ok_or("no index")? as u32,
        },
        encodings: entries
            .iter()
            .map(|e| match e.as_array() {
                Some(list) => DiskEntry::Batch(list.iter().map(|t| text(t).unwrap()).collect()),
                None => DiskEntry::One(text(e).unwrap()),
            })
            .collect(),
    })
}

/// The JSON text of a model file.
fn print(disk: &FaceModelDisk) -> String {
    let text = |s: &Option<String>| match s {
        Some(t) => serde_json::Value::from(t.as_str()),
        None => serde_json::Value::Null,
    };
    let mut cam = serde_json::Map::new();
    cam.insert("by_id".to_string(), text(&disk.camera.by_id));
    cam.insert("by_path".to_string(), text(&disk.camera.by_path));
    cam.insert("index".to_string(), serde_json::Value::from(disk.camera.index));
    let entries: Vec<serde_json::Value> = disk
        .encodings
        .iter()
        .map(|e| match e {
            DiskEntry::One(t) => serde_json::Value::from(t.as_str()),
            DiskEntry::Batch(ts) => serde_json::Value::from(ts.clone()),
        })
        .collect();
    let mut top = serde_json::Map::new();
    top.insert("version".to_string(), serde_json::Value::from(disk.version));
    top.insert("username".to_string(), serde_json::Value::from(disk.username.as_str()));
    top.insert("camera".to_string(), serde_json::Value::Object(cam));
    top.insert("encodings".to_string(), serde_json::Value::from(entries));
    serde_json::Value::Object(top).to_string()
}

#[test]
fn model_path_uses_uid() {
    let p = model_path(1000);
    assert_eq!(p, "/etc/security/faceauth/1000.json");
    let p2 = model_path(0);
    assert_eq!(p2, "/etc/security/faceauth/0.json");
    assert_eq!(temp_path(1000), "/etc/security/faceauth/1000.json.tmp");
}

#[test]
fn face_model_roundtrip() {
    let camera = CameraId {
        by_id: Some("usb-046d_Webcam_ABCDEF-video-index0".to_string()),
        by_path: Some("pci-0000:00:14.0-usb-0:2:1.0-video-index0".to_string()),
        index: 2,
    };
    let mut model = FaceModel::new("bob", camera);
    let e = enc(0.1);
    model.add_encoding(e);

    let json = print(&model_to_disk(&model));
    let loaded_disk = parse(&json).unwrap();
    let loaded_encodings: Vec<[u32; 128]> = loaded_disk
        .encodings
        .iter()
        .map(|entry| match entry {
            DiskEntry::One(s) => encoding_from_hex(s).unwrap(),
            DiskEntry::Batch(_) => panic!("one encoding is no list"),
        })
        .collect();

    assert_eq!(loaded_disk.username, "bob");
    assert_eq!(loaded_disk.camera.index, 2);
    assert_eq!(
        loaded_disk.camera.by_id.as_deref(),
        Some("usb-046d_Webcam_ABCDEF-video-index0")
    );
    assert_eq!(loaded_encodings.len(), 1);
    assert_eq!(loaded_encodings[0], e);
}

#[test]
fn face_model_new_initial_state() {
    let model = FaceModel::new("charlie", camera(3));
    assert_eq!(model.version, 1);
    assert_eq!(model.username, "charlie");
    assert_eq!(model.camera.index, 3);
    assert!(model.encodings.is_empty());
    assert_eq!(model.batch_count(), 0);
}

#[test]
fn load_model_from_json_roundtrip() {
    let mut model = FaceModel::new("alice", camera(0));
    let e = enc(0.25);
    model.add_encoding(e);

    let disk = FaceModelDisk {
        version: model.version,
        username: model.username.clone(),
        camera: model.camera.clone(),
        encodings: model.encodings.iter().map(|e| DiskEntry::One(encoding_to_hex(e))).collect(),
    };
    let json = print(&disk);

    let loaded = load_model_from_json(parse(&json)).unwrap();
    assert_eq!(loaded.username, "alice");
    assert_eq!(loaded.version, 1);
    assert_eq!(loaded.encodings.len(), 1);
    assert_eq!(loaded.encodings[0], e);
}

#[test]
fn load_model_from_json_malformed_json() {
    let err = load_model_from_json(parse("not json at all")).unwrap_err();
    assert!(matches!(err, FaceAuthError::Json(_)));
}

#[test]
fn load_model_from_json_bad_encoding_hex() {
    let json = r#"{"version":1,"username":"x","camera":{"by_id":null,"by_path":null,"index":0},"encodings":["tooshort"]}"#;
    let err = load_model_from_json(parse(json)).unwrap_err();
    assert!(matches!(err, FaceAuthError::Dlib(_)));
}

#[test]
fn old_fields_are_ignored() {
    let json = r#"{"disabled":true,"ignore":["sudo"],"username":"x","camera":{"by_id":null,"by_path":null,"index":4},"encodings":[]}"#;
    let model = load_model_from_json(parse(json)).unwrap();
    assert_eq!(model.username, "x");
    assert_eq!(model.camera.index, 4);
    assert_eq!(model.batch_count(), 0);
}

#[test]
fn batches_are_kept_apart() {
    let mut model = FaceModel::new("dora", camera(1));
    model.add_batch(&vec![enc(1.0), enc(2.0), enc(3.0)]);
    model.add_encoding(enc(4.0));
    model.add_batch(&vec![]);
    model.add_batch(&vec![enc(5.0), enc(6.0)]);
    assert_eq!(model.batch_count(), 4);
    assert_eq!(model.encodings.len(), 6);

    let disk = model_to_disk(&model);
    assert_eq!(disk.encodings.len(), 4);
    assert!(matches!(&disk.encodings[0], DiskEntry::Batch(ts) if ts.len() == 3));
    assert!(matches!(&disk.encodings[1], DiskEntry::One(_)));
    assert!(matches!(&disk.encodings[2], DiskEntry::Batch(ts) if ts.is_empty()));

    // What is loaded is what was saved.
    let back = load_model_from_disk(disk).unwrap();
    assert_eq!(back.encodings, model.encodings);
    assert_eq!(back.batches, model.batches);
    assert_eq!(back.camera, model.camera);

    model.remove_batch(0);
    assert_eq!(model.encodings, vec![enc(4.0), enc(5.0), enc(6.0)]);
    assert_eq!(model.batches, vec![1, 0, 2]);
    // Removing the batch that was added last undoes adding it.
    let before = model.encodings.clone();
    model.add_batch(&vec![enc(9.0)]);
    model.remove_batch(3);
    assert_eq!(model.encodings, before);
    assert_eq!(model.batches, vec![1, 0, 2]);
}

#[test]
fn the_first_bad_encoding_is_reported() {
    let disk = FaceModelDisk {
        version: 1,
        username: "x".to_string(),
        camera: camera(0),
        encodings: vec![
            DiskEntry::One(encoding_to_hex(&enc(1.0))),
            DiskEntry::Batch(vec!["ab".to_string(), "abc".to_string()]),
        ],
    };
    assert_eq!(
        load_model_from_disk(disk).unwrap_err().message(),
        "dlib error: encoding hex string must be 1024 chars, got 2"
    );
}

#[test]
fn loading_from_storage() {
    let missing = load_model("eve", Some(FileRead::Missing)).unwrap_err();
    assert_eq!(missing.message(), "No face model found for user 'eve'");
    let unknown = load_model("eve", None).unwrap_err();
    assert!(matches!(unknown, FaceAuthError::ModelNotFound(_)));
    let failed = load_model("eve", Some(FileRead::Failed("denied".to_string()))).unwrap_err();
    assert_eq!(failed.message(), "Model storage error: denied");
    let bad = load_model("eve", Some(FileRead::Parsed(Err("eof".to_string())))).unwrap_err();
    assert_eq!(bad.message(), "JSON error: eof");
    let disk = model_to_disk(&FaceModel::new("eve", camera(5)));
    let model = load_model("eve", Some(FileRead::Parsed(Ok(disk)))).unwrap();
    assert_eq!(model.camera.index, 5);
}

#[test]
fn existing_models() {
    assert!(model_exists("eve", Some(true)).unwrap());
    assert!(!model_exists("eve", Some(false)).unwrap());
    assert_eq!(
        model_exists("eve", None).unwrap_err().message(),
        "Model storage error: no system account for 'eve'"
    );
}

#[test]
fn creating_a_model() {
    let fresh = load_or_create_model("eve", camera(1), StoredModel::Absent).unwrap();
    assert_eq!((fresh.camera.index, fresh.batch_count()), (1, 0));
    let disk = model_to_disk(&FaceModel::new("eve", camera(5)));
    let read = FileRead::Parsed(Ok(disk));
    let old = load_or_create_model("eve", camera(1), StoredModel::Present(read)).unwrap();
    assert_eq!(old.camera.index, 5);
    assert!(load_or_create_model("eve", camera(1), StoredModel::NoAccount).is_err());
}

#[test]
fn how_a_model_is_saved() {
    let model = FaceModel::new("eve", camera(1));
    let plan = save_model(&model, Some(1001)).ok().unwrap();
    assert_eq!(plan.temp_path, "/etc/security/faceauth/1001.json.tmp");
    assert_eq!(plan.path, "/etc/security/faceauth/1001.json");
    assert_eq!(plan.mode, 0o640);
    assert_eq!(plan.owner, 1001);
    assert_eq!(plan.disk.username, "eve");
    assert_eq!(
        save_model(&model, None).err().unwrap().message(),
        "Model storage error: no system account for 'eve'"
    );
}

#[test]
fn saving_replaces_the_file_last() {
    let mut step = SaveStep::Write;
    let mut seen = vec![];
    while step != SaveStep::Done {
        seen.push(step);
        step = next_save_step(step, Ok(())).unwrap();
    }
    assert_eq!(
        seen,
        vec![SaveStep::Write, SaveStep::SetMode, SaveStep::SetOwner, SaveStep::Rename]
    );
    let full = || Err("full".to_string());
    assert!(next_save_step(SaveStep::Write, full()).is_err());
    assert!(next_save_step(SaveStep::SetMode, full()).is_err());
    assert!(matches!(
        next_save_step(SaveStep::SetOwner, full()).unwrap_err(),
        FaceAuthError::Storage(m) if m == "full"
    ));
    assert_eq!(
        next_save_step(SaveStep::Rename, full()).unwrap_err().message(),
        "Model storage error: full"
    );
}

#[test]
fn error_messages() {
    assert_eq!(FaceAuthError::Camera("x".to_string()).message(), "Camera error: x");
    assert_eq!(FaceAuthError::Storage("x".to_string()).message(), "Model storage error: x");
    assert_eq!(FaceAuthError::Json("x".to_string()).message(), "JSON error: x");
    assert_eq!(
        FaceAuthError::ModelNotFound("x".to_string()).message(),
        "No face model found for user 'x'"
    );
    assert_eq!(
        FaceAuthError::Timeout(5).message(),
        "Authentication timed out after 5 seconds"
    );
    assert_eq!(FaceAuthError::Dlib("x".to_string()).message(), "dlib error: x");
}
