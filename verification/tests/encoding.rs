use faceauth::encoding::{
    encode_faces, encoding_from_hex, encoding_to_array, encoding_to_hex, encoding_to_vec, extract_model,
    matches_model, to_encoding, DISTANCE_THRESHOLD,
};
use faceauth::error::FaceAuthError;

fn bits(enc: &[f32; 128]) -> [u32; 128] {
    let mut out = [0u32; 128];
    for (o, v) in out.iter_mut().zip(enc.iter()) {
        *o = v.to_bits();
    }
    out
}

fn distances(live: &[f32; 128], stored: &[[f32; 128]]) -> Vec<u64> {
    stored
        .iter()
        .map(|s| {
            let sum: f64 = live
                .iter()
                .zip(s.iter())
                .map(|(&x, &y)| (x as f64 - y as f64) * (x as f64 - y as f64))
                .sum();
            sum.sqrt().to_bits()
        })
        .collect()
}

#[test]
fn threshold_is_six_tenths() {
    assert_eq!(f64::from_bits(DISTANCE_THRESHOLD), 0.6);
}

#[test]
fn matches_model_hit() {
    let enc = [0.1f32; 128];
    let stored = vec![enc];
    assert!(matches_model(&distances(&enc, &stored)));
}

#[test]
fn matches_model_miss() {
    let a = [0.0f32; 128];
    let b = [1.0f32; 128];
    assert!(!matches_model(&distances(&a, &[b])));
}

#[test]
fn matches_model_empty_slice() {
    let live = [0.1f32; 128];
    assert!(!matches_model(&distances(&live, &[])));
}

#[test]
fn matches_model_multiple_one_hit() {
    let live = [0.1f32; 128];
    let miss = [1.0f32; 128];
    let hit = live;
    assert!(matches_model(&distances(&live, &[miss, hit])));
}

#[test]
fn matches_model_at_the_threshold() {
    assert!(!matches_model(&vec![0.6f64.to_bits()]));
    assert!(matches_model(&vec![0.5999999999999999f64.to_bits()]));
    assert!(!matches_model(&vec![f64::NAN.to_bits(), f64::INFINITY.to_bits()]));
}

#[test]
fn encoding_hex_roundtrip() {
    let enc = bits(&[0.1f32; 128]);
    let hex = encoding_to_hex(&enc);
    assert_eq!(hex.len(), 128 * 8);
    let back = encoding_from_hex(&hex).unwrap();
    assert_eq!(enc, back);
}

#[test]
fn encoding_hex_roundtrip_special_values() {
    let mut enc = [0.0f32; 128];
    enc[0] = f32::NAN;
    enc[1] = f32::INFINITY;
    enc[2] = f32::NEG_INFINITY;
    enc[3] = -0.0f32;

    let hex = encoding_to_hex(&bits(&enc));
    let back: Vec<f32> =
        encoding_from_hex(&hex).unwrap().iter().map(|&b| f32::from_bits(b)).collect();

    assert!(back[0].is_nan());
    assert_eq!(back[1], f32::INFINITY);
    assert_eq!(back[2], f32::NEG_INFINITY);
    assert!(back[3].is_sign_negative() && back[3] == 0.0);
}

#[test]
fn encoding_from_hex_wrong_length() {
    assert!(encoding_from_hex("tooshort").is_err());
    assert!(encoding_from_hex(&"a".repeat(128 * 8 + 1)).is_err());
}

#[test]
fn hex_text_of_known_numbers() {
    let mut enc = [0u32; 128];
    enc[0] = 1.0f32.to_bits();
    enc[127] = 0xdead_beef;
    let hex = encoding_to_hex(&enc);
    assert!(hex.starts_with("0000803f00000000"));
    assert!(hex.ends_with("00000000efbeadde"));
    assert_eq!(encoding_to_hex(&bits(&[1.0f32; 128])), "0000803f".repeat(128));
}

#[test]
fn what_is_wrong_with_a_hex_text() {
    assert_eq!(
        encoding_from_hex("tooshort").unwrap_err(),
        "encoding hex string must be 1024 chars, got 8"
    );
    let mut text = "0".repeat(1023);
    text.push('g');
    assert_eq!(encoding_from_hex(&text).unwrap_err(), "invalid digit found in string");
    // A sign is no digit.
    let mut text = "+0000001".to_string();
    text.push_str(&"0".repeat(1016));
    assert_eq!(encoding_from_hex(&text).unwrap_err(), "invalid digit found in string");
    // A character that two groups share.
    let mut text = "0000000".to_string();
    text.push('\u{e9}');
    text.push_str(&"0".repeat(1015));
    assert_eq!(text.len(), 1024);
    assert_eq!(
        encoding_from_hex(&text).unwrap_err(),
        "incomplete utf-8 byte sequence from index 7"
    );
}

#[test]
fn upper_case_digits_are_read() {
    let text = "ABCDEF01".repeat(128);
    assert_eq!(encoding_from_hex(&text).unwrap(), [0x01efcdabu32; 128]);
}

#[test]
fn lists_of_another_length_are_no_encodings() {
    assert_eq!(to_encoding(&vec![7; 128]), Some([7; 128]));
    assert_eq!(to_encoding(&vec![7; 127]), None);
    assert_eq!(encoding_to_vec(&[3; 128]), vec![3; 128]);
    let err = encoding_to_array(&vec![1; 64]).unwrap_err();
    assert!(matches!(err, FaceAuthError::Dlib(_)));
    assert_eq!(err.message(), "dlib error: expected 128-dimensional encoding, got 64");
    assert_eq!(encoding_to_array(&vec![1; 128]).unwrap(), [1; 128]);
}

#[test]
fn extracting_the_networks() {
    let dir = "/tmp/faceauth-models-1.2.3";
    assert_eq!(
        extract_model(dir, "net.dat", Ok(()), None).unwrap(),
        "/tmp/faceauth-models-1.2.3/net.dat"
    );
    assert_eq!(
        extract_model(dir, "net.dat", Ok(()), Some(Ok(()))).unwrap(),
        "/tmp/faceauth-models-1.2.3/net.dat"
    );
    assert_eq!(
        extract_model(dir, "net.dat", Err("full".to_string()), None).unwrap_err().message(),
        "dlib error: failed to create model extraction dir: full"
    );
    assert_eq!(
        extract_model(dir, "net.dat", Ok(()), Some(Err("full".to_string())))
            .unwrap_err()
            .message(),
        "dlib error: failed to extract net.dat: full"
    );
}

#[test]
fn faces_of_a_frame() {
    assert_eq!(encode_faces(&vec![]).unwrap(), Vec::<[u32; 128]>::new());
    assert_eq!(encode_faces(&vec![vec![1; 128], vec![2; 128]]).unwrap(), vec![[1; 128], [2; 128]]);
    assert_eq!(
        encode_faces(&vec![vec![1; 128], vec![2; 68], vec![3; 5]]).unwrap_err().message(),
        "dlib error: expected 128-dimensional encoding, got 68"
    );
}
