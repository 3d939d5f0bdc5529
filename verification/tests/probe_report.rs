use media_manager::probe::{media_from_probe, probe_output};

const REPORT: &str = r#"{
  "streams": [
    {"index": 0, "codec_type": "audio", "codec_name": "aac"},
    {"index": 1, "codec_type": "video", "codec_name": "h264", "width": 1920, "height": 1080},
    {"index": 2, "codec_type": "video", "codec_name": "mjpeg", "width": 300, "height": 300}
  ],
  "format": {"filename": "/m/a.mp4", "format_name": "mov,mp4,m4a,3gp,3g2,mj2",
             "duration": "596.474000", "size": "158008374", "bit_rate": "2119234"}
}"#;

fn is_uuid_v4(s: &str) -> bool {
    let b: Vec<char> = s.chars().collect();
    b.len() == 36
        && b.iter().enumerate().all(|(k, c)| {
            if k == 8 || k == 13 || k == 18 || k == 23 { *c == '-' } else { c.is_ascii_hexdigit() && !c.is_ascii_uppercase() }
        })
        && b[14] == '4'
        && "89ab".contains(b[19])
}

#[test]
fn reads_full_report() {
    let root: serde_json::Value = serde_json::from_str(REPORT).unwrap();
    let m = media_from_probe(&root, "/m/a.mp4", "id-1".to_string());
    assert_eq!(m.id, "id-1");
    assert_eq!(m.path, "/m/a.mp4");
    assert_eq!(m.filename, "a.mp4");
    assert_eq!(m.size_bytes, 158008374);
    assert_eq!(m.duration_micros, Some(596_474_000));
    assert_eq!(m.bitrate, Some(2119234));
    assert_eq!(m.format.as_deref(), Some("mov,mp4,m4a,3gp,3g2,mj2"));
    assert_eq!(m.video_codec.as_deref(), Some("h264"));
    assert_eq!(m.audio_codec.as_deref(), Some("aac"));
    assert_eq!(m.width, Some(1920));
    assert_eq!(m.height, Some(1080));
}

#[test]
fn missing_members_are_left_out() {
    let root: serde_json::Value = serde_json::from_str(r#"{"format": {"size": "N/A", "duration": 12}}"#).unwrap();
    let m = media_from_probe(&root, "/x/", "i".to_string());
    assert_eq!(m.filename, "x");
    assert_eq!(m.size_bytes, 0);
    assert_eq!(m.duration_micros, None);
    assert_eq!(m.bitrate, None);
    assert_eq!(m.format, None);
    assert_eq!(m.video_codec, None);
    assert_eq!(m.audio_codec, None);
    assert_eq!(m.width, None);
    assert_eq!(m.height, None);
}

#[test]
fn width_cut_to_32_bits_and_negative_ignored() {
    let root: serde_json::Value = serde_json::from_str(
        r#"{"streams": [{"codec_type": "video", "width": 4294967297, "height": -5}]}"#,
    ).unwrap();
    let m = media_from_probe(&root, "v.mkv", "i".to_string());
    assert_eq!(m.width, Some(1));
    assert_eq!(m.height, None);
    assert_eq!(m.video_codec, None);
}

#[test]
fn probe_output_parses_and_names() {
    let m = probe_output(REPORT.as_bytes(), "/m/a.mp4").unwrap();
    assert!(is_uuid_v4(&m.id), "{}", m.id);
    assert_eq!(m.width, Some(1920));
    assert_eq!(m.path, "/m/a.mp4");
    let other = probe_output(REPORT.as_bytes(), "/m/a.mp4").unwrap();
    assert_ne!(m.id, other.id);
}

#[test]
fn probe_output_rejects_non_json() {
    let e = probe_output(b"not json", "/m/a.mp4").unwrap_err();
    assert!(e.starts_with("Invalid ffprobe JSON: "), "{e}");
    assert!(e.len() > "Invalid ffprobe JSON: ".len());
}
