use media_manager::browse::{browse_answer, browse_refusal, BrowseFailure, DirEntry};
use media_manager::ffmpeg::{failure_message, read_dir_failure, Failure};
use media_manager::ids::rfc3339_from_unix;
use media_manager::media::{ResolutionProfile, VideoCodec};
use media_manager::paths::output_path_for;
use media_manager::probe::probe_output;

#[test]
fn clock_readings_as_rfc3339() {
    assert_eq!(rfc3339_from_unix(0, 0).as_deref(), Some("1970-01-01T00:00:00+00:00"));
    assert_eq!(rfc3339_from_unix(1_700_000_000, 0).as_deref(), Some("2023-11-14T22:13:20+00:00"));
    let expected = chrono::DateTime::from_timestamp(1_700_000_000, 5).unwrap().to_rfc3339();
    assert_eq!(rfc3339_from_unix(1_700_000_000, 5), Some(expected));
    assert_eq!(rfc3339_from_unix(u64::MAX, 0), None);
    assert_eq!(rfc3339_from_unix(i64::MAX as u64, 0), None);
}

#[test]
fn browse_failures_answered() {
    let r = browse_refusal(BrowseFailure::NotADirectory);
    assert!(!r.success);
    assert!(r.data.is_none());
    assert_eq!(r.error.as_deref(), Some("Path is not a valid directory"));
    let r = browse_refusal(BrowseFailure::Resolve("No such file or directory".to_string()));
    assert_eq!(r.error.as_deref(), Some("Cannot resolve path: No such file or directory"));
    let r = browse_refusal(BrowseFailure::Read("Permission denied".to_string()));
    assert_eq!(r.error.as_deref(), Some("Cannot read directory: Permission denied"));
}

#[test]
fn browse_answer_lists_in_order() {
    let e = |name: &str, is_dir: bool| DirEntry { name: name.to_string(), path: format!("/d/{name}"), is_dir };
    let r = browse_answer(vec![e("b.mkv", false), e(".x", true), e("a", true)]);
    assert!(r.success);
    assert!(r.error.is_none());
    let names: Vec<String> = r.data.unwrap().into_iter().map(|d| d.name).collect();
    assert_eq!(names, vec!["a", "b.mkv"]);
}

#[test]
fn io_failure_messages() {
    assert_eq!(failure_message(Failure::ProbeLaunch, "boom"), "Failed to run ffprobe: boom");
    assert_eq!(failure_message(Failure::ProbeExit, "bad input"), "ffprobe failed: bad input");
    assert_eq!(failure_message(Failure::EncoderLaunch, "x"), "Failed to start ffmpeg: x");
    assert_eq!(failure_message(Failure::EncoderWait, "x"), "ffmpeg process error: x");
    assert_eq!(failure_message(Failure::ScanTask, "x"), "Scan task failed: x");
    assert_eq!(failure_message(Failure::DirEntry, "x"), "Dir entry error: x");
    assert_eq!(failure_message(Failure::FileType, "x"), "File type error: x");
    assert_eq!(read_dir_failure("/m", "denied"), "Cannot read /m: denied");
}

#[test]
fn output_path_never_the_source() {
    let input = "/m/a_h264_720p.mp4";
    let out = output_path_for(input, VideoCodec::H264, ResolutionProfile::HD720);
    assert_eq!(out, "/m/a_h264_720p_h264_720p.mp4");
    assert_ne!(out, input);
    assert_eq!(output_path_for("/m/movie", VideoCodec::AV1, ResolutionProfile::Original), "/m/movie_av1_original.mkv");
}

#[test]
fn probe_error_carries_parser_message() {
    let parser = serde_json::from_slice::<serde_json::Value>(b"not json").unwrap_err().to_string();
    let e = probe_output(b"not json", "/m/a.mp4").unwrap_err();
    assert_eq!(e, format!("Invalid ffprobe JSON: {parser}"));
}
