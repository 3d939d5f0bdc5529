use media_manager::ffmpeg::{exit_result, ffmpeg_args, is_media_extension, is_media_path, progress_from_line, sort_paths};
use media_manager::media::{AudioCodec, ResolutionProfile, VideoCodec};

#[test]
fn args_scaled_h264_default_crf() {
    let args = ffmpeg_args("/m/in.mp4", "/m/out.mp4", VideoCodec::H264, AudioCodec::AAC, ResolutionProfile::HD720, None);
    assert_eq!(
        args,
        vec![
            "-y", "-i", "/m/in.mp4", "-progress", "pipe:1", "-nostats", "-c:v", "libx264", "-c:a", "aac",
            "-vf", "scale=1280:720:force_original_aspect_ratio=decrease,pad=1280:720:(ow-iw)/2:(oh-ih)/2",
            "-crf", "23", "/m/out.mp4",
        ]
    );
}

#[test]
fn args_copy_original() {
    let args = ffmpeg_args("a.mkv", "b.mkv", VideoCodec::Copy, AudioCodec::Copy, ResolutionProfile::Original, Some(18));
    assert_eq!(args, vec!["-y", "-i", "a.mkv", "-progress", "pipe:1", "-nostats", "-c:v", "copy", "-c:a", "copy", "b.mkv"]);
}

#[test]
fn args_given_crf_and_4k() {
    let args = ffmpeg_args("i", "o", VideoCodec::AV1, AudioCodec::Opus, ResolutionProfile::UHD4K, Some(30));
    assert_eq!(args[7], "libsvtav1");
    assert_eq!(args[9], "libopus");
    assert_eq!(args[11], "scale=3840:2160:force_original_aspect_ratio=decrease,pad=3840:2160:(ow-iw)/2:(oh-ih)/2");
    assert_eq!(args[12], "-crf");
    assert_eq!(args[13], "30");
    assert_eq!(args.len(), 15);
}

#[test]
fn progress_lines() {
    assert_eq!(progress_from_line("out_time_us=5000000", Some(10_000_000)), Some(5000));
    assert_eq!(progress_from_line("out_time_us=1234567", Some(10_000_000)), Some(1234));
    assert_eq!(progress_from_line("out_time_us=20000000", Some(10_000_000)), Some(10000));
    assert_eq!(progress_from_line("out_time_us=out_time_us=1000000", Some(2_000_000)), Some(5000));
    assert_eq!(progress_from_line("out_time_us=N/A", Some(10_000_000)), None);
    assert_eq!(progress_from_line("out_time_ms=5000", Some(10_000_000)), None);
    assert_eq!(progress_from_line("progress=continue", Some(10_000_000)), None);
    assert_eq!(progress_from_line("out_time_us=5000000", None), None);
    assert_eq!(progress_from_line("out_time_us=5000000", Some(0)), None);
}

#[test]
fn progress_lines_float_forms() {
    assert_eq!(progress_from_line("out_time_us=2.5e6", Some(10_000_000)), Some(2500));
    assert_eq!(progress_from_line("out_time_us=1234567.9", Some(10_000_000)), Some(1234));
    assert_eq!(progress_from_line("out_time_us=+5000000", Some(10_000_000)), Some(5000));
    assert_eq!(progress_from_line("out_time_us=-5000000", Some(10_000_000)), Some(0));
    assert_eq!(progress_from_line("out_time_us=-0", Some(10_000_000)), Some(0));
    assert_eq!(progress_from_line("out_time_us=nan", Some(10_000_000)), Some(10000));
    assert_eq!(progress_from_line("out_time_us=-NaN", Some(10_000_000)), Some(10000));
    assert_eq!(progress_from_line("out_time_us=inf", Some(10_000_000)), Some(10000));
    assert_eq!(progress_from_line("out_time_us=Infinity", Some(10_000_000)), Some(10000));
    assert_eq!(progress_from_line("out_time_us=-inf", Some(10_000_000)), Some(0));
    assert_eq!(progress_from_line("out_time_us=1e40", Some(u64::MAX)), Some(10000));
    assert_eq!(progress_from_line("out_time_us=1e-30", Some(1)), Some(0));
    assert_eq!(progress_from_line("out_time_us=5e", Some(10_000_000)), None);
    assert_eq!(progress_from_line("out_time_us=infinite", Some(10_000_000)), None);
    assert_eq!(progress_from_line("out_time_us=", Some(10_000_000)), None);
}

#[test]
fn exit_verdicts() {
    assert_eq!(exit_result(true, Some(0)), Ok(()));
    assert_eq!(exit_result(false, Some(1)), Err("ffmpeg exited with code Some(1)".to_string()));
    assert_eq!(exit_result(false, Some(-9)), Err("ffmpeg exited with code Some(-9)".to_string()));
    assert_eq!(exit_result(false, None), Err("ffmpeg exited with code None".to_string()));
    assert_eq!(exit_result(false, Some(i32::MIN)), Err(format!("ffmpeg exited with code {:?}", Some(i32::MIN))));
}

#[test]
fn media_extensions() {
    assert!(is_media_extension("mkv"));
    assert!(is_media_extension("MKV"));
    assert!(is_media_extension("Opus"));
    assert!(is_media_extension("ts"));
    assert!(!is_media_extension("txt"));
    assert!(!is_media_extension("mp"));
    assert!(!is_media_extension(""));
}

#[test]
fn media_paths() {
    assert!(is_media_path("/data/Movie.MP4"));
    assert!(is_media_path("clip.webm"));
    assert!(!is_media_path("/data/notes.txt"));
    assert!(!is_media_path("/data/mp4"));
    assert!(!is_media_path("/data/.mp4"));
}

#[test]
fn scanned_paths_sorted() {
    let paths: Vec<String> = vec!["/b/z.mkv", "/a/y.mp4", "/b/a.mp3", "/B/c.mkv", "/a/y.mp4"]
        .into_iter().map(String::from).collect();
    let mut expected = paths.clone();
    expected.sort();
    assert_eq!(sort_paths(&paths), expected);
    assert_eq!(sort_paths(&Vec::new()), Vec::<String>::new());
}
