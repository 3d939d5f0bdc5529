use media_manager::jobs::{apply_update, job_from_row, new_job, row_from_job, start_job, update_for, JobEvent, JobRow, JobRun};
use media_manager::ids::{new_id, now_rfc3339};
use media_manager::media::{AudioCodec, EncodeJob, EncodeRequest, JobStatus, MediaFile, ResolutionProfile, VideoCodec};

fn request() -> EncodeRequest {
    EncodeRequest {
        file_id: "f1".to_string(),
        video_codec: VideoCodec::H265,
        audio_codec: AudioCodec::Opus,
        resolution: ResolutionProfile::FHD1080,
        quality_crf: Some(20),
    }
}

fn file(path: &str) -> MediaFile {
    MediaFile {
        id: "f1".to_string(),
        path: path.to_string(),
        filename: String::new(),
        size_bytes: 0,
        duration_micros: None,
        video_codec: None,
        audio_codec: None,
        width: None,
        height: None,
        bitrate: None,
        format: None,
    }
}

#[test]
fn new_job_is_queued() {
    let j = new_job("j1".to_string(), "2024-01-01T00:00:00+00:00".to_string(), &request(), "/o.mkv".to_string());
    assert_eq!(j.id, "j1");
    assert_eq!(j.file_id, "f1");
    assert_eq!(j.status, JobStatus::Queued);
    assert_eq!(j.progress_hundredths, 0);
    assert_eq!(j.video_codec, VideoCodec::H265);
    assert_eq!(j.audio_codec, AudioCodec::Opus);
    assert_eq!(j.resolution, ResolutionProfile::FHD1080);
    assert_eq!(j.quality_crf, Some(20));
    assert_eq!(j.output_path.as_deref(), Some("/o.mkv"));
    assert_eq!(j.error, None);
    assert_eq!(j.created_at, "2024-01-01T00:00:00+00:00");
}

#[test]
fn start_job_names_output() {
    let j = start_job(&file("/media/movies/Film.Part1.mp4"), &request()).unwrap();
    assert_eq!(j.output_path.as_deref(), Some("/media/movies/Film.Part1_h265_1080p.mp4"));
    assert_eq!(j.status, JobStatus::Queued);
    assert_eq!(j.id.len(), 36);
    assert!(j.created_at.contains('T'));
    let j2 = start_job(&file("noext"), &request()).unwrap();
    assert_eq!(j2.output_path.as_deref(), Some("./noext_h265_1080p.mkv"));
    let j3 = start_job(&file("/"), &request()).unwrap();
    assert_eq!(j3.output_path.as_deref(), Some("./output_h265_1080p.mkv"));
    let j4 = start_job(&file(".bashrc"), &request()).unwrap();
    assert_eq!(j4.output_path.as_deref(), Some("./.bashrc_h265_1080p.mkv"));
}

#[test]
fn bare_file_name_stays_in_current_directory() {
    let req = EncodeRequest {
        file_id: "f3".to_string(),
        video_codec: VideoCodec::H264,
        audio_codec: AudioCodec::AAC,
        resolution: ResolutionProfile::HD720,
        quality_crf: None,
    };
    let j = start_job(&file("movie.mp4"), &req).unwrap();
    assert_eq!(j.output_path.as_deref(), Some("./movie_h264_720p.mp4"));
}

#[test]
fn fresh_ids_and_clock() {
    let a = new_id().unwrap();
    let b = new_id().unwrap();
    assert_ne!(a, b);
    assert_eq!(a.len(), 36);
    assert_eq!(a.chars().nth(14), Some('4'));
    let now = now_rfc3339().unwrap();
    assert!(chrono::DateTime::parse_from_rfc3339(&now).is_ok(), "{now}");
}

#[test]
fn finished_job_ignores_late_events() {
    let out = "/o.mkv".to_string();
    let mut run = JobRun::new(new_job("j".to_string(), "t".to_string(), &request(), out.clone()));
    assert_eq!(run.output_path, out);
    let u = run.on_event(JobEvent::Started).unwrap();
    assert_eq!(u.status, JobStatus::Running);
    let u = run.on_event(JobEvent::Progress(3000)).unwrap();
    assert_eq!(u.progress_hundredths, 3000);
    let u = run.on_event(JobEvent::Succeeded).unwrap();
    assert_eq!((u.status, u.progress_hundredths, u.output_path.clone()), (JobStatus::Completed, 10000, Some(out.clone())));
    assert!(run.on_event(JobEvent::Progress(9000)).is_none());
    assert!(run.on_event(JobEvent::Failed("late".to_string())).is_none());
    assert_eq!(run.job.status, JobStatus::Completed);
    assert_eq!(run.job.progress_hundredths, 10000);
    assert_eq!(run.job.output_path.as_deref(), Some("/o.mkv"));
    let mut failed = JobRun::new(new_job("k".to_string(), "t".to_string(), &request(), out.clone()));
    failed.on_event(JobEvent::Started);
    let u = failed.on_event(JobEvent::Failed("boom".to_string())).unwrap();
    assert_eq!((u.status, u.progress_hundredths, u.output_path.clone(), u.error.clone()), (JobStatus::Failed, 0, None, Some("boom".to_string())));
    assert!(failed.on_event(JobEvent::Succeeded).is_none());
    assert_eq!(failed.job.error.as_deref(), Some("boom"));
}

#[test]
fn lifecycle_updates() {
    let out = "/o.mkv".to_string();
    let mut j = new_job("j".to_string(), "t".to_string(), &request(), out.clone());
    apply_update(&mut j, update_for(JobEvent::Started, &out));
    assert_eq!((j.status, j.progress_hundredths, j.output_path.clone(), j.error.clone()), (JobStatus::Running, 0, None, None));
    apply_update(&mut j, update_for(JobEvent::Progress(4250), &out));
    assert_eq!((j.status, j.progress_hundredths), (JobStatus::Running, 4250));
    apply_update(&mut j, update_for(JobEvent::Succeeded, &out));
    assert_eq!((j.status, j.progress_hundredths, j.output_path.clone(), j.error.clone()), (JobStatus::Completed, 10000, Some(out.clone()), None));
    apply_update(&mut j, update_for(JobEvent::Failed("boom".to_string()), &out));
    assert_eq!((j.status, j.progress_hundredths, j.output_path.clone(), j.error.clone()), (JobStatus::Failed, 0, None, Some("boom".to_string())));
    assert_eq!(j.id, "j");
    assert_eq!(j.created_at, "t");
}

fn same(a: &EncodeJob, b: &EncodeJob) -> bool {
    a.id == b.id && a.file_id == b.file_id && a.status == b.status && a.progress_hundredths == b.progress_hundredths
        && a.video_codec == b.video_codec && a.audio_codec == b.audio_codec && a.resolution == b.resolution
        && a.quality_crf == b.quality_crf && a.output_path == b.output_path && a.error == b.error
        && a.created_at == b.created_at
}

#[test]
fn row_round_trip() {
    let j = new_job("j".to_string(), "t".to_string(), &request(), "/o.mkv".to_string());
    let row = row_from_job(&j);
    assert_eq!(row.status, "queued");
    assert_eq!(row.video_codec, "h265");
    assert_eq!(row.audio_codec, "opus");
    assert_eq!(row.resolution, "1080p");
    assert!(same(&job_from_row(row), &j));
}

#[test]
fn unknown_row_names_fall_back() {
    let row = JobRow {
        id: "j".to_string(),
        file_id: "f".to_string(),
        status: "paused".to_string(),
        progress_hundredths: 12,
        video_codec: "mpeg2".to_string(),
        audio_codec: "ac3".to_string(),
        resolution: "480p".to_string(),
        quality_crf: None,
        output_path: None,
        error: None,
        created_at: "t".to_string(),
    };
    let j = job_from_row(row);
    assert_eq!(j.status, JobStatus::Failed);
    assert_eq!(j.video_codec, VideoCodec::H264);
    assert_eq!(j.audio_codec, AudioCodec::AAC);
    assert_eq!(j.resolution, ResolutionProfile::Original);
    assert_eq!(j.progress_hundredths, 12);
}
