use media_manager::api::ApiResponse;
use media_manager::browse::{directory_listing, DirEntry};
use media_manager::client::{endpoint, normalize_base_url};
use media_manager::media::{AudioCodec, EncodeRequest, MediaFile, ResolutionProfile, VideoCodec};
use media_manager::routes::{begin_encode, db_error, delete_response, health, list_response, lookup_response, probed_files, scan_refusal};

fn media(id: &str) -> MediaFile {
    MediaFile {
        id: id.to_string(),
        path: format!("/m/{id}.mkv"),
        filename: format!("{id}.mkv"),
        size_bytes: 1,
        duration_micros: None,
        video_codec: None,
        audio_codec: None,
        width: None,
        height: None,
        bitrate: None,
        format: None,
    }
}

#[test]
fn envelope_constructors() {
    let ok = ApiResponse::ok(5u32);
    assert!(ok.success);
    assert_eq!(ok.data, Some(5));
    assert_eq!(ok.error, None);
    let err: ApiResponse<u32> = ApiResponse::err("nope".to_string());
    assert!(!err.success);
    assert_eq!(err.data, None);
    assert_eq!(err.error.as_deref(), Some("nope"));
}

#[test]
fn client_reads_envelopes_back() {
    assert_eq!(ApiResponse::ok(7u8).into_result(), Ok(7));
    assert_eq!(ApiResponse::<u8>::err("bad".to_string()).into_result(), Err("bad".to_string()));
    let empty: ApiResponse<u8> = ApiResponse { success: false, data: None, error: None };
    assert_eq!(empty.into_result(), Err("Unknown error".to_string()));
}

#[test]
fn health_is_ok() {
    let h = health();
    assert!(h.success);
    assert_eq!(h.data.as_deref(), Some("ok"));
}

#[test]
fn database_answers() {
    assert_eq!(db_error("locked"), "DB error: locked");
    let l = list_response::<u8>(Ok(vec![1, 2]));
    assert_eq!(l.data, Some(vec![1, 2]));
    let l = list_response::<u8>(Err("disk".to_string()));
    assert_eq!(l.error.as_deref(), Some("DB error: disk"));
    assert!(!l.success);
    let g = lookup_response::<u8>(Ok(None), "File not found");
    assert_eq!(g.error.as_deref(), Some("File not found"));
    let g = lookup_response::<u8>(Ok(Some(3)), "File not found");
    assert_eq!(g.data, Some(3));
    let g = lookup_response::<u8>(Err("x".to_string()), "Job not found");
    assert_eq!(g.error.as_deref(), Some("DB error: x"));
    assert_eq!(delete_response(Ok(true)).data, Some(true));
    assert_eq!(delete_response(Ok(false)).error.as_deref(), Some("File not found"));
    assert_eq!(delete_response(Err("e".to_string())).error.as_deref(), Some("DB error: e"));
}

#[test]
fn scan_answers() {
    let r = scan_refusal(false, None).unwrap();
    assert_eq!(r.error.as_deref(), Some("Path is not a valid directory"));
    let r = scan_refusal(true, Some("Cannot read /x: denied".to_string())).unwrap();
    assert_eq!(r.error.as_deref(), Some("Cannot read /x: denied"));
    assert!(scan_refusal(true, None).is_none());
    let files = probed_files(vec![Ok(media("a")), Err("bad".to_string()), Ok(media("c"))]);
    let ids: Vec<String> = files.into_iter().map(|f| f.id).collect();
    assert_eq!(ids, vec!["a".to_string(), "c".to_string()]);
}

#[test]
fn encode_acceptance() {
    let req = EncodeRequest {
        file_id: "a".to_string(),
        video_codec: VideoCodec::VP9,
        audio_codec: AudioCodec::FLAC,
        resolution: ResolutionProfile::QHD2K,
        quality_crf: None,
    };
    let (src, job) = begin_encode(Ok(Some(media("a"))), &req).ok().unwrap();
    assert_eq!(src.id, "a");
    assert_eq!(job.output_path.as_deref(), Some("/m/a_vp9_2k.mkv"));
    let refused = begin_encode(Ok(None), &req).err().unwrap();
    assert_eq!(refused.error.as_deref(), Some("Source file not found"));
    let refused = begin_encode(Err("gone".to_string()), &req).err().unwrap();
    assert_eq!(refused.error.as_deref(), Some("DB error: gone"));
}

fn entry(name: &str, is_dir: bool) -> DirEntry {
    DirEntry { name: name.to_string(), path: format!("/d/{name}"), is_dir }
}

#[test]
fn listing_order() {
    let listed = directory_listing(vec![
        entry("b.mkv", false),
        entry(".hidden", true),
        entry("Zeta", true),
        entry("a.mp4", false),
        entry("alpha", true),
        entry("B.mkv", false),
        entry(".cache", false),
    ]);
    let names: Vec<String> = listed.into_iter().map(|e| e.name).collect();
    assert_eq!(names, vec!["alpha", "Zeta", "a.mp4", "b.mkv", "B.mkv"]);
}

#[test]
fn base_urls() {
    assert_eq!(normalize_base_url("http://host:9090/"), "http://host:9090");
    assert_eq!(normalize_base_url("http://host:9090///"), "http://host:9090");
    assert_eq!(normalize_base_url("http://host:9090"), "http://host:9090");
    assert_eq!(normalize_base_url("/"), "");
    assert_eq!(endpoint("http://h", "/api/files"), "http://h/api/files");
}
