use media_manager::media::{AudioCodec, JobStatus, ResolutionProfile, VideoCodec};

#[test]
fn resolution_dimensions() {
    assert_eq!(ResolutionProfile::UHD4K.dimensions(), Some((3840, 2160)));
    assert_eq!(ResolutionProfile::QHD2K.dimensions(), Some((2560, 1440)));
    assert_eq!(ResolutionProfile::FHD1080.dimensions(), Some((1920, 1080)));
    assert_eq!(ResolutionProfile::HD720.dimensions(), Some((1280, 720)));
    assert_eq!(ResolutionProfile::Original.dimensions(), None);
}

#[test]
fn resolution_labels() {
    assert_eq!(ResolutionProfile::UHD4K.label(), "4K (3840×2160)");
    assert_eq!(ResolutionProfile::QHD2K.label(), "2K (2560×1440)");
    assert_eq!(ResolutionProfile::FHD1080.label(), "1080p (1920×1080)");
    assert_eq!(ResolutionProfile::HD720.label(), "720p (1280×720)");
    assert_eq!(ResolutionProfile::Original.label(), "Original");
}

#[test]
fn video_encoders_and_labels() {
    assert_eq!(VideoCodec::H264.ffmpeg_encoder(), "libx264");
    assert_eq!(VideoCodec::H265.ffmpeg_encoder(), "libx265");
    assert_eq!(VideoCodec::AV1.ffmpeg_encoder(), "libsvtav1");
    assert_eq!(VideoCodec::VP9.ffmpeg_encoder(), "libvpx-vp9");
    assert_eq!(VideoCodec::Copy.ffmpeg_encoder(), "copy");
    assert_eq!(VideoCodec::H264.label(), "H.264 (AVC)");
    assert_eq!(VideoCodec::H265.label(), "H.265 (HEVC)");
    assert_eq!(VideoCodec::AV1.label(), "AV1");
    assert_eq!(VideoCodec::VP9.label(), "VP9");
    assert_eq!(VideoCodec::Copy.label(), "Copy (no re-encode)");
}

#[test]
fn audio_encoders_and_labels() {
    assert_eq!(AudioCodec::AAC.ffmpeg_encoder(), "aac");
    assert_eq!(AudioCodec::Opus.ffmpeg_encoder(), "libopus");
    assert_eq!(AudioCodec::FLAC.ffmpeg_encoder(), "flac");
    assert_eq!(AudioCodec::MP3.ffmpeg_encoder(), "libmp3lame");
    assert_eq!(AudioCodec::Copy.ffmpeg_encoder(), "copy");
    assert_eq!(AudioCodec::AAC.label(), "AAC");
    assert_eq!(AudioCodec::Opus.label(), "Opus");
    assert_eq!(AudioCodec::FLAC.label(), "FLAC");
    assert_eq!(AudioCodec::MP3.label(), "MP3");
    assert_eq!(AudioCodec::Copy.label(), "Copy (no re-encode)");
}

#[test]
fn wire_names() {
    assert_eq!(ResolutionProfile::UHD4K.tag(), "4k");
    assert_eq!(ResolutionProfile::Original.tag(), "original");
    assert_eq!(VideoCodec::VP9.tag(), "vp9");
    assert_eq!(AudioCodec::MP3.tag(), "mp3");
    assert_eq!(JobStatus::Completed.tag(), "completed");
}

#[test]
fn wire_names_round_trip() {
    for r in ResolutionProfile::ALL {
        assert_eq!(ResolutionProfile::from_tag(r.tag()), Some(r));
    }
    for c in VideoCodec::ALL {
        assert_eq!(VideoCodec::from_tag(c.tag()), Some(c));
    }
    for c in AudioCodec::ALL {
        assert_eq!(AudioCodec::from_tag(c.tag()), Some(c));
    }
    for s in JobStatus::ALL {
        assert_eq!(JobStatus::from_tag(s.tag()), Some(s));
    }
}

#[test]
fn unknown_wire_names() {
    assert_eq!(VideoCodec::from_tag("H264"), None);
    assert_eq!(AudioCodec::from_tag(""), None);
    assert_eq!(ResolutionProfile::from_tag("480p"), None);
    assert_eq!(JobStatus::from_tag("done"), None);
}

#[test]
fn all_lists_every_variant_once() {
    assert_eq!(ResolutionProfile::ALL.len(), 5);
    assert_eq!(VideoCodec::ALL.len(), 5);
    assert_eq!(AudioCodec::ALL.len(), 5);
    assert_eq!(ResolutionProfile::ALL[0], ResolutionProfile::UHD4K);
    assert_eq!(VideoCodec::ALL[4], VideoCodec::Copy);
}
