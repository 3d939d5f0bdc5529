//! Codec and resolution profiles shared by server and client.

use vstd::prelude::*;

verus! {

/// Target resolution of an encode.
#[derive(Clone, Copy, Debug, PartialEq, Eq, Structural)]
pub enum ResolutionProfile {
    UHD4K,
    QHD2K,
    FHD1080,
    HD720,
    /// Keep original resolution
    Original,
}

impl ResolutionProfile {
    /// Frame size of the profile; none for `Original`.
    pub open spec fn spec_dimensions(self) -> Option<(u32, u32)> {
        match self {
            ResolutionProfile::UHD4K => Some((3840u32, 2160u32)),
            ResolutionProfile::QHD2K => Some((2560u32, 1440u32)),
            ResolutionProfile::FHD1080 => Some((1920u32, 1080u32)),
            ResolutionProfile::HD720 => Some((1280u32, 720u32)),
            ResolutionProfile::Original => None,
        }
    }

    /// Returns (width, height) for the profile, or None for Original.
    pub fn dimensions(&self) -> (r: Option<(u32, u32)>)
        ensures
            r == self.spec_dimensions(),
    {
        match self {
            ResolutionProfile::UHD4K => Some((3840, 2160)),
            ResolutionProfile::QHD2K => Some((2560, 1440)),
            ResolutionProfile::FHD1080 => Some((1920, 1080)),
            ResolutionProfile::HD720 => Some((1280, 720)),
            ResolutionProfile::Original => None,
        }
    }

    pub open spec fn spec_label(self) -> Seq<char> {
        match self {
            ResolutionProfile::UHD4K => "4K (3840×2160)"@,
            ResolutionProfile::QHD2K => "2K (2560×1440)"@,
            ResolutionProfile::FHD1080 => "1080p (1920×1080)"@,
            ResolutionProfile::HD720 => "720p (1280×720)"@,
            ResolutionProfile::Original => "Original"@,
        }
    }

    /// Human-readable name of the profile.
    pub fn label(&self) -> (r: &'static str)
        ensures
            r@ == self.spec_label(),
    {
        match self {
            ResolutionProfile::UHD4K => "4K (3840×2160)",
            ResolutionProfile::QHD2K => "2K (2560×1440)",
            ResolutionProfile::FHD1080 => "1080p (1920×1080)",
            ResolutionProfile::HD720 => "720p (1280×720)",
            ResolutionProfile::Original => "Original",
        }
    }

    /// Wire name of the profile, as it appears in JSON and in the database.
    pub open spec fn spec_tag(self) -> Seq<char> {
        match self {
            ResolutionProfile::UHD4K => "4k"@,
            ResolutionProfile::QHD2K => "2k"@,
            ResolutionProfile::FHD1080 => "1080p"@,
            ResolutionProfile::HD720 => "720p"@,
            ResolutionProfile::Original => "original"@,
        }
    }

    pub fn tag(&self) -> (r: &'static str)
        ensures
            r@ == self.spec_tag(),
    {
        match self {
            ResolutionProfile::UHD4K => "4k",
            ResolutionProfile::QHD2K => "2k",
            ResolutionProfile::FHD1080 => "1080p",
            ResolutionProfile::HD720 => "720p",
            ResolutionProfile::Original => "original",
        }
    }

    /// The profile whose wire name is `t`, if any.
    pub open spec fn spec_from_tag(t: Seq<char>) -> Option<Self> {
        if t == "4k"@ {
            Some(ResolutionProfile::UHD4K)
        } else if t == "2k"@ {
            Some(ResolutionProfile::QHD2K)
        } else if t == "1080p"@ {
            Some(ResolutionProfile::FHD1080)
        } else if t == "720p"@ {
            Some(ResolutionProfile::HD720)
        } else if t == "original"@ {
            Some(ResolutionProfile::Original)
        } else {
            None
        }
    }

    /// Decodes a wire name.
    pub fn from_tag(t: &str) -> (r: Option<Self>)
        ensures
            r == Self::spec_from_tag(t@),
    {
        if crate::text::str_eq(t, "4k") {
            return Some(ResolutionProfile::UHD4K);
        }
        if crate::text::str_eq(t, "2k") {
            return Some(ResolutionProfile::QHD2K);
        }
        if crate::text::str_eq(t, "1080p") {
            return Some(ResolutionProfile::FHD1080);
        }
        if crate::text::str_eq(t, "720p") {
            return Some(ResolutionProfile::HD720);
        }
        if crate::text::str_eq(t, "original") {
            return Some(ResolutionProfile::Original);
        }
        None
    }

    pub const ALL: [ResolutionProfile; 5] = [
        ResolutionProfile::UHD4K,
        ResolutionProfile::QHD2K,
        ResolutionProfile::FHD1080,
        ResolutionProfile::HD720,
        ResolutionProfile::Original,
    ];
}

/// Video codec of an encode.
#[derive(Clone, Copy, Debug, PartialEq, Eq, Structural)]
pub enum VideoCodec {
    H264,
    H265,
    AV1,
    VP9,
    /// Copy video stream without re-encoding
    Copy,
}

impl VideoCodec {
    /// Name of the ffmpeg encoder for this codec.
    pub open spec fn spec_ffmpeg_encoder(self) -> Seq<char> {
        match self {
            VideoCodec::H264 => "libx264"@,
            VideoCodec::H265 => "libx265"@,
            VideoCodec::AV1 => "libsvtav1"@,
            VideoCodec::VP9 => "libvpx-vp9"@,
            VideoCodec::Copy => "copy"@,
        }
    }

    pub fn ffmpeg_encoder(&self) -> (r: &'static str)
        ensures
            r@ == self.spec_ffmpeg_encoder(),
    {
        match self {
            VideoCodec::H264 => "libx264",
            VideoCodec::H265 => "libx265",
            VideoCodec::AV1 => "libsvtav1",
            VideoCodec::VP9 => "libvpx-vp9",
            VideoCodec::Copy => "copy",
        }
    }

    /// Human-readable name of the codec.
    pub open spec fn spec_label(self) -> Seq<char> {
        match self {
            VideoCodec::H264 => "H.264 (AVC)"@,
            VideoCodec::H265 => "H.265 (HEVC)"@,
            VideoCodec::AV1 => "AV1"@,
            VideoCodec::VP9 => "VP9"@,
            VideoCodec::Copy => "Copy (no re-encode)"@,
        }
    }

    pub fn label(&self) -> (r: &'static str)
        ensures
            r@ == self.spec_label(),
    {
        match self {
            VideoCodec::H264 => "H.264 (AVC)",
            VideoCodec::H265 => "H.265 (HEVC)",
            VideoCodec::AV1 => "AV1",
            VideoCodec::VP9 => "VP9",
            VideoCodec::Copy => "Copy (no re-encode)",
        }
    }

    /// Wire name, as it appears in JSON and in the database.
    pub open spec fn spec_tag(self) -> Seq<char> {
        match self {
            VideoCodec::H264 => "h264"@,
            VideoCodec::H265 => "h265"@,
            VideoCodec::AV1 => "av1"@,
            VideoCodec::VP9 => "vp9"@,
            VideoCodec::Copy => "copy"@,
        }
    }

    pub fn tag(&self) -> (r: &'static str)
        ensures
            r@ == self.spec_tag(),
    {
        match self {
            VideoCodec::H264 => "h264",
            VideoCodec::H265 => "h265",
            VideoCodec::AV1 => "av1",
            VideoCodec::VP9 => "vp9",
            VideoCodec::Copy => "copy",
        }
    }

    /// The value whose wire name is `t`, if any.
    pub open spec fn spec_from_tag(t: Seq<char>) -> Option<Self> {
        if t == "h264"@ {
            Some(VideoCodec::H264)
        } else if t == "h265"@ {
            Some(VideoCodec::H265)
        } else if t == "av1"@ {
            Some(VideoCodec::AV1)
        } else if t == "vp9"@ {
            Some(VideoCodec::VP9)
        } else if t == "copy"@ {
            Some(VideoCodec::Copy)
        } else {
            None
        }
    }

    /// Decodes a wire name.
    pub fn from_tag(t: &str) -> (r: Option<Self>)
        ensures
            r == Self::spec_from_tag(t@),
    {
        if crate::text::str_eq(t, "h264") {
            return Some(VideoCodec::H264);
        }
        if crate::text::str_eq(t, "h265") {
            return Some(VideoCodec::H265);
        }
        if crate::text::str_eq(t, "av1") {
            return Some(VideoCodec::AV1);
        }
        if crate::text::str_eq(t, "vp9") {
            return Some(VideoCodec::VP9);
        }
        if crate::text::str_eq(t, "copy") {
            return Some(VideoCodec::Copy);
        }
        None
    }

    pub const ALL: [VideoCodec; 5] = [
        VideoCodec::H264,
        VideoCodec::H265,
        VideoCodec::AV1,
        VideoCodec::VP9,
        VideoCodec::Copy,
    ];
}

/// Audio codec of an encode.
#[derive(Clone, Copy, Debug, PartialEq, Eq, Structural)]
pub enum AudioCodec {
    AAC,
    Opus,
    FLAC,
    MP3,
    /// Copy audio stream without re-encoding
    Copy,
}

impl AudioCodec {
    /// Name of the ffmpeg encoder for this codec.
    pub open spec fn spec_ffmpeg_encoder(self) -> Seq<char> {
        match self {
            AudioCodec::AAC => "aac"@,
            AudioCodec::Opus => "libopus"@,
            AudioCodec::FLAC => "flac"@,
            AudioCodec::MP3 => "libmp3lame"@,
            AudioCodec::Copy => "copy"@,
        }
    }

    pub fn ffmpeg_encoder(&self) -> (r: &'static str)
        ensures
            r@ == self.spec_ffmpeg_encoder(),
    {
        match self {
            AudioCodec::AAC => "aac",
            AudioCodec::Opus => "libopus",
            AudioCodec::FLAC => "flac",
            AudioCodec::MP3 => "libmp3lame",
            AudioCodec::Copy => "copy",
        }
    }

    /// Human-readable name of the codec.
    pub open spec fn spec_label(self) -> Seq<char> {
        match self {
            AudioCodec::AAC => "AAC"@,
            AudioCodec::Opus => "Opus"@,
            AudioCodec::FLAC => "FLAC"@,
            AudioCodec::MP3 => "MP3"@,
            AudioCodec::Copy => "Copy (no re-encode)"@,
        }
    }

    pub fn label(&self) -> (r: &'static str)
        ensures
            r@ == self.spec_label(),
    {
        match self {
            AudioCodec::AAC => "AAC",
            AudioCodec::Opus => "Opus",
            AudioCodec::FLAC => "FLAC",
            AudioCodec::MP3 => "MP3",
            AudioCodec::Copy => "Copy (no re-encode)",
        }
    }

    /// Wire name, as it appears in JSON and in the database.
    pub open spec fn spec_tag(self) -> Seq<char> {
        match self {
            AudioCodec::AAC => "aac"@,
            AudioCodec::Opus => "opus"@,
            AudioCodec::FLAC => "flac"@,
            AudioCodec::MP3 => "mp3"@,
            AudioCodec::Copy => "copy"@,
        }
    }

    pub fn tag(&self) -> (r: &'static str)
        ensures
            r@ == self.spec_tag(),
    {
        match self {
            AudioCodec::AAC => "aac",
            AudioCodec::Opus => "opus",
            AudioCodec::FLAC => "flac",
            AudioCodec::MP3 => "mp3",
            AudioCodec::Copy => "copy",
        }
    }

    /// The value whose wire name is `t`, if any.
    pub open spec fn spec_from_tag(t: Seq<char>) -> Option<Self> {
        if t == "aac"@ {
            Some(AudioCodec::AAC)
        } else if t == "opus"@ {
            Some(AudioCodec::Opus)
        } else if t == "flac"@ {
            Some(AudioCodec::FLAC)
        } else if t == "mp3"@ {
            Some(AudioCodec::MP3)
        } else if t == "copy"@ {
            Some(AudioCodec::Copy)
        } else {
            None
        }
    }

    /// Decodes a wire name.
    pub fn from_tag(t: &str) -> (r: Option<Self>)
        ensures
            r == Self::spec_from_tag(t@),
    {
        if crate::text::str_eq(t, "aac") {
            return Some(AudioCodec::AAC);
        }
        if crate::text::str_eq(t, "opus") {
            return Some(AudioCodec::Opus);
        }
        if crate::text::str_eq(t, "flac") {
            return Some(AudioCodec::FLAC);
        }
        if crate::text::str_eq(t, "mp3") {
            return Some(AudioCodec::MP3);
        }
        if crate::text::str_eq(t, "copy") {
            return Some(AudioCodec::Copy);
        }
        None
    }

    pub const ALL: [AudioCodec; 5] = [
        AudioCodec::AAC,
        AudioCodec::Opus,
        AudioCodec::FLAC,
        AudioCodec::MP3,
        AudioCodec::Copy,
    ];
}

/// Lifecycle stage of an encode job.
#[derive(Clone, Copy, Debug, PartialEq, Eq, Structural)]
pub enum JobStatus {
    Queued,
    Running,
    Completed,
    Failed,
}

impl JobStatus {
    /// Wire name, as it appears in JSON and in the database.
    pub open spec fn spec_tag(self) -> Seq<char> {
        match self {
            JobStatus::Queued => "queued"@,
            JobStatus::Running => "running"@,
            JobStatus::Completed => "completed"@,
            JobStatus::Failed => "failed"@,
        }
    }

    pub fn tag(&self) -> (r: &'static str)
        ensures
            r@ == self.spec_tag(),
    {
        match self {
            JobStatus::Queued => "queued",
            JobStatus::Running => "running",
            JobStatus::Completed => "completed",
            JobStatus::Failed => "failed",
        }
    }

    /// The value whose wire name is `t`, if any.
    pub open spec fn spec_from_tag(t: Seq<char>) -> Option<Self> {
        if t == "queued"@ {
            Some(JobStatus::Queued)
        } else if t == "running"@ {
            Some(JobStatus::Running)
        } else if t == "completed"@ {
            Some(JobStatus::Completed)
        } else if t == "failed"@ {
            Some(JobStatus::Failed)
        } else {
            None
        }
    }

    /// Decodes a wire name.
    pub fn from_tag(t: &str) -> (r: Option<Self>)
        ensures
            r == Self::spec_from_tag(t@),
    {
        if crate::text::str_eq(t, "queued") {
            return Some(JobStatus::Queued);
        }
        if crate::text::str_eq(t, "running") {
            return Some(JobStatus::Running);
        }
        if crate::text::str_eq(t, "completed") {
            return Some(JobStatus::Completed);
        }
        if crate::text::str_eq(t, "failed") {
            return Some(JobStatus::Failed);
        }
        None
    }

    pub const ALL: [JobStatus; 4] = [
        JobStatus::Queued,
        JobStatus::Running,
        JobStatus::Completed,
        JobStatus::Failed,
    ];
}

// ── Records ─────────────────────────────────────────────────────────────────

/// A media file known to the library. Its duration is held as a whole number
/// of microseconds.
#[derive(Clone, Debug)]
pub struct MediaFile {
    pub id: String,
    pub path: String,
    pub filename: String,
    pub size_bytes: u64,
    pub duration_micros: Option<u64>,
    pub video_codec: Option<String>,
    pub audio_codec: Option<String>,
    pub width: Option<u32>,
    pub height: Option<u32>,
    pub bitrate: Option<u64>,
    pub format: Option<String>,
}

/// A request to re-encode a known file.
#[derive(Clone, Debug)]
pub struct EncodeRequest {
    pub file_id: String,
    pub video_codec: VideoCodec,
    pub audio_codec: AudioCodec,
    pub resolution: ResolutionProfile,
    /// CRF quality value (lower = better). Typical: 18-28 for h264/h265.
    pub quality_crf: Option<u8>,
}

/// Hundredths of a percent in a whole encode (100%).
pub const PROGRESS_DONE: u32 = 10000;

/// An encode job. Its progress is held in hundredths of a percent.
#[derive(Clone, Debug)]
pub struct EncodeJob {
    pub id: String,
    pub file_id: String,
    pub status: JobStatus,
    pub progress_hundredths: u32,
    pub video_codec: VideoCodec,
    pub audio_codec: AudioCodec,
    pub resolution: ResolutionProfile,
    pub quality_crf: Option<u8>,
    pub output_path: Option<String>,
    pub error: Option<String>,
    pub created_at: String,
}

/// A request to scan a directory on the server.
#[derive(Clone, Debug)]
pub struct ScanRequest {
    pub directory: String,
}

/// Decoding the wire name of a profile gives the profile back.
pub proof fn lemma_resolution_tag_roundtrip(r: ResolutionProfile)
    ensures
        ResolutionProfile::spec_from_tag(r.spec_tag()) == Some(r),
{
    reveal_strlit("4k");
    reveal_strlit("2k");
    reveal_strlit("1080p");
    reveal_strlit("720p");
    reveal_strlit("original");
    assert("4k"@[0] != "2k"@[0]);
    assert("4k"@.len() != "1080p"@.len());
    assert("2k"@.len() != "1080p"@.len());
    assert("4k"@.len() != "720p"@.len());
    assert("2k"@.len() != "720p"@.len());
    assert("1080p"@.len() != "720p"@.len());
    assert("4k"@.len() != "original"@.len());
    assert("2k"@.len() != "original"@.len());
    assert("1080p"@.len() != "original"@.len());
    assert("720p"@.len() != "original"@.len());
}

/// Decoding the wire name of a video codec gives the codec back.
pub proof fn lemma_video_tag_roundtrip(c: VideoCodec)
    ensures
        VideoCodec::spec_from_tag(c.spec_tag()) == Some(c),
{
    reveal_strlit("h264");
    reveal_strlit("h265");
    reveal_strlit("av1");
    reveal_strlit("vp9");
    reveal_strlit("copy");
    assert("h264"@[3] != "h265"@[3]);
    assert("h264"@.len() != "av1"@.len());
    assert("h265"@.len() != "av1"@.len());
    assert("h264"@.len() != "vp9"@.len());
    assert("h265"@.len() != "vp9"@.len());
    assert("av1"@[0] != "vp9"@[0]);
    assert("h264"@[0] != "copy"@[0]);
    assert("h265"@[0] != "copy"@[0]);
    assert("av1"@.len() != "copy"@.len());
    assert("vp9"@.len() != "copy"@.len());
}

/// Decoding the wire name of an audio codec gives the codec back.
pub proof fn lemma_audio_tag_roundtrip(c: AudioCodec)
    ensures
        AudioCodec::spec_from_tag(c.spec_tag()) == Some(c),
{
    reveal_strlit("aac");
    reveal_strlit("opus");
    reveal_strlit("flac");
    reveal_strlit("mp3");
    reveal_strlit("copy");
    assert("aac"@.len() != "opus"@.len());
    assert("aac"@.len() != "flac"@.len());
    assert("opus"@[0] != "flac"@[0]);
    assert("aac"@[0] != "mp3"@[0]);
    assert("opus"@.len() != "mp3"@.len());
    assert("flac"@.len() != "mp3"@.len());
    assert("aac"@.len() != "copy"@.len());
    assert("opus"@[0] != "copy"@[0]);
    assert("flac"@[0] != "copy"@[0]);
    assert("mp3"@.len() != "copy"@.len());
}

/// Decoding the wire name of a job status gives the status back.
pub proof fn lemma_status_tag_roundtrip(s: JobStatus)
    ensures
        JobStatus::spec_from_tag(s.spec_tag()) == Some(s),
{
    reveal_strlit("queued");
    reveal_strlit("running");
    reveal_strlit("completed");
    reveal_strlit("failed");
    assert("queued"@.len() != "running"@.len());
    assert("queued"@.len() != "completed"@.len());
    assert("running"@.len() != "completed"@.len());
    assert("queued"@[0] != "failed"@[0]);
    assert("running"@.len() != "failed"@.len());
    assert("completed"@.len() != "failed"@.len());
}

} // verus!
