//! The ffmpeg side of an encode and of a library scan: the command line,
//! progress read from ffmpeg's `-progress` output, the exit verdict, which
//! files count as media, and the order of scanned paths.

use vstd::prelude::*;
use crate::media::{AudioCodec, ResolutionProfile, VideoCodec, PROGRESS_DONE};
use crate::text::{all_digits, digits_value, is_digit, lemma_decimal_is_digits, spec_decimal, decimal_chars, string_from_chars, chars_of, has_prefix, trim_prefix_all,
    skip_prefix_all, has_prefix_at, eq_ignore_ascii_case, chars_eq_ignore_ascii_case, seq_lt};
use crate::paths::{extension_of, spec_extension};
use crate::numeral::{split_sign, sign_split, tail_of, spec_numeral, read_numeral, scale_floor, is_nan_word,
    is_infinity_word, nan_word, infinity_word, lemma_pow10_38, lemma_plain_digits_numeral};
use crate::order::{SortKey, stable_order, is_permutation, is_stable_order, key_lt};

verus! {

/// CRF used when a request names none.
pub const DEFAULT_CRF: u8 = 23;

/// The `-vf` filter that scales into a `w`×`h` frame, keeping the aspect
/// ratio and padding the rest.
pub open spec fn spec_scale_filter(w: u32, h: u32) -> Seq<char> {
    "scale="@ + spec_decimal(w as nat) + ":"@ + spec_decimal(h as nat)
        + ":force_original_aspect_ratio=decrease,pad="@ + spec_decimal(w as nat) + ":"@
        + spec_decimal(h as nat) + ":(ow-iw)/2:(oh-ih)/2"@
}

/// The arguments of the ffmpeg command for an encode.
pub open spec fn spec_ffmpeg_args(
    input: Seq<char>,
    output: Seq<char>,
    video: VideoCodec,
    audio: AudioCodec,
    resolution: ResolutionProfile,
    quality_crf: Option<u8>,
) -> Seq<Seq<char>> {
    seq!["-y"@, "-i"@, input, "-progress"@, "pipe:1"@, "-nostats"@,
        "-c:v"@, video.spec_ffmpeg_encoder(), "-c:a"@, audio.spec_ffmpeg_encoder()]
    + match resolution.spec_dimensions() {
        Some((w, h)) => seq!["-vf"@, spec_scale_filter(w, h)],
        None => Seq::<Seq<char>>::empty(),
    }
    + (if video != VideoCodec::Copy {
        seq!["-crf"@, spec_decimal(
            match quality_crf {
                Some(c) => c as nat,
                None => DEFAULT_CRF as nat,
            },
        )]
    } else {
        Seq::<Seq<char>>::empty()
    })
    + seq![output]
}

/// `args` has no element `opt` but perhaps at the input's place (2) or the
/// output's (last): file names are the caller's to choose.
pub open spec fn lacks_option(args: Seq<Seq<char>>, opt: Seq<char>) -> bool {
    forall|k: int| 0 <= k < args.len() && k != 2 && k != args.len() - 1 ==> #[trigger] args[k] != opt
}

proof fn lemma_fixed_words()
    ensures
        "-y"@.len() == 2, "-i"@.len() == 2, "-progress"@.len() == 9, "pipe:1"@.len() == 6,
        "-nostats"@.len() == 8, "-c:v"@.len() == 4, "-c:a"@.len() == 4, "-vf"@.len() == 3,
        "-crf"@.len() == 4, "-crf"@[2] == 'r', "-c:v"@[2] == ':', "-c:a"@[2] == ':',
        "-vf"@[0] == '-', "-crf"@[0] == '-',
        forall|c: VideoCodec| #![trigger c.spec_ffmpeg_encoder()] c.spec_ffmpeg_encoder().len() > 0
            && c.spec_ffmpeg_encoder()[0] != '-',
        forall|c: AudioCodec| #![trigger c.spec_ffmpeg_encoder()] c.spec_ffmpeg_encoder().len() > 0
            && c.spec_ffmpeg_encoder()[0] != '-',
{
    reveal_strlit("-y");
    reveal_strlit("-i");
    reveal_strlit("-progress");
    reveal_strlit("pipe:1");
    reveal_strlit("-nostats");
    reveal_strlit("-c:v");
    reveal_strlit("-c:a");
    reveal_strlit("-vf");
    reveal_strlit("-crf");
    reveal_strlit("libx264");
    reveal_strlit("libx265");
    reveal_strlit("libsvtav1");
    reveal_strlit("libvpx-vp9");
    reveal_strlit("copy");
    reveal_strlit("aac");
    reveal_strlit("libopus");
    reveal_strlit("flac");
    reveal_strlit("libmp3lame");
}

/// Keeping the original resolution changes only the codecs: the command
/// scales nothing (it has no `-vf` option).
pub proof fn lemma_original_keeps_resolution(
    input: Seq<char>,
    output: Seq<char>,
    video: VideoCodec,
    audio: AudioCodec,
    quality_crf: Option<u8>,
)
    ensures
        lacks_option(spec_ffmpeg_args(input, output, video, audio, ResolutionProfile::Original, quality_crf), "-vf"@),
{
    let args = spec_ffmpeg_args(input, output, video, audio, ResolutionProfile::Original, quality_crf);
    lemma_fixed_words();
    let n: nat = match quality_crf {
        Some(c) => c as nat,
        None => DEFAULT_CRF as nat,
    };
    lemma_decimal_is_digits(n);
    assert forall|k: int| 0 <= k < args.len() && k != 2 && k != args.len() - 1 implies #[trigger] args[k] != "-vf"@ by {
        if k == 7 {
            assert(args[k][0] != "-vf"@[0]);
        } else if k == 9 {
            assert(args[k][0] != "-vf"@[0]);
        } else if video != VideoCodec::Copy && k == 11 {
            assert(is_digit(args[k][0]));
            assert(args[k][0] != "-vf"@[0]);
        } else {
            assert(args[k].len() != "-vf"@.len());
        }
    }
}

/// Every profile with a frame size scales into it: right after the two
/// codecs, at positions 10 and 11, the command holds `-vf` and the filter
/// that scales into 3840×2160 (4K), 2560×1440 (2K), 1920×1080 (1080p) or
/// 1280×720 (720p); only the original resolution has no `-vf`.
pub proof fn lemma_profile_scales_to_its_size(
    input: Seq<char>,
    output: Seq<char>,
    video: VideoCodec,
    audio: AudioCodec,
    resolution: ResolutionProfile,
    quality_crf: Option<u8>,
)
    requires
        resolution != ResolutionProfile::Original,
    ensures
        spec_ffmpeg_args(input, output, video, audio, resolution, quality_crf).len() > 12,
        spec_ffmpeg_args(input, output, video, audio, resolution, quality_crf)[10] == "-vf"@,
        spec_ffmpeg_args(input, output, video, audio, resolution, quality_crf)[11] == match resolution {
            ResolutionProfile::UHD4K => spec_scale_filter(3840, 2160),
            ResolutionProfile::QHD2K => spec_scale_filter(2560, 1440),
            ResolutionProfile::FHD1080 => spec_scale_filter(1920, 1080),
            _ => spec_scale_filter(1280, 720),
        },
{
}

/// The shape of every encode command: `-y -i <input> -progress pipe:1
/// -nostats`, the video encoder (libx264, libx265, libsvtav1, libvpx-vp9 or
/// copy) and the audio encoder (aac, libopus, flac, libmp3lame or copy), the scale
/// option for a sized profile, then, unless the video is copied, `-crf` with
/// the requested quality (23 when none), and the output last.
pub proof fn lemma_command_shape(
    input: Seq<char>,
    output: Seq<char>,
    video: VideoCodec,
    audio: AudioCodec,
    resolution: ResolutionProfile,
    quality_crf: Option<u8>,
)
    ensures ({
        let args = spec_ffmpeg_args(input, output, video, audio, resolution, quality_crf);
        &&& args.len() == 11 + (if resolution != ResolutionProfile::Original { 2int } else { 0 })
            + (if video != VideoCodec::Copy { 2int } else { 0 })
        &&& args[0] == "-y"@ && args[1] == "-i"@ && args[2] == input && args[3] == "-progress"@
        &&& args[4] == "pipe:1"@ && args[5] == "-nostats"@ && args[6] == "-c:v"@ && args[8] == "-c:a"@
        &&& args[7] == match video {
            VideoCodec::H264 => "libx264"@,
            VideoCodec::H265 => "libx265"@,
            VideoCodec::AV1 => "libsvtav1"@,
            VideoCodec::VP9 => "libvpx-vp9"@,
            VideoCodec::Copy => "copy"@,
        }
        &&& args[9] == match audio {
            AudioCodec::AAC => "aac"@,
            AudioCodec::Opus => "libopus"@,
            AudioCodec::FLAC => "flac"@,
            AudioCodec::MP3 => "libmp3lame"@,
            AudioCodec::Copy => "copy"@,
        }
        &&& args[args.len() - 1] == output
        &&& video != VideoCodec::Copy ==> args[args.len() - 3] == "-crf"@ && args[args.len() - 2] == spec_decimal(
            match quality_crf {
                Some(c) => c as nat,
                None => 23nat,
            },
        )
    }),
{
}

/// Copying the video stream re-encodes nothing: the command sets no CRF.
pub proof fn lemma_copy_sets_no_quality(
    input: Seq<char>,
    output: Seq<char>,
    audio: AudioCodec,
    resolution: ResolutionProfile,
    quality_crf: Option<u8>,
)
    ensures
        lacks_option(spec_ffmpeg_args(input, output, VideoCodec::Copy, audio, resolution, quality_crf), "-crf"@),
{
    let args = spec_ffmpeg_args(input, output, VideoCodec::Copy, audio, resolution, quality_crf);
    lemma_fixed_words();
    reveal_strlit("scale=");
    assert forall|k: int| 0 <= k < args.len() && k != 2 && k != args.len() - 1 implies #[trigger] args[k] != "-crf"@ by {
        if k == 6 || k == 8 {
            assert(args[k][2] != "-crf"@[2]);
        } else if k == 7 || k == 9 {
            assert(args[k][0] != "-crf"@[0]);
        } else if resolution != ResolutionProfile::Original && k == 11 {
            let (w, h) = resolution.spec_dimensions()->0;
            assert(args[k][0] == 's');
            assert(args[k][0] != "-crf"@[0]);
        } else {
            assert(args[k].len() != "-crf"@.len());
        }
    }
}

fn owned(s: &str) -> (r: String)
    ensures
        r@ == s@,
{
    s.to_string()
}

fn numeral(n: u64) -> (r: String)
    ensures
        r@ == spec_decimal(n as nat),
{
    string_from_chars(&decimal_chars(n))
}

fn scale_filter(w: u32, h: u32) -> (r: String)
    ensures
        r@ == spec_scale_filter(w, h),
{
    let ws = numeral(w as u64);
    let hs = numeral(h as u64);
    let mut f = owned("scale=");
    f.append(ws.as_str());
    f.append(":");
    f.append(hs.as_str());
    f.append(":force_original_aspect_ratio=decrease,pad=");
    f.append(ws.as_str());
    f.append(":");
    f.append(hs.as_str());
    f.append(":(ow-iw)/2:(oh-ih)/2");
    f
}

/// Builds the ffmpeg arguments for an encode: overwrite, input, progress on
/// stdout, the two encoders, a scale filter unless the resolution is
/// `Original`, a CRF (23 unless given) unless the video is copied, and the
/// output path last.
pub fn ffmpeg_args(
    input: &str,
    output: &str,
    video: VideoCodec,
    audio: AudioCodec,
    resolution: ResolutionProfile,
    quality_crf: Option<u8>,
) -> (r: Vec<String>)
    ensures
        r.deep_view() == spec_ffmpeg_args(input@, output@, video, audio, resolution, quality_crf),
{
    let mut args: Vec<String> = Vec::new();
    args.push(owned("-y"));
    args.push(owned("-i"));
    args.push(owned(input));
    args.push(owned("-progress"));
    args.push(owned("pipe:1"));
    args.push(owned("-nostats"));
    args.push(owned("-c:v"));
    args.push(owned(video.ffmpeg_encoder()));
    args.push(owned("-c:a"));
    args.push(owned(audio.ffmpeg_encoder()));
    let ghost base = args.deep_view();
    if let Some((w, h)) = resolution.dimensions() {
        args.push(owned("-vf"));
        args.push(scale_filter(w, h));
    }
    let ghost scaled = args.deep_view();
    match video {
        VideoCodec::Copy => {},
        _ => {
            let crf = match quality_crf {
                Some(c) => c,
                None => DEFAULT_CRF,
            };
            args.push(owned("-crf"));
            args.push(numeral(crf as u64));
        },
    }
    let ghost tuned = args.deep_view();
    args.push(owned(output));
    proof {
        let dims = match resolution.spec_dimensions() {
            Some((w, h)) => seq!["-vf"@, spec_scale_filter(w, h)],
            None => Seq::<Seq<char>>::empty(),
        };
        let crfs = if video != VideoCodec::Copy {
            seq!["-crf"@, spec_decimal(
                match quality_crf {
                    Some(c) => c as nat,
                    None => DEFAULT_CRF as nat,
                },
            )]
        } else {
            Seq::<Seq<char>>::empty()
        };
        assert(base =~= seq!["-y"@, "-i"@, input@, "-progress"@, "pipe:1"@, "-nostats"@,
            "-c:v"@, video.spec_ffmpeg_encoder(), "-c:a"@, audio.spec_ffmpeg_encoder()]);
        assert(scaled =~= base + dims);
        assert(tuned =~= scaled + crfs);
        assert(args.deep_view() =~= tuned + seq![output@]);
    }
    args
}


// ── Progress ────────────────────────────────────────────────────────────────

/// The key of ffmpeg's progress lines that give the encoded time.
pub open spec fn progress_key() -> Seq<char> {
    "out_time_us="@
}

/// `v / t` rounded down, at most [`PROGRESS_DONE`].
pub open spec fn progress_share(v: nat, t: nat) -> u32 {
    if v / t <= PROGRESS_DONE {
        (v / t) as u32
    } else {
        PROGRESS_DONE
    }
}

/// The progress, in hundredths of a percent, that a line of ffmpeg's
/// `-progress` output reports for an input of `total_micros`: for a line
/// `out_time_us=<x>` (leading repetitions of the key removed) and a known,
/// positive total, `x` is read as `f64`'s `FromStr` reads it, as a number of
/// microseconds, and the progress is `x * 10000 / total`, rounded down and
/// at most 100%. A negative time, minus infinity among them, counts as no
/// progress; infinity and NaN count as complete (the share is capped with
/// `f64::min`, which gives the cap for NaN). Nothing for any other line.
pub open spec fn spec_progress(line: Seq<char>, total_micros: Option<u64>) -> Option<u32> {
    match total_micros {
        Some(t) => if t > 0 && has_prefix(line, progress_key()) {
            let sb = split_sign(trim_prefix_all(line, progress_key()));
            if is_nan_word(sb.1) {
                Some(PROGRESS_DONE)
            } else if is_infinity_word(sb.1) {
                Some(if sb.0 { 0u32 } else { PROGRESS_DONE })
            } else {
                match spec_numeral(sb.1) {
                    Some(nq) => Some(
                        if sb.0 {
                            0u32
                        } else {
                            progress_share(scale_floor(nq.0, nq.1 + 4), t as nat)
                        },
                    ),
                    None => None,
                }
            }
        } else {
            None
        },
        None => None,
    }
}

/// A scaled time of at least `10^37` is more than 10000 times any `u64` total.
proof fn lemma_huge_share(v: nat, t: nat)
    requires
        v >= 10_000_000_000_000_000_000_000_000_000_000_000_000,
        0 < t <= u64::MAX,
    ensures
        v / t > PROGRESS_DONE,
{
    let qq = v / t;
    let rr = v % t;
    vstd::arithmetic::div_mod::lemma_fundamental_div_mod(v as int, t as int);
    if qq <= 10000 {
        assert(v < 10_000_000_000_000_000_000_000_000_000_000_000_000) by (nonlinear_arith)
            requires
                v == t * qq + rr,
                rr < t,
                qq <= 10000,
                t <= u64::MAX,
        ;
    }
}

/// Reads one line of ffmpeg's progress output (see [`spec_progress`]).
pub fn progress_from_line(line: &str, total_micros: Option<u64>) -> (r: Option<u32>)
    ensures
        r == spec_progress(line@, total_micros),
        r matches Some(p) ==> p <= PROGRESS_DONE,
{
    let t = match total_micros {
        Some(t) => t,
        None => { return None; },
    };
    if t == 0 {
        return None;
    }
    let v = chars_of(line);
    let key = chars_of("out_time_us=");
    proof {
        reveal_strlit("out_time_us=");
        assert(v@.skip(0) =~= v@);
    }
    if !has_prefix_at(&v, 0, &key) {
        return None;
    }
    let pos = skip_prefix_all(&v, &key);
    let rest = tail_of(&v, pos);
    let (neg, b) = sign_split(&rest);
    if nan_word(&b) {
        return Some(PROGRESS_DONE);
    }
    if infinity_word(&b) {
        return Some(if neg { 0 } else { PROGRESS_DONE });
    }
    let read = read_numeral(&b, 4);
    match read {
        None => None,
        Some(res) => {
            if neg {
                return Some(0);
            }
            match res.1 {
                Some(x) => {
                    let share: u128 = x / (t as u128);
                    proof {
                        lemma_pow10_38();
                    }
                    if share <= PROGRESS_DONE as u128 {
                        Some(share as u32)
                    } else {
                        Some(PROGRESS_DONE)
                    }
                },
                None => {
                    proof {
                        lemma_pow10_38();
                        let nq = spec_numeral(b@).unwrap();
                        lemma_huge_share(scale_floor(nq.0, nq.1 + 4), t as nat);
                    }
                    Some(PROGRESS_DONE)
                },
            }
        },
    }
}

/// For a line `out_time_us=<n>` with `n` plain decimal digits and any known,
/// positive total `t`, the progress is `n * 10000 / t` hundredths of a
/// percent, rounded down and at most 100%: the whole 64-bit total divides.
pub proof fn lemma_progress_of_plain_time(digits: Seq<char>, t: u64)
    requires
        digits.len() > 0,
        all_digits(digits),
        t > 0,
    ensures
        spec_progress("out_time_us="@ + digits, Some(t)) == Some(
            if digits_value(digits) * 10000 / (t as nat) <= 10000 {
                (digits_value(digits) * 10000 / (t as nat)) as u32
            } else {
                10000u32
            },
        ),
{
    let key = progress_key();
    let line = key + digits;
    reveal_strlit("out_time_us=");
    assert(line.take(key.len() as int) =~= key);
    assert(line.skip(key.len() as int) =~= digits);
    assert(is_digit(digits[0]));
    assert(!has_prefix(digits, key)) by {
        if has_prefix(digits, key) {
            assert(digits.take(key.len() as int)[0] == digits[0]);
        }
    }
    assert(trim_prefix_all(digits, key) == digits);
    assert(trim_prefix_all(line, key) == digits);
    lemma_plain_digits_numeral(digits);
    reveal_with_fuel(crate::text::pow10, 5);
    assert(scale_floor(digits_value(digits), 0int + 4) == digits_value(digits) * 10000);
}

// ── Exit verdict ────────────────────────────────────────────────────────────

/// Decimal numeral of a signed number.
pub open spec fn spec_signed_decimal(n: int) -> Seq<char> {
    if n < 0 {
        "-"@ + spec_decimal((-n) as nat)
    } else {
        spec_decimal(n as nat)
    }
}

/// `Option<i32>` as `{:?}` prints it.
pub open spec fn spec_debug_code(code: Option<i32>) -> Seq<char> {
    match code {
        Some(n) => "Some("@ + spec_signed_decimal(n as int) + ")"@,
        None => "None"@,
    }
}

/// The result of an encode from ffmpeg's exit: success, or a message with
/// the exit code.
pub open spec fn spec_exit_result(success: bool, code: Option<i32>) -> Result<(), Seq<char>> {
    if success {
        Ok(())
    } else {
        Err("ffmpeg exited with code "@ + spec_debug_code(code))
    }
}

fn signed_numeral(n: i32) -> (r: String)
    ensures
        r@ == spec_signed_decimal(n as int),
{
    if n < 0 {
        let m: u64 = (0i64 - (n as i64)) as u64;
        let mut s = owned("-");
        s.append(numeral(m).as_str());
        s
    } else {
        numeral(n as u64)
    }
}

/// What an encode returns once ffmpeg has exited.
pub fn exit_result(success: bool, code: Option<i32>) -> (r: Result<(), String>)
    ensures
        match (r, spec_exit_result(success, code)) {
            (Ok(_), Ok(_)) => true,
            (Err(a), Err(b)) => a@ == b,
            _ => false,
        },
{
    if success {
        return Ok(());
    }
    let mut msg = owned("ffmpeg exited with code ");
    match code {
        Some(n) => {
            msg.append("Some(");
            msg.append(signed_numeral(n).as_str());
            msg.append(")");
        },
        None => {
            msg.append("None");
        },
    }
    Err(msg)
}

// ── Failures of the outside processes ───────────────────────────────────────

/// A step of probing, encoding or scanning that the system can fail.
pub enum Failure {
    /// ffprobe could not be run.
    ProbeLaunch,
    /// ffprobe exited unsuccessfully (the detail is its standard error).
    ProbeExit,
    /// ffmpeg could not be started.
    EncoderLaunch,
    /// Waiting for ffmpeg failed.
    EncoderWait,
    /// The scanning task failed.
    ScanTask,
    /// A directory entry could not be read.
    DirEntry,
    /// The type of a directory entry could not be read.
    FileType,
}

/// The text before the system's message for a failed step.
pub open spec fn failure_prefix(f: Failure) -> Seq<char> {
    match f {
        Failure::ProbeLaunch => "Failed to run ffprobe: "@,
        Failure::ProbeExit => "ffprobe failed: "@,
        Failure::EncoderLaunch => "Failed to start ffmpeg: "@,
        Failure::EncoderWait => "ffmpeg process error: "@,
        Failure::ScanTask => "Scan task failed: "@,
        Failure::DirEntry => "Dir entry error: "@,
        Failure::FileType => "File type error: "@,
    }
}

/// The message for a failed step, `detail` being the system's message.
pub fn failure_message(f: Failure, detail: &str) -> (r: String)
    ensures
        r@ == failure_prefix(f) + detail@,
{
    let mut m = match f {
        Failure::ProbeLaunch => "Failed to run ffprobe: ".to_string(),
        Failure::ProbeExit => "ffprobe failed: ".to_string(),
        Failure::EncoderLaunch => "Failed to start ffmpeg: ".to_string(),
        Failure::EncoderWait => "ffmpeg process error: ".to_string(),
        Failure::ScanTask => "Scan task failed: ".to_string(),
        Failure::DirEntry => "Dir entry error: ".to_string(),
        Failure::FileType => "File type error: ".to_string(),
    };
    m.append(detail);
    m
}

/// The message for a directory of the scan that could not be read.
pub fn read_dir_failure(dir: &str, detail: &str) -> (r: String)
    ensures
        r@ == "Cannot read "@ + dir@ + ": "@ + detail@,
{
    let mut m = "Cannot read ".to_string();
    m.append(dir);
    m.append(": ");
    m.append(detail);
    m
}

// ── Library scan ────────────────────────────────────────────────────────────

/// File extensions that a scan picks up.
pub open spec fn media_extensions() -> Seq<Seq<char>> {
    seq!["mp4"@, "mkv"@, "avi"@, "mov"@, "wmv"@, "flv"@, "webm"@, "m4v"@, "ts"@, "mpg"@, "mpeg"@,
        "mp3"@, "flac"@, "wav"@, "aac"@, "ogg"@, "m4a"@, "wma"@, "opus"@]
}

/// Whether `ext` is a media extension, ignoring ASCII case.
pub open spec fn spec_is_media_extension(ext: Seq<char>) -> bool {
    exists|k: int| 0 <= k < media_extensions().len() && eq_ignore_ascii_case(#[trigger] media_extensions()[k], ext)
}

/// Whether a file counts as media does not depend on the ASCII case of its
/// extension.
pub proof fn lemma_media_extension_ignores_case(a: Seq<char>, b: Seq<char>)
    requires
        eq_ignore_ascii_case(a, b),
    ensures
        spec_is_media_extension(a) == spec_is_media_extension(b),
{
    if spec_is_media_extension(a) {
        let k = choose|k: int| 0 <= k < media_extensions().len() && eq_ignore_ascii_case(#[trigger] media_extensions()[k], a);
        assert(eq_ignore_ascii_case(media_extensions()[k], b));
    }
    if spec_is_media_extension(b) {
        let k = choose|k: int| 0 <= k < media_extensions().len() && eq_ignore_ascii_case(#[trigger] media_extensions()[k], b);
        assert(eq_ignore_ascii_case(media_extensions()[k], a));
    }
}

/// A scan picks up a file exactly when its extension is, up to ASCII case,
/// one of mp4, mkv, avi, mov, wmv, flv, webm, m4v, ts, mpg, mpeg, mp3, flac,
/// wav, aac, ogg, m4a, wma or opus.
pub proof fn lemma_media_extensions_are(ext: Seq<char>)
    ensures
        spec_is_media_extension(ext) <==> (
            eq_ignore_ascii_case("mp4"@, ext)
            || eq_ignore_ascii_case("mkv"@, ext)
            || eq_ignore_ascii_case("avi"@, ext)
            || eq_ignore_ascii_case("mov"@, ext)
            || eq_ignore_ascii_case("wmv"@, ext)
            || eq_ignore_ascii_case("flv"@, ext)
            || eq_ignore_ascii_case("webm"@, ext)
            || eq_ignore_ascii_case("m4v"@, ext)
            || eq_ignore_ascii_case("ts"@, ext)
            || eq_ignore_ascii_case("mpg"@, ext)
            || eq_ignore_ascii_case("mpeg"@, ext)
            || eq_ignore_ascii_case("mp3"@, ext)
            || eq_ignore_ascii_case("flac"@, ext)
            || eq_ignore_ascii_case("wav"@, ext)
            || eq_ignore_ascii_case("aac"@, ext)
            || eq_ignore_ascii_case("ogg"@, ext)
            || eq_ignore_ascii_case("m4a"@, ext)
            || eq_ignore_ascii_case("wma"@, ext)
            || eq_ignore_ascii_case("opus"@, ext)
        ),
{
    let l = media_extensions();
    assert(l.len() == 19);
    if spec_is_media_extension(ext) {
        let k = choose|k: int| 0 <= k < l.len() && eq_ignore_ascii_case(#[trigger] l[k], ext);
        assert(0 <= k < 19);
    }
        if eq_ignore_ascii_case("mp4"@, ext) { assert(media_extensions()[0] == "mp4"@); }
        if eq_ignore_ascii_case("mkv"@, ext) { assert(media_extensions()[1] == "mkv"@); }
        if eq_ignore_ascii_case("avi"@, ext) { assert(media_extensions()[2] == "avi"@); }
        if eq_ignore_ascii_case("mov"@, ext) { assert(media_extensions()[3] == "mov"@); }
        if eq_ignore_ascii_case("wmv"@, ext) { assert(media_extensions()[4] == "wmv"@); }
        if eq_ignore_ascii_case("flv"@, ext) { assert(media_extensions()[5] == "flv"@); }
        if eq_ignore_ascii_case("webm"@, ext) { assert(media_extensions()[6] == "webm"@); }
        if eq_ignore_ascii_case("m4v"@, ext) { assert(media_extensions()[7] == "m4v"@); }
        if eq_ignore_ascii_case("ts"@, ext) { assert(media_extensions()[8] == "ts"@); }
        if eq_ignore_ascii_case("mpg"@, ext) { assert(media_extensions()[9] == "mpg"@); }
        if eq_ignore_ascii_case("mpeg"@, ext) { assert(media_extensions()[10] == "mpeg"@); }
        if eq_ignore_ascii_case("mp3"@, ext) { assert(media_extensions()[11] == "mp3"@); }
        if eq_ignore_ascii_case("flac"@, ext) { assert(media_extensions()[12] == "flac"@); }
        if eq_ignore_ascii_case("wav"@, ext) { assert(media_extensions()[13] == "wav"@); }
        if eq_ignore_ascii_case("aac"@, ext) { assert(media_extensions()[14] == "aac"@); }
        if eq_ignore_ascii_case("ogg"@, ext) { assert(media_extensions()[15] == "ogg"@); }
        if eq_ignore_ascii_case("m4a"@, ext) { assert(media_extensions()[16] == "m4a"@); }
        if eq_ignore_ascii_case("wma"@, ext) { assert(media_extensions()[17] == "wma"@); }
        if eq_ignore_ascii_case("opus"@, ext) { assert(media_extensions()[18] == "opus"@); }
}

fn media_extension_list() -> (r: Vec<String>)
    ensures
        r.deep_view() == media_extensions(),
{
    let mut v: Vec<String> = Vec::new();
    v.push(owned("mp4"));
    v.push(owned("mkv"));
    v.push(owned("avi"));
    v.push(owned("mov"));
    v.push(owned("wmv"));
    v.push(owned("flv"));
    v.push(owned("webm"));
    v.push(owned("m4v"));
    v.push(owned("ts"));
    v.push(owned("mpg"));
    v.push(owned("mpeg"));
    v.push(owned("mp3"));
    v.push(owned("flac"));
    v.push(owned("wav"));
    v.push(owned("aac"));
    v.push(owned("ogg"));
    v.push(owned("m4a"));
    v.push(owned("wma"));
    v.push(owned("opus"));
    assert(v.deep_view() =~= media_extensions());
    v
}

/// Whether `ext` is one of the media extensions, ignoring ASCII case.
pub fn is_media_extension(ext: &str) -> (r: bool)
    ensures
        r == spec_is_media_extension(ext@),
{
    let list = media_extension_list();
    let e = chars_of(ext);
    let mut i: usize = 0;
    while i < list.len()
        invariant
            list.deep_view() == media_extensions(),
            e@ == ext@,
            i <= list.len(),
            forall|k: int| 0 <= k < i ==> !eq_ignore_ascii_case(#[trigger] media_extensions()[k], ext@),
        decreases list.len() - i,
    {
        let c = chars_of(list[i].as_str());
        assert(list.deep_view()[i as int] == list@[i as int]@);
        if chars_eq_ignore_ascii_case(&c, &e) {
            return true;
        }
        i = i + 1;
    }
    false
}

/// Whether a scan picks up the file at `path`: its extension (std's
/// `Path::extension`) is a media extension.
pub fn is_media_path(path: &str) -> (r: bool)
    ensures
        r == (spec_extension(path@) matches Some(e) && spec_is_media_extension(e)),
{
    match extension_of(path) {
        Some(e) => is_media_extension(e.as_str()),
        None => false,
    }
}

/// The scanned paths in ascending order (as `Vec<String>::sort`).
pub fn sort_paths(paths: &Vec<String>) -> (r: Vec<String>)
    ensures
        r.len() == paths.len(),
        exists|p: Seq<usize>| is_permutation(p, paths.len() as nat)
            && forall|k: int| 0 <= k < p.len() ==> r@[k] == #[trigger] paths@[p[k] as int],
        forall|a: int, b: int| 0 <= a < b < r.len() ==> !seq_lt(r@[b]@, r@[a]@),
{
    let mut keys: Vec<SortKey> = Vec::new();
    let mut i: usize = 0;
    while i < paths.len()
        invariant
            i <= paths.len(),
            keys@.len() == i,
            forall|k: int| 0 <= k < i ==> (#[trigger] keys@[k]).view_key() == (false, paths@[k]@),
        decreases paths.len() - i,
    {
        keys.push(SortKey { later: false, text: chars_of(paths[i].as_str()) });
        i = i + 1;
    }
    let order = stable_order(&keys);
    let mut out: Vec<String> = Vec::new();
    let mut j: usize = 0;
    while j < order.len()
        invariant
            is_permutation(order@, paths.len() as nat),
            is_stable_order(keys@, order@),
            keys@.len() == paths.len(),
            forall|k: int| 0 <= k < paths.len() ==> (#[trigger] keys@[k]).view_key() == (false, paths@[k]@),
            j <= order.len(),
            out@.len() == j,
            forall|k: int| 0 <= k < j ==> out@[k] == #[trigger] paths@[order@[k] as int],
        decreases order.len() - j,
    {
        out.push(paths[order[j]].clone());
        j = j + 1;
    }
    assert forall|a: int, b: int| 0 <= a < b < out.len() implies !seq_lt(out@[b]@, out@[a]@) by {
        assert(keys@[order@[a] as int].view_key() == (false, paths@[order@[a] as int]@));
        assert(keys@[order@[b] as int].view_key() == (false, paths@[order@[b] as int]@));
        assert(!key_lt(keys@[order@[b] as int].view_key(), keys@[order@[a] as int].view_key()));
    }
    out
}

} // verus!
