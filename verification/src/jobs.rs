//! Encode jobs: creating one for a request, the updates an encode makes to
//! it, and its database row.

use vstd::prelude::*;
use crate::media::{AudioCodec, EncodeJob, EncodeRequest, JobStatus, MediaFile, ResolutionProfile, VideoCodec, PROGRESS_DONE,
    lemma_status_tag_roundtrip, lemma_video_tag_roundtrip, lemma_audio_tag_roundtrip, lemma_resolution_tag_roundtrip};
use crate::paths::{output_path_for, spec_output_path, path_parent, spec_file_stem, spec_extension};
use crate::ids::{new_id, now_rfc3339, is_uuid_v4_text, rfc3339_text};

verus! {

/// The job recorded for `req` when it is accepted: queued, no progress,
/// writing to `output_path`.
pub open spec fn spec_new_job(id: String, created_at: String, req: EncodeRequest, output_path: String) -> EncodeJob {
    EncodeJob {
        id,
        file_id: req.file_id,
        status: JobStatus::Queued,
        progress_hundredths: 0,
        video_codec: req.video_codec,
        audio_codec: req.audio_codec,
        resolution: req.resolution,
        quality_crf: req.quality_crf,
        output_path: Some(output_path),
        error: None,
        created_at,
    }
}

/// Builds the record of a newly accepted job.
pub fn new_job(id: String, created_at: String, req: &EncodeRequest, output_path: String) -> (r: EncodeJob)
    ensures
        r == spec_new_job(id, created_at, *req, output_path),
{
    EncodeJob {
        id,
        file_id: req.file_id.clone(),
        status: JobStatus::Queued,
        progress_hundredths: 0,
        video_codec: req.video_codec,
        audio_codec: req.audio_codec,
        resolution: req.resolution,
        quality_crf: req.quality_crf,
        output_path: Some(output_path),
        error: None,
        created_at,
    }
}

/// `job` is the job accepted for `req` on the source file `file`: a fresh
/// random identifier, queued with no progress, the request's codecs,
/// resolution and quality, and an output beside the source named after its
/// stem, video codec and resolution, which is never the source's own path.
pub open spec fn is_accepted_job(job: EncodeJob, file: MediaFile, req: EncodeRequest) -> bool {
    &&& is_uuid_v4_text(job.id@)
    &&& job.file_id == req.file_id
    &&& job.status == JobStatus::Queued
    &&& job.progress_hundredths == 0
    &&& job.video_codec == req.video_codec
    &&& job.audio_codec == req.audio_codec
    &&& job.resolution == req.resolution
    &&& job.quality_crf == req.quality_crf
    &&& match job.output_path {
        Some(p) => p@ == spec_output_path(
            path_parent(file.path@),
            spec_file_stem(file.path@),
            spec_extension(file.path@),
            req.video_codec,
            req.resolution,
        ) && p@ != file.path@,
        None => false,
    }
    &&& job.error.is_none()
}

/// Message when no identifier can be made for a job.
pub open spec fn no_id_message() -> Seq<char> {
    "Cannot generate a job id"@
}

/// Message when the system clock cannot be read.
pub open spec fn no_clock_message() -> Seq<char> {
    "Cannot read the system clock"@
}

/// Accepts `req` for the source file `file`, stamped with the current time
/// in RFC 3339 text; refused when the system supplies no random identifier
/// or no usable clock.
pub fn start_job(file: &MediaFile, req: &EncodeRequest) -> (r: Result<EncodeJob, String>)
    ensures
        r matches Ok(job) ==> is_accepted_job(job, *file, *req)
            && exists|secs: i64, nanos: u32| rfc3339_text(secs, nanos) == Some(job.created_at@),
        r matches Err(m) ==> m@ == no_id_message() || m@ == no_clock_message(),
{
    let id = match new_id() {
        Some(id) => id,
        None => { return Err("Cannot generate a job id".to_string()); },
    };
    let now = match now_rfc3339() {
        Some(t) => t,
        None => { return Err("Cannot read the system clock".to_string()); },
    };
    let output_path = output_path_for(file.path.as_str(), req.video_codec, req.resolution);
    Ok(new_job(id, now, req, output_path))
}

// ── Lifecycle ───────────────────────────────────────────────────────────────

/// What happens to a job while it is processed.
pub enum JobEvent {
    /// The worker picked the job up.
    Started,
    /// ffmpeg reported progress, in hundredths of a percent.
    Progress(u32),
    /// ffmpeg finished successfully.
    Succeeded,
    /// The encode failed with this message.
    Failed(String),
}

/// The columns an event sets on the job's row: status, progress, output path
/// and error.
pub struct JobUpdate {
    pub status: JobStatus,
    pub progress_hundredths: u32,
    pub output_path: Option<String>,
    pub error: Option<String>,
}

/// The update for `event` on a job writing to `output_path`: running while it
/// starts and progresses (with no output path), completed at 100% with its
/// output path, or failed at 0% with the message.
pub open spec fn spec_update_for(event: JobEvent, output_path: String) -> JobUpdate {
    match event {
        JobEvent::Started => JobUpdate { status: JobStatus::Running, progress_hundredths: 0, output_path: None, error: None },
        JobEvent::Progress(p) => JobUpdate { status: JobStatus::Running, progress_hundredths: p, output_path: None, error: None },
        JobEvent::Succeeded => JobUpdate {
            status: JobStatus::Completed,
            progress_hundredths: PROGRESS_DONE,
            output_path: Some(output_path),
            error: None,
        },
        JobEvent::Failed(e) => JobUpdate { status: JobStatus::Failed, progress_hundredths: 0, output_path: None, error: Some(e) },
    }
}

/// The update that `event` makes to a job writing to `output_path`.
pub fn update_for(event: JobEvent, output_path: &String) -> (r: JobUpdate)
    ensures
        r == spec_update_for(event, *output_path),
{
    match event {
        JobEvent::Started => JobUpdate { status: JobStatus::Running, progress_hundredths: 0, output_path: None, error: None },
        JobEvent::Progress(p) => JobUpdate { status: JobStatus::Running, progress_hundredths: p, output_path: None, error: None },
        JobEvent::Succeeded => JobUpdate {
            status: JobStatus::Completed,
            progress_hundredths: PROGRESS_DONE,
            output_path: Some(output_path.clone()),
            error: None,
        },
        JobEvent::Failed(e) => JobUpdate { status: JobStatus::Failed, progress_hundredths: 0, output_path: None, error: Some(e) },
    }
}

/// `job` after `u` has been written to its row.
pub open spec fn spec_apply(job: EncodeJob, u: JobUpdate) -> EncodeJob {
    EncodeJob {
        status: u.status,
        progress_hundredths: u.progress_hundredths,
        output_path: u.output_path,
        error: u.error,
        ..job
    }
}

/// Writes an update into a job record, as the database row update does.
pub fn apply_update(job: &mut EncodeJob, u: JobUpdate)
    ensures
        *final(job) == spec_apply(*old(job), u),
{
    job.status = u.status;
    job.progress_hundredths = u.progress_hundredths;
    job.output_path = u.output_path;
    job.error = u.error;
}

/// A completed or failed job is finished.
pub open spec fn is_finished(s: JobStatus) -> bool {
    s == JobStatus::Completed || s == JobStatus::Failed
}

/// The update, if any, that `event` makes to a job in status `status`: none
/// once the job is finished, else [`spec_update_for`].
pub open spec fn spec_next_update(status: JobStatus, event: JobEvent, output_path: String) -> Option<JobUpdate> {
    if is_finished(status) {
        None
    } else {
        Some(spec_update_for(event, output_path))
    }
}

/// `job` after `event`: unchanged once finished.
pub open spec fn spec_step(job: EncodeJob, event: JobEvent, output_path: String) -> EncodeJob {
    match spec_next_update(job.status, event, output_path) {
        Some(u) => spec_apply(job, u),
        None => job,
    }
}

/// `job` after the events `events` of an encode writing to `output_path`.
pub open spec fn spec_after(job: EncodeJob, events: Seq<JobEvent>, output_path: String) -> EncodeJob
    decreases events.len(),
{
    if events.len() == 0 {
        job
    } else {
        spec_step(spec_after(job, events.drop_last(), output_path), events.last(), output_path)
    }
}

/// The state of a job while it is processed: the record as stored, and the
/// path its encode writes to.
pub struct JobRun {
    pub job: EncodeJob,
    pub output_path: String,
}

impl JobRun {
    /// Starts tracking an accepted job; its output path is the job's.
    pub fn new(job: EncodeJob) -> (r: JobRun)
        ensures
            r.job == job,
            r.output_path@ == match job.output_path {
                Some(p) => p@,
                None => Seq::<char>::empty(),
            },
    {
        let output_path = match &job.output_path {
            Some(p) => p.clone(),
            None => String::new(),
        };
        JobRun { job, output_path }
    }

    /// Takes in an event: the update to write to the job's row, or none once
    /// the job is finished; the tracked record follows it.
    pub fn on_event(&mut self, event: JobEvent) -> (r: Option<JobUpdate>)
        ensures
            r == spec_next_update(old(self).job.status, event, old(self).output_path),
            final(self).job == spec_step(old(self).job, event, old(self).output_path),
            final(self).output_path == old(self).output_path,
    {
        match self.job.status {
            JobStatus::Completed | JobStatus::Failed => {
                return None;
            },
            _ => {},
        }
        let u = update_for(event, &self.output_path);
        let copy = JobUpdate {
            status: u.status,
            progress_hundredths: u.progress_hundredths,
            output_path: u.output_path.clone(),
            error: u.error.clone(),
        };
        apply_update(&mut self.job, copy);
        Some(u)
    }
}

/// The fields of a job that no event changes.
pub open spec fn same_request(a: EncodeJob, b: EncodeJob) -> bool {
    &&& a.id == b.id
    &&& a.file_id == b.file_id
    &&& a.video_codec == b.video_codec
    &&& a.audio_codec == b.audio_codec
    &&& a.resolution == b.resolution
    &&& a.quality_crf == b.quality_crf
    &&& a.created_at == b.created_at
}

/// Processing never changes what a job asked for, when or under which
/// identifier.
pub proof fn lemma_events_keep_request(job: EncodeJob, events: Seq<JobEvent>, output_path: String)
    ensures
        same_request(spec_after(job, events, output_path), job),
    decreases events.len(),
{
    if events.len() > 0 {
        lemma_events_keep_request(job, events.drop_last(), output_path);
    }
}

/// A job's progress stays within 0–100% while every reported progress does.
pub proof fn lemma_events_keep_progress_bounded(job: EncodeJob, events: Seq<JobEvent>, output_path: String)
    requires
        job.progress_hundredths <= PROGRESS_DONE,
        forall|k: int| 0 <= k < events.len() ==> (#[trigger] events[k] matches JobEvent::Progress(p) ==> p <= PROGRESS_DONE),
    ensures
        spec_after(job, events, output_path).progress_hundredths <= PROGRESS_DONE,
    decreases events.len(),
{
    if events.len() > 0 {
        lemma_events_keep_progress_bounded(job, events.drop_last(), output_path);
        assert(events.last() == events[events.len() - 1]);
    }
}

/// A finished job stays as it is, whatever events come after.
pub proof fn lemma_finished_job_stays(job: EncodeJob, events: Seq<JobEvent>, output_path: String)
    requires
        is_finished(job.status),
    ensures
        spec_after(job, events, output_path) == job,
    decreases events.len(),
{
    if events.len() > 0 {
        lemma_finished_job_stays(job, events.drop_last(), output_path);
    }
}

proof fn lemma_after_concat(job: EncodeJob, a: Seq<JobEvent>, b: Seq<JobEvent>, output_path: String)
    ensures
        spec_after(job, a + b, output_path) == spec_after(spec_after(job, a, output_path), b, output_path),
    decreases b.len(),
{
    if b.len() == 0 {
        assert(a + b =~= a);
    } else {
        lemma_after_concat(job, a, b.drop_last(), output_path);
        assert((a + b).drop_last() =~= a + b.drop_last());
        assert((a + b).last() == b.last());
    }
}

proof fn lemma_prefix_shape(job: EncodeJob, events: Seq<JobEvent>, output_path: String, k: int)
    requires
        job.status == JobStatus::Queued,
        1 <= k <= events.len(),
    ensures
        spec_after(job, events.take(k), output_path).status != JobStatus::Queued,
        spec_after(job, events.take(k), output_path).status == JobStatus::Running ==> {
            &&& spec_after(job, events.take(k), output_path).output_path.is_none()
            &&& spec_after(job, events.take(k), output_path).error.is_none()
        },
        spec_after(job, events.take(k), output_path).status == JobStatus::Completed ==> {
            &&& spec_after(job, events.take(k), output_path).output_path == Some(output_path)
            &&& spec_after(job, events.take(k), output_path).error.is_none()
            &&& spec_after(job, events.take(k), output_path).progress_hundredths == PROGRESS_DONE
        },
        spec_after(job, events.take(k), output_path).status == JobStatus::Failed ==> {
            &&& spec_after(job, events.take(k), output_path).output_path.is_none()
            &&& spec_after(job, events.take(k), output_path).error.is_some()
            &&& spec_after(job, events.take(k), output_path).progress_hundredths == 0
        },
    decreases k,
{
    lemma_after_prefix(job, events, output_path, k - 1);
    if k == 1 {
        assert(events.take(0) =~= Seq::<JobEvent>::empty());
    } else {
        lemma_prefix_shape(job, events, output_path, k - 1);
    }
}

/// Whatever events reach a queued job, in whatever order: it leaves the
/// queue with the first and never returns to it; while running it has no
/// output path and no error; a completed job is at 100% with its output path
/// and no error, a failed one at 0% with an error and no output path; and
/// once finished it stays exactly as it was finished.
pub proof fn lemma_any_events(job: EncodeJob, events: Seq<JobEvent>, output_path: String)
    requires
        job.status == JobStatus::Queued,
    ensures
        forall|k: int| 1 <= k <= events.len()
            ==> (#[trigger] spec_after(job, events.take(k), output_path)).status != JobStatus::Queued,
        forall|k: int| 1 <= k <= events.len()
            && (#[trigger] spec_after(job, events.take(k), output_path)).status == JobStatus::Running
            ==> spec_after(job, events.take(k), output_path).output_path.is_none()
                && spec_after(job, events.take(k), output_path).error.is_none(),
        forall|k: int| 1 <= k <= events.len()
            && (#[trigger] spec_after(job, events.take(k), output_path)).status == JobStatus::Completed
            ==> spec_after(job, events.take(k), output_path).output_path == Some(output_path)
                && spec_after(job, events.take(k), output_path).error.is_none()
                && spec_after(job, events.take(k), output_path).progress_hundredths == PROGRESS_DONE,
        forall|k: int| 1 <= k <= events.len()
            && (#[trigger] spec_after(job, events.take(k), output_path)).status == JobStatus::Failed
            ==> spec_after(job, events.take(k), output_path).output_path.is_none()
                && spec_after(job, events.take(k), output_path).error.is_some()
                && spec_after(job, events.take(k), output_path).progress_hundredths == 0,
        forall|k: int, i: int| 0 <= k <= i <= events.len()
            && is_finished((#[trigger] spec_after(job, events.take(k), output_path)).status)
            ==> #[trigger] spec_after(job, events.take(i), output_path) == spec_after(job, events.take(k), output_path),
{
    assert forall|k: int| 1 <= k <= events.len() implies
        (#[trigger] spec_after(job, events.take(k), output_path)).status != JobStatus::Queued
        && (spec_after(job, events.take(k), output_path).status == JobStatus::Running
            ==> spec_after(job, events.take(k), output_path).output_path.is_none()
                && spec_after(job, events.take(k), output_path).error.is_none())
        && (spec_after(job, events.take(k), output_path).status == JobStatus::Completed
            ==> spec_after(job, events.take(k), output_path).output_path == Some(output_path)
                && spec_after(job, events.take(k), output_path).error.is_none()
                && spec_after(job, events.take(k), output_path).progress_hundredths == PROGRESS_DONE)
        && (spec_after(job, events.take(k), output_path).status == JobStatus::Failed
            ==> spec_after(job, events.take(k), output_path).output_path.is_none()
                && spec_after(job, events.take(k), output_path).error.is_some()
                && spec_after(job, events.take(k), output_path).progress_hundredths == 0) by {
        lemma_prefix_shape(job, events, output_path, k);
    }
    assert forall|k: int, i: int| 0 <= k <= i <= events.len()
        && is_finished((#[trigger] spec_after(job, events.take(k), output_path)).status)
        implies #[trigger] spec_after(job, events.take(i), output_path) == spec_after(job, events.take(k), output_path) by {
        let rest = events.subrange(k, i);
        assert(events.take(i) =~= events.take(k) + rest);
        lemma_after_concat(job, events.take(k), rest, output_path);
        lemma_finished_job_stays(spec_after(job, events.take(k), output_path), rest, output_path);
    }
}

/// The events of one encode: the worker starts it, ffmpeg reports progress
/// any number of times, and it ends once, in success or failure.
pub open spec fn is_encode_run(events: Seq<JobEvent>) -> bool {
    &&& events.len() >= 2
    &&& events[0] is Started
    &&& forall|k: int| 1 <= k < events.len() - 1 ==> #[trigger] events[k] is Progress
    &&& (events.last() is Succeeded || events.last() is Failed)
}

proof fn lemma_after_prefix(job: EncodeJob, events: Seq<JobEvent>, output_path: String, k: int)
    requires
        0 <= k < events.len(),
    ensures
        spec_after(job, events.take(k + 1), output_path)
            == spec_step(spec_after(job, events.take(k), output_path), events[k], output_path),
{
    assert(events.take(k + 1).drop_last() =~= events.take(k));
    assert(events.take(k + 1).last() == events[k]);
}

/// A queued job through one encode: after the start it is running at 0%,
/// after each progress report running at that progress, with no output path
/// and no error while it runs; the last event finishes it, completed at 100%
/// with its output path or failed at 0% with the message; events after
/// that change nothing.
pub proof fn lemma_encode_run_states(job: EncodeJob, events: Seq<JobEvent>, more: Seq<JobEvent>, output_path: String)
    requires
        job.status == JobStatus::Queued,
        is_encode_run(events),
    ensures
        forall|k: int| 1 <= k < events.len() ==> {
            let s = #[trigger] spec_after(job, events.take(k), output_path);
            &&& s.status == JobStatus::Running
            &&& s.output_path.is_none()
            &&& s.error.is_none()
            &&& s.progress_hundredths == (if k == 1 {
                0
            } else {
                events[k - 1]->Progress_0
            })
        },
        events.last() is Succeeded ==> {
            let s = spec_after(job, events, output_path);
            s.status == JobStatus::Completed && s.progress_hundredths == PROGRESS_DONE
                && s.output_path == Some(output_path) && s.error.is_none()
        },
        events.last() matches JobEvent::Failed(e) ==> {
            let s = spec_after(job, events, output_path);
            s.status == JobStatus::Failed && s.progress_hundredths == 0 && s.output_path.is_none()
                && s.error == Some(e)
        },
        spec_after(job, events + more, output_path) == spec_after(job, events, output_path),
{
    let n = events.len() as int;
    assert(events.take(0) =~= Seq::<JobEvent>::empty());
    assert forall|k: int| 1 <= k < n implies {
        let s = #[trigger] spec_after(job, events.take(k), output_path);
        &&& s.status == JobStatus::Running
        &&& s.output_path.is_none()
        &&& s.error.is_none()
        &&& s.progress_hundredths == (if k == 1 {
            0
        } else {
            events[k - 1]->Progress_0
        })
    } by {
        lemma_running_prefix(job, events, output_path, k);
    }
    lemma_after_prefix(job, events, output_path, n - 1);
    assert(events.take(n) =~= events);
    if n - 1 > 0 {
        lemma_running_prefix(job, events, output_path, n - 1);
    }
    lemma_more_after_finish(job, events, more, output_path);
}

proof fn lemma_running_prefix(job: EncodeJob, events: Seq<JobEvent>, output_path: String, k: int)
    requires
        job.status == JobStatus::Queued,
        is_encode_run(events),
        1 <= k < events.len(),
    ensures
        spec_after(job, events.take(k), output_path).status == JobStatus::Running,
        spec_after(job, events.take(k), output_path).output_path.is_none(),
        spec_after(job, events.take(k), output_path).error.is_none(),
        spec_after(job, events.take(k), output_path).progress_hundredths == (if k == 1 {
            0
        } else {
            events[k - 1]->Progress_0
        }),
    decreases k,
{
    lemma_after_prefix(job, events, output_path, k - 1);
    if k == 1 {
        assert(events.take(0) =~= Seq::<JobEvent>::empty());
    } else {
        lemma_running_prefix(job, events, output_path, k - 1);
        assert(events[k - 1] is Progress);
    }
}

proof fn lemma_more_after_finish(job: EncodeJob, events: Seq<JobEvent>, more: Seq<JobEvent>, output_path: String)
    requires
        job.status == JobStatus::Queued,
        is_encode_run(events),
    ensures
        spec_after(job, events + more, output_path) == spec_after(job, events, output_path),
    decreases more.len(),
{
    if more.len() == 0 {
        assert(events + more =~= events);
    } else {
        lemma_more_after_finish(job, events, more.drop_last(), output_path);
        assert((events + more).drop_last() =~= events + more.drop_last());
        let n = events.len() as int;
        lemma_after_prefix(job, events, output_path, n - 1);
        assert(events.take(n) =~= events);
        if n - 1 > 0 {
            lemma_running_prefix(job, events, output_path, n - 1);
        }
        assert(is_finished(spec_after(job, events, output_path).status));
    }
}

// ── Database row ────────────────────────────────────────────────────────────

/// A row of the jobs table: status, codecs and resolution are stored as wire
/// names.
pub struct JobRow {
    pub id: String,
    pub file_id: String,
    pub status: String,
    pub progress_hundredths: u32,
    pub video_codec: String,
    pub audio_codec: String,
    pub resolution: String,
    pub quality_crf: Option<u8>,
    pub output_path: Option<String>,
    pub error: Option<String>,
    pub created_at: String,
}

/// `row` holds `job`.
pub open spec fn is_row_of(row: JobRow, job: EncodeJob) -> bool {
    &&& row.id == job.id
    &&& row.file_id == job.file_id
    &&& row.status@ == job.status.spec_tag()
    &&& row.progress_hundredths == job.progress_hundredths
    &&& row.video_codec@ == job.video_codec.spec_tag()
    &&& row.audio_codec@ == job.audio_codec.spec_tag()
    &&& row.resolution@ == job.resolution.spec_tag()
    &&& row.quality_crf == job.quality_crf
    &&& row.output_path == job.output_path
    &&& row.error == job.error
    &&& row.created_at == job.created_at
}

/// The job a row stands for; an unknown wire name reads as `Failed`, H.264,
/// AAC or the original resolution.
pub open spec fn spec_job_from_row(row: JobRow) -> EncodeJob {
    EncodeJob {
        id: row.id,
        file_id: row.file_id,
        status: match JobStatus::spec_from_tag(row.status@) {
            Some(s) => s,
            None => JobStatus::Failed,
        },
        progress_hundredths: row.progress_hundredths,
        video_codec: match VideoCodec::spec_from_tag(row.video_codec@) {
            Some(c) => c,
            None => VideoCodec::H264,
        },
        audio_codec: match AudioCodec::spec_from_tag(row.audio_codec@) {
            Some(c) => c,
            None => AudioCodec::AAC,
        },
        resolution: match ResolutionProfile::spec_from_tag(row.resolution@) {
            Some(r) => r,
            None => ResolutionProfile::Original,
        },
        quality_crf: row.quality_crf,
        output_path: row.output_path,
        error: row.error,
        created_at: row.created_at,
    }
}

/// The row that stores `job`.
pub fn row_from_job(job: &EncodeJob) -> (r: JobRow)
    ensures
        is_row_of(r, *job),
{
    JobRow {
        id: job.id.clone(),
        file_id: job.file_id.clone(),
        status: job.status.tag().to_string(),
        progress_hundredths: job.progress_hundredths,
        video_codec: job.video_codec.tag().to_string(),
        audio_codec: job.audio_codec.tag().to_string(),
        resolution: job.resolution.tag().to_string(),
        quality_crf: job.quality_crf,
        output_path: job.output_path.clone(),
        error: job.error.clone(),
        created_at: job.created_at.clone(),
    }
}

/// Reads a job back from its row.
pub fn job_from_row(row: JobRow) -> (r: EncodeJob)
    ensures
        r == spec_job_from_row(row),
{
    let status = match JobStatus::from_tag(row.status.as_str()) {
        Some(s) => s,
        None => JobStatus::Failed,
    };
    let video_codec = match VideoCodec::from_tag(row.video_codec.as_str()) {
        Some(c) => c,
        None => VideoCodec::H264,
    };
    let audio_codec = match AudioCodec::from_tag(row.audio_codec.as_str()) {
        Some(c) => c,
        None => AudioCodec::AAC,
    };
    let resolution = match ResolutionProfile::from_tag(row.resolution.as_str()) {
        Some(r) => r,
        None => ResolutionProfile::Original,
    };
    EncodeJob {
        id: row.id,
        file_id: row.file_id,
        status,
        progress_hundredths: row.progress_hundredths,
        video_codec,
        audio_codec,
        resolution,
        quality_crf: row.quality_crf,
        output_path: row.output_path,
        error: row.error,
        created_at: row.created_at,
    }
}

/// A job read back from the row that stored it is the job itself.
pub proof fn lemma_row_roundtrip(row: JobRow, job: EncodeJob)
    requires
        is_row_of(row, job),
    ensures
        spec_job_from_row(row) == job,
{
    lemma_status_tag_roundtrip(job.status);
    lemma_video_tag_roundtrip(job.video_codec);
    lemma_audio_tag_roundtrip(job.audio_codec);
    lemma_resolution_tag_roundtrip(job.resolution);
}

} // verus!
