//! Reading ffprobe's JSON report (parsed by serde_json) into a media file.

use vstd::prelude::*;
use crate::media::MediaFile;
use crate::paths::{file_name_of, path_file_name, or_default};
use crate::text::{parse_u64, spec_parse_u64, str_eq};
use crate::numeral::{parse_micros, spec_parse_micros};
use crate::ids::{new_id, is_uuid_v4_text};

verus! {

#[verifier::external_type_specification]
#[verifier::external_body]
pub struct ExJsonValue(serde_json::Value);


/// The contents of a JSON value, as far as this library reads them: a
/// number is kept as what `as_u64` gives of it.
pub enum Json {
    Null,
    Bool(bool),
    Number(Option<u64>),
    Str(String),
    Array(Vec<Json>),
    Object(Vec<(String, Json)>),
}

/// What a `serde_json::Value` holds.
pub uninterp spec fn json_model(v: serde_json::Value) -> Json;

/// What `serde_json::from_slice::<Value>` makes of `bytes`: a value, or
/// none where it reports an error.
pub uninterp spec fn parsed_json(bytes: Seq<u8>) -> Option<Json>;

/// The value stored under `key` among the entries of an object.
pub open spec fn entry_value(entries: Seq<(String, Json)>, key: Seq<char>) -> Json
    decreases entries.len(),
{
    if entries.len() == 0 {
        Json::Null
    } else if entries[0].0@ == key {
        entries[0].1
    } else {
        entry_value(entries.drop_first(), key)
    }
}

/// `v[key]`: the member `key` of an object, `Null` for anything else.
pub open spec fn json_index(v: Json, key: Seq<char>) -> Json {
    match v {
        Json::Object(entries) => entry_value(entries@, key),
        _ => Json::Null,
    }
}

/// `v.as_str()`.
pub open spec fn json_str(v: Json) -> Option<Seq<char>> {
    match v {
        Json::Str(s) => Some(s@),
        _ => None,
    }
}

/// `v.as_u64()`.
pub open spec fn json_u64(v: Json) -> Option<u64> {
    match v {
        Json::Number(n) => n,
        _ => None,
    }
}

/// `v.as_array()`.
pub open spec fn json_items(v: Json) -> Option<Seq<Json>> {
    match v {
        Json::Array(items) => Some(items@),
        _ => None,
    }
}

/// The message (`Display` of `serde_json::Error`) with which
/// `serde_json::from_slice::<Value>` refuses `bytes`.
pub uninterp spec fn json_error_message(bytes: Seq<u8>) -> Seq<char>;

/// `serde_json::from_slice::<Value>`: succeeds exactly where
/// [`parsed_json`] names a value, and gives that value; otherwise gives the
/// error's message, named [`json_error_message`] (serde_json derives it,
/// position included, from the bytes alone).
#[verifier::external_body]
pub(crate) fn parse_json(bytes: &[u8]) -> (r: Result<serde_json::Value, String>)
    ensures
        r is Ok <==> parsed_json(bytes@) is Some,
        r matches Ok(v) ==> parsed_json(bytes@) == Some(json_model(v)),
        r matches Err(m) ==> m@ == json_error_message(bytes@),
{
    match serde_json::from_slice::<serde_json::Value>(bytes) {
        Ok(v) => Ok(v),
        Err(e) => Err(e.to_string()),
    }
}

/// `Index<&str> for Value`: the member `key` of an object, `Null` otherwise.
#[verifier::external_body]
pub(crate) fn json_get<'a>(v: &'a serde_json::Value, key: &str) -> (r: &'a serde_json::Value)
    ensures
        json_model(*r) == json_index(json_model(*v), key@),
{
    &v[key]
}

/// `Value::as_str`, converted to a `String`.
#[verifier::external_body]
pub(crate) fn json_as_str(v: &serde_json::Value) -> (r: Option<String>)
    ensures
        r.deep_view() == json_str(json_model(*v)),
{
    v.as_str().map(|s| s.to_string())
}

/// `Value::as_u64`.
#[verifier::external_body]
pub(crate) fn json_as_u64(v: &serde_json::Value) -> (r: Option<u64>)
    ensures
        r == json_u64(json_model(*v)),
{
    v.as_u64()
}

/// `Value::as_array`.
#[verifier::external_body]
pub(crate) fn json_as_array(v: &serde_json::Value) -> (r: Option<&Vec<serde_json::Value>>)
    ensures
        r is Some <==> json_items(json_model(*v)) is Some,
        r matches Some(items) ==> items@.len() == json_items(json_model(*v))->0.len()
            && forall|k: int| 0 <= k < items@.len()
                ==> json_model(#[trigger] items@[k]) == json_items(json_model(*v))->0[k],
{
    v.as_array()
}

/// The first stream whose `codec_type` is `kind`.
pub open spec fn first_stream(streams: Seq<Json>, kind: Seq<char>) -> Option<Json>
    decreases streams.len(),
{
    if streams.len() == 0 {
        None
    } else if json_str(json_index(streams[0], "codec_type"@)) == Some(kind) {
        Some(streams[0])
    } else {
        first_stream(streams.drop_first(), kind)
    }
}

/// The stream of kind `kind` in an ffprobe report, if any.
pub open spec fn report_stream(root: Json, kind: Seq<char>) -> Option<Json> {
    match json_items(json_index(root, "streams"@)) {
        Some(streams) => first_stream(streams, kind),
        None => None,
    }
}

/// A text member of the report's `format` section.
pub open spec fn format_text(root: Json, key: Seq<char>) -> Option<Seq<char>> {
    json_str(json_index(json_index(root, "format"@), key))
}

/// A numeral member of the report's `format` section, as a `u64`.
pub open spec fn format_u64(root: Json, key: Seq<char>) -> Option<u64> {
    match format_text(root, key) {
        Some(s) => spec_parse_u64(s),
        None => None,
    }
}

/// A text member of a stream.
pub open spec fn stream_text(stream: Option<Json>, key: Seq<char>) -> Option<Seq<char>> {
    match stream {
        Some(s) => json_str(json_index(s, key)),
        None => None,
    }
}

/// A size member of a stream, cut to 32 bits as `as u32` does.
pub open spec fn stream_size(stream: Option<Json>, key: Seq<char>) -> Option<u32> {
    match stream {
        Some(s) => match json_u64(json_index(s, key)) {
            Some(n) => Some(n as u32),
            None => None,
        },
        None => None,
    }
}

/// The media file that an ffprobe report `root` describes for the file at
/// `path`, with identifier `id`.
pub open spec fn is_probed_media(m: MediaFile, root: Json, path: Seq<char>, id: Seq<char>) -> bool {
    let video = report_stream(root, "video"@);
    let audio = report_stream(root, "audio"@);
    &&& m.id@ == id
    &&& m.path@ == path
    &&& m.filename@ == or_default(path_file_name(path), Seq::<char>::empty())
    &&& m.size_bytes == match format_u64(root, "size"@) {
        Some(n) => n,
        None => 0,
    }
    &&& m.duration_micros == match format_text(root, "duration"@) {
        Some(s) => spec_parse_micros(s),
        None => None,
    }
    &&& m.bitrate == format_u64(root, "bit_rate"@)
    &&& m.format.deep_view() == format_text(root, "format_name"@)
    &&& m.video_codec.deep_view() == stream_text(video, "codec_name"@)
    &&& m.width == stream_size(video, "width"@)
    &&& m.height == stream_size(video, "height"@)
    &&& m.audio_codec.deep_view() == stream_text(audio, "codec_name"@)
}

fn find_stream<'a>(streams: &'a Vec<serde_json::Value>, kind: &str) -> (r: Option<&'a serde_json::Value>)
    ensures
        match (r, first_stream(streams@.map_values(|v: serde_json::Value| json_model(v)), kind@)) {
            (Some(a), Some(b)) => json_model(*a) == b,
            (None, None) => true,
            _ => false,
        },
{
    let ghost models = streams@.map_values(|v: serde_json::Value| json_model(v));
    assert(models.skip(0) =~= models);
    let mut i: usize = 0;
    while i < streams.len()
        invariant
            i <= streams.len(),
            models == streams@.map_values(|v: serde_json::Value| json_model(v)),
            first_stream(models, kind@) == first_stream(models.skip(i as int), kind@),
        decreases streams.len() - i,
    {
        let s = &streams[i];
        let t = json_as_str(json_get(s, "codec_type"));
        let is_kind = match &t {
            Some(t) => str_eq(t.as_str(), kind),
            None => false,
        };
        assert(models.skip(i as int)[0] == json_model(*s));
        if is_kind {
            return Some(s);
        }
        assert(models.skip(i as int).drop_first() =~= models.skip(i + 1));
        i = i + 1;
    }
    None
}

fn stream_of<'a>(root: &'a serde_json::Value, kind: &str) -> (r: Option<&'a serde_json::Value>)
    ensures
        match (r, report_stream(json_model(*root), kind@)) {
            (Some(a), Some(b)) => json_model(*a) == b,
            (None, None) => true,
            _ => false,
        },
{
    match json_as_array(json_get(root, "streams")) {
        Some(streams) => {
            let ghost items = json_items(json_index(json_model(*root), "streams"@))->0;
            assert(streams@.map_values(|v: serde_json::Value| json_model(v)) =~= items);
            find_stream(streams, kind)
        },
        None => None,
    }
}

fn text_member(v: Option<&serde_json::Value>, key: &str) -> (r: Option<String>)
    ensures
        r.deep_view() == match v {
            Some(s) => json_str(json_index(json_model(*s), key@)),
            None => None,
        },
{
    match v {
        Some(s) => json_as_str(json_get(s, key)),
        None => None,
    }
}

fn size_member(v: Option<&serde_json::Value>, key: &str) -> (r: Option<u32>)
    ensures
        r == match v {
            Some(s) => match json_u64(json_index(json_model(*s), key@)) {
                Some(n) => Some(n as u32),
                None => None,
            },
            None => None,
        },
{
    match v {
        Some(s) => match json_as_u64(json_get(s, key)) {
            Some(n) => Some(n as u32),
            None => None,
        },
        None => None,
    }
}

fn numeral_member(format: &serde_json::Value, key: &str) -> (r: Option<u64>)
    ensures
        r == match json_str(json_index(json_model(*format), key@)) {
            Some(s) => spec_parse_u64(s),
            None => None,
        },
{
    match json_as_str(json_get(format, key)) {
        Some(s) => parse_u64(s.as_str()),
        None => None,
    }
}

/// The media file described by a parsed ffprobe report for the file at
/// `path`, with the identifier `id`. Sizes, bit rate and duration missing or
/// unreadable in the report are left out (the size as 0).
pub fn media_from_probe(root: &serde_json::Value, path: &str, id: String) -> (r: MediaFile)
    ensures
        is_probed_media(r, json_model(*root), path@, id@),
{
    let filename = match file_name_of(path) {
        Some(n) => n,
        None => String::new(),
    };
    let format = json_get(root, "format");
    let size_bytes = match numeral_member(format, "size") {
        Some(n) => n,
        None => 0,
    };
    let duration_micros = match json_as_str(json_get(format, "duration")) {
        Some(s) => parse_micros(s.as_str()),
        None => None,
    };
    let bitrate = numeral_member(format, "bit_rate");
    let format_name = json_as_str(json_get(format, "format_name"));
    let video = stream_of(root, "video");
    let audio = stream_of(root, "audio");
    let video_codec = text_member(video, "codec_name");
    let width = size_member(video, "width");
    let height = size_member(video, "height");
    let audio_codec = text_member(audio, "codec_name");
    MediaFile {
        id,
        path: path.to_string(),
        filename,
        size_bytes,
        duration_micros,
        video_codec,
        audio_codec,
        width,
        height,
        bitrate,
        format: format_name,
    }
}

/// Message when no identifier can be made for a probed file.
pub open spec fn no_file_id_message() -> Seq<char> {
    "Cannot generate a file id"@
}

/// Turns ffprobe's standard output for the file at `path` into a media file
/// with a fresh identifier. An output that is not JSON gives the message
/// `Invalid ffprobe JSON: ` followed by serde_json's message; a system that
/// supplies no random identifier gives [`no_file_id_message`].
pub fn probe_output(stdout: &[u8], path: &str) -> (r: Result<MediaFile, String>)
    ensures
        parsed_json(stdout@) is None ==> (r matches Err(msg)
            && msg@ == "Invalid ffprobe JSON: "@ + json_error_message(stdout@)),
        parsed_json(stdout@) is Some ==> match r {
            Ok(m) => is_probed_media(m, parsed_json(stdout@)->0, path@, m.id@) && is_uuid_v4_text(m.id@),
            Err(msg) => msg@ == no_file_id_message(),
        },
{
    match parse_json(stdout) {
        Ok(root) => {
            match new_id() {
                Some(id) => Ok(media_from_probe(&root, path, id)),
                None => Err("Cannot generate a file id".to_string()),
            }
        },
        Err(e) => {
            let mut msg = "Invalid ffprobe JSON: ".to_string();
            msg.append(e.as_str());
            Err(msg)
        },
    }
}

} // verus!
