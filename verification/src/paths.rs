//! Splitting file paths (through std's `Path`) and naming encode outputs.

use vstd::prelude::*;
use crate::media::{ResolutionProfile, VideoCodec};

verus! {

/// What std's `Path::file_name` gives for the path `p`: its final component,
/// none when the path ends in `..` or is a root.
pub uninterp spec fn path_file_name(p: Seq<char>) -> Option<Seq<char>>;

/// Index of the last `.` in `n`, if any.
pub open spec fn last_dot(n: Seq<char>) -> Option<int>
    decreases n.len(),
{
    if n.len() == 0 {
        None
    } else if n.last() == '.' {
        Some(n.len() - 1)
    } else {
        last_dot(n.drop_last())
    }
}

/// A file name split as std documents for `file_stem` and `extension`: with
/// no `.`, or with its only `.` in front, the whole name and no extension;
/// otherwise the parts before and after the final `.`.
pub open spec fn split_file_name(n: Seq<char>) -> (Seq<char>, Option<Seq<char>>) {
    match last_dot(n) {
        Some(i) => if i > 0 {
            (n.take(i), Some(n.skip(i + 1)))
        } else {
            (n, None)
        },
        None => (n, None),
    }
}

/// What std's `Path::file_stem` gives for the path `p`.
pub open spec fn spec_file_stem(p: Seq<char>) -> Option<Seq<char>> {
    match path_file_name(p) {
        Some(n) => Some(split_file_name(n).0),
        None => None,
    }
}

/// What std's `Path::extension` gives for the path `p`.
pub open spec fn spec_extension(p: Seq<char>) -> Option<Seq<char>> {
    match path_file_name(p) {
        Some(n) => split_file_name(n).1,
        None => None,
    }
}

/// What std's `Path::parent` gives for the path `p`.
pub uninterp spec fn path_parent(p: Seq<char>) -> Option<Seq<char>>;

/// `s` holds no path separator.
pub open spec fn no_slash(s: Seq<char>) -> bool {
    forall|i: int| 0 <= i < s.len() ==> s[i] != '/'
}

/// A plain file name: not empty, without a separator, neither `.` nor `..`.
pub open spec fn is_plain_name(n: Seq<char>) -> bool {
    &&& n.len() > 0
    &&& no_slash(n)
    &&& n != "."@
    &&& n != ".."@
}

/// std `Path::file_name`, converted to a `String`; its result is named
/// [`path_file_name`], as std computes it from the path alone. Beside the
/// name stand two facts of std's documented path syntax: the file name is
/// the final component, which holds no separator; and a path that ends in
/// `/` followed by a plain name has that name as its final component
/// (repeated separators are ignored, and only `.`, `..` and empty parts
/// are not normal components).
#[verifier::external_body]
pub(crate) fn file_name_of(p: &str) -> (r: Option<String>)
    ensures
        r.deep_view() == path_file_name(p@),
        r matches Some(n) ==> no_slash(n@),
        forall|d: Seq<char>, n: Seq<char>| #![trigger (d + "/"@ + n)]
            p@ == d + "/"@ + n && is_plain_name(n) ==> r.deep_view() == Some(n),
{
    std::path::Path::new(p).file_name().map(|n| n.to_string_lossy().to_string())
}

/// std `Path::file_stem`, converted to a `String`: by std's documentation,
/// the part of the file name that [`split_file_name`] keeps as the stem.
#[verifier::external_body]
pub(crate) fn file_stem_of(p: &str) -> (r: Option<String>)
    ensures
        r.deep_view() == spec_file_stem(p@),
{
    std::path::Path::new(p).file_stem().map(|n| n.to_string_lossy().to_string())
}

/// std `Path::extension`, converted to a `String`: by std's documentation,
/// the part of the file name that [`split_file_name`] gives as the extension.
#[verifier::external_body]
pub(crate) fn extension_of(p: &str) -> (r: Option<String>)
    ensures
        r.deep_view() == spec_extension(p@),
{
    std::path::Path::new(p).extension().map(|n| n.to_string_lossy().to_string())
}

/// std `Path::parent`, converted to a `String`; its result is named
/// [`path_parent`].
#[verifier::external_body]
pub(crate) fn parent_of(p: &str) -> (r: Option<String>)
    ensures
        r.deep_view() == path_parent(p@),
{
    std::path::Path::new(p).parent().map(|n| n.to_string_lossy().to_string())
}

/// `o`, or `d` when `o` is none.
pub open spec fn or_default(o: Option<Seq<char>>, d: Seq<char>) -> Seq<char> {
    match o {
        Some(s) => s,
        None => d,
    }
}

/// The directory of an output: the source's parent, or `.` when the source
/// has none or an empty one (a bare file name lies in the current directory).
pub open spec fn output_dir(parent: Option<Seq<char>>) -> Seq<char> {
    match parent {
        Some(d) => if d.len() > 0 {
            d
        } else {
            "."@
        },
        None => "."@,
    }
}

/// The file name of an output: `{stem}_{video}_{resolution}.{ext}`, where a
/// missing stem is `output`, a missing extension `mkv`, and the video and
/// resolution parts are wire names.
pub open spec fn output_name(
    stem: Option<Seq<char>>,
    ext: Option<Seq<char>>,
    video: VideoCodec,
    resolution: ResolutionProfile,
) -> Seq<char> {
    or_default(stem, "output"@) + "_"@ + video.spec_tag() + "_"@ + resolution.spec_tag() + "."@
        + or_default(ext, "mkv"@)
}

/// The output path of an encode: `{dir}/{name}` (see [`output_dir`] and
/// [`output_name`]).
pub open spec fn spec_output_path(
    parent: Option<Seq<char>>,
    stem: Option<Seq<char>>,
    ext: Option<Seq<char>>,
    video: VideoCodec,
    resolution: ResolutionProfile,
) -> Seq<char> {
    output_dir(parent) + "/"@ + output_name(stem, ext, video, resolution)
}

fn append_or(out: &mut String, o: &Option<String>, d: &str)
    ensures
        final(out)@ == old(out)@ + or_default(o.deep_view(), d@),
{
    match o {
        Some(s) => out.append(s.as_str()),
        None => out.append(d),
    }
}

fn append_dir(out: &mut String, parent: &Option<String>)
    ensures
        final(out)@ == old(out)@ + output_dir(parent.deep_view()),
{
    match parent {
        Some(s) => {
            if s.as_str().is_empty() {
                out.append(".");
            } else {
                out.append(s.as_str());
            }
        },
        None => out.append("."),
    }
}

/// Assembles the output path from the parts of the input path.
pub fn compose_output_path(
    parent: &Option<String>,
    stem: &Option<String>,
    ext: &Option<String>,
    video: VideoCodec,
    resolution: ResolutionProfile,
) -> (r: String)
    ensures
        r@ == spec_output_path(parent.deep_view(), stem.deep_view(), ext.deep_view(), video, resolution),
{
    let mut out = String::new();
    append_dir(&mut out, parent);
    out.append("/");
    append_or(&mut out, stem, "output");
    out.append("_");
    out.append(video.tag());
    out.append("_");
    out.append(resolution.tag());
    out.append(".");
    append_or(&mut out, ext, "mkv");
    out
}

/// The output path for encoding the file at `input`: in its directory, named
/// after its stem with the video codec and resolution appended; never the
/// input path itself, so the encode cannot overwrite its source.
pub fn output_path_for(input: &str, video: VideoCodec, resolution: ResolutionProfile) -> (r: String)
    ensures
        r@ == spec_output_path(
            path_parent(input@),
            spec_file_stem(input@),
            spec_extension(input@),
            video,
            resolution,
        ),
        r@ != input@,
{
    let name = file_name_of(input);
    let stem = file_stem_of(input);
    let ext = extension_of(input);
    let parent = parent_of(input);
    let r = compose_output_path(&parent, &stem, &ext, video, resolution);
    proof {
        let x = output_name(spec_file_stem(input@), spec_extension(input@), video, resolution);
        let d = output_dir(path_parent(input@));
        lemma_output_name_differs(input@, video, resolution);
        if let Some(n) = path_file_name(input@) {
            lemma_split_no_slash(n);
        }
        lemma_output_name_plain(spec_file_stem(input@), spec_extension(input@), video, resolution);
        assert(r@ =~= d + "/"@ + x);
        if r@ == input@ {
            assert(name.deep_view() == Some(x));
        }
    }
    r
}

proof fn lemma_split_no_slash(n: Seq<char>)
    requires
        no_slash(n),
    ensures
        no_slash(split_file_name(n).0),
        split_file_name(n).1 matches Some(e) ==> no_slash(e),
{
    lemma_last_dot_in_range(n);
    if let Some(i) = last_dot(n) {
        if i > 0 {
            let h = n.take(i);
            assert forall|k: int| 0 <= k < h.len() implies h[k] != '/' by {
                assert(h[k] == n[k]);
            }
            let t = n.skip(i + 1);
            assert forall|k: int| 0 <= k < t.len() implies t[k] != '/' by {
                assert(t[k] == n[k + i + 1]);
            }
        }
    }
}

proof fn lemma_no_slash_concat(a: Seq<char>, b: Seq<char>)
    requires
        no_slash(a),
        no_slash(b),
    ensures
        no_slash(a + b),
{
    assert forall|k: int| 0 <= k < (a + b).len() implies (a + b)[k] != '/' by {
        if k < a.len() {
            assert((a + b)[k] == a[k]);
        } else {
            assert((a + b)[k] == b[k - a.len()]);
        }
    }
}

proof fn lemma_tags_no_slash(video: VideoCodec, resolution: ResolutionProfile)
    ensures
        no_slash(video.spec_tag()),
        no_slash(resolution.spec_tag()),
        video.spec_tag().len() > 0,
{
    reveal_strlit("h264");
    reveal_strlit("h265");
    reveal_strlit("av1");
    reveal_strlit("vp9");
    reveal_strlit("copy");
    reveal_strlit("4k");
    reveal_strlit("2k");
    reveal_strlit("1080p");
    reveal_strlit("720p");
    reveal_strlit("original");
}

proof fn lemma_output_name_plain(
    stem: Option<Seq<char>>,
    ext: Option<Seq<char>>,
    video: VideoCodec,
    resolution: ResolutionProfile,
)
    requires
        stem matches Some(s) ==> no_slash(s),
        ext matches Some(e) ==> no_slash(e),
    ensures
        is_plain_name(output_name(stem, ext, video, resolution)),
{
    reveal_strlit("output");
    reveal_strlit("mkv");
    reveal_strlit("_");
    reveal_strlit(".");
    reveal_strlit("..");
    lemma_tags_no_slash(video, resolution);
    let a = or_default(stem, "output"@);
    let e = or_default(ext, "mkv"@);
    lemma_no_slash_concat(a, "_"@);
    lemma_no_slash_concat(a + "_"@, video.spec_tag());
    lemma_no_slash_concat(a + "_"@ + video.spec_tag(), "_"@);
    lemma_no_slash_concat(a + "_"@ + video.spec_tag() + "_"@, resolution.spec_tag());
    lemma_no_slash_concat(a + "_"@ + video.spec_tag() + "_"@ + resolution.spec_tag(), "."@);
    lemma_no_slash_concat(a + "_"@ + video.spec_tag() + "_"@ + resolution.spec_tag() + "."@, e);
    let x = output_name(stem, ext, video, resolution);
    assert(x.len() > 2);
}

/// The name an encode gives its output is never the file name of its
/// source.
pub proof fn lemma_output_name_differs(input: Seq<char>, video: VideoCodec, resolution: ResolutionProfile)
    ensures
        Some(output_name(spec_file_stem(input), spec_extension(input), video, resolution)) != path_file_name(input),
{
    reveal_strlit("_");
    reveal_strlit(".");
    reveal_strlit("mkv");
    reveal_strlit("output");
    assert(video.spec_tag().len() > 0) by {
        reveal_strlit("h264");
        reveal_strlit("h265");
        reveal_strlit("av1");
        reveal_strlit("vp9");
        reveal_strlit("copy");
    }
    if let Some(n) = path_file_name(input) {
        let name = output_name(spec_file_stem(input), spec_extension(input), video, resolution);
        match last_dot(n) {
            Some(i) => {
                lemma_last_dot_in_range(n);
                if i > 0 {
                    assert(n.take(i).len() + 1 + n.skip(i + 1).len() == n.len());
                }
            },
            None => {},
        }
        assert(name.len() > n.len());
    }
}

proof fn lemma_last_dot_in_range(n: Seq<char>)
    ensures
        last_dot(n) matches Some(i) ==> 0 <= i < n.len(),
    decreases n.len(),
{
    if n.len() > 0 && n.last() != '.' {
        lemma_last_dot_in_range(n.drop_last());
    }
}

} // verus!
