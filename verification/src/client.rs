//! The client's side of the API: the server's base URL and endpoint URLs.

use vstd::prelude::*;

verus! {

/// `s` without its trailing `/` characters.
pub open spec fn trim_trailing_slashes(s: Seq<char>) -> Seq<char>
    decreases s.len(),
{
    if s.len() > 0 && s.last() == '/' {
        trim_trailing_slashes(s.drop_last())
    } else {
        s
    }
}

/// The base URL the client keeps: the given one without trailing slashes (as
/// `str::trim_end_matches('/')`).
pub fn normalize_base_url(base: &str) -> (r: String)
    ensures
        r@ == trim_trailing_slashes(base@),
{
    let v = crate::text::chars_of(base);
    let mut end: usize = v.len();
    assert(v@.take(end as int) =~= v@);
    while end > 0 && v[end - 1] == '/'
        invariant
            end <= v.len(),
            trim_trailing_slashes(v@.take(end as int)) == trim_trailing_slashes(v@),
        decreases end,
    {
        assert(v@.take(end as int).drop_last() =~= v@.take(end - 1));
        end = end - 1;
    }
    let mut kept: Vec<char> = Vec::new();
    let mut i: usize = 0;
    while i < end
        invariant
            end <= v.len(),
            i <= end,
            kept@ == v@.take(i as int),
        decreases end - i,
    {
        kept.push(v[i]);
        assert(kept@ =~= v@.take(i + 1));
        i = i + 1;
    }
    crate::text::string_from_chars(&kept)
}

/// The URL of the API route `route` (such as `/api/files`) on `base`.
pub fn endpoint(base: &str, route: &str) -> (r: String)
    ensures
        r@ == base@ + route@,
{
    let mut u = base.to_string();
    u.append(route);
    u
}

} // verus!
