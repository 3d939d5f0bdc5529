//! Fresh identifiers (uuid) and timestamps (chrono).

use vstd::prelude::*;

verus! {

/// Whether `c` is a lower-case hexadecimal digit.
pub open spec fn is_lower_hex(c: char) -> bool {
    ('0' <= c && c <= '9') || ('a' <= c && c <= 'f')
}

/// The text of a random (version 4) UUID in uuid's hyphenated lower-case
/// form: 36 characters, hyphens at 8, 13, 18 and 23, hex digits elsewhere,
/// the version digit `4` at 14 and a variant digit among `8`, `9`, `a`, `b`
/// at 19.
pub open spec fn is_uuid_v4_text(s: Seq<char>) -> bool {
    &&& s.len() == 36
    &&& forall|k: int| 0 <= k < 36 ==> if k == 8 || k == 13 || k == 18 || k == 23 {
        #[trigger] s[k] == '-'
    } else {
        is_lower_hex(s[k])
    }
    &&& s[14] == '4'
    &&& (s[19] == '8' || s[19] == '9' || s[19] == 'a' || s[19] == 'b')
}

/// The text uuid gives (its `Display`: hyphenated, lower case) of the
/// random UUID that `Builder::from_random_bytes` makes of `bytes`.
pub uninterp spec fn uuid_text(bytes: Seq<u8>) -> Seq<char>;

/// Sixteen bytes from the operating system's random source
/// (`getrandom::fill`), or none when that source fails. Nothing is stated of
/// the bytes: they are random.
#[verifier::external_body]
fn random_bytes() -> (r: Option<[u8; 16]>)
{
    let mut b = [0u8; 16];
    match getrandom::fill(&mut b) {
        Ok(()) => Some(b),
        Err(_) => None,
    }
}

/// `uuid::Builder::from_random_bytes(bytes).into_uuid()`, formatted by its
/// `Display`. The result is named [`uuid_text`]; beside the name stands the
/// shape that uuid's source gives it: `with_version` puts `4` in the high
/// nibble of byte 6 and `with_variant(RFC4122)` the bits `10` atop byte 8,
/// and the hyphenated format writes two lower-case hex digits a byte.
#[verifier::external_body]
fn uuid_from_bytes(bytes: [u8; 16]) -> (r: String)
    ensures
        r@ == uuid_text(bytes@),
        is_uuid_v4_text(r@),
{
    uuid::Builder::from_random_bytes(bytes).into_uuid().to_string()
}

/// A fresh random identifier in uuid's text form, or none when the
/// operating system cannot supply random bytes.
pub fn new_id() -> (r: Option<String>)
    ensures
        r matches Some(s) ==> is_uuid_v4_text(s@) && exists|b: Seq<u8>| b.len() == 16 && s@ == uuid_text(b),
{
    match random_bytes() {
        Some(b) => {
            let s = uuid_from_bytes(b);
            assert(b@.len() == 16);
            Some(s)
        },
        None => None,
    }
}

/// The RFC 3339 text that chrono gives (`DateTime::to_rfc3339`) of the UTC
/// instant `secs` seconds and `nanos` nanoseconds after the Unix epoch, or
/// none where `DateTime::from_timestamp` has no such instant.
pub uninterp spec fn rfc3339_text(secs: i64, nanos: u32) -> Option<Seq<char>>;

/// The time elapsed since the Unix epoch by the system clock
/// (`SystemTime::now().duration_since(UNIX_EPOCH)`), as whole seconds and
/// the nanoseconds beyond them; none when the clock is before the epoch.
/// Which instant is left open: it depends on the clock. `Duration`'s
/// documentation bounds the nanoseconds below one second.
#[verifier::external_body]
fn unix_time() -> (r: Option<(u64, u32)>)
    ensures
        r matches Some((_, n)) ==> n < 1_000_000_000,
{
    match std::time::SystemTime::now().duration_since(std::time::UNIX_EPOCH) {
        Ok(d) => Some((d.as_secs(), d.subsec_nanos())),
        Err(_) => None,
    }
}

/// `chrono::DateTime::from_timestamp(secs, nanos)`, formatted by
/// `to_rfc3339`; the result is named [`rfc3339_text`].
#[verifier::external_body]
fn rfc3339_of(secs: i64, nanos: u32) -> (r: Option<String>)
    ensures
        r.deep_view() == rfc3339_text(secs, nanos),
{
    match chrono::DateTime::from_timestamp(secs, nanos) {
        Some(d) => Some(d.to_rfc3339()),
        None => None,
    }
}

/// The RFC 3339 text of the UTC instant `secs` seconds and `nanos`
/// nanoseconds after the Unix epoch; none when `secs` exceeds `i64::MAX` or
/// chrono has no such instant.
pub fn rfc3339_from_unix(secs: u64, nanos: u32) -> (r: Option<String>)
    ensures
        r.deep_view() == (if secs <= i64::MAX {
            rfc3339_text(secs as i64, nanos)
        } else {
            None
        }),
{
    if secs > i64::MAX as u64 {
        return None;
    }
    rfc3339_of(secs as i64, nanos)
}

/// The current time in RFC 3339 text (UTC): the reading of the system clock
/// (see [`unix_time`]) passed through [`rfc3339_from_unix`]; none when the
/// clock is before the Unix epoch or beyond what chrono represents.
pub fn now_rfc3339() -> (r: Option<String>)
    ensures
        r matches Some(s) ==> exists|secs: i64, nanos: u32| nanos < 1_000_000_000 && rfc3339_text(secs, nanos) == Some(s@),
{
    match unix_time() {
        Some((secs, nanos)) => {
            let r = rfc3339_from_unix(secs, nanos);
            assert(r.deep_view() == (if secs <= i64::MAX { rfc3339_text(secs as i64, nanos) } else { None }));
            r
        },
        None => None,
    }
}

} // verus!
