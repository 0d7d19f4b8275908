//! Trusted declarations for the outside crates that the library calls.
//!
//! Each wrapper holds exactly one outside call; its contract states what the
//! called crate's source shows, mostly by naming the call's result with an
//! uninterpreted spec function. Everything else in the crate is verified
//! against these contracts.

use vstd::prelude::*;

verus! {

#[verifier::external_type_specification]
#[verifier::external_body]
pub struct ExUrl(url::Url);

/// Whether `url::Url::parse` accepts the string.
pub uninterp spec fn url_parse_ok(s: Seq<char>) -> bool;

/// The raw path segments of a parsed URL.
pub uninterp spec fn url_segments(u: url::Url) -> Seq<Seq<char>>;

/// Whether the parsed URL has path segments at all.
pub uninterp spec fn url_has_segments(u: url::Url) -> bool;

/// The decoded query key/value pairs of a parsed URL, in order.
pub uninterp spec fn url_pairs(u: url::Url) -> Seq<(Seq<char>, Seq<char>)>;

/// The raw path segments of the URL parsed from a string, when it has a
/// path at all.
pub uninterp spec fn url_segments_of(s: Seq<char>) -> Option<Seq<Seq<char>>>;

/// The decoded query key/value pairs of the URL parsed from a string.
pub uninterp spec fn url_pairs_of(s: Seq<char>) -> Seq<(Seq<char>, Seq<char>)>;

/// Relies on `url::Url::parse`: parsing is a pure function of the input
/// string, so success, the path segments and the query pairs of the
/// parsed value all depend on the string alone.
#[verifier::external_body]
pub(crate) fn url_parse(s: &str) -> (r: Option<url::Url>)
    ensures
        r is Some == url_parse_ok(s@),
        r matches Some(u) ==> {
            &&& url_has_segments(u) == (url_segments_of(s@) is Some)
            &&& (match url_segments_of(s@) {
                Some(segs) => url_segments(u) == segs,
                None => true,
            })
            &&& url_pairs(u) == url_pairs_of(s@)
        },
{
    match url::Url::parse(s) {
        Ok(u) => Some(u),
        Err(_) => None,
    }
}

/// Relies on `url::Url::path_segments`: for a URL with a path it yields the
/// `/`-separated raw (still percent-encoded) segments.
#[verifier::external_body]
pub(crate) fn url_path_segments(u: &url::Url) -> (r: Option<Vec<String>>)
    ensures
        r is Some == url_has_segments(*u),
        match r {
            Some(v) => v@.map_values(|x: String| x@) == url_segments(*u),
            None => true,
        },
{
    u.path_segments().map(|it| it.map(|s| s.to_string()).collect())
}

/// Relies on `url::Url::query_pairs`: it splits the query on `&` and `=` and
/// percent-decodes keys and values (`+` becoming a space).
#[verifier::external_body]
pub(crate) fn url_query_pairs(u: &url::Url) -> (r: Vec<(String, String)>)
    ensures
        r@.map_values(|p: (String, String)| (p.0@, p.1@)) == url_pairs(*u),
{
    u.query_pairs().map(|(k, v)| (k.to_string(), v.to_string())).collect()
}

/// The percent-decoding of a string, decoded as UTF-8 with lossy replacement.
pub uninterp spec fn percent_decoded(s: Seq<char>) -> Seq<char>;

/// Relies on `percent_encoding::percent_decode_str` and
/// `PercentDecode::decode_utf8_lossy`: every `%` followed by two hex digits
/// becomes the named byte and all other bytes pass through, so a string
/// without `%` decodes to itself.
#[verifier::external_body]
pub(crate) fn percent_decode(s: &str) -> (r: String)
    ensures
        r@ == percent_decoded(s@),
        (forall|i: int| 0 <= i < s@.len() ==> s@[i] != '%') ==> r@ == s@,
{
    percent_encoding::percent_decode_str(s).decode_utf8_lossy().to_string()
}

/// The snake_case form of a string.
pub uninterp spec fn snake_of(s: Seq<char>) -> Seq<char>;

/// Relies on `heck::ToSnakeCase::to_snake_case`: the conversion depends on
/// the characters of the input alone.
#[verifier::external_body]
pub(crate) fn to_snake(s: &str) -> (r: String)
    ensures
        r@ == snake_of(s@),
{
    heck::ToSnakeCase::to_snake_case(s)
}

/// The Unicode lowercase form of a string.
pub uninterp spec fn lower_of(s: Seq<char>) -> Seq<char>;

/// Relies on `str::to_lowercase`: the result depends on the characters of
/// the input alone.
#[verifier::external_body]
pub(crate) fn to_lower(s: &str) -> (r: String)
    ensures
        r@ == lower_of(s@),
{
    s.to_lowercase()
}

/// What `rust_decimal::Decimal::from_str` parses out of a string, as the
/// pair of the decimal's 96-bit integer mantissa and its scale.
pub uninterp spec fn decimal_of(s: Seq<char>) -> Option<(i128, u32)>;

/// Relies on `rust_decimal::Decimal::from_str`, `Decimal::mantissa` and
/// `Decimal::scale`: a decimal holds a 96-bit mantissa and a scale of at
/// most 28, and parsing depends on the input characters alone.
#[verifier::external_body]
pub(crate) fn parse_decimal(s: &str) -> (r: Option<(i128, u32)>)
    ensures
        r == decimal_of(s@),
        match r {
            Some(p) => -79228162514264337593543950336i128 < p.0
                < 79228162514264337593543950336i128 && p.1 <= 28,
            None => true,
        },
{
    match <rust_decimal::Decimal as core::str::FromStr>::from_str(s) {
        Ok(d) => Some((d.mantissa(), d.scale())),
        Err(_) => None,
    }
}

/// Relies on `String::push`: it appends one character.
#[verifier::external_body]
pub(crate) fn push_char(s: &mut String, c: char)
    ensures
        final(s)@ == old(s)@.push(c),
{
    s.push(c);
}

/// Build a `String` out of a character vector.
pub fn string_from_chars(v: &Vec<char>) -> (r: String)
    ensures
        r@ == v@,
{
    let mut r = String::new();
    let mut i: usize = 0;
    while i < v.len()
        invariant
            i <= v@.len(),
            r@ == v@.take(i as int),
        decreases v.len() - i,
    {
        push_char(&mut r, v[i]);
        proof {
            assert(r@ =~= v@.take(i + 1 as int));
        }
        i += 1;
    }
    proof {
        assert(v@.take(v@.len() as int) =~= v@);
    }
    r
}

} // verus!
