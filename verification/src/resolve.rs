use crate::text::{match_at, matches_at, replace_all, spec_replace_all};
use crate::CoreError;
use vstd::prelude::*;

verus! {

/// Whether a locator percent-decodes at all: the decoded bytes form valid
/// text. A function of the input alone.
pub uninterp spec fn percent_decodable(s: Seq<char>) -> bool;

/// What percent-decoding yields on a decodable locator: a function of the
/// input alone.
pub uninterp spec fn percent_decoded(s: Seq<char>) -> Seq<char>;

/// Relies on urlencoding::decode: percent-decodes the whole string,
/// succeeding exactly when the decoded bytes are valid UTF-8; both the
/// outcome and the decoded text depend on the input alone.
#[verifier::external_body]
fn percent_decode(s: &str) -> (r: Result<String, CoreError>)
    ensures
        (r is Ok) <==> percent_decodable(s@),
        r matches Ok(d) ==> d@ == percent_decoded(s@),
        r matches Err(e) ==> e == CoreError::DecodeError,
{
    match urlencoding::decode(s) {
        Ok(d) => Ok(d.into_owned()),
        Err(_) => Err(CoreError::DecodeError),
    }
}

/// `s` with a single leading occurrence of `p` removed, if one is there.
pub open spec fn spec_strip_prefix(s: Seq<char>, p: Seq<char>) -> Seq<char> {
    if match_at(s, p, 0) {
        s.skip(p.len() as int)
    } else {
        s
    }
}

/// The native path a decoded locator denotes: the local-asset prefix
/// stripped if present, then every escaped-backslash sequence turned into a
/// literal backslash.
pub open spec fn spec_resolve_decoded(d: Seq<char>) -> Seq<char> {
    spec_replace_all(spec_strip_prefix(d, "http://asset.localhost/"@), "%5C"@, "\\"@)
}

/// Normalizes an already percent-decoded locator into a native path.
pub fn resolve_decoded(d: &str) -> (r: String)
    ensures
        r@ == spec_resolve_decoded(d@),
{
    proof {
        reveal_strlit("http://asset.localhost/");
        reveal_strlit("%5C");
        reveal_strlit("\\");
    }
    let n = d.unicode_len();
    let marker = "http://asset.localhost/";
    let stripped: &str = if matches_at(d, 0, marker) {
        d.substring_char(marker.unicode_len(), n)
    } else {
        d
    };
    proof {
        assert(stripped@ =~= spec_strip_prefix(d@, marker@));
    }
    replace_all(stripped, "%5C", "\\")
}

/// Resolves an opaque resource locator into a native filesystem path:
/// percent-decodes it, strips the synthetic local-asset scheme, and restores
/// native path separators smuggled through the encoding. Succeeds exactly
/// when the locator percent-decodes; an invalidly encoded one is rejected.
pub fn convert_tauri_url_to_path(url: &str) -> (r: Result<String, CoreError>)
    ensures
        (r is Ok) <==> percent_decodable(url@),
        r matches Ok(p) ==> p@ == spec_resolve_decoded(percent_decoded(url@)),
        r matches Err(e) ==> e == CoreError::DecodeError,
{
    match percent_decode(url) {
        Ok(d) => Ok(resolve_decoded(d.as_str())),
        Err(e) => Err(e),
    }
}

} // verus!
