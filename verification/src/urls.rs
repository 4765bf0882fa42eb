//! URL building through the `url` crate: path segments and query pairs are
//! percent-encoded by it, so an id, tag or token holding `&`, `?`, `#`, `/`
//! or a space cannot change the URL's shape.

use vstd::prelude::*;
use crate::source::local::{strip_slashes, strip_slashes_chars};
use crate::text::{chars_of, concat, join, string_of};

verus! {

broadcast use vstd::string::group_string_axioms;

/// What `url::Url::parse(base)` followed by appending `segments` as path
/// segments and `pairs` as query pairs serialises to; nothing when `base`
/// does not parse.
pub uninterp spec fn url_built(
    base: Seq<char>,
    segments: Seq<Seq<char>>,
    pairs: Seq<(Seq<char>, Seq<char>)>,
) -> Option<Seq<char>>;

/// What `form_urlencoded::Serializer` writes for `pairs`.
pub uninterp spec fn form_encoded(pairs: Seq<(Seq<char>, Seq<char>)>) -> Seq<char>;

pub open spec fn pairs_view(v: Seq<(String, String)>) -> Seq<(Seq<char>, Seq<char>)> {
    v.map_values(|p: (String, String)| (p.0@, p.1@))
}

/// Calls `url::Url::parse`, then `path_segments_mut().extend(..)` (skipped
/// when the URL cannot be a base, as the crate reports) and
/// `query_pairs_mut().extend_pairs(..)`, then `to_string()`. The contract
/// names the result as a function of the three arguments and says no more.
#[verifier::external_body]
fn url_with(base: &str, segments: &Vec<String>, pairs: &Vec<(String, String)>) -> (r: Option<String>)
    ensures
        opt_seq(r) == url_built(base@, crate::text::strings_view(segments@), pairs_view(pairs@)),
{
    let mut u = match url::Url::parse(base) {
        Ok(u) => u,
        Err(_) => return None,
    };
    if let Ok(mut seg) = u.path_segments_mut() {
        seg.extend(segments.iter().map(|s| s.as_str()));
    }
    u.query_pairs_mut().extend_pairs(pairs.iter().map(|(k, v)| (k.as_str(), v.as_str())));
    Some(u.to_string())
}

/// Calls `form_urlencoded::Serializer::new(String::new())`, `extend_pairs`
/// and `finish`; the result is named as a function of the pairs.
#[verifier::external_body]
fn form_with(pairs: &Vec<(String, String)>) -> (r: String)
    ensures
        r@ == form_encoded(pairs_view(pairs@)),
{
    let mut s = url::form_urlencoded::Serializer::new(String::new());
    s.extend_pairs(pairs.iter().map(|(k, v)| (k.as_str(), v.as_str())));
    s.finish()
}

pub open spec fn opt_seq(o: Option<String>) -> Option<Seq<char>> {
    match o {
        Some(s) => Some(s@),
        None => None,
    }
}

/// The URL for `segments` and `pairs` under `base`; when `base` does not
/// parse, a plain join that still carries the encoded query.
pub open spec fn built_url(
    base: Seq<char>,
    segments: Seq<Seq<char>>,
    pairs: Seq<(Seq<char>, Seq<char>)>,
) -> Seq<char> {
    match url_built(base, segments, pairs) {
        Some(u) => u,
        None => {
            let q = form_encoded(pairs);
            let b = strip_slashes(base) + "/"@ + join(segments, "/"@);
            if q.len() == 0 {
                b
            } else {
                b + "?"@ + q
            }
        },
    }
}

/// Build a URL from path segments and query pairs, percent-encoding both.
pub fn build_url(base: &str, segments: &Vec<String>, pairs: &Vec<(String, String)>) -> (r: String)
    ensures
        r@ == built_url(base@, crate::text::strings_view(segments@), pairs_view(pairs@)),
{
    match url_with(base, segments, pairs) {
        Some(u) => u,
        None => {
            let query = form_with(pairs);
            let trimmed = strip_slashes_chars(&chars_of(base));
            let head = concat(string_of(trimmed.as_slice()).as_str(), "/");
            let joined = join_strings(segments, "/");
            let b = concat(head.as_str(), joined.as_str());
            if query.as_str().is_empty() {
                b
            } else {
                let bq = concat(b.as_str(), "?");
                concat(bq.as_str(), query.as_str())
            }
        },
    }
}

/// The strings joined with `sep` between them.
pub fn join_strings(v: &Vec<String>, sep: &str) -> (r: String)
    ensures
        r@ == join(crate::text::strings_view(v@), sep@),
{
    let ghost sv = crate::text::strings_view(v@);
    let mut out = String::new();
    let mut i: usize = 0;
    while i < v.len()
        invariant
            i <= v.len(),
            sv == crate::text::strings_view(v@),
            out@ == join(sv.take(i as int), sep@),
        decreases v.len() - i,
    {
        let ghost t = sv.take(i + 1);
        assert(t.drop_last() =~= sv.take(i as int));
        assert(t.last() == v@[i as int]@);
        if i == 0 {
            out = v[0].clone();
            assert(t =~= seq![v@[0]@]);
        } else {
            let a = concat(out.as_str(), sep);
            out = concat(a.as_str(), v[i].as_str());
        }
        i += 1;
    }
    assert(sv.take(i as int) =~= sv);
    out
}

/// What `url::Url::parse(uri)` makes of a connection URI: its scheme, its
/// host (none for a URL without one), its port or the scheme's known default
/// port, and its serialisation with path, query and fragment cleared; nothing
/// when it does not parse.
pub uninterp spec fn url_connection(uri: Seq<char>) -> Option<
    (Seq<char>, Option<Seq<char>>, Option<u16>, Seq<char>),
>;

/// Calls `url::Url::parse`, then `scheme`, `host_str`,
/// `port_or_known_default`, and `set_path("")`, `set_query(None)`,
/// `set_fragment(None)` before `as_str`. The contract names the result as a
/// function of the URI and says no more.
#[verifier::external_body]
pub(crate) fn parse_connection(uri: &str) -> (r: Option<(String, Option<String>, Option<u16>, String)>)
    ensures
        match r {
            Some(t) => url_connection(uri@) == Some((t.0@, opt_seq(t.1), t.2, t.3@)),
            None => url_connection(uri@) is None,
        },
{
    let mut u = url::Url::parse(uri).ok()?;
    let parts = (u.scheme().to_string(), u.host_str().map(|h| h.to_string()), u.port_or_known_default());
    u.set_path("");
    u.set_query(None);
    u.set_fragment(None);
    Some((parts.0, parts.1, parts.2, u.as_str().to_string()))
}

/// What a provider part key names against a server base: `url::Url::parse`
/// of the base, then of the key or, when that fails, the key joined onto
/// the base; its path and its decoded query pairs; nothing when either
/// step fails.
pub uninterp spec fn part_key_target(base: Seq<char>, key: Seq<char>) -> Option<
    (Seq<char>, Seq<(Seq<char>, Seq<char>)>),
>;

/// What the base URL serialises to with its path set to `path`, query and
/// fragment cleared, and `pairs` appended as query pairs; nothing when the
/// base does not parse.
pub uninterp spec fn url_rerooted(
    base: Seq<char>,
    path: Seq<char>,
    pairs: Seq<(Seq<char>, Seq<char>)>,
) -> Option<Seq<char>>;

/// Calls `Url::parse(base)`, `Url::parse(key)` or else `Url::join(key)`,
/// then `path()` and `query_pairs()`; the result is named as a function of
/// the two arguments.
#[verifier::external_body]
pub(crate) fn resolve_part_key(base: &str, key: &str) -> (r: Option<(String, Vec<(String, String)>)>)
    ensures
        match r {
            Some(t) => part_key_target(base@, key@) == Some((t.0@, pairs_view(t.1@))),
            None => part_key_target(base@, key@) is None,
        },
{
    let base_url = url::Url::parse(base).ok()?;
    let supplied = url::Url::parse(key).or_else(|_| base_url.join(key)).ok()?;
    let pairs = supplied.query_pairs().map(|(k, v)| (k.into_owned(), v.into_owned())).collect();
    Some((supplied.path().to_string(), pairs))
}

/// Calls `Url::parse(base)`, `set_path`, `set_query(None)`,
/// `set_fragment(None)`, `query_pairs_mut().append_pair` for each pair and
/// the conversion into `String`; the result is named as a function of the
/// three arguments.
#[verifier::external_body]
pub(crate) fn reroot_url(base: &str, path: &str, pairs: &Vec<(String, String)>) -> (r: Option<String>)
    ensures
        opt_seq(r) == url_rerooted(base@, path@, pairs_view(pairs@)),
{
    let mut out = url::Url::parse(base).ok()?;
    out.set_path(path);
    out.set_query(None);
    out.set_fragment(None);
    out.query_pairs_mut().extend_pairs(pairs.iter().map(|(k, v)| (k.as_str(), v.as_str())));
    Some(out.into())
}

} // verus!
