//! The native SMB provider's path namespace: share-relative paths with a
//! leading slash, never escaping the share, and the stable artwork URLs
//! (`velasmb://<mount-id>/<base64url path>`) that name sidecar images.

use vstd::prelude::*;
use base64::Engine;
use crate::config::SmbMount;
use crate::source::local::{extension, file_name};
use crate::text::{
    chars_of, concat, join, lower, lower_chars, opt_view, pieces, split_pieces, starts_with,
    str_eq, string_of, strip_char, strip_char_chars,
};

verus! {

broadcast use vstd::string::group_string_axioms;

/// The webview scheme serving SMB sidecar artwork.
pub const ARTWORK_SCHEME: &'static str = "velasmb";

/// Byte cap for a served artwork file.
pub const ARTWORK_CAP: u64 = 10_485_760;

/// What URL-safe, unpadded base64 (`base64`'s `URL_SAFE_NO_PAD` engine)
/// encodes bytes to.
pub uninterp spec fn url_safe_b64(bytes: Seq<u8>) -> Seq<char>;

/// What that engine decodes text to, when it is valid base64.
pub uninterp spec fn url_safe_b64_decoded(text: Seq<char>) -> Option<Seq<u8>>;

/// A character of the URL-safe alphabet (`A`-`Z`, `a`-`z`, `0`-`9`, `-`,
/// `_`).
pub open spec fn url_safe_char(c: char) -> bool {
    crate::text::is_ascii_alnum(c) || c == '-' || c == '_'
}

/// `URL_SAFE_NO_PAD.encode(bytes)`: the encoding is named; it is written in
/// the URL-safe alphabet without padding, is non-empty for non-empty
/// input, and the same engine decodes it back to the bytes.
#[verifier::external_body]
fn b64_encode(bytes: &[u8]) -> (r: String)
    ensures
        r@ == url_safe_b64(bytes@),
        forall|i: int| 0 <= i < r@.len() ==> url_safe_char(#[trigger] r@[i]),
        bytes@.len() > 0 ==> r@.len() > 0,
        url_safe_b64_decoded(r@) == Some(bytes@),
{
    base64::engine::general_purpose::URL_SAFE_NO_PAD.encode(bytes)
}

/// `URL_SAFE_NO_PAD.decode(text)`, `None` on a decode error; the result is
/// named as a function of the text.
#[verifier::external_body]
fn b64_decode(text: &str) -> (r: Option<Vec<u8>>)
    ensures
        r matches Some(v) ==> url_safe_b64_decoded(text@) == Some(v@),
        r is None ==> url_safe_b64_decoded(text@) is None,
{
    base64::engine::general_purpose::URL_SAFE_NO_PAD.decode(text).ok()
}

/// `String::from_utf8`: the string whose UTF-8 encoding the bytes are, if
/// they are valid UTF-8.
#[verifier::external_body]
pub(crate) fn utf8_string(bytes: Vec<u8>) -> (r: Option<String>)
    ensures
        r matches Some(s) ==> vstd::utf8::encode_utf8(s@) == bytes@,
        r is None ==> !(exists|x: Seq<char>| vstd::utf8::encode_utf8(x) == bytes@),
{
    String::from_utf8(bytes).ok()
}

/// A path in the share's namespace: rooted, no `..`, empty and `.`
/// components dropped, written `/a/b`.
pub open spec fn normalized(p: Seq<char>) -> Option<Seq<char>> {
    let parts = pieces(p, '/');
    if !starts_with(p, "/"@) || parts.contains(".."@) {
        None
    } else {
        Some("/"@ + join(parts.filter(|x: Seq<char>| x != "."@), "/"@))
    }
}

/// Normalize a provider path, refusing escapes and unrooted paths.
pub fn normalize(p: &str) -> (r: Option<String>)
    ensures
        opt_view(r) == normalized(p@),
{
    let parts = split_pieces(&chars_of(p), '/');
    let ghost pv = parts@.map_values(|w: Vec<char>| w@);
    if !crate::text::starts_with_str(p, "/") {
        return None;
    }
    let ghost keep = |x: Seq<char>| x != "."@;
    let mut kept: Vec<String> = Vec::new();
    let mut i: usize = 0;
    while i < parts.len()
        invariant
            i <= parts.len(),
            pv == parts@.map_values(|w: Vec<char>| w@),
            pv == pieces(p@, '/'),
            keep == (|x: Seq<char>| x != "."@),
            forall|k: int| 0 <= k < i ==> pv[k] != ".."@,
            crate::text::strings_view(kept@) == pv.take(i as int).filter(keep),
        decreases parts.len() - i,
    {
        proof {
            crate::seqs::lemma_filter_take_step(pv, keep, i as int);
        }
        let s = string_of(parts[i].as_slice());
        assert(s@ == pv[i as int]);
        if str_eq(s.as_str(), "..") {
            assert(pv.contains(".."@));
            return None;
        }
        if !str_eq(s.as_str(), ".") {
            let ghost before = crate::text::strings_view(kept@);
            kept.push(s);
            assert(crate::text::strings_view(kept@) =~= before.push(pv[i as int]));
        }
        i += 1;
    }
    assert(pv.take(i as int) =~= pv);
    assert(!pv.contains(".."@)) by {
        if pv.contains(".."@) {
            let k = choose|k: int| 0 <= k < pv.len() && pv[k] == ".."@;
        }
    }
    let joined = crate::urls::join_strings(&kept, "/");
    Some(concat("/", joined.as_str()))
}

/// The MIME type of a whitelisted artwork extension.
pub open spec fn artwork_type(p: Seq<char>) -> Option<Seq<char>> {
    match extension(file_name(p)) {
        Some(e) => {
            let l = lower(e);
            if l == "jpg"@ || l == "jpeg"@ {
                Some("image/jpeg"@)
            } else if l == "png"@ {
                Some("image/png"@)
            } else if l == "webp"@ {
                Some("image/webp"@)
            } else {
                None
            }
        },
        None => None,
    }
}

/// The MIME type of a whitelisted artwork path; `None` refuses to serve it.
pub fn artwork_mime(p: &str) -> (r: Option<&'static str>)
    ensures
        match artwork_type(p@) {
            Some(t) => r matches Some(m) && m@ == t,
            None => r is None,
        },
{
    let name = crate::source::local::dir_name(p);
    let v = chars_of(name.as_str());
    match crate::source::local::last_index_of(&v, '.') {
        Some(i) => if i > 0 {
            let e = crate::text::slice_chars(&v, i + 1, v.len());
            assert(e@ =~= v@.skip(i + 1));
            let l = string_of(lower_chars(&e).as_slice());
            let s = l.as_str();
            if str_eq(s, "jpg") || str_eq(s, "jpeg") {
                Some("image/jpeg")
            } else if str_eq(s, "png") {
                Some("image/png")
            } else if str_eq(s, "webp") {
                Some("image/webp")
            } else {
                None
            }
        } else {
            None
        },
        None => None,
    }
}

/// The stable artwork URL of a provider path on a mount.
pub open spec fn artwork_url_of(mount_id: Seq<char>, p: Seq<char>) -> Option<Seq<char>> {
    match normalized(p) {
        Some(n) => Some(
            "velasmb://"@ + mount_id + "/"@ + url_safe_b64(vstd::utf8::encode_utf8(n)),
        ),
        None => None,
    }
}

/// A normalized path is its own normal form.
pub proof fn lemma_normalized_fixed(p: Seq<char>)
    requires
        normalized(p) is Some,
    ensures
        normalized(normalized(p)->0) == normalized(p),
{
    reveal_strlit("/");
    let parts = pieces(p, '/');
    let keep = |x: Seq<char>| x != "."@;
    let kept = parts.filter(keep);
    let n = "/"@ + join(kept, "/"@);
    assert("/"@ =~= seq!['/']);
    crate::text::lemma_pieces_props(p, '/');
    assert forall|i: int| 0 <= i < kept.len() implies (#[trigger] kept[i]).len() > 0 && !kept[i].contains(
        '/',
    ) && kept[i] != "."@ && kept[i] != ".."@ by {
        parts.lemma_filter_pred(keep, i);
        assert(kept.contains(kept[i]));
        parts.lemma_filter_contains_rev(keep, kept[i]);
        let j = choose|j: int| 0 <= j < parts.len() && parts[j] == kept[i];
        assert(parts[j] == kept[i]);
    }
    crate::text::lemma_pieces_join(kept, '/');
    crate::text::lemma_pieces_split(Seq::empty(), join(kept, seq!['/']), '/');
    assert(Seq::<char>::empty() + seq!['/'] + join(kept, seq!['/']) =~= n);
    assert(pieces(Seq::<char>::empty(), '/') =~= Seq::<Seq<char>>::empty());
    assert(pieces(n, '/') =~= kept);
    assert(n.take(1) =~= "/"@);
    assert(!kept.contains(".."@)) by {
        if kept.contains(".."@) {
            let k = choose|k: int| 0 <= k < kept.len() && kept[k] == ".."@;
        }
    }
    crate::seqs::lemma_filter_all(kept, keep);
}

/// The URL-safe encoding of a normalized image path, under a named mount,
/// parses back to that mount and path.
proof fn lemma_artwork_round_trip(mount_id: Seq<char>, p: Seq<char>, encoded: Seq<char>)
    requires
        normalized(p) is Some,
        mount_id.len() > 0,
        artwork_type(normalized(p)->0) is Some,
        encoded == url_safe_b64(vstd::utf8::encode_utf8(normalized(p)->0)),
        forall|i: int| 0 <= i < encoded.len() ==> url_safe_char(#[trigger] encoded[i]),
        vstd::utf8::encode_utf8(normalized(p)->0).len() > 0 ==> encoded.len() > 0,
        url_safe_b64_decoded(encoded) == Some(vstd::utf8::encode_utf8(normalized(p)->0)),
    ensures
        artwork_target(mount_id, encoded) == Some((mount_id, normalized(p)->0)),
{
    let n = normalized(p)->0;
    reveal_strlit("/");
    assert(n.len() > 0);
    assert(vstd::utf8::encode_utf8(n).len() > 0) by {
        if vstd::utf8::encode_utf8(n).len() == 0 {
            vstd::utf8::encode_utf8_decode_utf8(n);
            assert(vstd::utf8::encode_utf8(n) =~= Seq::<u8>::empty());
            assert(vstd::utf8::decode_utf8(Seq::<u8>::empty()) =~= Seq::<char>::empty());
        }
    }
    assert(!encoded.contains('/')) by {
        if encoded.contains('/') {
            let k = choose|k: int| 0 <= k < encoded.len() && encoded[k] == '/';
            assert(url_safe_char(encoded[k]));
        }
    }
    assert(encoded.len() > 0 && encoded[0] != '/' && encoded.last() != '/') by {
        assert(url_safe_char(encoded[0]));
        assert(url_safe_char(encoded[encoded.len() - 1]));
    }
    assert(crate::text::strip_char(encoded, '/') == encoded);
    let bytes = vstd::utf8::encode_utf8(n);
    assert(exists|x: Seq<char>| vstd::utf8::encode_utf8(x) == bytes);
    let x = choose|x: Seq<char>| vstd::utf8::encode_utf8(x) == bytes;
    vstd::utf8::encode_utf8_decode_utf8(x);
    vstd::utf8::encode_utf8_decode_utf8(n);
    assert(x == n);
    lemma_normalized_fixed(p);
}

/// Stable artwork URL for a provider path on a mount.
pub fn artwork_url(mount_id: &str, provider_path: &str) -> (r: Option<String>)
    ensures
        opt_view(r) == artwork_url_of(mount_id@, provider_path@),
        r is Some && mount_id@.len() > 0 && artwork_type(normalized(provider_path@)->0)
            is Some ==> artwork_target(
            mount_id@,
            url_safe_b64(vstd::utf8::encode_utf8(normalized(provider_path@)->0)),
        ) == Some((mount_id@, normalized(provider_path@)->0)),
{
    let norm = match normalize(provider_path) {
        Some(n) => n,
        None => return None,
    };
    let encoded = b64_encode(norm.as_str().as_bytes());
    proof {
        if mount_id@.len() > 0 && artwork_type(norm@) is Some {
            lemma_artwork_round_trip(mount_id@, provider_path@, encoded@);
        }
    }
    let a = concat("velasmb://", mount_id);
    let b = concat(a.as_str(), "/");
    Some(concat(b.as_str(), encoded.as_str()))
}

/// What an artwork URL's host and path name: the mount id and the
/// normalized provider path, when the path is one base64 segment decoding
/// to a whitelisted image inside the share.
pub open spec fn artwork_target(host: Seq<char>, path: Seq<char>) -> Option<(Seq<char>, Seq<char>)> {
    let encoded = strip_char(path, '/');
    if host.len() == 0 || encoded.len() == 0 || encoded.contains('/') {
        None
    } else {
        match url_safe_b64_decoded(encoded) {
            Some(bytes) => if exists|x: Seq<char>| vstd::utf8::encode_utf8(x) == bytes {
                let decoded = choose|x: Seq<char>| vstd::utf8::encode_utf8(x) == bytes;
                match normalized(decoded) {
                    Some(n) => if artwork_type(n) is Some {
                        Some((host, n))
                    } else {
                        None
                    },
                    None => None,
                }
            } else {
                None
            },
            None => None,
        }
    }
}

/// Parse an artwork URL's host and path back into (mount id, normalized
/// provider path).
pub fn parse_artwork_url(host: &str, path: &str) -> (r: Option<(String, String)>)
    ensures
        match artwork_target(host@, path@) {
            Some((h, n)) => r matches Some(p) && p.0@ == h && p.1@ == n,
            None => r is None,
        },
{
    if host.is_empty() {
        return None;
    }
    let enc = strip_char_chars(&chars_of(path), '/');
    if enc.len() == 0 || crate::text::find_char(&enc, '/').is_some() {
        return None;
    }
    let encoded = string_of(enc.as_slice());
    let bytes = match b64_decode(encoded.as_str()) {
        Some(b) => b,
        None => return None,
    };
    let ghost bv = bytes@;
    let decoded = match utf8_string(bytes) {
        Some(s) => s,
        None => {
            assert(!exists|x: Seq<char>| vstd::utf8::encode_utf8(x) == bv);
            return None;
        },
    };
    proof {
        let x = choose|x: Seq<char>| vstd::utf8::encode_utf8(x) == bv;
        assert(vstd::utf8::encode_utf8(decoded@) == bv);
        vstd::utf8::encode_utf8_decode_utf8(x);
        vstd::utf8::encode_utf8_decode_utf8(decoded@);
    }
    let norm = match normalize(decoded.as_str()) {
        Some(n) => n,
        None => return None,
    };
    if artwork_mime(norm.as_str()).is_none() {
        return None;
    }
    Some((host.to_string(), norm))
}

/// A provider path as a share-relative path (`/movies` is `movies`).
pub fn relative(p: &str) -> (r: Option<String>)
    ensures
        opt_view(r) == match normalized(p@) {
            Some(n) => Some(crate::text::trim_start_char(n, '/')),
            None => None,
        },
{
    match normalize(p) {
        Some(n) => Some(crate::text::trim_start_char_string(n.as_str(), '/')),
        None => None,
    }
}

/// What serving an artwork request needs: the mount that owns it, the
/// share-relative path to read and the MIME type; or the HTTP status that
/// refuses it (404 for anything malformed or unknown).
pub fn serve_artwork(host: &str, path: &str, mounts: &Vec<SmbMount>) -> (r: Result<
    (SmbMount, String, &'static str),
    u16,
>)
    ensures
        artwork_target(host@, path@) is None ==> r == Err::<(SmbMount, String, &'static str), u16>(
            404,
        ),
        r matches Ok((m, rel, mime)) ==> artwork_target(host@, path@) matches Some((h, n)) && m.id@
            == h && mounts@.contains(m) && rel@ == crate::text::trim_start_char(n, '/')
            && artwork_type(n) == Some(mime@),
        r matches Err(code) ==> code == 404,
{
    let (mount_id, norm) = match parse_artwork_url(host, path) {
        Some(t) => t,
        None => return Err(404),
    };
    let mime = match artwork_mime(norm.as_str()) {
        Some(m) => m,
        None => return Err(404),
    };
    let mut i: usize = 0;
    while i < mounts.len()
        invariant
            i <= mounts.len(),
            artwork_target(host@, path@) == Some((mount_id@, norm@)),
            artwork_type(norm@) == Some(mime@),
        decreases mounts.len() - i,
    {
        if str_eq(mounts[i].id.as_str(), mount_id.as_str()) {
            let rel = crate::text::trim_start_char_string(norm.as_str(), '/');
            let m = SmbMount {
                id: mounts[i].id.clone(),
                name: mounts[i].name.clone(),
                server: mounts[i].server.clone(),
                share: mounts[i].share.clone(),
                username: mounts[i].username.clone(),
                password: mounts[i].password.clone(),
                domain: mounts[i].domain.clone(),
                mountpoint: mounts[i].mountpoint.clone(),
            };
            assert(m == mounts@[i as int]);
            assert(mounts@.contains(m));
            return Ok((m, rel, mime));
        }
        i += 1;
    }
    Err(404)
}

} // verus!
