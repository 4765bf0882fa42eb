//! Keyless metadata for the local source: what a `.nfo`/artwork sidecar
//! says, how cached or sidecar metadata is laid over a parsed item, and when
//! an online lookup is still worth starting. Reading files and the network
//! are the caller's business.

use vstd::prelude::*;
use crate::source::{ItemDto, ItemView};
use crate::text::{
    chars_of, concat, ends_with, find, find_chars, opt_view, parse_u32, parse_u32_chars,
    slice_chars, starts_with, str_eq, string_of, trim, trim_chars,
};

verus! {

broadcast use vstd::string::group_string_axioms;

/// Cap on cached metadata entries.
pub const MAX_ENTRIES: usize = 20_000;

/// Metadata resolved for one file or folder.
#[derive(Debug, Clone, Default)]
pub struct CachedMeta {
    pub title: Option<String>,
    pub year: Option<u32>,
    pub summary: Option<String>,
    /// An `https` URL (online) or a local file path (sidecar art).
    pub poster: Option<String>,
}

impl CachedMeta {
    /// Nothing was found.
    pub fn is_empty(&self) -> (r: bool)
        ensures
            r == (self.title is None && self.year is None && self.summary is None
                && self.poster is None),
    {
        self.title.is_none() && self.year.is_none() && self.summary.is_none()
            && self.poster.is_none()
    }
}

/// Context the resolver needs about an item to query the right source.
#[derive(Debug, Clone)]
pub struct Hint {
    pub file: String,
    /// "movie", "show", "season" or "episode".
    pub media_type: String,
    pub title: String,
    pub year: Option<u32>,
    pub show_title: Option<String>,
    pub season: Option<u32>,
    pub episode: Option<u32>,
}

/// The item with the metadata laid over it: a non-empty title, and any year,
/// summary or poster, replace what the filename gave.
pub open spec fn applied(item: ItemView, meta: CachedMeta) -> ItemView {
    ItemView {
        title: match meta.title {
            Some(t) => if t@.len() > 0 {
                t@
            } else {
                item.title
            },
            None => item.title,
        },
        year: if meta.year is Some {
            meta.year
        } else {
            item.year
        },
        summary: if meta.summary is Some {
            opt_view(meta.summary)
        } else {
            item.summary
        },
        poster: if meta.poster is Some {
            opt_view(meta.poster)
        } else {
            item.poster
        },
        ..item
    }
}

/// Lay metadata over an item.
pub fn apply(item: &mut ItemDto, meta: &CachedMeta)
    ensures
        final(item)@ == applied(old(item)@, *meta),
{
    match &meta.title {
        Some(t) => {
            if !t.as_str().is_empty() {
                item.title = t.clone();
            }
        },
        None => {},
    }
    if meta.year.is_some() {
        item.year = meta.year;
    }
    if meta.summary.is_some() {
        item.summary = crate::source::copy_opt(&meta.summary);
    }
    if meta.poster.is_some() {
        item.poster = crate::source::copy_opt(&meta.poster);
    }
}

/// What to do after the synchronous part of enrichment.
#[derive(Debug, Clone, Copy, PartialEq, Eq, Structural)]
pub enum EnrichNext {
    /// The item is as good as it gets now.
    Done,
    /// Start a background online lookup for it.
    LookUpOnline,
}

/// Enrichment: a sidecar with title, year or summary is authoritative;
/// otherwise cached metadata applies (local artwork still preferred), and
/// with nothing cached an online lookup starts, except for seasons.
pub open spec fn enriched(
    item: ItemView,
    sidecar: Option<CachedMeta>,
    cached: Option<CachedMeta>,
    media_type: Seq<char>,
) -> (ItemView, EnrichNext) {
    let (after_side, authoritative, local_poster) = match sidecar {
        Some(m) => (
            applied(item, m),
            m.title is Some || m.year is Some || m.summary is Some,
            m.poster,
        ),
        None => (item, false, None),
    };
    if authoritative {
        (after_side, EnrichNext::Done)
    } else {
        match cached {
            Some(c) => {
                let a = applied(after_side, c);
                (
                    if local_poster is Some {
                        ItemView { poster: opt_view(local_poster), ..a }
                    } else {
                        a
                    },
                    EnrichNext::Done,
                )
            },
            None => (
                after_side,
                if media_type == "season"@ {
                    EnrichNext::Done
                } else {
                    EnrichNext::LookUpOnline
                },
            ),
        }
    }
}

/// Fill an item's metadata from its sidecar or the cache; says whether an
/// online lookup should start.
pub fn enrich(
    item: &mut ItemDto,
    sidecar: Option<CachedMeta>,
    cached: Option<CachedMeta>,
    media_type: &str,
) -> (r: EnrichNext)
    ensures
        final(item)@ == enriched(old(item)@, sidecar, cached, media_type@).0,
        r == enriched(old(item)@, sidecar, cached, media_type@).1,
{
    let mut local_poster: Option<String> = None;
    match &sidecar {
        Some(meta) => {
            apply(item, meta);
            if meta.title.is_some() || meta.year.is_some() || meta.summary.is_some() {
                return EnrichNext::Done;
            }
            local_poster = crate::source::copy_opt(&meta.poster);
        },
        None => {},
    }
    match &cached {
        Some(meta) => {
            apply(item, meta);
            if local_poster.is_some() {
                item.poster = local_poster;
            }
            EnrichNext::Done
        },
        None => {
            if str_eq(media_type, "season") {
                EnrichNext::Done
            } else {
                EnrichNext::LookUpOnline
            }
        },
    }
}

// ---- sidecars -------------------------------------------------------------------

/// `PathBuf::join` of a relative name onto a `/`-separated directory.
pub open spec fn joined(dir: Seq<char>, name: Seq<char>) -> Seq<char> {
    if dir.len() == 0 || dir.last() == '/' {
        dir + name
    } else {
        dir + seq!['/'] + name
    }
}

/// `dir.join(name)`.
pub fn join_path(dir: &str, name: &str) -> (r: String)
    ensures
        r@ == joined(dir@, name@),
{
    let d = chars_of(dir);
    if d.len() == 0 || d[d.len() - 1] == '/' {
        concat(dir, name)
    } else {
        let a = concat(dir, "/");
        proof {
            reveal_strlit("/");
        }
        concat(a.as_str(), name)
    }
}

/// Where an item's `.nfo` may be, in order: a folder item (empty stem)
/// reads the series or movie-folder nfo; a file its own sidecar or the
/// movie-folder nfo, never the series one.
pub open spec fn nfo_names(stem: Seq<char>) -> Seq<Seq<char>> {
    if stem.len() == 0 {
        seq!["tvshow.nfo"@, "movie.nfo"@]
    } else {
        seq![stem + ".nfo"@, "movie.nfo"@]
    }
}

/// Where an item's local artwork may be, in order.
pub open spec fn artwork_names(stem: Seq<char>) -> Seq<Seq<char>> {
    let own = if stem.len() == 0 {
        Seq::empty()
    } else {
        seq![stem + "-poster.jpg"@, stem + ".jpg"@, stem + "-poster.png"@]
    };
    own + seq!["poster.jpg"@, "folder.jpg"@, "cover.jpg"@, "poster.png"@]
}

fn joined_all(dir: &str, names: Vec<String>) -> (r: Vec<String>)
    ensures
        r.len() == names.len(),
        forall|i: int| 0 <= i < r.len() ==> r@[i]@ == joined(dir@, #[trigger] names@[i]@),
{
    let mut out: Vec<String> = Vec::new();
    let mut i: usize = 0;
    while i < names.len()
        invariant
            i <= names.len(),
            out.len() == i,
            forall|k: int| 0 <= k < i ==> out@[k]@ == joined(dir@, #[trigger] names@[k]@),
        decreases names.len() - i,
    {
        out.push(join_path(dir, names[i].as_str()));
        i += 1;
    }
    out
}

/// The `.nfo` paths to try for an item, in order.
pub fn nfo_candidates(dir: &str, stem: &str) -> (r: Vec<String>)
    ensures
        r.len() == nfo_names(stem@).len(),
        forall|i: int| 0 <= i < r.len() ==> r@[i]@ == joined(dir@, #[trigger] nfo_names(stem@)[i]),
{
    let mut names: Vec<String> = Vec::new();
    if stem.is_empty() {
        names.push("tvshow.nfo".to_string());
    } else {
        names.push(concat(stem, ".nfo"));
    }
    names.push("movie.nfo".to_string());
    assert(crate::text::strings_view(names@) =~= nfo_names(stem@));
    let r = joined_all(dir, names);
    assert forall|i: int| 0 <= i < r.len() implies r@[i]@ == joined(dir@, #[trigger] nfo_names(stem@)[i]) by {
        assert(names@[i]@ == crate::text::strings_view(names@)[i]);
    }
    r
}

/// The artwork paths to try for an item, in order.
pub fn artwork_candidates(dir: &str, stem: &str) -> (r: Vec<String>)
    ensures
        r.len() == artwork_names(stem@).len(),
        forall|i: int|
            0 <= i < r.len() ==> r@[i]@ == joined(dir@, #[trigger] artwork_names(stem@)[i]),
{
    let mut names: Vec<String> = Vec::new();
    if !stem.is_empty() {
        names.push(concat(stem, "-poster.jpg"));
        names.push(concat(stem, ".jpg"));
        names.push(concat(stem, "-poster.png"));
    }
    names.push("poster.jpg".to_string());
    names.push("folder.jpg".to_string());
    names.push("cover.jpg".to_string());
    names.push("poster.png".to_string());
    assert(crate::text::strings_view(names@) =~= artwork_names(stem@));
    let r = joined_all(dir, names);
    assert forall|i: int| 0 <= i < r.len() implies r@[i]@ == joined(
        dir@,
        #[trigger] artwork_names(stem@)[i],
    ) by {
        assert(names@[i]@ == crate::text::strings_view(names@)[i]);
    }
    r
}

/// The text of the first `<tag>...</tag>`, trimmed and unwrapped from a
/// CDATA section; nothing when absent or blank.
pub open spec fn tag_text(xml: Seq<char>, tag: Seq<char>) -> Option<Seq<char>> {
    let open = "<"@ + tag + ">"@;
    let close = "</"@ + tag + ">"@;
    match find(xml, open) {
        Some(a) => {
            let start = a + open.len();
            match find(xml.skip(start), close) {
                Some(b) => {
                    let raw = trim(xml.subrange(start, start + b));
                    let inner = if starts_with(raw, "<![CDATA["@) && ends_with(
                        raw.skip("<![CDATA["@.len() as int),
                        "]]>"@,
                    ) {
                        raw.subrange("<![CDATA["@.len() as int, raw.len() - "]]>"@.len())
                    } else {
                        raw
                    };
                    if trim(inner).len() > 0 {
                        Some(trim(inner))
                    } else {
                        None
                    }
                },
                None => None,
            }
        },
        None => None,
    }
}

/// Extract the text of the first `<tag>...</tag>` (a CDATA wrapper is
/// removed).
pub fn xml_text(xml: &str, tag: &str) -> (r: Option<String>)
    ensures
        opt_view(r) == tag_text(xml@, tag@),
{
    let x = chars_of(xml);
    let open = concat(concat("<", tag).as_str(), ">");
    let close = concat(concat("</", tag).as_str(), ">");
    let oc = chars_of(open.as_str());
    let cc = chars_of(close.as_str());
    let a = match find_chars(&x, &oc) {
        Some(a) => a,
        None => return None,
    };
    let start = a + oc.len();
    let rest = slice_chars(&x, start, x.len());
    assert(rest@ =~= x@.skip(start as int));
    let b = match find_chars(&rest, &cc) {
        Some(b) => b,
        None => return None,
    };
    let body = slice_chars(&x, start, start + b);
    let raw = trim_chars(&body);
    let pre = chars_of("<![CDATA[");
    let post = chars_of("]]>");
    let rs = string_of(raw.as_slice());
    let mut inner = raw;
    if crate::text::starts_with_str(rs.as_str(), "<![CDATA[") {
        let tail = slice_chars(&inner, pre.len(), inner.len());
        assert(tail@ =~= inner@.skip("<![CDATA["@.len() as int));
        if crate::text::ends_with_str(string_of(tail.as_slice()).as_str(), "]]>") {
            let cut = slice_chars(&inner, pre.len(), inner.len() - post.len());
            inner = cut;
        }
    }
    let cleaned = trim_chars(&inner);
    if cleaned.len() > 0 {
        Some(string_of(cleaned.as_slice()))
    } else {
        None
    }
}

/// What the sidecar says: title, year and plot of the `.nfo` (when there is
/// one) and the artwork reference; nothing when all are empty.
pub open spec fn sidecar_of(nfo: Option<Seq<char>>, poster: Option<Seq<char>>) -> Option<(
    Option<Seq<char>>,
    Option<u32>,
    Option<Seq<char>>,
    Option<Seq<char>>,
)> {
    let (t, y, p) = match nfo {
        Some(x) => (
            tag_text(x, "title"@),
            match tag_text(x, "year"@) {
                Some(v) => parse_u32(trim(v)),
                None => None,
            },
            tag_text(x, "plot"@),
        ),
        None => (None, None, None),
    };
    if t is None && y is None && p is None && poster is None {
        None
    } else {
        Some((t, y, p, poster))
    }
}

/// Build the sidecar metadata from the `.nfo` text found (if any) and the
/// artwork reference found (if any).
pub fn sidecar_meta(nfo: Option<String>, poster: Option<String>) -> (r: Option<CachedMeta>)
    ensures
        match sidecar_of(opt_view(nfo), opt_view(poster)) {
            Some((t, y, p, a)) => r matches Some(m) && opt_view(m.title) == t && m.year == y
                && opt_view(m.summary) == p && opt_view(m.poster) == a,
            None => r is None,
        },
{
    let mut meta = CachedMeta { title: None, year: None, summary: None, poster: None };
    match &nfo {
        Some(x) => {
            meta.title = xml_text(x.as_str(), "title");
            meta.year = match xml_text(x.as_str(), "year") {
                Some(v) => parse_u32_chars(&trim_chars(&chars_of(v.as_str()))),
                None => None,
            };
            meta.summary = xml_text(x.as_str(), "plot");
        },
        None => {},
    }
    meta.poster = poster;
    if meta.is_empty() {
        None
    } else {
        Some(meta)
    }
}

/// The artwork reference for a found artwork file: a native provider's
/// fetchable URL, nothing when it cannot give one, and the path itself for
/// a plain local file (no provider).
pub fn artwork_reference(path: &str, resolved: Option<Result<String, String>>) -> (r: Option<
    String,
>)
    ensures
        match resolved {
            Some(Ok(url)) => r == Some(url),
            Some(Err(_)) => r is None,
            None => r matches Some(p) && p@ == path@,
        },
{
    match resolved {
        Some(Ok(url)) => Some(url),
        Some(Err(_)) => None,
        None => Some(path.to_string()),
    }
}

/// Text outside `<...>` tags, trimmed.
pub open spec fn untagged(s: Seq<char>) -> Seq<char> {
    trim(untagged_from(s, false))
}

/// The characters kept by a scan that starts inside a tag or not.
pub open spec fn untagged_from(s: Seq<char>, in_tag: bool) -> Seq<char>
    decreases s.len(),
{
    if s.len() == 0 {
        Seq::empty()
    } else {
        let c = s[0];
        if c == '<' {
            untagged_from(s.drop_first(), true)
        } else if c == '>' {
            untagged_from(s.drop_first(), false)
        } else if !in_tag {
            seq![c] + untagged_from(s.drop_first(), in_tag)
        } else {
            untagged_from(s.drop_first(), in_tag)
        }
    }
}

/// Strip HTML tags for plain display.
pub fn strip_html(s: &str) -> (r: String)
    ensures
        r@ == untagged(s@),
{
    let v = chars_of(s);
    let mut out: Vec<char> = Vec::new();
    let mut in_tag = false;
    let mut i: usize = 0;
    assert(v@.skip(0) =~= v@);
    assert(out@ + untagged_from(v@, false) =~= untagged_from(v@, false));
    while i < v.len()
        invariant
            i <= v.len(),
            untagged_from(v@, false) == out@ + untagged_from(v@.skip(i as int), in_tag),
        decreases v.len() - i,
    {
        let c = v[i];
        assert(v@.skip(i as int)[0] == c);
        assert(v@.skip(i as int).drop_first() =~= v@.skip(i + 1));
        let ghost before = out@;
        if c == '<' {
            in_tag = true;
        } else if c == '>' {
            in_tag = false;
        } else if !in_tag {
            out.push(c);
            assert(before + (seq![c] + untagged_from(v@.skip(i + 1), in_tag)) =~= out@
                + untagged_from(v@.skip(i + 1), in_tag));
        }
        i += 1;
    }
    assert(v@.skip(i as int) =~= Seq::<char>::empty());
    assert(out@ + Seq::<char>::empty() =~= out@);
    let t = trim_chars(&out);
    string_of(t.as_slice())
}

/// Local artwork is preferred over online: an item whose sidecar carries
/// only a poster shows that poster, whatever the cache holds, and a cached
/// entry then finishes it without an online lookup.
pub proof fn law_sidecar_poster_wins(
    item: ItemView,
    side: CachedMeta,
    cached: Option<CachedMeta>,
    media_type: Seq<char>,
)
    requires
        side.title is None,
        side.year is None,
        side.summary is None,
        side.poster is Some,
    ensures
        enriched(item, Some(side), cached, media_type).0.poster == Some(side.poster->0@),
        cached is Some ==> enriched(item, Some(side), cached, media_type).1 == EnrichNext::Done,
{
}

} // verus!
