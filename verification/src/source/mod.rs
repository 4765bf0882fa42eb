//! Provider-neutral media descriptors shared by every backend, source-key
//! namespacing, the quality ladder, and marker cleanup.

pub mod jellyfin;
pub mod listing_cache;
pub mod local;
pub mod metadata;
pub mod plex;
pub mod smb_vfs;

use vstd::prelude::*;
use crate::text::{
    chars_of, first_index, lemma_first_index_found, opt_view, owned, strings_view, push_str, split_once,
    split_once_str, str_eq, string_of,
};


verus! {

broadcast use vstd::string::group_string_axioms;

/// A browsable library/section, tagged with the source it came from.
pub struct SectionDto {
    /// Source-namespaced key (`"<source_id>:<raw>"`).
    pub key: String,
    pub title: String,
    pub section_type: String,
    pub source_id: String,
    pub source_name: String,
    /// Persisted sort preference, stamped by the command layer.
    pub sort: Option<String>,
    /// Which server issued this key, when the source can vouch for it.
    pub provenance: Option<String>,
    /// Which binding of the source issued this key.
    pub binding: u64,
}

/// One source's copy of a merged title.
#[derive(Debug, Clone, PartialEq, Eq)]
pub struct BackingRef {
    pub source_id: String,
    pub rating_key: String,
    pub parent_rating_key: Option<String>,
    pub grandparent_rating_key: Option<String>,
}

/// A playable/browsable item (movie, show, season, episode), source-tagged.
#[derive(Debug, Clone)]
pub struct ItemDto {
    /// Source-namespaced key (`"<source_id>:<raw>"`).
    pub rating_key: String,
    pub title: String,
    pub year: Option<u32>,
    pub summary: Option<String>,
    pub duration_ms: Option<u64>,
    pub media_type: Option<String>,
    pub poster: Option<String>,
    pub series_poster: Option<String>,
    pub backdrop: Option<String>,
    pub view_offset_ms: Option<u64>,
    pub played: Option<bool>,
    pub last_watched_at_ms: Option<u64>,
    pub added_at_ms: Option<u64>,
    pub index: Option<u32>,
    pub parent_index: Option<u32>,
    pub grandparent_title: Option<String>,
    pub parent_title: Option<String>,
    pub parent_rating_key: Option<String>,
    pub grandparent_rating_key: Option<String>,
    pub source_id: String,
    /// Cross-source identity hints, `"scheme:value"`.
    pub provider_ids: Vec<String>,
    /// Every source backing a merged title, play target first.
    pub backing: Option<Vec<BackingRef>>,
    pub canonical_id: Option<String>,
    /// Where watched-state actions route when the play identity cannot.
    pub watch_key: Option<String>,
    /// Where the detail surface routes.
    pub detail_key: Option<String>,
}

/// Full metadata for a single item (the detail surface). Ratings are carried
/// as tenths (`Some(87)` for 8.7) so the record stays integral.
#[derive(Debug, Clone, Default)]
pub struct DetailDto {
    pub rating_key: String,
    pub title: String,
    pub year: Option<u32>,
    pub summary: Option<String>,
    pub tagline: Option<String>,
    pub duration_ms: Option<u64>,
    pub media_type: Option<String>,
    pub poster: Option<String>,
    pub backdrop: Option<String>,
    pub content_rating: Option<String>,
    pub studio: Option<String>,
    pub originally_available_at: Option<String>,
    pub genres: Vec<String>,
    pub directors: Vec<PersonRef>,
    pub writers: Vec<PersonRef>,
    pub countries: Vec<String>,
    pub cast: Vec<CastMember>,
    pub index: Option<u32>,
    pub parent_index: Option<u32>,
    pub grandparent_title: Option<String>,
    pub parent_title: Option<String>,
    pub parent_rating_key: Option<String>,
    pub grandparent_rating_key: Option<String>,
    pub played: Option<bool>,
    pub view_offset_ms: Option<u64>,
    pub media: Vec<MediaVersionDto>,
    pub source_id: String,
}

/// A cast member for the detail view's cast strip.
#[derive(Debug, Clone)]
pub struct CastMember {
    pub name: String,
    pub role: Option<String>,
    pub thumb: Option<String>,
    pub person_key: Option<String>,
}

/// A person credit (director/writer).
#[derive(Debug, Clone)]
pub struct PersonRef {
    pub name: String,
    pub person_key: Option<String>,
}

/// One media version/file's technical specs.
#[derive(Debug, Clone)]
pub struct MediaVersionDto {
    pub video_resolution: Option<String>,
    pub width: Option<u32>,
    pub height: Option<u32>,
    pub video_codec: Option<String>,
    pub audio_codec: Option<String>,
    pub container: Option<String>,
    pub hdr: bool,
    pub streams: Vec<MediaStreamDto>,
}

/// One audio/subtitle/video stream within a media version.
#[derive(Debug, Clone)]
pub struct MediaStreamDto {
    pub stream_type: Option<u8>,
    pub codec: Option<String>,
    pub language: Option<String>,
    pub channels: Option<u32>,
    pub display_title: Option<String>,
}

/// A home-screen rail of items, source-tagged.
pub struct HubDto {
    pub title: String,
    pub hub_identifier: String,
    pub hub_type: String,
    pub items: Vec<ItemDto>,
    pub source_id: String,
    pub source_name: String,
}

/// One read-only playlist owned by a media server.
#[derive(Debug, Clone, PartialEq, Eq)]
pub struct PlaylistDto {
    pub key: String,
    pub title: String,
    pub item_count: Option<usize>,
    pub source_id: String,
    pub source_name: String,
}

/// The hierarchy identity needed to walk from one episode to the next.
#[derive(Debug, Clone, PartialEq, Eq)]
pub struct EpisodeContext {
    pub item_key: String,
    pub season_key: Option<String>,
    pub show_key: Option<String>,
    pub episode_index: Option<u32>,
    pub season_index: Option<u32>,
}

/// One rung of the playback quality ladder (Plex's own ladder).
#[derive(Debug, Clone, Copy, PartialEq, Eq)]
pub struct QualityTier {
    /// Stable identifier; carries the bitrate because two labels collide.
    pub id: &'static str,
    pub label: &'static str,
    pub bitrate_kbps: u32,
    pub width: u32,
    pub height: u32,
}

/// What a server can do with one exact copy.
#[derive(Debug, Clone, PartialEq, Eq)]
pub struct PlaybackOptions {
    pub can_direct_play: bool,
    pub can_transcode: bool,
    pub source_width: u32,
    pub source_height: u32,
    pub source_bitrate_kbps: u32,
    /// Already filtered for this source; empty when transcoding is unavailable.
    pub tiers: Vec<QualityTier>,
}

/// A kind of skippable range a media server publishes.
#[derive(Debug, Clone, Copy, PartialEq, Eq, Hash, Structural)]
pub enum MarkerKind {
    Intro,
    Credits,
    Commercial,
}

/// One skippable range on the item being played.
#[derive(Debug, Clone, Copy, PartialEq, Eq, Structural)]
pub struct MediaMarker {
    pub kind: MarkerKind,
    /// Inclusive start of the range, ms from media start.
    pub start_ms: u64,
    /// Seek target / range end, ms.
    pub end_ms: u64,
}

/// What resolving a stream hands the playback layer: the media URL, where
/// to resume, how to report progress, the headers mpv must send for the
/// URL (credentials travel there, never in the URL), and the normalized
/// skip ranges of this exact item.
pub struct StreamResolution {
    pub url: String,
    pub resume_ms: u64,
    pub progress: crate::playback::ProgressTarget,
    pub http_headers: Vec<(String, String)>,
    pub markers: Vec<MediaMarker>,
}

// ---- abstract views -------------------------------------------------------

/// The abstract content of a [`BackingRef`].
pub struct BackingView {
    pub source_id: Seq<char>,
    pub rating_key: Seq<char>,
    pub parent_rating_key: Option<Seq<char>>,
    pub grandparent_rating_key: Option<Seq<char>>,
}

impl View for BackingRef {
    type V = BackingView;

    open spec fn view(&self) -> BackingView {
        BackingView {
            source_id: self.source_id@,
            rating_key: self.rating_key@,
            parent_rating_key: opt_view(self.parent_rating_key),
            grandparent_rating_key: opt_view(self.grandparent_rating_key),
        }
    }
}

pub open spec fn backings_view(v: Seq<BackingRef>) -> Seq<BackingView> {
    v.map_values(|b: BackingRef| b@)
}

/// The abstract content of an [`ItemDto`].
pub struct ItemView {
    pub rating_key: Seq<char>,
    pub title: Seq<char>,
    pub year: Option<u32>,
    pub summary: Option<Seq<char>>,
    pub duration_ms: Option<u64>,
    pub media_type: Option<Seq<char>>,
    pub poster: Option<Seq<char>>,
    pub series_poster: Option<Seq<char>>,
    pub backdrop: Option<Seq<char>>,
    pub view_offset_ms: Option<u64>,
    pub played: Option<bool>,
    pub last_watched_at_ms: Option<u64>,
    pub added_at_ms: Option<u64>,
    pub index: Option<u32>,
    pub parent_index: Option<u32>,
    pub grandparent_title: Option<Seq<char>>,
    pub parent_title: Option<Seq<char>>,
    pub parent_rating_key: Option<Seq<char>>,
    pub grandparent_rating_key: Option<Seq<char>>,
    pub source_id: Seq<char>,
    pub provider_ids: Seq<Seq<char>>,
    pub backing: Option<Seq<BackingView>>,
    pub canonical_id: Option<Seq<char>>,
    pub watch_key: Option<Seq<char>>,
    pub detail_key: Option<Seq<char>>,
}

impl View for ItemDto {
    type V = ItemView;

    open spec fn view(&self) -> ItemView {
        ItemView {
            rating_key: self.rating_key@,
            title: self.title@,
            year: self.year,
            summary: opt_view(self.summary),
            duration_ms: self.duration_ms,
            media_type: opt_view(self.media_type),
            poster: opt_view(self.poster),
            series_poster: opt_view(self.series_poster),
            backdrop: opt_view(self.backdrop),
            view_offset_ms: self.view_offset_ms,
            played: self.played,
            last_watched_at_ms: self.last_watched_at_ms,
            added_at_ms: self.added_at_ms,
            index: self.index,
            parent_index: self.parent_index,
            grandparent_title: opt_view(self.grandparent_title),
            parent_title: opt_view(self.parent_title),
            parent_rating_key: opt_view(self.parent_rating_key),
            grandparent_rating_key: opt_view(self.grandparent_rating_key),
            source_id: self.source_id@,
            provider_ids: strings_view(self.provider_ids@),
            backing: match self.backing {
                Some(b) => Some(backings_view(b@)),
                None => None,
            },
            canonical_id: opt_view(self.canonical_id),
            watch_key: opt_view(self.watch_key),
            detail_key: opt_view(self.detail_key),
        }
    }
}

pub open spec fn items_view(v: Seq<ItemDto>) -> Seq<ItemView> {
    v.map_values(|i: ItemDto| i@)
}

// ---- copies with exact specifications ------------------------------------

/// A copy of an optional string.
pub fn copy_opt(o: &Option<String>) -> (r: Option<String>)
    ensures
        r == *o,
{
    match o {
        Some(s) => Some(s.clone()),
        None => None,
    }
}

/// A copy of a vector of strings.
pub fn copy_strings(v: &Vec<String>) -> (r: Vec<String>)
    ensures
        r@ == v@,
        strings_view(r@) == strings_view(v@),
{
    let mut r: Vec<String> = Vec::new();
    let mut i: usize = 0;
    while i < v.len()
        invariant
            i <= v.len(),
            r@ == v@.take(i as int),
        decreases v.len() - i,
    {
        r.push(v[i].clone());
        i += 1;
        assert(r@ =~= v@.take(i as int));
    }
    assert(v@.take(v.len() as int) =~= v@);
    r
}

impl BackingRef {
    pub fn duplicate(&self) -> (r: Self)
        ensures
            r@ == self@,
    {
        BackingRef {
            source_id: self.source_id.clone(),
            rating_key: self.rating_key.clone(),
            parent_rating_key: copy_opt(&self.parent_rating_key),
            grandparent_rating_key: copy_opt(&self.grandparent_rating_key),
        }
    }
}

/// A copy of a list of backings.
pub fn copy_backings(v: &Vec<BackingRef>) -> (r: Vec<BackingRef>)
    ensures
        backings_view(r@) == backings_view(v@),
{
    let mut r: Vec<BackingRef> = Vec::new();
    let mut i: usize = 0;
    while i < v.len()
        invariant
            i <= v.len(),
            r.len() == i,
            forall|k: int| 0 <= k < i ==> #[trigger] r@[k]@ == v@[k]@,
        decreases v.len() - i,
    {
        r.push(v[i].duplicate());
        i += 1;
    }
    assert(backings_view(r@) =~= backings_view(v@));
    r
}

impl ItemDto {
    /// An exact copy of this item.
    pub fn duplicate(&self) -> (r: Self)
        ensures
            r@ == self@,
    {
        ItemDto {
            rating_key: self.rating_key.clone(),
            title: self.title.clone(),
            year: self.year,
            summary: copy_opt(&self.summary),
            duration_ms: self.duration_ms,
            media_type: copy_opt(&self.media_type),
            poster: copy_opt(&self.poster),
            series_poster: copy_opt(&self.series_poster),
            backdrop: copy_opt(&self.backdrop),
            view_offset_ms: self.view_offset_ms,
            played: self.played,
            last_watched_at_ms: self.last_watched_at_ms,
            added_at_ms: self.added_at_ms,
            index: self.index,
            parent_index: self.parent_index,
            grandparent_title: copy_opt(&self.grandparent_title),
            parent_title: copy_opt(&self.parent_title),
            parent_rating_key: copy_opt(&self.parent_rating_key),
            grandparent_rating_key: copy_opt(&self.grandparent_rating_key),
            source_id: self.source_id.clone(),
            provider_ids: copy_strings(&self.provider_ids),
            backing: match &self.backing {
                Some(b) => Some(copy_backings(b)),
                None => None,
            },
            canonical_id: copy_opt(&self.canonical_id),
            watch_key: copy_opt(&self.watch_key),
            detail_key: copy_opt(&self.detail_key),
        }
    }
}

// ---- key namespacing -------------------------------------------------------

/// The namespaced form of a raw key: `"<source_id>:<raw>"`.
pub open spec fn namespaced(source_id: Seq<char>, raw: Seq<char>) -> Seq<char> {
    source_id + seq![':'] + raw
}

/// Build a source-namespaced key. Raw keys never contain `:`, so splitting
/// on the first `:` recovers `(source_id, raw)`.
pub fn namespace_key(source_id: &str, raw: &str) -> (r: String)
    ensures
        r@ == namespaced(source_id@, raw@),
{
    let mut v = chars_of(source_id);
    v.push(':');
    push_str(&mut v, raw);
    string_of(v.as_slice())
}

/// Split a namespaced key into `(source_id, raw_key)` at its first `:`.
pub fn split_key(key: &str) -> (r: Option<(String, String)>)
    ensures
        match split_once(key@, ':') {
            Some(p) => r matches Some(q) && q.0@ == p.0 && q.1@ == p.1,
            None => r is None,
        },
{
    split_once_str(key, ':')
}

/// Splitting a key built by [`namespace_key`] gives its parts back whenever
/// the source id itself holds no `:`.
pub proof fn lemma_split_namespaced(source_id: Seq<char>, raw: Seq<char>)
    requires
        !source_id.contains(':'),
    ensures
        split_once(namespaced(source_id, raw), ':') == Some((source_id, raw)),
{
    let k = namespaced(source_id, raw);
    assert forall|i: int| 0 <= i < source_id.len() implies k[i] != ':' by {
        assert(k[i] == source_id[i]);
        if k[i] == ':' {
            assert(source_id.contains(':'));
        }
    }
    assert(k[source_id.len() as int] == ':');
    lemma_first_index_found(k, ':', source_id.len() as int);
    assert(k.take(source_id.len() as int) =~= source_id);
    assert(k.skip(source_id.len() as int + 1) =~= raw);
}

/// The key with its source prefix replaced, when that prefix is `old`.
pub open spec fn rekeyed(value: Seq<char>, old: Seq<char>, new: Seq<char>) -> Seq<char> {
    match split_once(value, ':') {
        Some(p) => if p.0 == old {
            namespaced(new, p.1)
        } else {
            value
        },
        None => value,
    }
}

pub open spec fn rekeyed_opt(value: Option<String>, old: Seq<char>, new: Seq<char>) -> Option<
    Seq<char>,
> {
    match value {
        Some(v) => Some(rekeyed(v@, old, new)),
        None => None,
    }
}

/// A source id replaced when it is `old`.
pub open spec fn resourced(id: Seq<char>, old: Seq<char>, new: Seq<char>) -> Seq<char> {
    if id == old {
        new
    } else {
        id
    }
}

fn rekey_namespaced(value: &mut String, old_source_id: &str, new_source_id: &str)
    ensures
        final(value)@ == rekeyed(old(value)@, old_source_id@, new_source_id@),
{
    let parts = split_key(value.as_str());
    match parts {
        Some((source_id, raw)) => {
            if str_eq(source_id.as_str(), old_source_id) {
                *value = namespace_key(new_source_id, raw.as_str());
            }
        },
        None => {},
    }
}

fn rekey_opt(value: &mut Option<String>, old_source_id: &str, new_source_id: &str)
    ensures
        opt_view(*final(value)) == rekeyed_opt(*old(value), old_source_id@, new_source_id@),
{
    match value {
        Some(v) => {
            rekey_namespaced(v, old_source_id, new_source_id);
        },
        None => {},
    }
}

fn resource_id(id: &mut String, old_source_id: &str, new_source_id: &str)
    ensures
        final(id)@ == resourced(old(id)@, old_source_id@, new_source_id@),
{
    if str_eq(id.as_str(), old_source_id) {
        *id = owned(new_source_id);
    }
}

/// The backing entry re-keyed.
pub open spec fn backing_moved(before: BackingRef, after: BackingRef, old: Seq<char>, new: Seq<
    char,
>) -> bool {
    &&& after.source_id@ == resourced(before.source_id@, old, new)
    &&& after.rating_key@ == rekeyed(before.rating_key@, old, new)
    &&& opt_view(after.parent_rating_key) == rekeyed_opt(before.parent_rating_key, old, new)
    &&& opt_view(after.grandparent_rating_key) == rekeyed_opt(
        before.grandparent_rating_key,
        old,
        new,
    )
}

/// `after` is `before` with every routing identity re-keyed from source `old`
/// to source `new`, and its display fields kept.
pub open spec fn item_rekeyed(before: ItemDto, after: ItemDto, old: Seq<char>, new: Seq<char>) -> bool {
    &&& after.rating_key@ == rekeyed(before.rating_key@, old, new)
    &&& after.source_id@ == resourced(before.source_id@, old, new)
    &&& opt_view(after.parent_rating_key) == rekeyed_opt(before.parent_rating_key, old, new)
    &&& opt_view(after.grandparent_rating_key) == rekeyed_opt(
        before.grandparent_rating_key,
        old,
        new,
    )
    &&& opt_view(after.watch_key) == rekeyed_opt(before.watch_key, old, new)
    &&& opt_view(after.detail_key) == rekeyed_opt(before.detail_key, old, new)
    &&& (after.backing is Some <==> before.backing is Some)
    &&& (after.backing matches Some(a) ==> before.backing matches Some(b) && a.len() == b.len()
        && forall|i: int| 0 <= i < a.len() ==> backing_moved(#[trigger] b[i], a[i], old, new))
    &&& after.title == before.title
    &&& after.poster == before.poster
    &&& after.media_type == before.media_type
    &&& after.view_offset_ms == before.view_offset_ms
    &&& after.duration_ms == before.duration_ms
}

/// Re-key every routing identity carried by a persisted item snapshot.
pub fn rekey_item_source(item: &mut ItemDto, old_source_id: &str, new_source_id: &str)
    ensures
        item_rekeyed(*old(item), *final(item), old_source_id@, new_source_id@),
        final(item).rating_key@ == rekeyed(old(item).rating_key@, old_source_id@, new_source_id@),
        final(item).source_id@ == resourced(old(item).source_id@, old_source_id@, new_source_id@),
        opt_view(final(item).parent_rating_key) == rekeyed_opt(
            old(item).parent_rating_key,
            old_source_id@,
            new_source_id@,
        ),
        opt_view(final(item).grandparent_rating_key) == rekeyed_opt(
            old(item).grandparent_rating_key,
            old_source_id@,
            new_source_id@,
        ),
        opt_view(final(item).watch_key) == rekeyed_opt(
            old(item).watch_key,
            old_source_id@,
            new_source_id@,
        ),
        opt_view(final(item).detail_key) == rekeyed_opt(
            old(item).detail_key,
            old_source_id@,
            new_source_id@,
        ),
        final(item).backing is Some <==> old(item).backing is Some,
        final(item).backing matches Some(after) ==> old(item).backing matches Some(before)
            && after.len() == before.len() && forall|i: int|
            0 <= i < after.len() ==> backing_moved(
                #[trigger] before[i],
                after[i],
                old_source_id@,
                new_source_id@,
            ),
        final(item).title == old(item).title,
        final(item).poster == old(item).poster,
        final(item).media_type == old(item).media_type,
        final(item).view_offset_ms == old(item).view_offset_ms,
        final(item).duration_ms == old(item).duration_ms,
{
    rekey_namespaced(&mut item.rating_key, old_source_id, new_source_id);
    resource_id(&mut item.source_id, old_source_id, new_source_id);
    rekey_opt(&mut item.parent_rating_key, old_source_id, new_source_id);
    rekey_opt(&mut item.grandparent_rating_key, old_source_id, new_source_id);
    rekey_opt(&mut item.watch_key, old_source_id, new_source_id);
    rekey_opt(&mut item.detail_key, old_source_id, new_source_id);
    let taken = item.backing.take();
    match taken {
        Some(backings) => {
            let ghost before = backings@;
            let mut out: Vec<BackingRef> = Vec::new();
            let mut i: usize = 0;
            while i < backings.len()
                invariant
                    i <= backings.len(),
                    before == backings@,
                    out.len() == i,
                    forall|k: int|
                        0 <= k < i ==> backing_moved(
                            #[trigger] before[k],
                            out@[k],
                            old_source_id@,
                            new_source_id@,
                        ),
                decreases backings.len() - i,
            {
                let mut b = backings[i].duplicate();
                rekey_namespaced(&mut b.rating_key, old_source_id, new_source_id);
                rekey_opt(&mut b.parent_rating_key, old_source_id, new_source_id);
                rekey_opt(&mut b.grandparent_rating_key, old_source_id, new_source_id);
                resource_id(&mut b.source_id, old_source_id, new_source_id);
                out.push(b);
                i += 1;
            }
            item.backing = Some(out);
        },
        None => {},
    }
}

/// The backing entry for an item's own copy.
pub fn backing_ref_of(item: &ItemDto) -> (r: BackingRef)
    ensures
        r.source_id == item.source_id,
        r.rating_key == item.rating_key,
        r.parent_rating_key == item.parent_rating_key,
        r.grandparent_rating_key == item.grandparent_rating_key,
{
    BackingRef {
        source_id: item.source_id.clone(),
        rating_key: item.rating_key.clone(),
        parent_rating_key: copy_opt(&item.parent_rating_key),
        grandparent_rating_key: copy_opt(&item.grandparent_rating_key),
    }
}

/// Hierarchy identity of an episode detail; `None` for anything else.
pub fn episode_context_from_detail(detail: DetailDto) -> (r: Option<EpisodeContext>)
    ensures
        opt_view(detail.media_type) == Some("episode"@) ==> r == Some(
            EpisodeContext {
                item_key: detail.rating_key,
                season_key: detail.parent_rating_key,
                show_key: detail.grandparent_rating_key,
                episode_index: detail.index,
                season_index: detail.parent_index,
            },
        ),
        opt_view(detail.media_type) != Some("episode"@) ==> r is None,
{
    let is_episode = match &detail.media_type {
        Some(t) => str_eq(t.as_str(), "episode"),
        None => false,
    };
    if is_episode {
        Some(
            EpisodeContext {
                item_key: detail.rating_key,
                season_key: detail.parent_rating_key,
                show_key: detail.grandparent_rating_key,
                episode_index: detail.index,
                season_index: detail.parent_index,
            },
        )
    } else {
        None
    }
}

// ---- quality ladder --------------------------------------------------------

/// Plex's ladder, read off a live client, highest quality first. Two rungs
/// share the label "Convert to 1080p HD" and differ only by bitrate.
pub open spec fn ladder_at(i: int) -> QualityTier {
    if i == 0 {
        QualityTier { id: "1080p-20000", label: "Convert to 1080p HD (High)", bitrate_kbps: 20_000, width: 1920, height: 1080 }
    } else if i == 1 {
        QualityTier { id: "1080p-12000", label: "Convert to 1080p HD (Medium)", bitrate_kbps: 12_000, width: 1920, height: 1080 }
    } else if i == 2 {
        QualityTier { id: "1080p-10000", label: "Convert to 1080p HD", bitrate_kbps: 10_000, width: 1920, height: 1080 }
    } else if i == 3 {
        QualityTier { id: "1080p-8000", label: "Convert to 1080p HD", bitrate_kbps: 8_000, width: 1920, height: 1080 }
    } else if i == 4 {
        QualityTier { id: "720p-4000", label: "Convert to 720p HD (High)", bitrate_kbps: 4_000, width: 1280, height: 720 }
    } else if i == 5 {
        QualityTier { id: "720p-3000", label: "Convert to 720p HD (Medium)", bitrate_kbps: 3_000, width: 1280, height: 720 }
    } else if i == 6 {
        QualityTier { id: "720p-2000", label: "Convert to 720p HD", bitrate_kbps: 2_000, width: 1280, height: 720 }
    } else if i == 7 {
        QualityTier { id: "480p-1500", label: "Convert to 480p", bitrate_kbps: 1_500, width: 848, height: 480 }
    } else {
        QualityTier { id: "328p-700", label: "Convert to 328p", bitrate_kbps: 700, width: 584, height: 328 }
    }
}

/// No two rungs share an id, though two share a label: the id is what
/// config and the command boundary tell rungs apart by.
pub proof fn law_tier_ids_are_distinct()
    ensures
        forall|i: int, j: int| 0 <= i < j < 9 ==> ladder_at(i).id@ != ladder_at(j).id@,
{
    reveal_strlit("1080p-20000");
    reveal_strlit("1080p-12000");
    reveal_strlit("1080p-10000");
    reveal_strlit("1080p-8000");
    reveal_strlit("720p-4000");
    reveal_strlit("720p-3000");
    reveal_strlit("720p-2000");
    reveal_strlit("480p-1500");
    reveal_strlit("328p-700");
    assert forall|i: int, j: int| 0 <= i < j < 9 implies ladder_at(i).id@ != ladder_at(j).id@ by {
        let a = ladder_at(i).id@;
        let b = ladder_at(j).id@;
        if a.len() == b.len() {
            if a[0] != b[0] {
            } else if a[1] != b[1] {
            } else if a[4] != b[4] {
            } else if a[5] != b[5] {
            } else if a[6] != b[6] {
            } else if a[7] != b[7] {
            } else {
                assert(a[8] != b[8]);
            }
        }
    }
}

/// Number of rungs on the ladder.
pub const TIER_COUNT: usize = 9;

/// The ladder rung at position `i` (0 = highest quality).
pub fn quality_tier(i: usize) -> (t: QualityTier)
    requires
        i < TIER_COUNT,
    ensures
        t == ladder_at(i as int),
{
    if i == 0 {
        QualityTier { id: "1080p-20000", label: "Convert to 1080p HD (High)", bitrate_kbps: 20_000, width: 1920, height: 1080 }
    } else if i == 1 {
        QualityTier { id: "1080p-12000", label: "Convert to 1080p HD (Medium)", bitrate_kbps: 12_000, width: 1920, height: 1080 }
    } else if i == 2 {
        QualityTier { id: "1080p-10000", label: "Convert to 1080p HD", bitrate_kbps: 10_000, width: 1920, height: 1080 }
    } else if i == 3 {
        QualityTier { id: "1080p-8000", label: "Convert to 1080p HD", bitrate_kbps: 8_000, width: 1920, height: 1080 }
    } else if i == 4 {
        QualityTier { id: "720p-4000", label: "Convert to 720p HD (High)", bitrate_kbps: 4_000, width: 1280, height: 720 }
    } else if i == 5 {
        QualityTier { id: "720p-3000", label: "Convert to 720p HD (Medium)", bitrate_kbps: 3_000, width: 1280, height: 720 }
    } else if i == 6 {
        QualityTier { id: "720p-2000", label: "Convert to 720p HD", bitrate_kbps: 2_000, width: 1280, height: 720 }
    } else if i == 7 {
        QualityTier { id: "480p-1500", label: "Convert to 480p", bitrate_kbps: 1_500, width: 848, height: 480 }
    } else {
        QualityTier { id: "328p-700", label: "Convert to 328p", bitrate_kbps: 700, width: 584, height: 328 }
    }
}

/// The whole ladder, highest quality first.
pub fn quality_tiers() -> (v: Vec<QualityTier>)
    ensures
        v.len() == TIER_COUNT,
        forall|i: int| 0 <= i < TIER_COUNT ==> v@[i] == ladder_at(i),
{
    let mut v: Vec<QualityTier> = Vec::new();
    let mut i: usize = 0;
    while i < TIER_COUNT
        invariant
            i <= TIER_COUNT,
            v.len() == i,
            forall|k: int| 0 <= k < i ==> v@[k] == ladder_at(k),
        decreases TIER_COUNT - i,
    {
        v.push(quality_tier(i));
        i += 1;
    }
    v
}

/// The ladder positions offered for a source of this height: resolution
/// only, never bitrate.
pub open spec fn offered_positions(source_height: u32) -> Seq<int> {
    Seq::new(TIER_COUNT as nat, |i: int| i).filter(|i: int| ladder_at(i).height <= source_height)
}

/// Which tiers may be offered for a source of this height: every ladder
/// rung whose height does not exceed the source's, in ladder order. Plex
/// filters by resolution only, never by bitrate.
pub fn tiers_for_source(source_height: u32) -> (v: Vec<QualityTier>)
    ensures
        v.len() == offered_positions(source_height).len(),
        forall|k: int|
            0 <= k < v.len() ==> v@[k] == ladder_at(offered_positions(source_height)[k]),
{
    let all = quality_tiers();
    let ghost idx = Seq::new(TIER_COUNT as nat, |i: int| i);
    let ghost pred = |i: int| ladder_at(i).height <= source_height;
    let mut v: Vec<QualityTier> = Vec::new();
    let mut i: usize = 0;
    while i < TIER_COUNT
        invariant
            i <= TIER_COUNT,
            all.len() == TIER_COUNT,
            forall|k: int| 0 <= k < TIER_COUNT ==> all@[k] == ladder_at(k),
            idx == Seq::new(TIER_COUNT as nat, |i: int| i),
            pred == (|i: int| ladder_at(i).height <= source_height),
            v.len() == idx.take(i as int).filter(pred).len(),
            forall|k: int|
                0 <= k < v.len() ==> v@[k] == ladder_at(idx.take(i as int).filter(pred)[k]),
        decreases TIER_COUNT - i,
    {
        proof {
            reveal_with_fuel(Seq::filter, 1);
            assert(idx.take(i + 1).drop_last() =~= idx.take(i as int));
            assert(idx.take(i + 1).last() == i as int);
        }
        if all[i].height <= source_height {
            v.push(all[i]);
        }
        i += 1;
    }
    assert(idx.take(TIER_COUNT as int) =~= idx);
    v
}

impl PlaybackOptions {
    /// The options for one copy: tiers only when the server transcodes it.
    pub fn new(
        can_direct_play: bool,
        can_transcode: bool,
        source_width: u32,
        source_height: u32,
        source_bitrate_kbps: u32,
    ) -> (r: Self)
        ensures
            r.can_direct_play == can_direct_play,
            r.can_transcode == can_transcode,
            r.source_width == source_width,
            r.source_height == source_height,
            r.source_bitrate_kbps == source_bitrate_kbps,
            can_transcode ==> r.tiers.len() == offered_positions(source_height).len() && forall|k: int|
                0 <= k < r.tiers.len() ==> r.tiers@[k] == ladder_at(offered_positions(source_height)[k]),
            !can_transcode ==> r.tiers.len() == 0,
    {
        PlaybackOptions {
            can_direct_play,
            can_transcode,
            source_width,
            source_height,
            source_bitrate_kbps,
            tiers: if can_transcode {
                tiers_for_source(source_height)
            } else {
                Vec::new()
            },
        }
    }

    /// True when the user has a real choice; a single option shows no menu.
    pub fn has_choice(&self) -> (r: bool)
        ensures
            r == ((if self.can_direct_play {
                1int
            } else {
                0int
            }) + self.tiers.len() > 1),
    {
        if self.can_direct_play {
            self.tiers.len() >= 1
        } else {
            self.tiers.len() >= 2
        }
    }
}

// ---- skip markers ------------------------------------------------------------

/// Longest range accepted as a real marker (half an hour).
pub const MAX_MARKER_MS: u64 = 1_800_000;

/// A range that can be skipped: it ends after it starts and is not
/// implausibly long.
pub open spec fn plausible(m: MediaMarker) -> bool {
    m.end_ms > m.start_ms && m.end_ms - m.start_ms <= MAX_MARKER_MS
}

/// The plausible markers, each `(kind, start, end)` triple once, first
/// occurrence kept, in input order.
pub open spec fn kept_markers(s: Seq<MediaMarker>) -> Seq<MediaMarker>
    decreases s.len(),
{
    if s.len() == 0 {
        s
    } else {
        let k = kept_markers(s.drop_last());
        if plausible(s.last()) && !k.contains(s.last()) {
            k.push(s.last())
        } else {
            k
        }
    }
}

/// Where a stable insertion by start puts `x`.
pub open spec fn start_insert_at(t: Seq<MediaMarker>, x: MediaMarker) -> int
    decreases t.len(),
{
    if t.len() == 0 {
        0
    } else if t[0].start_ms > x.start_ms {
        0
    } else {
        1 + start_insert_at(t.drop_first(), x)
    }
}

/// A stable sort by start.
pub open spec fn by_start(s: Seq<MediaMarker>) -> Seq<MediaMarker>
    decreases s.len(),
{
    if s.len() == 0 {
        s
    } else {
        let t = by_start(s.drop_last());
        t.insert(start_insert_at(t, s.last()), s.last())
    }
}

/// Shared post-parse cleanup: drop inverted, empty and implausibly long
/// ranges and exact duplicate triples, then order by start (stably, so
/// overlapping ranges of one kind are both kept).
pub fn normalize_markers(markers: Vec<MediaMarker>) -> (r: Vec<MediaMarker>)
    ensures
        r@ == by_start(kept_markers(markers@)),
{
    let ghost s = markers@;
    let mut kept: Vec<MediaMarker> = Vec::new();
    let mut i: usize = 0;
    while i < markers.len()
        invariant
            i <= markers.len(),
            s == markers@,
            kept@ == kept_markers(s.take(i as int)),
        decreases markers.len() - i,
    {
        let m = markers[i];
        proof {
            assert(s.take(i + 1).drop_last() =~= s.take(i as int));
            assert(s.take(i + 1).last() == m);
        }
        if m.end_ms > m.start_ms && m.end_ms - m.start_ms <= MAX_MARKER_MS {
            let mut seen = false;
            let mut j: usize = 0;
            while j < kept.len()
                invariant
                    j <= kept.len(),
                    seen == (exists|k: int| 0 <= k < j && kept@[k] == m),
                decreases kept.len() - j,
            {
                if kept[j] == m {
                    seen = true;
                }
                j += 1;
            }
            if !seen {
                kept.push(m);
            }
        }
        i += 1;
    }
    assert(s.take(i as int) =~= s);
    let ghost ks = kept@;
    let mut out: Vec<MediaMarker> = Vec::new();
    let mut n: usize = 0;
    while n < kept.len()
        invariant
            n <= kept.len(),
            ks == kept@,
            out@ == by_start(ks.take(n as int)),
        decreases kept.len() - n,
    {
        let x = kept[n];
        proof {
            assert(ks.take(n + 1).drop_last() =~= ks.take(n as int));
            assert(ks.take(n + 1).last() == x);
        }
        let ghost t = out@;
        let mut at: usize = 0;
        assert(t.skip(0) =~= t);
        while at < out.len()
            invariant_except_break
                at <= out.len(),
                t == out@,
                start_insert_at(t, x) == at + start_insert_at(t.skip(at as int), x),
            ensures
                at <= out.len(),
                start_insert_at(t, x) == at,
            decreases out.len() - at,
        {
            assert(t.skip(at as int)[0] == out@[at as int]);
            if out[at].start_ms > x.start_ms {
                break ;
            }
            assert(t.skip(at as int).drop_first() =~= t.skip(at + 1));
            at += 1;
        }
        proof {
            if at == out.len() {
                assert(t.skip(at as int).len() == 0);
            }
        }
        out.insert(at, x);
        n += 1;
    }
    assert(ks.take(n as int) =~= ks);
    out
}

proof fn lemma_start_insert_at(t: Seq<MediaMarker>, x: MediaMarker)
    ensures
        0 <= start_insert_at(t, x) <= t.len(),
        forall|k: int| 0 <= k < start_insert_at(t, x) ==> (#[trigger] t[k]).start_ms <= x.start_ms,
        start_insert_at(t, x) < t.len() ==> t[start_insert_at(t, x)].start_ms > x.start_ms,
    decreases t.len(),
{
    if t.len() > 0 && t[0].start_ms <= x.start_ms {
        let d = t.drop_first();
        lemma_start_insert_at(d, x);
        assert forall|k: int| 0 <= k < start_insert_at(t, x) implies (#[trigger] t[k]).start_ms
            <= x.start_ms by {
            if k > 0 {
                assert(t[k] == d[k - 1]);
            }
        }
    }
}

/// Ordered by start.
pub open spec fn sorted_by_start(t: Seq<MediaMarker>) -> bool {
    forall|i: int, j: int| 0 <= i < j < t.len() ==> (#[trigger] t[i]).start_ms <= (#[trigger] t[j]).start_ms
}

/// The stable sort by start is ordered and keeps exactly its input.
pub proof fn law_by_start_sorts(s: Seq<MediaMarker>)
    ensures
        sorted_by_start(by_start(s)),
        by_start(s).to_multiset() == s.to_multiset(),
    decreases s.len(),
{
    broadcast use vstd::seq_lib::to_multiset_build, vstd::seq_lib::to_multiset_insert;

    if s.len() > 0 {
        let d = s.drop_last();
        law_by_start_sorts(d);
        let t = by_start(d);
        let x = s.last();
        lemma_start_insert_at(t, x);
        let p = start_insert_at(t, x);
        let u = t.insert(p, x);
        assert(s =~= d.push(x));
        assert forall|i: int, j: int| 0 <= i < j < u.len() implies (#[trigger] u[i]).start_ms
            <= (#[trigger] u[j]).start_ms by {
            if j < p {
                assert(u[i] == t[i] && u[j] == t[j]);
            } else if j == p {
                assert(u[i] == t[i]);
            } else if i == p {
                assert(u[j] == t[j - 1]);
                if p < j - 1 {
                    assert(t[p].start_ms <= t[j - 1].start_ms);
                }
            } else if i < p {
                assert(u[i] == t[i] && u[j] == t[j - 1]);
            } else {
                assert(u[i] == t[i - 1] && u[j] == t[j - 1]);
            }
        }
    }
}

/// Every kept marker is plausible and no triple is kept twice.
pub proof fn law_kept_markers_plausible_and_distinct(s: Seq<MediaMarker>)
    ensures
        forall|i: int| 0 <= i < kept_markers(s).len() ==> plausible(#[trigger] kept_markers(s)[i]),
        kept_markers(s).no_duplicates(),
    decreases s.len(),
{
    if s.len() > 0 {
        law_kept_markers_plausible_and_distinct(s.drop_last());
        let k = kept_markers(s.drop_last());
        if plausible(s.last()) && !k.contains(s.last()) {
            let r = k.push(s.last());
            assert forall|i: int| 0 <= i < r.len() implies plausible(#[trigger] r[i]) by {
                if i < k.len() {
                    assert(r[i] == k[i]);
                }
            }
            assert forall|i: int, j: int| 0 <= i < r.len() && 0 <= j < r.len() && i != j implies r[i]
                != r[j] by {
                if i < k.len() && j < k.len() {
                    assert(r[i] == k[i] && r[j] == k[j]);
                } else if i < k.len() {
                    assert(r[i] == k[i]);
                    assert(k.contains(k[i]));
                } else if j < k.len() {
                    assert(r[j] == k[j]);
                    assert(k.contains(k[j]));
                }
            }
        }
    }
}

} // verus!
